//! What the order of the updates gives the display: as long as the workers
//! announce every item once and finish only what they announced, the
//! display shows exactly the items that are being copied as unfinished, so a
//! pool of no more workers than the cap never makes it grow past the cap.

use vstd::prelude::*;
use crate::display::{
    actions_for, closing_actions, first_finished, in_flight, initial_state, lemma_first_finished,
    lemma_position_of, next_state, pending_marks, position_of, run, told, transcript, ActionView,
    IndicatorView,
};
use crate::display_laws::{lemma_throttled_never_over_cap, throttled};
use crate::event::UpdateView;

verus! {

/// Whether `id` has been announced in `updates`.
pub open spec fn announced(updates: Seq<UpdateView>, id: usize) -> bool {
    exists|k: int| 0 <= k < updates.len() && updates[k] is NewFile && (#[trigger] updates[k]).id() == id
}

/// Whether the item `id` is being copied at the end of `updates`: it has
/// been announced and has not been finished since.
pub open spec fn is_open(updates: Seq<UpdateView>, id: usize) -> bool
    decreases updates.len(),
{
    if updates.len() == 0 {
        false
    } else {
        let before = is_open(updates.drop_last(), id);
        match updates.last() {
            UpdateView::NewFile { id: other, .. } => other == id || before,
            UpdateView::Finished { id: other } => other != id && before,
            UpdateView::Progress { .. } => before,
        }
    }
}

/// The number of items that are being copied at the end of `updates`.
pub open spec fn open_count(updates: Seq<UpdateView>) -> int
    decreases updates.len(),
{
    if updates.len() == 0 {
        0
    } else {
        let before = open_count(updates.drop_last());
        match updates.last() {
            UpdateView::NewFile { .. } => before + 1,
            UpdateView::Finished { .. } => before - 1,
            UpdateView::Progress { .. } => before,
        }
    }
}

/// Whether `updates` keeps to the order of the workers: no item is
/// announced twice, and an item is finished only while it is being copied.
pub open spec fn orderly(updates: Seq<UpdateView>) -> bool {
    forall|k: int|
        0 <= k < updates.len() ==> match #[trigger] updates[k] {
            UpdateView::NewFile { id, .. } => !announced(updates.take(k), id),
            UpdateView::Finished { id } => is_open(updates.take(k), id),
            UpdateView::Progress { .. } => true,
        }
}

/// Whether the indicators in `active` show what `updates` has told: each
/// tracks an announced item of its own, is unfinished exactly while its item
/// is being copied, and every item that is being copied has its indicator.
pub open spec fn in_step(active: Seq<IndicatorView>, updates: Seq<UpdateView>) -> bool {
    &&& forall|i: int, j: int|
        0 <= i < j < active.len() ==> (#[trigger] active[i]).id != (#[trigger] active[j]).id
    &&& forall|i: int| 0 <= i < active.len() ==> announced(updates, (#[trigger] active[i]).id)
    &&& forall|i: int|
        0 <= i < active.len() ==> ((#[trigger] active[i]).finished <==> !is_open(
            updates,
            active[i].id,
        ))
    &&& forall|id: usize| #[trigger] is_open(updates, id) ==> position_of(active, id) < active.len()
    &&& in_flight(active) == open_count(updates)
}

/// An item that is being copied has been announced.
pub proof fn lemma_open_is_announced(updates: Seq<UpdateView>, id: usize)
    requires
        is_open(updates, id),
    ensures
        announced(updates, id),
    decreases updates.len(),
{
    let front = updates.drop_last();
    let k = updates.len() - 1;
    if updates.last() is NewFile && updates.last().id() == id {
        assert(updates[k].id() == id);
    } else {
        lemma_open_is_announced(front, id);
        let w = choose|w: int| 0 <= w < front.len() && front[w] is NewFile && (#[trigger] front[w]).id() == id;
        assert(updates[w].id() == id);
    }
}

/// What has been announced stays announced.
pub proof fn lemma_announced_stays(updates: Seq<UpdateView>, id: usize)
    requires
        updates.len() > 0,
        announced(updates.drop_last(), id),
    ensures
        announced(updates, id),
{
    let front = updates.drop_last();
    let w = choose|w: int| 0 <= w < front.len() && front[w] is NewFile && (#[trigger] front[w]).id() == id;
    assert(updates[w].id() == id);
}

/// An indicator that tracks `id` is found by its identifier.
pub proof fn lemma_found(active: Seq<IndicatorView>, id: usize, w: int)
    requires
        0 <= w < active.len(),
        active[w].id == id,
    ensures
        position_of(active, id) < active.len(),
{
    lemma_position_of(active, id);
}

/// Taking an indicator away takes one from the unfinished ones if it was
/// unfinished, and none if it was finished.
pub proof fn lemma_in_flight_remove(active: Seq<IndicatorView>, at: int)
    requires
        0 <= at < active.len(),
    ensures
        in_flight(active.remove(at)) == in_flight(active) - if active[at].finished {
            0int
        } else {
            1int
        },
    decreases active.len(),
{
    let front = active.drop_last();
    if at == active.len() - 1 {
        assert(active.remove(at) =~= front);
    } else {
        lemma_in_flight_remove(front, at);
        assert(active.remove(at).drop_last() =~= front.remove(at));
        assert(active.remove(at).last() == active.last());
    }
}

/// Marking an unfinished indicator as finished takes one from the
/// unfinished ones.
pub proof fn lemma_in_flight_finish(active: Seq<IndicatorView>, at: int)
    requires
        0 <= at < active.len(),
        !active[at].finished,
    ensures
        in_flight(active.update(at, IndicatorView { finished: true, ..active[at] })) == in_flight(
            active,
        ) - 1,
    decreases active.len(),
{
    let front = active.drop_last();
    let marked = active.update(at, IndicatorView { finished: true, ..active[at] });
    if at == active.len() - 1 {
        assert(marked.drop_last() =~= front);
    } else {
        lemma_in_flight_finish(front, at);
        assert(marked.drop_last() =~= front.update(
            at,
            IndicatorView { finished: true, ..front[at] },
        ));
        assert(marked.last() == active.last());
    }
}

/// An orderly update keeps the display in step with the updates.
pub proof fn lemma_step_in_step(
    s: crate::display::DisplayState,
    updates: Seq<UpdateView>,
)
    requires
        updates.len() > 0,
        in_step(s.active, updates.drop_last()),
        match updates.last() {
            UpdateView::NewFile { id, .. } => !announced(updates.drop_last(), id),
            UpdateView::Finished { id } => is_open(updates.drop_last(), id),
            UpdateView::Progress { .. } => true,
        },
    ensures
        in_step(next_state(s, updates.last()).active, updates),
{
    let before = updates.drop_last();
    let update = updates.last();
    let active = s.active;
    let after = next_state(s, update).active;
    lemma_first_finished(active);
    assert forall|i: int| 0 <= i < active.len() implies announced(updates, (#[trigger] active[i]).id) by {
        lemma_announced_stays(updates, active[i].id);
    }
    match update {
        UpdateView::NewFile { path, size, id } => {
            let slot = first_finished(active);
            let evicts = active.len() >= s.cap && slot < active.len();
            let kept = if evicts {
                active.remove(slot)
            } else {
                active
            };
            let shown = IndicatorView { id, path, finished: false };
            assert(after == kept.push(shown));
            if evicts {
                lemma_in_flight_remove(active, slot);
            }
            assert(after.drop_last() =~= kept);
            assert(updates[updates.len() - 1].id() == id);
            assert(announced(updates, id));
            assert forall|i: int| 0 <= i < kept.len() implies (#[trigger] kept[i]).id != id
                && announced(before, kept[i].id) && (kept[i].finished <==> !is_open(
                before,
                kept[i].id,
            )) && exists|w: int| 0 <= w < active.len() && active[w] == kept[i] by {
                if evicts && i >= slot {
                    assert(kept[i] == active[i + 1]);
                } else {
                    assert(kept[i] == active[i]);
                }
            }
            assert forall|i: int, j: int| 0 <= i < j < after.len() implies (#[trigger] after[i]).id != (
            #[trigger] after[j]).id by {
                if j < kept.len() {
                    let a = if evicts && i >= slot { i + 1 } else { i };
                    let b = if evicts && j >= slot { j + 1 } else { j };
                    assert(after[i] == active[a]);
                    assert(after[j] == active[b]);
                } else {
                    assert(after[i] == kept[i]);
                }
            }
            assert forall|i: int| 0 <= i < after.len() implies announced(
                updates,
                (#[trigger] after[i]).id,
            ) by {
                if i < kept.len() {
                    assert(after[i] == kept[i]);
                    lemma_announced_stays(updates, kept[i].id);
                }
            }
            assert forall|i: int| 0 <= i < after.len() implies ((#[trigger] after[i]).finished
                <==> !is_open(updates, after[i].id)) by {
                if i < kept.len() {
                    assert(after[i] == kept[i]);
                }
            }
            assert forall|other: usize| #[trigger] is_open(updates, other) implies position_of(
                after,
                other,
            ) < after.len() by {
                if other == id {
                    lemma_found(after, other, after.len() - 1);
                } else {
                    assert(is_open(before, other));
                    lemma_position_of(active, other);
                    let w = position_of(active, other);
                    assert(!active[w].finished);
                    let v = if evicts && w > slot { w - 1 } else { w };
                    assert(kept[v] == active[w]);
                    assert(after[v] == kept[v]);
                    lemma_found(after, other, v);
                }
            }
        },
        UpdateView::Progress { id, bytes_copied } => {
            assert forall|other: usize| #[trigger] is_open(updates, other) implies position_of(
                after,
                other,
            ) < after.len() by {
                assert(is_open(before, other));
            }
        },
        UpdateView::Finished { id } => {
            lemma_position_of(active, id);
            let at = position_of(active, id);
            assert(at < active.len());
            assert(!active[at].finished);
            lemma_in_flight_finish(active, at);
            assert forall|i: int| 0 <= i < after.len() implies announced(
                updates,
                (#[trigger] after[i]).id,
            ) by {
                assert(after[i].id == active[i].id);
                lemma_announced_stays(updates, active[i].id);
            }
            assert forall|i: int, j: int| 0 <= i < j < after.len() implies (#[trigger] after[i]).id != (
            #[trigger] after[j]).id by {
                assert(after[i].id == active[i].id);
                assert(after[j].id == active[j].id);
            }
            assert forall|i: int| 0 <= i < after.len() implies ((#[trigger] after[i]).finished
                <==> !is_open(updates, after[i].id)) by {
                assert(after[i].id == active[i].id);
                if i != at {
                    assert(after[i] == active[i]);
                    if i < at {
                        assert(active[i].id != active[at].id);
                    } else {
                        assert(active[at].id != active[i].id);
                    }
                }
            }
            assert forall|other: usize| #[trigger] is_open(updates, other) implies position_of(
                after,
                other,
            ) < after.len() by {
                assert(is_open(before, other));
                lemma_position_of(active, other);
                let w = position_of(active, other);
                assert(after[w].id == other);
                lemma_found(after, other, w);
            }
        },
    }
}

/// A display that starts empty stays in step with orderly updates: it shows
/// as many unfinished indicators as items are being copied.
pub proof fn lemma_display_in_step(
    total: nat,
    cap: nat,
    label_width: nat,
    aggregate: bool,
    updates: Seq<UpdateView>,
)
    requires
        orderly(updates),
    ensures
        in_step(run(initial_state(total, cap, label_width, aggregate), updates).active, updates),
    decreases updates.len(),
{
    let start = initial_state(total, cap, label_width, aggregate);
    if updates.len() > 0 {
        let before = updates.drop_last();
        let k = updates.len() - 1;
        assert(updates.take(k) =~= before);
        assert forall|j: int| 0 <= j < before.len() implies match #[trigger] before[j] {
            UpdateView::NewFile { id, .. } => !announced(before.take(j), id),
            UpdateView::Finished { id } => is_open(before.take(j), id),
            UpdateView::Progress { .. } => true,
        } by {
            assert(before[j] == updates[j]);
            assert(before.take(j) =~= updates.take(j));
        }
        lemma_display_in_step(total, cap, label_width, aggregate, before);
        assert(updates[k] == updates.last());
        lemma_step_in_step(run(start, before), updates);
    } else {
        assert forall|id: usize| !is_open(updates, id) by {}
    }
}

/// A pool of workers that announces every item once, finishes only what it
/// announced, and copies fewer items than the cap whenever it starts another
/// never makes the display hold more indicators than its cap.
pub proof fn lemma_orderly_workers_stay_within_cap(
    total: nat,
    cap: nat,
    label_width: nat,
    aggregate: bool,
    updates: Seq<UpdateView>,
    k: int,
)
    requires
        orderly(updates),
        forall|j: int|
            0 <= j < updates.len() && (#[trigger] updates[j]) is NewFile ==> open_count(
                updates.take(j),
            ) < cap,
        0 <= k <= updates.len(),
    ensures
        run(initial_state(total, cap, label_width, aggregate), updates.take(k)).active.len()
            <= cap,
{
    let start = initial_state(total, cap, label_width, aggregate);
    assert forall|j: int| 0 <= j < updates.len() && updates[j] is NewFile implies in_flight(
        (#[trigger] run(start, updates.take(j))).active,
    ) < start.cap by {
        let prefix = updates.take(j);
        assert forall|i: int| 0 <= i < prefix.len() implies match #[trigger] prefix[i] {
            UpdateView::NewFile { id, .. } => !announced(prefix.take(i), id),
            UpdateView::Finished { id } => is_open(prefix.take(i), id),
            UpdateView::Progress { .. } => true,
        } by {
            assert(prefix[i] == updates[i]);
            assert(prefix.take(i) =~= updates.take(i));
        }
        lemma_display_in_step(total, cap, label_width, aggregate, prefix);
    }
    assert(throttled(start, updates));
    lemma_throttled_never_over_cap(start, updates, k);
}

/// The number of updates that report an item as finished.
pub open spec fn ends(updates: Seq<UpdateView>) -> int
    decreases updates.len(),
{
    if updates.len() == 0 {
        0
    } else {
        ends(updates.drop_last()) + if updates.last() is Finished {
            1int
        } else {
            0int
        }
    }
}

/// The number of times that `actions` advances the aggregate indicator.
pub open spec fn advances(actions: Seq<ActionView>) -> int
    decreases actions.len(),
{
    if actions.len() == 0 {
        0
    } else {
        advances(actions.drop_last()) + if actions.last() is AdvanceAggregate {
            1int
        } else {
            0int
        }
    }
}

/// The advances of one action and of two.
pub proof fn lemma_advances_few(first: ActionView, second: ActionView)
    ensures
        advances(Seq::<ActionView>::empty()) == 0,
        advances(seq![first]) == if first is AdvanceAggregate {
            1int
        } else {
            0int
        },
        advances(seq![first, second]) == advances(seq![first]) + if second is AdvanceAggregate {
            1int
        } else {
            0int
        },
{
    let none = Seq::<ActionView>::empty();
    let one = seq![first];
    let two = seq![first, second];
    assert(advances(none) == 0);
    assert(one.drop_last() =~= none);
    assert(one.last() == first);
    assert(advances(one) == advances(one.drop_last()) + if first is AdvanceAggregate {
        1int
    } else {
        0int
    });
    assert(two.drop_last() =~= one);
    assert(two.last() == second);
}

/// The advances of two lists of actions add up.
pub proof fn lemma_advances_add(first: Seq<ActionView>, second: Seq<ActionView>)
    ensures
        advances(first + second) == advances(first) + advances(second),
    decreases second.len(),
{
    if second.len() == 0 {
        assert(first + second =~= first);
    } else {
        lemma_advances_add(first, second.drop_last());
        assert((first + second).drop_last() =~= first + second.drop_last());
    }
}

/// Completion marks do not advance the aggregate indicator.
pub proof fn lemma_marks_do_not_advance(active: Seq<IndicatorView>, width: nat, upto: int)
    ensures
        advances(pending_marks(active, width, upto)) == 0,
    decreases upto,
{
    if upto > 0 {
        lemma_marks_do_not_advance(active, width, upto - 1);
        let before = pending_marks(active, width, upto - 1);
        let marks = pending_marks(active, width, upto);
        if !active[upto - 1].finished {
            assert(marks.drop_last() =~= before);
        }
    }
}

/// Over orderly updates every end of an item counts: the display has
/// counted as many finished items as ends have come, and, where it has an
/// aggregate indicator, has advanced it once for each of them and never
/// else, the closing actions included.
pub proof fn lemma_every_end_counts(
    total: nat,
    cap: nat,
    label_width: nat,
    aggregate: bool,
    updates: Seq<UpdateView>,
)
    requires
        orderly(updates),
    ensures
        run(initial_state(total, cap, label_width, aggregate), updates).completed == ends(updates),
        advances(told(initial_state(total, cap, label_width, aggregate), updates)) == if aggregate {
            ends(updates)
        } else {
            0
        },
        advances(transcript(initial_state(total, cap, label_width, aggregate), updates))
            == advances(told(initial_state(total, cap, label_width, aggregate), updates)),
    decreases updates.len(),
{
    let start = initial_state(total, cap, label_width, aggregate);
    let last_state = run(start, updates);
    let closing = closing_actions(last_state);
    crate::display_laws::lemma_settings_kept(start, updates);
    lemma_marks_do_not_advance(last_state.active, last_state.label_width, last_state.active.len() as int);
    assert(advances(closing) == 0) by {
        let marks = pending_marks(
            last_state.active,
            last_state.label_width,
            last_state.active.len() as int,
        );
        let head = crate::display::on_aggregate(last_state, ActionView::CompleteAggregate);
        lemma_advances_few(ActionView::CompleteAggregate, ActionView::CompleteAggregate);
        lemma_advances_add(head, marks);
    }
    lemma_advances_add(told(start, updates), closing);
    if updates.len() > 0 {
        let before = updates.drop_last();
        let k = updates.len() - 1;
        assert(updates.take(k) =~= before);
        assert forall|j: int| 0 <= j < before.len() implies match #[trigger] before[j] {
            UpdateView::NewFile { id, .. } => !announced(before.take(j), id),
            UpdateView::Finished { id } => is_open(before.take(j), id),
            UpdateView::Progress { .. } => true,
        } by {
            assert(before[j] == updates[j]);
            assert(before.take(j) =~= updates.take(j));
        }
        lemma_every_end_counts(total, cap, label_width, aggregate, before);
        lemma_display_in_step(total, cap, label_width, aggregate, before);
        crate::display_laws::lemma_settings_kept(start, before);
        let s = run(start, before);
        let update = updates.last();
        let now = actions_for(s, update);
        assert(updates[k] == update);
        lemma_position_of(s.active, update.id());
        lemma_advances_add(told(start, before), now);
        match update {
            UpdateView::NewFile { path, size, id } => {
                let show = now.last();
                lemma_advances_few(now.first(), show);
                assert(now == seq![show] || now == seq![now.first(), show]);
            },
            UpdateView::Progress { id, bytes_copied } => {
                if now.len() > 0 {
                    lemma_advances_few(now.first(), now.first());
                    assert(now == seq![now.first()]);
                }
            },
            UpdateView::Finished { id } => {
                assert(is_open(before, id));
                let mark = now.first();
                lemma_advances_few(mark, ActionView::AdvanceAggregate);
                assert(now == seq![mark] + crate::display::on_aggregate(
                    s,
                    ActionView::AdvanceAggregate,
                ));
                if aggregate {
                    assert(now =~= seq![mark, ActionView::AdvanceAggregate]);
                } else {
                    assert(now =~= seq![mark]);
                }
            },
        }
    }
}

} // verus!
