//! What holds of the display coordinator over whole runs.

use vstd::prelude::*;
use crate::display::{
    actions_for, first_finished, has_room, in_flight, lemma_first_finished, next_state, run,
    DisplayState, IndicatorView,
};
use crate::event::UpdateView;

verus! {

/// Whether every new item in `updates` finds room when it arrives.
pub open spec fn paced(s: DisplayState, updates: Seq<UpdateView>) -> bool {
    forall|k: int|
        0 <= k < updates.len() && updates[k] is NewFile ==> has_room(
            #[trigger] run(s, updates.take(k)),
        )
}

/// Whether fewer than the cap's number of items are being copied whenever a
/// new item in `updates` arrives.
pub open spec fn throttled(s: DisplayState, updates: Seq<UpdateView>) -> bool {
    forall|k: int|
        0 <= k < updates.len() && updates[k] is NewFile ==> in_flight(
            (#[trigger] run(s, updates.take(k))).active,
        ) < s.cap
}

/// No update changes the settings of the display.
pub proof fn lemma_settings_kept(s: DisplayState, updates: Seq<UpdateView>)
    ensures
        run(s, updates).cap == s.cap,
        run(s, updates).total == s.total,
        run(s, updates).label_width == s.label_width,
        run(s, updates).aggregate == s.aggregate,
        run(s, updates).completed >= s.completed,
    decreases updates.len(),
{
    if updates.len() > 0 {
        lemma_settings_kept(s, updates.drop_last());
    }
}

/// An update leaves the display within its cap, unless it is a new item that
/// finds the display full and nothing finished.
pub proof fn lemma_step_within_cap(s: DisplayState, update: UpdateView)
    requires
        s.active.len() <= s.cap,
        update is NewFile ==> has_room(s),
    ensures
        next_state(s, update).active.len() <= s.cap,
        next_state(s, update).cap == s.cap,
{
    lemma_first_finished(s.active);
    crate::display::lemma_position_of(s.active, update.id());
}

/// The display never holds more indicators than its cap, as long as every
/// new item finds room: a free slot, or a finished indicator to evict.
pub proof fn lemma_never_over_cap(s: DisplayState, updates: Seq<UpdateView>, k: int)
    requires
        s.active.len() <= s.cap,
        paced(s, updates),
        0 <= k <= updates.len(),
    ensures
        run(s, updates.take(k)).active.len() <= s.cap,
    decreases k,
{
    let prefix = updates.take(k);
    if k > 0 {
        lemma_never_over_cap(s, updates, k - 1);
        assert(prefix.drop_last() =~= updates.take(k - 1));
        let before = run(s, updates.take(k - 1));
        lemma_settings_kept(s, updates.take(k - 1));
        lemma_step_within_cap(before, updates[k - 1]);
    }
}

/// Where every indicator is unfinished, none can be evicted; so a display
/// with fewer unfinished indicators than it holds has one to evict.
pub proof fn lemma_all_in_flight(active: Seq<IndicatorView>)
    ensures
        in_flight(active) <= active.len(),
        first_finished(active) == active.len() ==> in_flight(active) == active.len(),
    decreases active.len(),
{
    lemma_first_finished(active);
    if active.len() > 0 {
        let front = active.drop_last();
        lemma_all_in_flight(front);
        if first_finished(active) == active.len() {
            crate::display::lemma_first_finished_is(front, front.len() as int);
        }
    }
}

/// The display never holds more indicators than its cap, as long as fewer
/// items than the cap are being copied whenever a new one starts.
pub proof fn lemma_throttled_never_over_cap(
    s: DisplayState,
    updates: Seq<UpdateView>,
    k: int,
)
    requires
        s.active.len() <= s.cap,
        throttled(s, updates),
        0 <= k <= updates.len(),
    ensures
        run(s, updates.take(k)).active.len() <= s.cap,
    decreases k,
{
    let prefix = updates.take(k);
    if k > 0 {
        lemma_throttled_never_over_cap(s, updates, k - 1);
        assert(prefix.drop_last() =~= updates.take(k - 1));
        let before = run(s, updates.take(k - 1));
        lemma_settings_kept(s, updates.take(k - 1));
        lemma_all_in_flight(before.active);
        lemma_first_finished(before.active);
        lemma_step_within_cap(before, updates[k - 1]);
    }
}

/// Only a new item evicts, and only an indicator that is finished; no other
/// indicator leaves the display.
pub proof fn lemma_evicts_only_finished(s: DisplayState, update: UpdateView, k: int)
    requires
        s.active.len() <= usize::MAX,
        0 <= k < actions_for(s, update).len(),
        actions_for(s, update)[k] is Evict,
    ensures
        update is NewFile,
        k == 0,
        actions_for(s, update)[k]->Evict_index == first_finished(s.active),
        first_finished(s.active) < s.active.len(),
        s.active[first_finished(s.active)].finished,
        next_state(s, update).active.len() == s.active.len(),
{
    lemma_first_finished(s.active);
}

/// Without an eviction no indicator leaves the display.
pub proof fn lemma_kept_without_eviction(s: DisplayState, update: UpdateView)
    requires
        forall|k: int| 0 <= k < actions_for(s, update).len() ==> !(actions_for(s, update)[k] is Evict),
    ensures
        next_state(s, update).active.len() >= s.active.len(),
        forall|j: int|
            0 <= j < s.active.len() ==> (#[trigger] next_state(s, update).active[j]).id
                == s.active[j].id,
{
    crate::display::lemma_position_of(s.active, update.id());
    if update is NewFile {
        if s.active.len() >= s.cap && first_finished(s.active) < s.active.len() {
            assert(actions_for(s, update)[0] is Evict);
        }
    }
}

} // verus!
