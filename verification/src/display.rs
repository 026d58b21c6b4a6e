//! The display coordinator: the single owner of the visible progress
//! indicators.
//!
//! The coordinator decides; it draws nothing. Each update that it handles
//! yields the list of drawing actions that bring a screen in line with its
//! state. Actions name indicators by their position in the list of active
//! indicators at the moment the action is carried out, so a screen that keeps
//! its handles in a vector of its own, removing and appending as told, stays
//! in step with the coordinator.

use vstd::prelude::*;
use crate::event::{update_views, ProgressUpdate, UpdateView};
use crate::label::{shorten_path_safe, shortened};

verus! {

/// One indicator on screen.
#[derive(Debug, Clone, PartialEq, Eq)]
pub struct ActiveProgress {
    pub id: usize,
    pub path: String,
    pub finished: bool,
}

/// An `ActiveProgress` with its path as a sequence of characters.
pub struct IndicatorView {
    pub id: usize,
    pub path: Seq<char>,
    pub finished: bool,
}

impl View for ActiveProgress {
    type V = IndicatorView;

    open spec fn view(&self) -> IndicatorView {
        IndicatorView { id: self.id, path: self.path@, finished: self.finished }
    }
}

/// One thing for the screen to do.
#[derive(Debug, Clone, PartialEq, Eq)]
pub enum DisplayAction {
    /// Release the indicator at `index`; those behind it move up by one.
    Evict { index: usize },
    /// Add an indicator behind the last one, `size` long, labelled `label`.
    Show { label: String, size: u64 },
    /// Move the indicator at `index` to `bytes`.
    SetPosition { index: usize, bytes: u64 },
    /// Draw the indicator at `index` as finished, labelled `label`.
    Complete { index: usize, label: String },
    /// Advance the aggregate indicator by one item.
    AdvanceAggregate,
    /// Draw the aggregate indicator as finished.
    CompleteAggregate,
}

/// A `DisplayAction` with its label as a sequence of characters.
pub enum ActionView {
    Evict { index: usize },
    Show { label: Seq<char>, size: u64 },
    SetPosition { index: usize, bytes: u64 },
    Complete { index: usize, label: Seq<char> },
    AdvanceAggregate,
    CompleteAggregate,
}

impl View for DisplayAction {
    type V = ActionView;

    open spec fn view(&self) -> ActionView {
        match *self {
            DisplayAction::Evict { index } => ActionView::Evict { index },
            DisplayAction::Show { label, size } => ActionView::Show { label: label@, size },
            DisplayAction::SetPosition { index, bytes } => ActionView::SetPosition {
                index,
                bytes,
            },
            DisplayAction::Complete { index, label } => ActionView::Complete {
                index,
                label: label@,
            },
            DisplayAction::AdvanceAggregate => ActionView::AdvanceAggregate,
            DisplayAction::CompleteAggregate => ActionView::CompleteAggregate,
        }
    }
}

/// The views of a sequence of actions, in the same order.
pub open spec fn action_views(actions: Seq<DisplayAction>) -> Seq<ActionView> {
    actions.map_values(|a: DisplayAction| a@)
}

/// The views of a sequence of indicators, in the same order.
pub open spec fn indicator_views(active: Seq<ActiveProgress>) -> Seq<IndicatorView> {
    active.map_values(|a: ActiveProgress| a@)
}

/// What the coordinator knows: the active indicators in the order in which
/// they were shown, the aggregate count, and its settings. A run of a
/// single file has no aggregate indicator on screen; its count is kept all
/// the same.
pub struct DisplayState {
    pub active: Seq<IndicatorView>,
    pub completed: nat,
    pub total: nat,
    pub cap: nat,
    pub label_width: nat,
    pub aggregate: bool,
}

/// The action on the aggregate indicator, where the display has one.
pub open spec fn on_aggregate(s: DisplayState, action: ActionView) -> Seq<ActionView> {
    if s.aggregate {
        seq![action]
    } else {
        Seq::empty()
    }
}

/// The position of the first finished indicator, or the length of `active`
/// where none is finished.
pub open spec fn first_finished(active: Seq<IndicatorView>) -> int
    decreases active.len(),
{
    if active.len() == 0 {
        0
    } else if active[0].finished {
        0
    } else {
        1 + first_finished(active.drop_first())
    }
}

/// The position of the first indicator that tracks `id`, or the length of
/// `active` where none does.
pub open spec fn position_of(active: Seq<IndicatorView>, id: usize) -> int
    decreases active.len(),
{
    if active.len() == 0 {
        0
    } else if active[0].id == id {
        0
    } else {
        1 + position_of(active.drop_first(), id)
    }
}

/// The number of indicators that are not finished.
pub open spec fn in_flight(active: Seq<IndicatorView>) -> nat
    decreases active.len(),
{
    if active.len() == 0 {
        0
    } else {
        let rest = in_flight(active.drop_last());
        if active.last().finished {
            rest
        } else {
            rest + 1
        }
    }
}

/// Whether a new indicator can be shown without exceeding the cap: a slot is
/// free, or a finished indicator can give its slot up.
pub open spec fn has_room(s: DisplayState) -> bool {
    s.active.len() < s.cap || first_finished(s.active) < s.active.len()
}

/// The completion marks for the unfinished indicators among the first `upto`.
pub open spec fn pending_marks(active: Seq<IndicatorView>, width: nat, upto: int) -> Seq<
    ActionView,
>
    decreases upto,
{
    if upto <= 0 {
        Seq::empty()
    } else {
        let before = pending_marks(active, width, upto - 1);
        let last = active[upto - 1];
        if last.finished {
            before
        } else {
            before.push(
                ActionView::Complete {
                    index: (upto - 1) as usize,
                    label: shortened(last.path, width as int),
                },
            )
        }
    }
}

/// The state after `update`.
pub open spec fn next_state(s: DisplayState, update: UpdateView) -> DisplayState {
    match update {
        UpdateView::NewFile { path, size, id } => {
            let slot = first_finished(s.active);
            let kept = if s.active.len() >= s.cap && slot < s.active.len() {
                s.active.remove(slot)
            } else {
                s.active
            };
            DisplayState {
                active: kept.push(IndicatorView { id, path, finished: false }),
                ..s
            }
        },
        UpdateView::Progress { id, bytes_copied } => s,
        UpdateView::Finished { id } => {
            let at = position_of(s.active, id);
            if at < s.active.len() {
                DisplayState {
                    active: s.active.update(
                        at,
                        IndicatorView { finished: true, ..s.active[at] },
                    ),
                    completed: s.completed + 1,
                    ..s
                }
            } else {
                s
            }
        },
    }
}

/// What the screen is told to do for `update`.
pub open spec fn actions_for(s: DisplayState, update: UpdateView) -> Seq<ActionView> {
    match update {
        UpdateView::NewFile { path, size, id } => {
            let slot = first_finished(s.active);
            let show = ActionView::Show { label: shortened(path, s.label_width as int), size };
            if s.active.len() >= s.cap && slot < s.active.len() {
                seq![ActionView::Evict { index: slot as usize }, show]
            } else {
                seq![show]
            }
        },
        UpdateView::Progress { id, bytes_copied } => {
            let at = position_of(s.active, id);
            if at < s.active.len() && !s.active[at].finished {
                seq![ActionView::SetPosition { index: at as usize, bytes: bytes_copied }]
            } else {
                Seq::empty()
            }
        },
        UpdateView::Finished { id } => {
            let at = position_of(s.active, id);
            if at < s.active.len() {
                seq![
                    ActionView::Complete {
                        index: at as usize,
                        label: shortened(s.active[at].path, s.label_width as int),
                    },
                ] + on_aggregate(s, ActionView::AdvanceAggregate)
            } else {
                Seq::empty()
            }
        },
    }
}

/// What the screen is told to do when no more updates will come.
pub open spec fn closing_actions(s: DisplayState) -> Seq<ActionView> {
    on_aggregate(s, ActionView::CompleteAggregate) + pending_marks(
        s.active,
        s.label_width,
        s.active.len() as int,
    )
}

/// `first_finished` is the least position of a finished indicator.
pub proof fn lemma_first_finished(active: Seq<IndicatorView>)
    ensures
        0 <= first_finished(active) <= active.len(),
        first_finished(active) < active.len() ==> active[first_finished(active)].finished,
        forall|j: int| 0 <= j < first_finished(active) ==> !active[j].finished,
    decreases active.len(),
{
    if active.len() > 0 && !active[0].finished {
        let rest = active.drop_first();
        lemma_first_finished(rest);
        assert forall|j: int| 0 <= j < first_finished(active) implies !active[j].finished by {
            if j > 0 {
                assert(rest[j - 1] == active[j]);
            }
        }
    }
}

/// A position that holds a finished indicator, with none before it, or the
/// length where none is finished, is what `first_finished` gives.
pub proof fn lemma_first_finished_is(active: Seq<IndicatorView>, i: int)
    requires
        0 <= i <= active.len(),
        i < active.len() ==> active[i].finished,
        forall|j: int| 0 <= j < i ==> !active[j].finished,
    ensures
        first_finished(active) == i,
    decreases active.len(),
{
    if active.len() > 0 && i > 0 {
        let rest = active.drop_first();
        assert forall|j: int| 0 <= j < i - 1 implies !rest[j].finished by {
            assert(rest[j] == active[j + 1]);
        }
        lemma_first_finished_is(rest, i - 1);
    }
}

/// `position_of` is the least position of an indicator that tracks `id`.
pub proof fn lemma_position_of(active: Seq<IndicatorView>, id: usize)
    ensures
        0 <= position_of(active, id) <= active.len(),
        position_of(active, id) < active.len() ==> active[position_of(active, id)].id == id,
        forall|j: int| 0 <= j < position_of(active, id) ==> active[j].id != id,
    decreases active.len(),
{
    if active.len() > 0 && active[0].id != id {
        let rest = active.drop_first();
        lemma_position_of(rest, id);
        assert forall|j: int| 0 <= j < position_of(active, id) implies active[j].id != id by {
            if j > 0 {
                assert(rest[j - 1] == active[j]);
            }
        }
    }
}

/// A position that tracks `id`, with none before it that does, or the length
/// where none does, is what `position_of` gives.
pub proof fn lemma_position_of_is(active: Seq<IndicatorView>, id: usize, i: int)
    requires
        0 <= i <= active.len(),
        i < active.len() ==> active[i].id == id,
        forall|j: int| 0 <= j < i ==> active[j].id != id,
    ensures
        position_of(active, id) == i,
    decreases active.len(),
{
    if active.len() > 0 && i > 0 {
        let rest = active.drop_first();
        assert forall|j: int| 0 <= j < i - 1 implies rest[j].id != id by {
            assert(rest[j] == active[j + 1]);
        }
        lemma_position_of_is(rest, id, i - 1);
    }
}

/// The display coordinator.
pub struct ProgressManager {
    active: Vec<ActiveProgress>,
    completed: usize,
    total: usize,
    cap: usize,
    label_width: usize,
    aggregate: bool,
}

impl View for ProgressManager {
    type V = DisplayState;

    closed spec fn view(&self) -> DisplayState {
        DisplayState {
            active: indicator_views(self.active@),
            completed: self.completed as nat,
            total: self.total as nat,
            cap: self.cap as nat,
            label_width: self.label_width as nat,
            aggregate: self.aggregate,
        }
    }
}

impl ProgressManager {
    /// A coordinator for a run of `total_files` items that shows at most
    /// `display_cap` indicators while finished ones can make room, with
    /// labels of at most `label_width` characters, and with an aggregate
    /// indicator or without one.
    pub fn new(
        total_files: usize,
        display_cap: usize,
        label_width: usize,
        aggregate: bool,
    ) -> (manager: Self)
        ensures
            manager@ == initial_state(
                total_files as nat,
                display_cap as nat,
                label_width as nat,
                aggregate,
            ),
    {
        let manager = ProgressManager {
            active: Vec::new(),
            completed: 0,
            total: total_files,
            cap: display_cap,
            label_width,
            aggregate,
        };
        assert(manager@.active =~= Seq::empty());
        manager
    }

    /// The position of the first finished indicator, if there is one.
    fn find_finished(&self) -> (slot: usize)
        ensures
            slot == first_finished(self@.active),
            slot <= self.active.len(),
    {
        let mut i: usize = 0;
        while i < self.active.len()
            invariant
                i <= self.active.len(),
                forall|j: int| 0 <= j < i ==> !self@.active[j].finished,
            decreases self.active.len() - i,
        {
            if self.active[i].finished {
                proof {
                    lemma_first_finished_is(self@.active, i as int);
                }
                return i;
            }
            i = i + 1;
        }
        proof {
            lemma_first_finished_is(self@.active, i as int);
        }
        i
    }

    /// The position of the first indicator that tracks `id`, if there is one.
    fn find(&self, id: usize) -> (at: usize)
        ensures
            at == position_of(self@.active, id),
            at <= self.active.len(),
    {
        let mut i: usize = 0;
        while i < self.active.len()
            invariant
                i <= self.active.len(),
                forall|j: int| 0 <= j < i ==> self@.active[j].id != id,
            decreases self.active.len() - i,
        {
            if self.active[i].id == id {
                proof {
                    lemma_position_of_is(self@.active, id, i as int);
                }
                return i;
            }
            i = i + 1;
        }
        proof {
            lemma_position_of_is(self@.active, id, i as int);
        }
        i
    }

    /// Takes one update in and says what the screen is to do about it.
    ///
    /// A new item is always shown. Where the display is full, the first
    /// finished indicator gives its slot up; where none is finished, the
    /// display grows past its cap. Progress for an identifier that is not
    /// shown, or whose indicator is finished, is dropped. The end of an
    /// item marks its indicator, which stays, and counts towards the
    /// aggregate.
    pub fn handle(&mut self, update: &ProgressUpdate) -> (actions: Vec<DisplayAction>)
        requires
            update is Finished ==> old(self)@.completed < usize::MAX,
        ensures
            final(self)@ == next_state(old(self)@, update@),
            action_views(actions@) == actions_for(old(self)@, update@),
    {
        let mut actions: Vec<DisplayAction> = Vec::new();
        match update {
            ProgressUpdate::NewFile { path, size, id } => {
                let (size, id) = (*size, *id);
                if self.active.len() >= self.cap {
                    let slot = self.find_finished();
                    if slot < self.active.len() {
                        self.active.remove(slot);
                        actions.push(DisplayAction::Evict { index: slot });
                    }
                }
                let label = shorten_path_safe(path.as_str(), self.label_width);
                actions.push(DisplayAction::Show { label, size });
                self.active.push(ActiveProgress { id, path: path.clone(), finished: false });
            },
            ProgressUpdate::Progress { id, bytes_copied } => {
                let at = self.find(*id);
                if at < self.active.len() && !self.active[at].finished {
                    actions.push(DisplayAction::SetPosition { index: at, bytes: *bytes_copied });
                }
            },
            ProgressUpdate::Finished { id } => {
                let at = self.find(*id);
                if at < self.active.len() {
                    let label = shorten_path_safe(self.active[at].path.as_str(), self.label_width);
                    self.active[at].finished = true;
                    self.completed = self.completed + 1;
                    actions.push(DisplayAction::Complete { index: at, label });
                    if self.aggregate {
                        actions.push(DisplayAction::AdvanceAggregate);
                    }
                }
            },
        }
        assert(self@.active =~= next_state(old(self)@, update@).active);
        assert(action_views(actions@) =~= actions_for(old(self)@, update@));
        actions
    }

    /// Says what the screen is to do once no more updates will come: the
    /// aggregate indicator, where there is one, is drawn as finished, and so
    /// is every indicator that is not finished yet, in the order in which
    /// they were shown.
    pub fn finish(self) -> (actions: Vec<DisplayAction>)
        ensures
            action_views(actions@) == closing_actions(self@),
    {
        let mut actions: Vec<DisplayAction> = Vec::new();
        if self.aggregate {
            actions.push(DisplayAction::CompleteAggregate);
        }
        let ghost head = on_aggregate(self@, ActionView::CompleteAggregate);
        assert(action_views(actions@) =~= head + Seq::<ActionView>::empty());
        let mut i: usize = 0;
        while i < self.active.len()
            invariant
                i <= self.active.len(),
                action_views(actions@) == head + pending_marks(
                    self@.active,
                    self@.label_width,
                    i as int,
                ),
            decreases self.active.len() - i,
        {
            let ghost before = action_views(actions@);
            if !self.active[i].finished {
                let label = shorten_path_safe(self.active[i].path.as_str(), self.label_width);
                actions.push(DisplayAction::Complete { index: i, label });
                assert(action_views(actions@) =~= before.push(
                    ActionView::Complete {
                        index: i,
                        label: shortened(self@.active[i as int].path, self@.label_width as int),
                    },
                ));
            }
            i = i + 1;
            assert(action_views(actions@) =~= head + pending_marks(
                self@.active,
                self@.label_width,
                i as int,
            ));
        }
        actions
    }

    /// Whether as many items have finished as the run holds. Updates that
    /// come after that are handled like any other.
    pub fn is_complete(&self) -> (done: bool)
        ensures
            done == (self@.completed >= self@.total),
    {
        self.completed >= self.total
    }

    /// The number of items that have finished.
    pub fn completed_files(&self) -> (n: usize)
        ensures
            n == self@.completed,
    {
        self.completed
    }

    /// Whether the display has an aggregate indicator.
    pub fn has_aggregate(&self) -> (shown: bool)
        ensures
            shown == self@.aggregate,
    {
        self.aggregate
    }

    /// The number of items in the run.
    pub fn total_files(&self) -> (n: usize)
        ensures
            n == self@.total,
    {
        self.total
    }

    /// The active indicators, in the order in which they were shown.
    pub fn active_bars(&self) -> (bars: &Vec<ActiveProgress>)
        ensures
            indicator_views(bars@) == self@.active,
    {
        &self.active
    }
}

/// Whether a run has an aggregate indicator: every run has one but the
/// run of a single source that is no directory.
pub open spec fn in_directory_mode(sources: nat, any_directory: bool) -> bool {
    sources > 1 || any_directory
}

/// Decides whether a run of `sources` sources, of which one is a directory
/// or none, has an aggregate indicator.
pub fn shows_aggregate(sources: usize, any_directory: bool) -> (shown: bool)
    ensures
        shown == in_directory_mode(sources as nat, any_directory),
{
    sources > 1 || any_directory
}

/// The state of a coordinator that has handled nothing yet.
pub open spec fn initial_state(total: nat, cap: nat, label_width: nat, aggregate: bool) -> DisplayState {
    DisplayState { active: Seq::empty(), completed: 0, total, cap, label_width, aggregate }
}

/// The state that `updates`, handled in order, lead to from `s`.
pub open spec fn run(s: DisplayState, updates: Seq<UpdateView>) -> DisplayState
    decreases updates.len(),
{
    if updates.len() == 0 {
        s
    } else {
        next_state(run(s, updates.drop_last()), updates.last())
    }
}

/// What the screen is told to do while `updates` come in, from state `s`
/// on: the actions for each update in turn.
pub open spec fn told(s: DisplayState, updates: Seq<UpdateView>) -> Seq<ActionView>
    decreases updates.len(),
{
    if updates.len() == 0 {
        Seq::empty()
    } else {
        told(s, updates.drop_last()) + actions_for(run(s, updates.drop_last()), updates.last())
    }
}

/// Everything the screen is told to do from state `s` on: the actions for
/// each of the updates, from the first to the last, and then the closing
/// actions.
pub open spec fn transcript(s: DisplayState, updates: Seq<UpdateView>) -> Seq<ActionView> {
    told(s, updates) + closing_actions(run(s, updates))
}

/// Runs a coordinator over a whole stream of updates, from the first to the
/// last however many items have finished by then, and returns all that the
/// screen is to do, in order.
pub fn progress_manager(
    updates: &Vec<ProgressUpdate>,
    total_files: usize,
    display_cap: usize,
    label_width: usize,
    aggregate: bool,
) -> (actions: Vec<DisplayAction>)
    ensures
        action_views(actions@) == transcript(
            initial_state(total_files as nat, display_cap as nat, label_width as nat, aggregate),
            update_views(updates@),
        ),
{
    let mut manager = ProgressManager::new(total_files, display_cap, label_width, aggregate);
    let mut actions: Vec<DisplayAction> = Vec::new();
    let ghost all = update_views(updates@);
    let ghost start = manager@;
    let mut i: usize = 0;
    assert(action_views(actions@) =~= Seq::empty());
    while i < updates.len()
        invariant
            i <= updates.len(),
            all == update_views(updates@),
            manager@.completed <= i,
            manager@ == run(start, all.take(i as int)),
            action_views(actions@) == told(start, all.take(i as int)),
        decreases updates.len() - i,
    {
        let ghost done = action_views(actions@);
        let mut step = manager.handle(&updates[i]);
        let ghost now = action_views(step@);
        actions.append(&mut step);
        proof {
            let seen = all.take(i + 1);
            assert(seen.drop_last() =~= all.take(i as int));
            assert(seen.last() == updates@[i as int]@);
            assert(action_views(actions@) =~= done + now);
        }
        i = i + 1;
    }
    assert(all.take(i as int) =~= all);
    let ghost done = action_views(actions@);
    let mut closing = manager.finish();
    let ghost last = action_views(closing@);
    actions.append(&mut closing);
    assert(action_views(actions@) =~= done + last);
    actions
}

} // verus!
