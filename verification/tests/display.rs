use progress_copy::display::{
    progress_manager, shows_aggregate, ActiveProgress, DisplayAction, ProgressManager,
};
use progress_copy::event::ProgressUpdate;

fn new_file(path: &str, size: u64, id: usize) -> ProgressUpdate {
    ProgressUpdate::NewFile { path: path.to_string(), size, id }
}

fn progress(id: usize, bytes_copied: u64) -> ProgressUpdate {
    ProgressUpdate::Progress { id, bytes_copied }
}

fn finished(id: usize) -> ProgressUpdate {
    ProgressUpdate::Finished { id }
}

fn bar(id: usize, path: &str, finished: bool) -> ActiveProgress {
    ActiveProgress { id, path: path.to_string(), finished }
}

fn show(label: &str, size: u64) -> DisplayAction {
    DisplayAction::Show { label: label.to_string(), size }
}

fn complete(index: usize, label: &str) -> DisplayAction {
    DisplayAction::Complete { index, label: label.to_string() }
}

#[test]
fn a_new_manager_shows_nothing() {
    let manager = ProgressManager::new(3, 10, 30, true);
    assert!(manager.active_bars().is_empty());
    assert_eq!(manager.completed_files(), 0);
    assert_eq!(manager.total_files(), 3);
    assert!(!manager.is_complete());
    assert!(ProgressManager::new(0, 10, 30, true).is_complete());
}

#[test]
fn a_new_item_is_shown_with_its_label() {
    let mut manager = ProgressManager::new(3, 10, 30, true);
    let actions = manager.handle(&new_file("a.txt", 7, 4));
    assert_eq!(actions, vec![show("a.txt", 7)]);
    assert_eq!(*manager.active_bars(), vec![bar(4, "a.txt", false)]);
}

#[test]
fn a_long_path_is_shown_shortened_and_kept_whole() {
    let mut manager = ProgressManager::new(1, 10, 12, true);
    let path = "/very/long/directory/file.txt";
    let actions = manager.handle(&new_file(path, 7, 0));
    assert_eq!(actions, vec![show("...file.txt", 7)]);
    assert_eq!(*manager.active_bars(), vec![bar(0, path, false)]);
    assert_eq!(manager.handle(&finished(0)), vec![complete(0, "...file.txt"), DisplayAction::AdvanceAggregate]);
}

#[test]
fn progress_moves_the_indicator_of_its_item() {
    let mut manager = ProgressManager::new(3, 10, 30, true);
    manager.handle(&new_file("a", 10, 1));
    manager.handle(&new_file("b", 20, 2));
    assert_eq!(manager.handle(&progress(2, 5)), vec![DisplayAction::SetPosition { index: 1, bytes: 5 }]);
    assert_eq!(manager.handle(&progress(1, 10)), vec![DisplayAction::SetPosition { index: 0, bytes: 10 }]);
}

#[test]
fn progress_for_an_unknown_item_is_dropped() {
    let mut manager = ProgressManager::new(3, 10, 30, true);
    manager.handle(&new_file("a", 10, 1));
    assert_eq!(manager.handle(&progress(9, 5)), Vec::new());
    assert_eq!(*manager.active_bars(), vec![bar(1, "a", false)]);
}

#[test]
fn progress_for_a_finished_item_is_dropped() {
    let mut manager = ProgressManager::new(3, 10, 30, true);
    manager.handle(&new_file("a", 10, 1));
    manager.handle(&finished(1));
    assert_eq!(manager.handle(&progress(1, 5)), Vec::new());
}

#[test]
fn the_end_of_an_item_marks_it_and_counts() {
    let mut manager = ProgressManager::new(2, 10, 30, true);
    manager.handle(&new_file("a", 10, 1));
    manager.handle(&new_file("b", 10, 2));
    let actions = manager.handle(&finished(2));
    assert_eq!(actions, vec![complete(1, "b"), DisplayAction::AdvanceAggregate]);
    assert_eq!(*manager.active_bars(), vec![bar(1, "a", false), bar(2, "b", true)]);
    assert_eq!(manager.completed_files(), 1);
    assert!(!manager.is_complete());
    manager.handle(&finished(1));
    assert_eq!(manager.completed_files(), 2);
    assert!(manager.is_complete());
}

#[test]
fn the_end_of_an_unknown_item_changes_nothing() {
    let mut manager = ProgressManager::new(2, 10, 30, true);
    manager.handle(&new_file("a", 10, 1));
    assert_eq!(manager.handle(&finished(5)), Vec::new());
    assert_eq!(manager.completed_files(), 0);
    assert_eq!(*manager.active_bars(), vec![bar(1, "a", false)]);
}

#[test]
fn a_full_display_evicts_the_first_finished_indicator() {
    let mut manager = ProgressManager::new(9, 3, 30, true);
    manager.handle(&new_file("a", 1, 0));
    manager.handle(&new_file("b", 1, 1));
    manager.handle(&new_file("c", 1, 2));
    manager.handle(&finished(2));
    manager.handle(&finished(1));
    let actions = manager.handle(&new_file("d", 4, 3));
    assert_eq!(actions, vec![DisplayAction::Evict { index: 1 }, show("d", 4)]);
    assert_eq!(
        *manager.active_bars(),
        vec![bar(0, "a", false), bar(2, "c", true), bar(3, "d", false)]
    );
}

#[test]
fn nothing_is_evicted_below_the_cap() {
    let mut manager = ProgressManager::new(9, 3, 30, true);
    manager.handle(&new_file("a", 1, 0));
    manager.handle(&finished(0));
    let actions = manager.handle(&new_file("b", 1, 1));
    assert_eq!(actions, vec![show("b", 1)]);
    assert_eq!(manager.active_bars().len(), 2);
}

#[test]
fn a_full_display_with_nothing_finished_grows_past_its_cap() {
    let mut manager = ProgressManager::new(9, 1, 30, true);
    manager.handle(&new_file("a", 1, 0));
    let actions = manager.handle(&new_file("b", 1, 1));
    assert_eq!(actions, vec![show("b", 1)]);
    assert_eq!(*manager.active_bars(), vec![bar(0, "a", false), bar(1, "b", false)]);
}

#[test]
fn a_cap_of_nothing_still_shows_every_item() {
    let mut manager = ProgressManager::new(2, 0, 30, true);
    assert_eq!(manager.handle(&new_file("a", 1, 0)), vec![show("a", 1)]);
    manager.handle(&finished(0));
    let actions = manager.handle(&new_file("b", 1, 1));
    assert_eq!(actions, vec![DisplayAction::Evict { index: 0 }, show("b", 1)]);
    assert_eq!(*manager.active_bars(), vec![bar(1, "b", false)]);
}

#[test]
fn the_display_stays_within_its_cap_while_items_end_before_others_start() {
    let cap = 4;
    let mut manager = ProgressManager::new(100, cap, 30, true);
    let mut open: Vec<usize> = Vec::new();
    for id in 0..100 {
        if open.len() == cap {
            let done = open.remove(id % cap);
            manager.handle(&finished(done));
        }
        manager.handle(&new_file("item", 1, id));
        open.push(id);
        assert!(manager.active_bars().len() <= cap);
        let unfinished = manager.active_bars().iter().filter(|b| !b.finished).count();
        assert_eq!(unfinished, open.len());
    }
}

#[test]
fn closing_marks_what_is_not_finished_yet() {
    let mut manager = ProgressManager::new(3, 10, 30, true);
    manager.handle(&new_file("a", 1, 0));
    manager.handle(&new_file("b", 1, 1));
    manager.handle(&new_file("c", 1, 2));
    manager.handle(&finished(1));
    let actions = manager.finish();
    assert_eq!(
        actions,
        vec![DisplayAction::CompleteAggregate, complete(0, "a"), complete(2, "c")]
    );
}

#[test]
fn closing_an_empty_display_completes_the_aggregate() {
    let manager = ProgressManager::new(0, 10, 30, true);
    assert_eq!(manager.finish(), vec![DisplayAction::CompleteAggregate]);
}

#[test]
fn a_whole_run_is_replayed_in_order() {
    let updates = vec![
        new_file("a", 3, 0),
        new_file("b", 1, 1),
        progress(0, 3),
        finished(0),
        progress(1, 1),
        finished(1),
    ];
    let actions = progress_manager(&updates, 2, 10, 30, true);
    assert_eq!(
        actions,
        vec![
            show("a", 3),
            show("b", 1),
            DisplayAction::SetPosition { index: 0, bytes: 3 },
            complete(0, "a"),
            DisplayAction::AdvanceAggregate,
            DisplayAction::SetPosition { index: 1, bytes: 1 },
            complete(1, "b"),
            DisplayAction::AdvanceAggregate,
            DisplayAction::CompleteAggregate,
        ]
    );
}

#[test]
fn a_run_keeps_listening_after_every_item_it_counted_on_is_finished() {
    let updates = vec![new_file("a", 3, 0), finished(0), new_file("b", 1, 1), progress(1, 1)];
    let actions = progress_manager(&updates, 1, 10, 30, true);
    assert_eq!(
        actions,
        vec![
            show("a", 3),
            complete(0, "a"),
            DisplayAction::AdvanceAggregate,
            show("b", 1),
            DisplayAction::SetPosition { index: 1, bytes: 1 },
            DisplayAction::CompleteAggregate,
            complete(1, "b"),
        ]
    );
}

#[test]
fn a_complete_manager_still_handles_what_comes() {
    let mut manager = ProgressManager::new(1, 10, 30, true);
    manager.handle(&new_file("a", 3, 0));
    manager.handle(&finished(0));
    assert!(manager.is_complete());
    assert_eq!(manager.handle(&new_file("b", 1, 1)), vec![show("b", 1)]);
    assert_eq!(manager.handle(&finished(1)), vec![complete(1, "b"), DisplayAction::AdvanceAggregate]);
    assert_eq!(manager.completed_files(), 2);
    assert_eq!(manager.active_bars().len(), 2);
}

#[test]
fn a_run_whose_updates_end_early_is_closed_all_the_same() {
    let updates = vec![new_file("a", 3, 0), progress(0, 1)];
    let actions = progress_manager(&updates, 5, 10, 30, true);
    assert_eq!(
        actions,
        vec![
            show("a", 3),
            DisplayAction::SetPosition { index: 0, bytes: 1 },
            DisplayAction::CompleteAggregate,
            complete(0, "a"),
        ]
    );
}

#[test]
fn a_run_that_counted_on_no_items_still_shows_what_comes() {
    let actions = progress_manager(&vec![new_file("a", 3, 0)], 0, 10, 30, true);
    assert_eq!(actions, vec![show("a", 3), DisplayAction::CompleteAggregate, complete(0, "a")]);
    let none = progress_manager(&Vec::new(), 0, 10, 30, true);
    assert_eq!(none, vec![DisplayAction::CompleteAggregate]);
}

#[test]
fn a_screen_that_follows_the_actions_mirrors_the_display() {
    let updates = vec![
        new_file("a", 1, 0),
        new_file("b", 1, 1),
        finished(0),
        new_file("c", 1, 2),
        finished(2),
        new_file("d", 1, 3),
        progress(1, 1),
        finished(1),
        new_file("e", 1, 4),
    ];
    let mut manager = ProgressManager::new(50, 2, 30, true);
    let mut screen: Vec<(String, bool, u64)> = Vec::new();
    for update in &updates {
        for action in manager.handle(update) {
            match action {
                DisplayAction::Evict { index } => {
                    assert!(screen[index].1);
                    screen.remove(index);
                }
                DisplayAction::Show { label, .. } => screen.push((label, false, 0)),
                DisplayAction::SetPosition { index, bytes } => screen[index].2 = bytes,
                DisplayAction::Complete { index, .. } => screen[index].1 = true,
                DisplayAction::AdvanceAggregate | DisplayAction::CompleteAggregate => {}
            }
        }
        let bars = manager.active_bars();
        assert_eq!(screen.len(), bars.len());
        assert!(screen.len() <= 2);
        for (shown, bar) in screen.iter().zip(bars.iter()) {
            assert_eq!(shown.0, bar.path);
            assert_eq!(shown.1, bar.finished);
        }
    }
}

#[test]
fn a_display_without_an_aggregate_counts_but_never_draws_it() {
    let mut manager = ProgressManager::new(1, 10, 30, false);
    assert!(!manager.has_aggregate());
    assert!(ProgressManager::new(1, 10, 30, true).has_aggregate());
    manager.handle(&new_file("only", 2, 0));
    assert_eq!(manager.handle(&finished(0)), vec![complete(0, "only")]);
    assert_eq!(manager.completed_files(), 1);
    assert!(manager.is_complete());
    assert_eq!(manager.finish(), Vec::new());
}

#[test]
fn a_run_without_an_aggregate_only_draws_its_items() {
    let updates = vec![new_file("only", 2, 0), progress(0, 2)];
    let actions = progress_manager(&updates, 1, 10, 30, false);
    assert_eq!(
        actions,
        vec![show("only", 2), DisplayAction::SetPosition { index: 0, bytes: 2 }, complete(0, "only")]
    );
}

#[test]
fn an_item_that_never_reports_leaves_the_others_to_finish() {
    let updates = vec![
        new_file("a", 1, 0),
        new_file("c", 1, 2),
        progress(0, 1),
        finished(0),
        progress(2, 1),
        finished(2),
    ];
    let mut manager = ProgressManager::new(3, 10, 30, true);
    let mut advanced = 0;
    for update in &updates {
        for action in manager.handle(update) {
            if action == DisplayAction::AdvanceAggregate {
                advanced += 1;
            }
        }
    }
    assert_eq!(advanced, 2);
    assert_eq!(manager.completed_files(), 2);
    assert!(!manager.is_complete());
    assert!(manager.active_bars().iter().all(|bar| bar.finished));
    assert_eq!(manager.finish(), vec![DisplayAction::CompleteAggregate]);
}

#[test]
fn only_a_single_source_that_is_no_directory_goes_without_an_aggregate() {
    assert!(!shows_aggregate(1, false));
    assert!(shows_aggregate(1, true));
    assert!(shows_aggregate(2, false));
    assert!(shows_aggregate(5, true));
    assert!(!shows_aggregate(0, false));
}

#[test]
fn the_aggregate_advances_once_for_every_end() {
    let mut updates = Vec::new();
    for id in 0..7 {
        updates.push(new_file("item", 2, id));
        updates.push(progress(id, 2));
        if id % 2 == 0 {
            updates.push(finished(id));
        }
    }
    let actions = progress_manager(&updates, 7, 3, 30, true);
    let advanced = actions.iter().filter(|a| **a == DisplayAction::AdvanceAggregate).count();
    assert_eq!(advanced, 4);
    let completed = actions.iter().filter(|a| **a == DisplayAction::CompleteAggregate).count();
    assert_eq!(completed, 1);
    let quiet = progress_manager(&updates, 7, 3, 30, false);
    assert!(quiet.iter().all(|a| *a != DisplayAction::AdvanceAggregate
        && *a != DisplayAction::CompleteAggregate));
}
