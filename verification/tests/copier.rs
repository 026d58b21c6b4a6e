use progress_copy::copier::{
    copy_file_with_progress, copy_item_with_progress, copy_symlink, CopyAction, FileCopy, IoEvent,
    Phase, BUFFER_SIZE, SYMLINK_SIZE,
};
use progress_copy::event::ProgressUpdate;
use progress_copy::item::{CopyItem, ItemKind};

fn announced(path: &str, size: u64, id: usize) -> ProgressUpdate {
    ProgressUpdate::NewFile { path: path.to_string(), size, id }
}

fn reported(id: usize, bytes_copied: u64) -> ProgressUpdate {
    ProgressUpdate::Progress { id, bytes_copied }
}

fn ended(id: usize) -> ProgressUpdate {
    ProgressUpdate::Finished { id }
}

fn file_item(source: &str) -> CopyItem {
    CopyItem { source: source.to_string(), dest: format!("out/{}", source), kind: ItemKind::File }
}

#[test]
fn the_buffer_holds_sixty_four_kibibytes() {
    assert_eq!(BUFFER_SIZE, 64 * 1024);
    assert_eq!(SYMLINK_SIZE, 1);
}

#[test]
fn a_copy_begins_reading_with_nothing_copied() {
    let (copy, update) = FileCopy::begin("a.bin", 100, 7);
    assert_eq!(copy, FileCopy { id: 7, size: 100, copied: 0, phase: Phase::Reading });
    assert_eq!(update, announced("a.bin", 100, 7));
}

#[test]
fn bytes_that_were_read_are_to_be_written() {
    let (mut copy, _) = FileCopy::begin("a.bin", 100, 7);
    assert_eq!(copy.step(IoEvent::Read(40)), CopyAction::Write { len: 40 });
    assert_eq!(copy.phase, Phase::Writing(40));
    assert_eq!(copy.copied, 0);
}

#[test]
fn bytes_that_were_written_are_counted_and_reported() {
    let (mut copy, _) = FileCopy::begin("a.bin", 100, 7);
    copy.step(IoEvent::Read(40));
    assert_eq!(copy.step(IoEvent::Written), CopyAction::Report { update: reported(7, 40) });
    assert_eq!(copy, FileCopy { id: 7, size: 100, copied: 40, phase: Phase::Reading });
    copy.step(IoEvent::Read(60));
    assert_eq!(copy.step(IoEvent::Written), CopyAction::Report { update: reported(7, 100) });
    assert_eq!(copy.copied, 100);
}

#[test]
fn the_end_of_the_stream_finishes_the_copy() {
    let (mut copy, _) = FileCopy::begin("a.bin", 0, 7);
    assert_eq!(copy.step(IoEvent::Read(0)), CopyAction::Finish { update: ended(7) });
    assert_eq!(copy.phase, Phase::Closed);
}

#[test]
fn a_failed_read_finishes_the_copy() {
    let (mut copy, _) = FileCopy::begin("a.bin", 100, 7);
    copy.step(IoEvent::Read(40));
    copy.step(IoEvent::Written);
    assert_eq!(copy.step(IoEvent::ReadFailed), CopyAction::Finish { update: ended(7) });
    assert_eq!(copy, FileCopy { id: 7, size: 100, copied: 40, phase: Phase::Closed });
}

#[test]
fn a_failed_write_finishes_the_copy_without_counting() {
    let (mut copy, _) = FileCopy::begin("a.bin", 100, 7);
    copy.step(IoEvent::Read(40));
    assert_eq!(copy.step(IoEvent::WriteFailed), CopyAction::Finish { update: ended(7) });
    assert_eq!(copy, FileCopy { id: 7, size: 100, copied: 0, phase: Phase::Closed });
}

#[test]
fn an_event_that_does_not_fit_the_phase_is_ignored() {
    let (mut copy, _) = FileCopy::begin("a.bin", 100, 7);
    let fresh = copy;
    assert_eq!(copy.step(IoEvent::Written), CopyAction::Nothing);
    assert_eq!(copy.step(IoEvent::WriteFailed), CopyAction::Nothing);
    assert_eq!(copy, fresh);
    copy.step(IoEvent::Read(5));
    let writing = copy;
    assert_eq!(copy.step(IoEvent::Read(5)), CopyAction::Nothing);
    assert_eq!(copy.step(IoEvent::ReadFailed), CopyAction::Nothing);
    assert_eq!(copy, writing);
    copy.step(IoEvent::WriteFailed);
    let closed = copy;
    for event in [IoEvent::Read(1), IoEvent::Read(0), IoEvent::ReadFailed, IoEvent::Written, IoEvent::WriteFailed] {
        assert_eq!(copy.step(event), CopyAction::Nothing);
        assert_eq!(copy, closed);
    }
}

#[test]
fn a_link_is_announced_copied_whole_and_finished() {
    assert_eq!(
        copy_symlink("some/link", 3),
        vec![announced("some/link", 1, 3), reported(3, 1), ended(3)]
    );
}

#[test]
fn an_empty_file_is_announced_and_finished_with_no_progress() {
    let updates = copy_file_with_progress("empty", 0, &vec![IoEvent::Read(0)], 5);
    assert_eq!(updates, vec![announced("empty", 0, 5), ended(5)]);
}

#[test]
fn a_file_reports_a_running_total_that_ends_at_its_size() {
    let io = vec![
        IoEvent::Read(65536),
        IoEvent::Written,
        IoEvent::Read(65536),
        IoEvent::Written,
        IoEvent::Read(1000),
        IoEvent::Written,
        IoEvent::Read(0),
    ];
    let updates = copy_file_with_progress("big", 132072, &io, 2);
    assert_eq!(
        updates,
        vec![
            announced("big", 132072, 2),
            reported(2, 65536),
            reported(2, 131072),
            reported(2, 132072),
            ended(2),
        ]
    );
}

#[test]
fn a_file_whose_read_fails_is_finished_short_of_its_size() {
    let io = vec![IoEvent::Read(10), IoEvent::Written, IoEvent::ReadFailed, IoEvent::Read(10)];
    let updates = copy_file_with_progress("broken", 30, &io, 2);
    assert_eq!(updates, vec![announced("broken", 30, 2), reported(2, 10), ended(2)]);
}

#[test]
fn a_file_whose_write_fails_is_finished_short_of_its_size() {
    let io = vec![IoEvent::Read(10), IoEvent::Written, IoEvent::Read(10), IoEvent::WriteFailed];
    let updates = copy_file_with_progress("full-disk", 30, &io, 2);
    assert_eq!(updates, vec![announced("full-disk", 30, 2), reported(2, 10), ended(2)]);
}

#[test]
fn a_file_whose_events_run_out_is_finished_all_the_same() {
    let updates = copy_file_with_progress("cut", 30, &vec![IoEvent::Read(10)], 2);
    assert_eq!(updates, vec![announced("cut", 30, 2), ended(2)]);
    let none = copy_file_with_progress("cut", 30, &Vec::new(), 2);
    assert_eq!(none, vec![announced("cut", 30, 2), ended(2)]);
}

#[test]
fn a_file_that_grows_while_it_is_copied_reports_past_its_size() {
    let io = vec![IoEvent::Read(2), IoEvent::Written, IoEvent::Read(0)];
    let updates = copy_file_with_progress("growing", 1, &io, 0);
    assert_eq!(updates, vec![announced("growing", 1, 0), reported(0, 2), ended(0)]);
}

#[test]
fn an_item_is_copied_by_its_kind() {
    let link = CopyItem { source: "l".to_string(), dest: "out/l".to_string(), kind: ItemKind::Symlink };
    let io = vec![IoEvent::Read(4), IoEvent::Written, IoEvent::Read(0)];
    assert_eq!(
        copy_item_with_progress(&link, 4, &io, 9),
        vec![announced("l", 1, 9), reported(9, 1), ended(9)]
    );
    assert_eq!(
        copy_item_with_progress(&file_item("f"), 4, &io, 9),
        vec![announced("f", 4, 9), reported(9, 4), ended(9)]
    );
}

#[test]
fn progress_never_goes_back_and_ends_with_the_end() {
    let traces: Vec<Vec<IoEvent>> = vec![
        vec![IoEvent::Read(3), IoEvent::Written, IoEvent::Read(0)],
        vec![IoEvent::Read(3), IoEvent::Written, IoEvent::Read(5), IoEvent::Written, IoEvent::ReadFailed],
        vec![IoEvent::Written, IoEvent::Read(1), IoEvent::Read(2), IoEvent::Written, IoEvent::Read(0)],
        vec![IoEvent::Read(9), IoEvent::WriteFailed, IoEvent::Read(9), IoEvent::Written],
    ];
    for io in &traces {
        let updates = copy_file_with_progress("f", 8, io, 1);
        assert_eq!(updates[0], announced("f", 8, 1));
        assert_eq!(*updates.last().unwrap(), ended(1));
        let mut last = 0;
        for update in &updates[1..updates.len() - 1] {
            match update {
                ProgressUpdate::Progress { id, bytes_copied } => {
                    assert_eq!(*id, 1);
                    assert!(*bytes_copied >= last);
                    last = *bytes_copied;
                }
                other => panic!("unexpected update {:?}", other),
            }
        }
    }
}
