//! The stream copier's bookkeeping: which updates a copy reports, and when.
//!
//! Reading and writing happen elsewhere. A `FileCopy` is told what each read
//! and write gave and answers with what to do next; the updates it hands out
//! are what the display hears of the item.

use vstd::prelude::*;
use crate::event::{update_views, ProgressUpdate, UpdateView};
use crate::item::{CopyItem, ItemKind};

verus! {

/// The size of the one buffer through which a file is streamed.
pub const BUFFER_SIZE: usize = 65536;

/// The size reported for a symbolic link, which has no bytes of its own.
pub const SYMLINK_SIZE: u64 = 1;

/// What a read or a write gave.
#[derive(Debug, Clone, Copy, PartialEq, Eq, Structural)]
pub enum IoEvent {
    /// A read gave this many bytes; none at the end of the stream.
    Read(usize),
    /// A read failed.
    ReadFailed,
    /// All bytes of the last read have been written.
    Written,
    /// A write failed.
    WriteFailed,
}

/// Where a copy stands.
#[derive(Debug, Clone, Copy, PartialEq, Eq, Structural)]
pub enum Phase {
    /// The next thing to happen is a read.
    Reading,
    /// This many bytes have been read and wait to be written.
    Writing(usize),
    /// The copy is over.
    Closed,
}

/// What to do next.
#[derive(Debug, Clone, PartialEq, Eq)]
pub enum CopyAction {
    /// Write the first `len` bytes of the buffer.
    Write { len: usize },
    /// Send `update`, then read again.
    Report { update: ProgressUpdate },
    /// Send `update` and stop.
    Finish { update: ProgressUpdate },
    /// The event does not fit the phase: do nothing.
    Nothing,
}

/// The copy of one file in progress.
#[derive(Debug, Clone, Copy, PartialEq, Eq, Structural)]
pub struct FileCopy {
    pub id: usize,
    pub size: u64,
    pub copied: u64,
    pub phase: Phase,
}

impl FileCopy {
    /// The copy after `event`.
    pub open spec fn next(self, event: IoEvent) -> FileCopy {
        match (self.phase, event) {
            (Phase::Reading, IoEvent::Read(n)) => if n == 0 {
                FileCopy { phase: Phase::Closed, ..self }
            } else {
                FileCopy { phase: Phase::Writing(n), ..self }
            },
            (Phase::Reading, IoEvent::ReadFailed) => FileCopy { phase: Phase::Closed, ..self },
            (Phase::Writing(n), IoEvent::Written) => FileCopy {
                phase: Phase::Reading,
                copied: (self.copied + n) as u64,
                ..self
            },
            (Phase::Writing(n), IoEvent::WriteFailed) => FileCopy { phase: Phase::Closed, ..self },
            _ => self,
        }
    }

    /// What `event` makes the copy ask for.
    pub open spec fn action(self, event: IoEvent) -> CopyAction {
        match (self.phase, event) {
            (Phase::Reading, IoEvent::Read(n)) => if n == 0 {
                CopyAction::Finish { update: ProgressUpdate::Finished { id: self.id } }
            } else {
                CopyAction::Write { len: n }
            },
            (Phase::Reading, IoEvent::ReadFailed) => CopyAction::Finish {
                update: ProgressUpdate::Finished { id: self.id },
            },
            (Phase::Writing(n), IoEvent::Written) => CopyAction::Report {
                update: ProgressUpdate::Progress {
                    id: self.id,
                    bytes_copied: (self.copied + n) as u64,
                },
            },
            (Phase::Writing(n), IoEvent::WriteFailed) => CopyAction::Finish {
                update: ProgressUpdate::Finished { id: self.id },
            },
            _ => CopyAction::Nothing,
        }
    }

    /// Whether the bytes that `event` confirms can still be counted.
    pub open spec fn counts(self, event: IoEvent) -> bool {
        match (self.phase, event) {
            (Phase::Writing(n), IoEvent::Written) => self.copied + n <= u64::MAX,
            _ => true,
        }
    }

    /// Starts the copy of the file at `path`, `size` bytes long, and hands
    /// out the update that announces it.
    pub fn begin(path: &str, size: u64, id: usize) -> (started: (FileCopy, ProgressUpdate))
        ensures
            started.0 == (FileCopy { id, size, copied: 0, phase: Phase::Reading }),
            started.1@ == (UpdateView::NewFile { path: path@, size, id }),
    {
        (
            FileCopy { id, size, copied: 0, phase: Phase::Reading },
            ProgressUpdate::NewFile { path: path.to_owned(), size, id },
        )
    }

    /// Takes in what the last read or write gave and says what to do next.
    ///
    /// Bytes that were read are to be written; bytes that were written are
    /// counted and reported. The end of the stream and any failure close the
    /// copy, which reports the item as finished all the same.
    pub fn step(&mut self, event: IoEvent) -> (action: CopyAction)
        requires
            old(self).counts(event),
        ensures
            *final(self) == old(self).next(event),
            action == old(self).action(event),
    {
        match (self.phase, event) {
            (Phase::Reading, IoEvent::Read(n)) => {
                if n == 0 {
                    self.phase = Phase::Closed;
                    CopyAction::Finish { update: ProgressUpdate::Finished { id: self.id } }
                } else {
                    self.phase = Phase::Writing(n);
                    CopyAction::Write { len: n }
                }
            },
            (Phase::Reading, IoEvent::ReadFailed) => {
                self.phase = Phase::Closed;
                CopyAction::Finish { update: ProgressUpdate::Finished { id: self.id } }
            },
            (Phase::Writing(n), IoEvent::Written) => {
                self.phase = Phase::Reading;
                self.copied = self.copied + n as u64;
                CopyAction::Report {
                    update: ProgressUpdate::Progress { id: self.id, bytes_copied: self.copied },
                }
            },
            (Phase::Writing(n), IoEvent::WriteFailed) => {
                self.phase = Phase::Closed;
                CopyAction::Finish { update: ProgressUpdate::Finished { id: self.id } }
            },
            _ => CopyAction::Nothing,
        }
    }
}

/// The update that `action` sends, if it sends one.
pub open spec fn sent(action: CopyAction) -> Seq<UpdateView> {
    match action {
        CopyAction::Report { update } => seq![update@],
        CopyAction::Finish { update } => seq![update@],
        _ => Seq::empty(),
    }
}

/// The updates that a copy sends from state `copy` on while `io` happens.
/// A copy that is still open when `io` runs out reports the item as finished
/// then; a closed copy sends nothing more.
pub open spec fn stream_updates(copy: FileCopy, io: Seq<IoEvent>) -> Seq<UpdateView>
    decreases io.len(),
{
    if copy.phase is Closed {
        Seq::empty()
    } else if io.len() == 0 {
        seq![UpdateView::Finished { id: copy.id }]
    } else {
        sent(copy.action(io[0])) + stream_updates(copy.next(io[0]), io.drop_first())
    }
}

/// The copy that `io` leaves behind.
pub open spec fn settled(copy: FileCopy, io: Seq<IoEvent>) -> FileCopy
    decreases io.len(),
{
    if copy.phase is Closed || io.len() == 0 {
        copy
    } else {
        settled(copy.next(io[0]), io.drop_first())
    }
}

/// Whether all bytes that `io` confirms can be counted.
pub open spec fn countable(copy: FileCopy, io: Seq<IoEvent>) -> bool
    decreases io.len(),
{
    copy.phase is Closed || io.len() == 0 || (copy.counts(io[0]) && countable(
        copy.next(io[0]),
        io.drop_first(),
    ))
}

/// The three updates that stand for a symbolic link: it starts, one byte
/// long, is copied whole, and is finished.
pub open spec fn link_updates(path: Seq<char>, id: usize) -> Seq<UpdateView> {
    seq![
        UpdateView::NewFile { path, size: SYMLINK_SIZE, id },
        UpdateView::Progress { id, bytes_copied: SYMLINK_SIZE },
        UpdateView::Finished { id },
    ]
}

/// All updates that one item sends: a link its three, a file the
/// announcement of its `size` and then what streaming it through `io` gives.
pub open spec fn item_updates(
    source: Seq<char>,
    kind: ItemKind,
    size: u64,
    io: Seq<IoEvent>,
    id: usize,
) -> Seq<UpdateView> {
    match kind {
        ItemKind::Symlink => link_updates(source, id),
        ItemKind::File => seq![UpdateView::NewFile { path: source, size, id }] + stream_updates(
            FileCopy { id, size, copied: 0, phase: Phase::Reading },
            io,
        ),
    }
}

/// The updates to send for a symbolic link at `path` once the link has been
/// made at its destination.
pub fn copy_symlink(path: &str, file_id: usize) -> (updates: Vec<ProgressUpdate>)
    ensures
        update_views(updates@) == link_updates(path@, file_id),
{
    let mut updates: Vec<ProgressUpdate> = Vec::new();
    updates.push(ProgressUpdate::NewFile { path: path.to_owned(), size: SYMLINK_SIZE, id: file_id });
    updates.push(ProgressUpdate::Progress { id: file_id, bytes_copied: SYMLINK_SIZE });
    updates.push(ProgressUpdate::Finished { id: file_id });
    assert(update_views(updates@) =~= link_updates(path@, file_id));
    updates
}

/// The updates to send for a file at `path`, `size` bytes long when it was
/// opened, whose reads and writes gave `io`.
pub fn copy_file_with_progress(path: &str, size: u64, io: &Vec<IoEvent>, file_id: usize) -> (updates:
    Vec<ProgressUpdate>)
    requires
        countable(FileCopy { id: file_id, size, copied: 0, phase: Phase::Reading }, io@),
    ensures
        update_views(updates@) == item_updates(path@, ItemKind::File, size, io@, file_id),
{
    let (mut copy, announcement) = FileCopy::begin(path, size, file_id);
    let ghost start = copy;
    let mut updates: Vec<ProgressUpdate> = Vec::new();
    updates.push(announcement);
    let ghost head = update_views(updates@);
    assert(head =~= seq![UpdateView::NewFile { path: path@, size, id: file_id }]);
    let mut i: usize = 0;
    assert(io@.skip(0) =~= io@);
    while i < io.len() && !matches!(copy.phase, Phase::Closed)
        invariant
            i <= io.len(),
            copy.id == file_id,
            countable(copy, io@.skip(i as int)),
            update_views(updates@) + stream_updates(copy, io@.skip(i as int)) == head
                + stream_updates(start, io@),
        decreases io.len() - i,
    {
        let ghost before = update_views(updates@);
        let ghost rest = io@.skip(i as int);
        let ghost was = copy;
        assert(rest[0] == io@[i as int]);
        assert(rest.drop_first() =~= io@.skip(i + 1));
        let action = copy.step(io[i]);
        match action {
            CopyAction::Report { update } => {
                updates.push(update);
            },
            CopyAction::Finish { update } => {
                updates.push(update);
            },
            _ => {},
        }
        assert(update_views(updates@) =~= before + sent(was.action(rest[0])));
        assert(before + (sent(was.action(rest[0])) + stream_updates(copy, io@.skip(i + 1)))
            =~= (before + sent(was.action(rest[0]))) + stream_updates(copy, io@.skip(i + 1)));
        i = i + 1;
    }
    let ghost before = update_views(updates@);
    if !matches!(copy.phase, Phase::Closed) {
        assert(io@.skip(i as int).len() == 0);
        updates.push(ProgressUpdate::Finished { id: file_id });
        assert(update_views(updates@) =~= before + seq![UpdateView::Finished { id: file_id }]);
    } else {
        assert(before + Seq::<UpdateView>::empty() =~= before);
    }
    updates
}

/// The updates to send for `item`: those of a link, or those of a file of
/// `size` bytes whose reads and writes gave `io`.
pub fn copy_item_with_progress(item: &CopyItem, size: u64, io: &Vec<IoEvent>, file_id: usize) -> (updates:
    Vec<ProgressUpdate>)
    requires
        item.kind is File ==> countable(
            FileCopy { id: file_id, size, copied: 0, phase: Phase::Reading },
            io@,
        ),
    ensures
        update_views(updates@) == item_updates(item@.source, item@.kind, size, io@, file_id),
{
    match item.kind {
        ItemKind::Symlink => copy_symlink(item.source.as_str(), file_id),
        ItemKind::File => copy_file_with_progress(item.source.as_str(), size, io, file_id),
    }
}

} // verus!
