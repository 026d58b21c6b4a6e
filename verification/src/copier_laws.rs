//! What holds of the updates that a streamed copy sends.

use vstd::prelude::*;
use crate::copier::{
    countable, item_updates, settled, stream_updates, FileCopy, IoEvent, Phase, SYMLINK_SIZE,
};
use crate::event::UpdateView;
use crate::item::ItemKind;

verus! {

/// The reads and writes of a copy in which nothing fails: each chunk is read
/// and written in turn, and then the stream ends.
pub open spec fn clean_io(chunks: Seq<usize>) -> Seq<IoEvent>
    decreases chunks.len(),
{
    if chunks.len() == 0 {
        seq![IoEvent::Read(0)]
    } else {
        seq![IoEvent::Read(chunks[0]), IoEvent::Written] + clean_io(chunks.drop_first())
    }
}

/// The number of bytes in `chunks`.
pub open spec fn total(chunks: Seq<usize>) -> nat
    decreases chunks.len(),
{
    if chunks.len() == 0 {
        0
    } else {
        chunks[0] as nat + total(chunks.drop_first())
    }
}

/// One progress update for each chunk, with the bytes counted from `start`
/// up to and including that chunk.
pub open spec fn running_totals(start: int, chunks: Seq<usize>, id: usize) -> Seq<UpdateView>
    decreases chunks.len(),
{
    if chunks.len() == 0 {
        Seq::empty()
    } else {
        seq![UpdateView::Progress { id, bytes_copied: (start + chunks[0]) as u64 }]
            + running_totals(start + chunks[0], chunks.drop_first(), id)
    }
}

/// Whether `updates` ends with the one update that reports an item as
/// finished and holds no announcement of a new item.
pub open spec fn ends_finished(updates: Seq<UpdateView>, id: usize) -> bool {
    &&& updates.len() > 0
    &&& updates.last() == (UpdateView::Finished { id })
    &&& forall|k: int| 0 <= k < updates.len() - 1 ==> updates[k] is Progress
}

/// The progress that a copy reports never goes back: each report lies
/// between the count the copy started from and the count it ends with, and
/// no report is smaller than one before it. All reports carry the copy's
/// identifier, and the last update, and only the last, reports the item as
/// finished.
pub proof fn lemma_progress_never_goes_back(copy: FileCopy, io: Seq<IoEvent>)
    requires
        countable(copy, io),
    ensures
        copy.copied <= settled(copy, io).copied,
        settled(copy, io).size == copy.size,
        forall|k: int|
            0 <= k < stream_updates(copy, io).len() ==> (#[trigger] stream_updates(copy, io)[k]).id()
                == copy.id,
        forall|k: int|
            0 <= k < stream_updates(copy, io).len() && (#[trigger] stream_updates(
                copy,
                io,
            )[k]) is Progress ==> copy.copied <= stream_updates(
                copy,
                io,
            )[k]->Progress_bytes_copied <= settled(copy, io).copied,
        forall|i: int, j: int|
            0 <= i < j < stream_updates(copy, io).len() && (#[trigger] stream_updates(
                copy,
                io,
            )[i]) is Progress && (#[trigger] stream_updates(copy, io)[j]) is Progress
                ==> stream_updates(copy, io)[i]->Progress_bytes_copied <= stream_updates(
                copy,
                io,
            )[j]->Progress_bytes_copied,
        !(copy.phase is Closed) ==> ends_finished(stream_updates(copy, io), copy.id),
    decreases io.len(),
{
    if !(copy.phase is Closed) && io.len() > 0 {
        let after = copy.next(io[0]);
        let rest = io.drop_first();
        lemma_progress_never_goes_back(after, rest);
    }
}

/// The progress that a copy reports never exceeds the size it announced, as
/// long as the stream gives no more bytes than that.
pub proof fn lemma_progress_within_size(copy: FileCopy, io: Seq<IoEvent>, k: int)
    requires
        countable(copy, io),
        settled(copy, io).copied <= copy.size,
        0 <= k < stream_updates(copy, io).len(),
        stream_updates(copy, io)[k] is Progress,
    ensures
        stream_updates(copy, io)[k]->Progress_bytes_copied <= copy.size,
{
    lemma_progress_never_goes_back(copy, io);
}

/// A copy in which nothing fails reports a running total after each chunk
/// and then the end of the item, and has counted every byte by then.
pub proof fn lemma_clean_copy(copy: FileCopy, chunks: Seq<usize>)
    requires
        copy.phase is Reading,
        forall|k: int| 0 <= k < chunks.len() ==> chunks[k] > 0,
        copy.copied + total(chunks) <= u64::MAX,
    ensures
        countable(copy, clean_io(chunks)),
        stream_updates(copy, clean_io(chunks)) == running_totals(
            copy.copied as int,
            chunks,
            copy.id,
        ).push(UpdateView::Finished { id: copy.id }),
        settled(copy, clean_io(chunks)).copied == copy.copied + total(chunks),
        settled(copy, clean_io(chunks)).phase is Closed,
    decreases chunks.len(),
{
    let io = clean_io(chunks);
    if chunks.len() == 0 {
        let closed = copy.next(io[0]);
        assert(stream_updates(closed, io.drop_first()) =~= Seq::empty());
        assert(settled(closed, io.drop_first()) == closed);
        assert(countable(closed, io.drop_first()));
    } else {
        let rest = chunks.drop_first();
        let read = copy.next(io[0]);
        let written = read.next(io[1]);
        assert(io.drop_first().drop_first() =~= clean_io(rest));
        lemma_clean_copy(written, rest);
        let tail = io.drop_first();
        assert(stream_updates(copy, io) == crate::copier::sent(copy.action(io[0]))
            + stream_updates(read, tail));
        assert(settled(copy, io) == settled(read, tail));
        assert(countable(read, tail));
    }
}

/// The last running total holds all the bytes: it is the start plus the
/// number of bytes in the chunks.
pub proof fn lemma_last_total(start: int, chunks: Seq<usize>, id: usize)
    requires
        chunks.len() > 0,
    ensures
        running_totals(start, chunks, id).len() == chunks.len(),
        running_totals(start, chunks, id).last() == (UpdateView::Progress {
            id,
            bytes_copied: (start + total(chunks)) as u64,
        }),
    decreases chunks.len(),
{
    let rest = chunks.drop_first();
    lemma_totals_len(start + chunks[0], rest, id);
    if rest.len() > 0 {
        lemma_last_total(start + chunks[0], rest, id);
    } else {
        assert(total(rest) == 0);
    }
}

/// There is one running total for each chunk.
pub proof fn lemma_totals_len(start: int, chunks: Seq<usize>, id: usize)
    ensures
        running_totals(start, chunks, id).len() == chunks.len(),
    decreases chunks.len(),
{
    if chunks.len() > 0 {
        lemma_totals_len(start + chunks[0], chunks.drop_first(), id);
    }
}

/// A file of `size` bytes that is copied without a failure is announced with
/// its size, reported chunk by chunk, and finished; the last progress that
/// is reported is `size`. A file of no bytes is announced and finished with
/// no progress in between.
pub proof fn lemma_whole_file_reported(
    path: Seq<char>,
    size: u64,
    chunks: Seq<usize>,
    id: usize,
)
    requires
        forall|k: int| 0 <= k < chunks.len() ==> chunks[k] > 0,
        total(chunks) == size,
    ensures
        item_updates(path, ItemKind::File, size, clean_io(chunks), id) == seq![
            UpdateView::NewFile { path, size, id },
        ] + running_totals(0, chunks, id).push(UpdateView::Finished { id }),
        chunks.len() > 0 ==> running_totals(0, chunks, id).last() == (UpdateView::Progress {
            id,
            bytes_copied: size,
        }),
        chunks.len() == 0 ==> item_updates(path, ItemKind::File, size, clean_io(chunks), id)
            == seq![UpdateView::NewFile { path, size: 0, id }, UpdateView::Finished { id }],
{
    let copy = FileCopy { id, size, copied: 0, phase: Phase::Reading };
    lemma_clean_copy(copy, chunks);
    if chunks.len() > 0 {
        lemma_last_total(0, chunks, id);
    }
}

/// The updates of one item keep to the order that the display relies on,
/// whatever reading and writing gave: the item is announced first and once,
/// then come reports of progress only, none smaller than one before it, and
/// last and once the item is reported as finished; all of them carry the
/// item's identifier. A link reports the one byte that it was announced
/// with.
pub proof fn lemma_item_protocol(
    source: Seq<char>,
    kind: ItemKind,
    size: u64,
    io: Seq<IoEvent>,
    id: usize,
)
    requires
        kind is File ==> countable(FileCopy { id, size, copied: 0, phase: Phase::Reading }, io),
    ensures
        ({
            let updates = item_updates(source, kind, size, io, id);
            &&& updates.len() >= 2
            &&& updates[0] is NewFile
            &&& updates.last() == (UpdateView::Finished { id })
            &&& forall|k: int| 0 < k < updates.len() - 1 ==> (#[trigger] updates[k]) is Progress
            &&& forall|k: int| 0 <= k < updates.len() ==> (#[trigger] updates[k]).id() == id
            &&& forall|i: int, j: int|
                0 < i < j < updates.len() - 1 ==> (#[trigger] updates[i])->Progress_bytes_copied
                    <= (#[trigger] updates[j])->Progress_bytes_copied
            &&& kind is Symlink ==> updates.len() == 3 && updates[0]->NewFile_size == SYMLINK_SIZE
                && updates[1]->Progress_bytes_copied == SYMLINK_SIZE
        }),
{
    if kind is File {
        let copy = FileCopy { id, size, copied: 0, phase: Phase::Reading };
        lemma_progress_never_goes_back(copy, io);
    }
}

} // verus!
