//! What the cursors make of a whole response, however the transport cuts it
//! into chunks.
//!
//! The cursors are driven one event at a time. Here the events of a response
//! are taken together, and it is shown that only the bytes of the body decide
//! what a cursor reads from them, not the places at which the body was cut.

use crate::columns_header::{
    columns_header, lemma_header_bounds, lemma_header_prefix, ColumnView, HeaderView,
};
use crate::cursors::raw::{
    decoded, ended, grow, header_chunk, raw_step, received, RawCursorView, RawOutput, RawPhase,
};
use crate::cursors::row::{feed_step, settle, RowCursorView};
use crate::error::ErrorView;
use crate::response::{ChunkView, EventView, Poll};
use crate::row::DecodedView;
use crate::row_metadata::{validate, RowMetadataView};
use vstd::prelude::*;

verus! {

/// The bytes of the chunks, one chunk behind the other.
pub open spec fn concat(chunks: Seq<ChunkView>) -> Seq<u8>
    decreases chunks.len(),
{
    if chunks.len() == 0 {
        Seq::empty()
    } else {
        chunks[0].data + concat(chunks.skip(1))
    }
}

/// The number of bytes that the chunks took on the wire.
pub open spec fn net_total(chunks: Seq<ChunkView>) -> nat
    decreases chunks.len(),
{
    if chunks.len() == 0 {
        0
    } else {
        chunks[0].net_size + net_total(chunks.skip(1))
    }
}

/// The arrival of each of the chunks, in order.
pub open spec fn chunk_events(chunks: Seq<ChunkView>) -> Seq<EventView> {
    Seq::new(chunks.len(), |i: int| EventView::Chunk(chunks[i]))
}

/// The cursor after the events, one after the other, and what it answered to
/// each.
pub open spec fn raw_run(c: RawCursorView, events: Seq<EventView>) -> (
    RawCursorView,
    Seq<RawOutput>,
)
    decreases events.len(),
{
    if events.len() == 0 {
        (c, Seq::empty())
    } else {
        let (next, output) = raw_step(c, events[0]);
        let (last, outputs) = raw_run(next, events.skip(1));
        (last, seq![output] + outputs)
    }
}

/// As many times the need for the next event.
pub open spec fn all_pending(n: nat) -> Seq<RawOutput> {
    Seq::new(n, |i: int| Poll::Pending)
}

/// A chunk behind others adds its bytes and its size on the wire to theirs.
pub proof fn lemma_concat_push(chunks: Seq<ChunkView>, last: ChunkView)
    ensures
        concat(chunks.push(last)) == concat(chunks) + last.data,
        net_total(chunks.push(last)) == net_total(chunks) + last.net_size,
    decreases chunks.len(),
{
    let longer = chunks.push(last);
    if chunks.len() == 0 {
        assert(longer.skip(1) =~= Seq::<ChunkView>::empty());
        assert(concat(longer.skip(1)) =~= Seq::<u8>::empty());
        assert(concat(longer) =~= concat(chunks) + last.data);
        assert(net_total(longer) == longer[0].net_size + net_total(longer.skip(1)));
    } else {
        assert(longer.skip(1) =~= chunks.skip(1).push(last));
        lemma_concat_push(chunks.skip(1), last);
        assert(concat(longer) =~= concat(chunks) + last.data);
        assert(net_total(longer) == longer[0].net_size + net_total(longer.skip(1)));
    }
}

/// A run over events and then over more events is the run over all of them.
pub proof fn lemma_raw_run_append(c: RawCursorView, first: Seq<EventView>, then: Seq<EventView>)
    ensures
        raw_run(c, first + then) == ({
            let (middle, outputs) = raw_run(c, first);
            let (last, more) = raw_run(middle, then);
            (last, outputs + more)
        }),
    decreases first.len(),
{
    if first.len() == 0 {
        assert(first + then =~= then);
        assert(Seq::<RawOutput>::empty() + raw_run(c, then).1 =~= raw_run(c, then).1);
    } else {
        let (next, output) = raw_step(c, first[0]);
        assert((first + then).skip(1) =~= first.skip(1) + then);
        assert((first + then)[0] == first[0]);
        lemma_raw_run_append(next, first.skip(1), then);
        let (middle, outputs) = raw_run(next, first.skip(1));
        let (last, more) = raw_run(middle, then);
        assert(seq![output] + (outputs + more) =~= (seq![output] + outputs) + more);
    }
}

/// Adding to a counter twice is adding the sum once.
pub proof fn lemma_grow_twice(total: u64, a: nat, b: nat)
    ensures
        grow(grow(total, a), b) == grow(total, a + b),
{
}

/// While the chunks that have arrived end inside the header, the cursor
/// counts and keeps them and asks for more.
proof fn lemma_header_waits(
    c: RawCursorView,
    pending: Seq<u8>,
    net_size: u64,
    data_size: u64,
    before: Seq<ChunkView>,
    rest: Seq<u8>,
)
    requires
        c.phase == (RawPhase::Header { pending, net_size, data_size }),
        columns_header(pending + concat(before) + rest) matches HeaderView::Complete { len, .. }
            && (pending + concat(before)).len() < len,
    ensures
        raw_run(c, chunk_events(before)) == (
            RawCursorView {
                phase: RawPhase::Header {
                    pending: pending + concat(before),
                    net_size: grow(net_size, net_total(before)),
                    data_size: grow(data_size, concat(before).len()),
                },
                ..c
            },
            all_pending(before.len()),
        ),
    decreases before.len(),
{
    let events = chunk_events(before);
    if before.len() == 0 {
        assert(pending + concat(before) =~= pending);
        assert(all_pending(0) =~= Seq::<RawOutput>::empty());
    } else {
        let first = before[0];
        let whole = pending + concat(before) + rest;
        let all = pending + first.data;
        assert(whole.take(all.len() as int) =~= all);
        lemma_header_prefix(whole, all.len() as int);
        assert(columns_header(all) is Incomplete);
        assert(events[0] == EventView::Chunk(first));
        let next = raw_step(c, events[0]).0;
        assert(raw_step(c, events[0]) == header_chunk(c, pending, net_size, data_size, first));
        assert(events.skip(1) =~= chunk_events(before.skip(1)));
        assert(all + concat(before.skip(1)) =~= pending + concat(before));
        assert(all + concat(before.skip(1)) + rest =~= whole);
        lemma_header_waits(
            next,
            all,
            grow(net_size, first.net_size),
            grow(data_size, first.data.len()),
            before.skip(1),
            rest,
        );
        lemma_grow_twice(net_size, first.net_size, net_total(before.skip(1)));
        lemma_grow_twice(data_size, first.data.len(), concat(before.skip(1)).len());
        assert(seq![Poll::<Result<Option<Seq<u8>>, ErrorView>>::Pending] + all_pending(
            (before.len() - 1) as nat,
        ) =~= all_pending(before.len()));
    }
}

/// What a cursor that validates makes of a response whose header ends in
/// the chunk `last`, behind the chunks `before`: it asks for the next event
/// until `last` has arrived. Then it has read the columns that the bytes of
/// all the chunks together declare, and what `last` holds behind the header
/// is handed out, whole and first. Where the chunks were cut plays no part.
pub proof fn lemma_header_in_pieces(
    c: RawCursorView,
    before: Seq<ChunkView>,
    last: ChunkView,
    columns: Seq<ColumnView>,
    len: nat,
)
    requires
        c.phase == (RawPhase::Waiting { validation: true }),
        columns_header(concat(before) + last.data) == (HeaderView::Complete { columns, len }),
        concat(before).len() < len,
    ensures
        ({
            let events = seq![EventView::Resolved] + chunk_events(before.push(last));
            let (end, outputs) = raw_run(c, events);
            let all = concat(before.push(last));
            let net_size = grow(0, net_total(before.push(last)));
            let data_size = grow(0, all.len());
            &&& all == concat(before) + last.data
            &&& len <= all.len()
            &&& outputs.len() == before.len() + 2
            &&& outputs.take(before.len() as int + 1) == all_pending(before.len() + 1)
            &&& match validate(columns, c.fields) {
                Ok(meta) => {
                    &&& end == (RawCursorView {
                        phase: RawPhase::Loading { net_size, data_size, terminated: false },
                        row_metadata: Some(meta),
                        ..c
                    })
                    &&& outputs.last() == if all.len() > len {
                        Poll::<Result<Option<Seq<u8>>, ErrorView>>::Ready(
                            Ok(Some(all.skip(len as int))),
                        )
                    } else {
                        Poll::Pending
                    }
                },
                Err(e) => {
                    &&& end == ended(c, net_size, data_size)
                    &&& outputs.last() == Poll::<Result<Option<Seq<u8>>, ErrorView>>::Ready(
                        Err(ErrorView::InvalidColumnsHeader(e)),
                    )
                },
            }
        }),
{
    let chunks = before.push(last);
    let events = seq![EventView::Resolved] + chunk_events(chunks);
    let whole = concat(before) + last.data;
    lemma_concat_push(before, last);
    lemma_header_bounds(whole);
    let opened = RawCursorView {
        phase: RawPhase::Header { pending: Seq::empty(), net_size: 0, data_size: 0 },
        ..c
    };
    assert(raw_step(c, events[0]) == (opened, Poll::<Result<Option<Seq<u8>>, ErrorView>>::Pending));
    assert(events.skip(1) =~= chunk_events(before) + seq![EventView::Chunk(last)]);
    lemma_raw_run_append(opened, chunk_events(before), seq![EventView::Chunk(last)]);
    assert(Seq::<u8>::empty() + concat(before) =~= concat(before));
    assert(Seq::<u8>::empty() + concat(before) + last.data =~= whole);
    lemma_header_waits(opened, Seq::empty(), 0, 0, before, last.data);
    let waited = raw_run(opened, chunk_events(before)).0;
    let single = seq![EventView::Chunk(last)];
    assert(single.skip(1) =~= Seq::<EventView>::empty());
    let (end, output) = raw_step(waited, single[0]);
    assert(raw_run(end, single.skip(1)) == (end, Seq::<RawOutput>::empty()));
    assert(raw_run(waited, single) == (end, seq![output] + Seq::<RawOutput>::empty()));
    lemma_grow_twice(0, net_total(before), last.net_size);
    lemma_grow_twice(0, concat(before).len(), last.data.len());
    let outputs = raw_run(c, events).1;
    assert(outputs =~= seq![Poll::<Result<Option<Seq<u8>>, ErrorView>>::Pending] + (all_pending(
        before.len(),
    ) + seq![output]));
    assert(outputs.take(before.len() as int + 1) =~= all_pending(before.len() + 1));
}

/// The attempt to decode a row from the bytes that are there, if there are
/// any, by a row type that decodes as `decode` says.
pub open spec fn attempt_at<T>(
    decode: spec_fn(Seq<u8>, Option<RowMetadataView>) -> DecodedView<T>,
    c: RowCursorView,
) -> Option<DecodedView<T>> {
    if c.buffer.len() > 0 {
        Some(decode(c.buffer, c.raw.row_metadata))
    } else {
        None
    }
}

/// One call for the next row, as its caller makes it: the cursor is asked,
/// and as long as it asks for the next event in turn, it is fed the next of
/// `events` and asked again. The result is the cursor afterwards, the events
/// that are left, and the answer; no answer where the events ran out first.
pub open spec fn next_row<T>(
    decode: spec_fn(Seq<u8>, Option<RowMetadataView>) -> DecodedView<T>,
    c: RowCursorView,
    events: Seq<EventView>,
) -> (RowCursorView, Seq<EventView>, Option<Result<Option<T>, ErrorView>>)
    decreases events.len(),
{
    let (asked, output) = settle(c, attempt_at(decode, c));
    match output {
        Poll::Ready(answer) => (asked, events, Some(answer)),
        Poll::Pending => if events.len() == 0 {
            (asked, events, None)
        } else {
            let (fed, result) = feed_step(asked, events[0]);
            match result {
                Err(e) => (fed, events.skip(1), Some(Err(e))),
                Ok(_) => next_row(decode, fed, events.skip(1)),
            }
        },
    }
}

/// The answers to `n` calls for the next row, one after the other.
pub open spec fn read_rows<T>(
    decode: spec_fn(Seq<u8>, Option<RowMetadataView>) -> DecodedView<T>,
    c: RowCursorView,
    events: Seq<EventView>,
    n: nat,
) -> Seq<Option<Result<Option<T>, ErrorView>>>
    decreases n,
{
    if n == 0 {
        Seq::empty()
    } else {
        let (after, left, answer) = next_row(decode, c, events);
        seq![answer] + read_rows(decode, after, left, (n - 1) as nat)
    }
}

/// Over a call for the next row, however many events it takes, no counter
/// of the cursor gets smaller.
pub proof fn lemma_next_row_counts<T>(
    decode: spec_fn(Seq<u8>, Option<RowMetadataView>) -> DecodedView<T>,
    c: RowCursorView,
    events: Seq<EventView>,
)
    ensures
        received(next_row(decode, c, events).0.raw) >= received(c.raw),
        decoded(next_row(decode, c, events).0.raw) >= decoded(c.raw),
    decreases events.len(),
{
    let (asked, output) = settle(c, attempt_at(decode, c));
    if output is Pending && events.len() > 0 {
        let (fed, result) = feed_step(asked, events[0]);
        if result is Ok {
            lemma_next_row_counts(decode, fed, events.skip(1));
        }
    }
}

/// `encoding` is how `row` is written: bytes from which `decode` reads the
/// row and nothing else, whatever follows them, and which it finds too short
/// wherever they are cut.
pub open spec fn framed<T>(
    decode: spec_fn(Seq<u8>, Option<RowMetadataView>) -> DecodedView<T>,
    metadata: Option<RowMetadataView>,
    encoding: Seq<u8>,
    row: T,
) -> bool {
    &&& encoding.len() > 0
    &&& forall|rest: Seq<u8>| #[trigger]
        decode(encoding + rest, metadata) == (DecodedView::Row {
            value: row,
            consumed: encoding.len(),
        })
    &&& forall|n: int|
        0 < n < encoding.len() ==> #[trigger] decode(encoding.take(n), metadata)
            == DecodedView::<T>::NotEnoughData
}

/// The encodings, one behind the other.
pub open spec fn joined(encodings: Seq<Seq<u8>>) -> Seq<u8>
    decreases encodings.len(),
{
    if encodings.len() == 0 {
        Seq::empty()
    } else {
        encodings[0] + joined(encodings.skip(1))
    }
}

/// The events of a body that arrives in the given chunks and then ends.
pub open spec fn body_events(chunks: Seq<ChunkView>) -> Seq<EventView> {
    chunk_events(chunks).push(EventView::End)
}

/// The cursor hands out the body, which has not ended.
pub open spec fn loading(c: RowCursorView) -> bool {
    c.raw.phase matches RawPhase::Loading { terminated, .. } && !terminated
}

/// Each of the rows, and then the end of the rows.
pub open spec fn emitted<T>(rows: Seq<T>) -> Seq<Option<Result<Option<T>, ErrorView>>> {
    Seq::new(
        rows.len() + 1,
        |i: int|
            if i < rows.len() {
                Some(Ok(Some(rows[i])))
            } else {
                Some(Ok(None))
            },
    )
}

/// A call for the next row gives the row whose encoding comes next in the
/// body, after as many chunks as it takes for the encoding to be there, and
/// leaves what follows the encoding.
proof fn lemma_next_row<T>(
    decode: spec_fn(Seq<u8>, Option<RowMetadataView>) -> DecodedView<T>,
    c: RowCursorView,
    chunks: Seq<ChunkView>,
    encoding: Seq<u8>,
    row: T,
    rest: Seq<u8>,
) -> (k: nat)
    requires
        loading(c),
        framed(decode, c.raw.row_metadata, encoding, row),
        c.buffer + concat(chunks) == encoding + rest,
    ensures
        k <= chunks.len(),
        ({
            let (after, left, answer) = next_row(decode, c, body_events(chunks));
            &&& answer == Some(Ok::<Option<T>, ErrorView>(Some(row)))
            &&& left == body_events(chunks.skip(k as int))
            &&& loading(after)
            &&& after.raw.row_metadata == c.raw.row_metadata
            &&& after.raw.fields == c.raw.fields
            &&& after.buffer + concat(chunks.skip(k as int)) == rest
        }),
    decreases chunks.len(),
{
    let events = body_events(chunks);
    let stream = encoding + rest;
    if c.buffer.len() >= encoding.len() {
        let tail = c.buffer.skip(encoding.len() as int);
        assert(c.buffer =~= encoding + tail) by {
            assert(c.buffer =~= stream.take(c.buffer.len() as int));
        }
        assert(decode(encoding + tail, c.raw.row_metadata) == (DecodedView::Row {
            value: row,
            consumed: encoding.len(),
        }));
        assert(chunks.skip(0) =~= chunks);
        assert(tail + concat(chunks) =~= stream.skip(encoding.len() as int));
        assert(rest =~= stream.skip(encoding.len() as int));
        0
    } else {
        let n = c.buffer.len() as int;
        if n > 0 {
            assert(c.buffer =~= encoding.take(n)) by {
                assert(c.buffer =~= stream.take(n));
            }
            assert(decode(encoding.take(n), c.raw.row_metadata)
                == DecodedView::<T>::NotEnoughData);
        }
        assert(settle(c, attempt_at(decode, c)) == (
            c,
            Poll::<Result<Option<T>, ErrorView>>::Pending,
        ));
        if chunks.len() == 0 {
            assert(c.buffer + concat(chunks) =~= c.buffer);
            assert(false);
        }
        let first = chunks[0];
        assert(events[0] == EventView::Chunk(first));
        let fed = feed_step(c, events[0]).0;
        assert(fed.buffer == c.buffer + first.data);
        assert(events.skip(1) =~= body_events(chunks.skip(1)));
        assert(fed.buffer + concat(chunks.skip(1)) =~= c.buffer + concat(chunks));
        let k = lemma_next_row(decode, fed, chunks.skip(1), encoding, row, rest);
        assert(chunks.skip(1).skip(k as int) =~= chunks.skip(k as int + 1));
        k + 1
    }
}

/// At the end of a body of which nothing is left, a call for the next row
/// gives the end of the rows.
proof fn lemma_no_more_rows<T>(
    decode: spec_fn(Seq<u8>, Option<RowMetadataView>) -> DecodedView<T>,
    c: RowCursorView,
    chunks: Seq<ChunkView>,
)
    requires
        loading(c),
        (c.buffer + concat(chunks)).len() == 0,
    ensures
        next_row(decode, c, body_events(chunks)).2 == Some(Ok::<Option<T>, ErrorView>(None)),
    decreases chunks.len(),
{
    let events = body_events(chunks);
    assert(settle(c, attempt_at(decode, c)) == (c, Poll::<Result<Option<T>, ErrorView>>::Pending));
    let fed = feed_step(c, events[0]).0;
    if chunks.len() == 0 {
        assert(events[0] == EventView::End);
        assert(events.skip(1) =~= Seq::<EventView>::empty());
        assert(settle(fed, attempt_at(decode, fed)).1 == Poll::<
            Result<Option<T>, ErrorView>,
        >::Ready(Ok(None)));
        assert(next_row(decode, fed, events.skip(1)).2 == Some(Ok::<Option<T>, ErrorView>(None)));
    } else {
        let first = chunks[0];
        assert(events[0] == EventView::Chunk(first));
        assert(events.skip(1) =~= body_events(chunks.skip(1)));
        assert(fed.buffer + concat(chunks.skip(1)) =~= c.buffer + concat(chunks));
        lemma_no_more_rows(decode, fed, chunks.skip(1));
    }
}

/// The rows of a body are read as they were written, whatever the chunks in
/// which the body arrives: a row may lie in one chunk with others, across
/// several chunks, or end where a chunk ends. After the last row comes the
/// end of the rows.
pub proof fn lemma_rows_of_a_body<T>(
    decode: spec_fn(Seq<u8>, Option<RowMetadataView>) -> DecodedView<T>,
    c: RowCursorView,
    chunks: Seq<ChunkView>,
    rows: Seq<T>,
    encodings: Seq<Seq<u8>>,
)
    requires
        loading(c),
        rows.len() == encodings.len(),
        forall|i: int|
            0 <= i < rows.len() ==> framed(decode, c.raw.row_metadata, encodings[i], rows[i]),
        c.buffer + concat(chunks) == joined(encodings),
    ensures
        read_rows(decode, c, body_events(chunks), rows.len() + 1) == emitted(rows),
    decreases rows.len(),
{
    let events = body_events(chunks);
    let (after, left, answer) = next_row(decode, c, events);
    if rows.len() == 0 {
        lemma_no_more_rows(decode, c, chunks);
        assert(read_rows(decode, after, left, 0) =~= Seq::empty());
        assert(read_rows(decode, c, events, 1) =~= emitted(rows));
    } else {
        let k = lemma_next_row(
            decode,
            c,
            chunks,
            encodings[0],
            rows[0],
            joined(encodings.skip(1)),
        );
        lemma_rows_of_a_body(decode, after, chunks.skip(k as int), rows.skip(1), encodings.skip(1));
        assert(read_rows(decode, c, events, rows.len() + 1) == seq![answer] + read_rows(
            decode,
            after,
            left,
            rows.len(),
        ));
        assert(seq![answer] + emitted(rows.skip(1)) =~= emitted(rows));
    }
}

/// While the chunks that have arrived end inside the header no row can be
/// had, and a call for the next row goes on as from the cursor that has read
/// the header.
proof fn lemma_past_the_header<T>(
    decode: spec_fn(Seq<u8>, Option<RowMetadataView>) -> DecodedView<T>,
    c: RowCursorView,
    pending: Seq<u8>,
    net_size: u64,
    data_size: u64,
    chunks: Seq<ChunkView>,
    columns: Seq<ColumnView>,
    len: nat,
    meta: RowMetadataView,
) -> (r: (nat, RowCursorView))
    requires
        c.raw.phase == (RawPhase::Header { pending, net_size, data_size }),
        c.buffer.len() == 0,
        columns_header(pending + concat(chunks)) == (HeaderView::Complete { columns, len }),
        pending.len() < len,
        validate(columns, c.raw.fields) == Ok::<RowMetadataView, crate::columns_header::HeaderError>(
            meta,
        ),
    ensures
        r.0 <= chunks.len(),
        loading(r.1),
        r.1.raw.row_metadata == Some(meta),
        r.1.raw.fields == c.raw.fields,
        r.1.buffer + concat(chunks.skip(r.0 as int)) == (pending + concat(chunks)).skip(len as int),
        next_row(decode, c, body_events(chunks)) == next_row(
            decode,
            r.1,
            body_events(chunks.skip(r.0 as int)),
        ),
    decreases chunks.len(),
{
    let events = body_events(chunks);
    let whole = pending + concat(chunks);
    lemma_header_bounds(whole);
    assert(settle(c, attempt_at(decode, c)) == (c, Poll::<Result<Option<T>, ErrorView>>::Pending));
    if chunks.len() == 0 {
        assert(whole =~= pending);
        assert(false);
    }
    let first = chunks[0];
    let all = pending + first.data;
    assert(events[0] == EventView::Chunk(first));
    assert(events.skip(1) =~= body_events(chunks.skip(1)));
    assert(whole =~= all + concat(chunks.skip(1)));
    assert(whole.take(all.len() as int) =~= all);
    lemma_header_prefix(whole, all.len() as int);
    let fed = feed_step(c, events[0]).0;
    assert(raw_step(c.raw, events[0]) == header_chunk(c.raw, pending, net_size, data_size, first));
    if all.len() < len {
        let r = lemma_past_the_header(
            decode,
            fed,
            all,
            grow(net_size, first.net_size),
            grow(data_size, first.data.len()),
            chunks.skip(1),
            columns,
            len,
            meta,
        );
        assert(chunks.skip(1).skip(r.0 as int) =~= chunks.skip(r.0 as int + 1));
        (r.0 + 1, r.1)
    } else {
        assert(fed.buffer =~= all.skip(len as int));
        assert(fed.buffer + concat(chunks.skip(1)) =~= whole.skip(len as int));
        (1, fed)
    }
}

/// The rows of a response with a column header are read as they were
/// written, whatever the chunks in which the response arrives. The header
/// and each row may lie in one chunk with others, across several chunks, or
/// end where a chunk ends. After the last row comes the end of the rows.
pub proof fn lemma_rows_in_pieces<T>(
    decode: spec_fn(Seq<u8>, Option<RowMetadataView>) -> DecodedView<T>,
    c: RowCursorView,
    chunks: Seq<ChunkView>,
    columns: Seq<ColumnView>,
    len: nat,
    meta: RowMetadataView,
    rows: Seq<T>,
    encodings: Seq<Seq<u8>>,
)
    requires
        c.raw.phase == (RawPhase::Waiting { validation: true }),
        c.buffer.len() == 0,
        columns_header(concat(chunks)) == (HeaderView::Complete { columns, len }),
        validate(columns, c.raw.fields) == Ok::<RowMetadataView, crate::columns_header::HeaderError>(
            meta,
        ),
        rows.len() == encodings.len(),
        forall|i: int| 0 <= i < rows.len() ==> framed(decode, Some(meta), encodings[i], rows[i]),
        concat(chunks).skip(len as int) == joined(encodings),
    ensures
        read_rows(
            decode,
            c,
            seq![EventView::Resolved] + body_events(chunks),
            rows.len() + 1,
        ) == emitted(rows),
{
    let events = seq![EventView::Resolved] + body_events(chunks);
    lemma_header_bounds(concat(chunks));
    assert(settle(c, attempt_at(decode, c)) == (c, Poll::<Result<Option<T>, ErrorView>>::Pending));
    let opened = feed_step(c, events[0]).0;
    assert(events.skip(1) =~= body_events(chunks));
    assert(next_row(decode, c, events) == next_row(decode, opened, body_events(chunks)));
    assert(Seq::<u8>::empty() + concat(chunks) =~= concat(chunks));
    let (k, past) = lemma_past_the_header(
        decode,
        opened,
        Seq::empty(),
        0,
        0,
        chunks,
        columns,
        len,
        meta,
    );
    let left = body_events(chunks.skip(k as int));
    assert(next_row(decode, c, events) == next_row(decode, past, left));
    lemma_rows_of_a_body(decode, past, chunks.skip(k as int), rows, encodings);
    assert(read_rows(decode, c, events, rows.len() + 1) == read_rows(
        decode,
        past,
        left,
        rows.len() + 1,
    ));
}

} // verus!
