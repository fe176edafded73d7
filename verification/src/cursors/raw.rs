//! The cursor over the raw bytes of a response. All other cursors are built
//! on top of this one.
//!
//! The cursor waits for the response, then, if the columns are to be
//! validated, for the whole column header, and from then on it hands out the
//! body chunk by chunk and counts what it has seen. It never goes back: once
//! the body has ended or anything has failed, every further poll reports the
//! end.

use crate::bytes_ext::{bytes_from_vec, bytes_len, bytes_view, BytesExt};
use crate::columns_header::{columns_header, parse_columns_header, HeaderParse, HeaderView};
use crate::error::{truncated_header, Error, ErrorView};
use crate::response::{Chunk, ChunkView, Event, EventView, Poll};
use crate::row_metadata::{
    compatible, lemma_validate_iff_compatible, names_view, validate, RowMetadata, RowMetadataView,
};
use bytes::Bytes;
use vstd::prelude::*;
use vstd::slice::slice_to_vec;

verus! {

/// Where a raw cursor stands.
pub enum RawPhase {
    /// The response has not arrived.
    Waiting { validation: bool },
    /// The response has arrived and its column header is being put together:
    /// the bytes received so far, and what they count for.
    Header { pending: Seq<u8>, net_size: u64, data_size: u64 },
    /// The body is handed out; `terminated` once it has ended or failed.
    Loading { net_size: u64, data_size: u64, terminated: bool },
}

/// A raw cursor as a value.
pub struct RawCursorView {
    pub phase: RawPhase,
    /// The names of the fields of the row type.
    pub fields: Seq<Seq<u8>>,
    /// The validated columns, once the header has been read.
    pub row_metadata: Option<RowMetadataView>,
}

/// What a poll of a raw cursor answers, as values.
pub type RawOutput = Poll<Result<Option<Seq<u8>>, ErrorView>>;

/// A counter after `more` bytes have been added to it. It stops at the
/// largest value that it can hold.
pub open spec fn grow(total: u64, more: nat) -> u64 {
    if total + more > u64::MAX {
        u64::MAX
    } else {
        (total + more) as u64
    }
}

/// The cursor at its end, having counted `net_size` and `data_size`.
pub open spec fn ended(c: RawCursorView, net_size: u64, data_size: u64) -> RawCursorView {
    RawCursorView { phase: RawPhase::Loading { net_size, data_size, terminated: true }, ..c }
}

/// The cursor once the response has arrived.
pub open spec fn resolved(c: RawCursorView, validation: bool) -> RawCursorView {
    if validation {
        RawCursorView {
            phase: RawPhase::Header { pending: Seq::empty(), net_size: 0, data_size: 0 },
            ..c
        }
    } else {
        RawCursorView {
            phase: RawPhase::Loading { net_size: 0, data_size: 0, terminated: false },
            ..c
        }
    }
}

/// A chunk arrives while the header is being put together. The chunk is
/// counted and appended, and the header is read from all that has arrived.
/// If it is whole and fits the row type, the cursor goes on to the body, and
/// what the chunk holds behind the header is handed out as the first bytes of
/// the body.
pub open spec fn header_chunk(
    c: RawCursorView,
    pending: Seq<u8>,
    net_size: u64,
    data_size: u64,
    chunk: ChunkView,
) -> (RawCursorView, RawOutput) {
    let net_size = grow(net_size, chunk.net_size);
    let data_size = grow(data_size, chunk.data.len());
    let all = pending + chunk.data;
    match columns_header(all) {
        HeaderView::Incomplete => (
            RawCursorView { phase: RawPhase::Header { pending: all, net_size, data_size }, ..c },
            Poll::Pending,
        ),
        HeaderView::Malformed(e) => (
            ended(c, net_size, data_size),
            Poll::Ready(Err(ErrorView::InvalidColumnsHeader(e))),
        ),
        HeaderView::Complete { columns, len } => match validate(columns, c.fields) {
            Err(e) => (
                ended(c, net_size, data_size),
                Poll::Ready(Err(ErrorView::InvalidColumnsHeader(e))),
            ),
            Ok(meta) => (
                RawCursorView {
                    phase: RawPhase::Loading { net_size, data_size, terminated: false },
                    row_metadata: Some(meta),
                    ..c
                },
                if all.len() > len {
                    Poll::Ready(Ok(Some(all.skip(len as int))))
                } else {
                    Poll::Pending
                },
            ),
        },
    }
}

/// An event arrives while the header is being put together.
pub open spec fn header_step(
    c: RawCursorView,
    pending: Seq<u8>,
    net_size: u64,
    data_size: u64,
    event: EventView,
) -> (RawCursorView, RawOutput) {
    match event {
        EventView::Resolved => (c, Poll::Pending),
        EventView::Chunk(chunk) => header_chunk(c, pending, net_size, data_size, chunk),
        EventView::End => (ended(c, net_size, data_size), Poll::Ready(Err(truncated_header()))),
        EventView::Failed(e) => (ended(c, net_size, data_size), Poll::Ready(Err(e))),
    }
}

/// An event arrives while the body is handed out.
pub open spec fn loading_step(
    c: RawCursorView,
    net_size: u64,
    data_size: u64,
    terminated: bool,
    event: EventView,
) -> (RawCursorView, RawOutput) {
    if terminated {
        (c, Poll::Ready(Ok(None)))
    } else {
        match event {
            EventView::Resolved => (c, Poll::Pending),
            EventView::Chunk(chunk) => (
                RawCursorView {
                    phase: RawPhase::Loading {
                        net_size: grow(net_size, chunk.net_size),
                        data_size: grow(data_size, chunk.data.len()),
                        terminated: false,
                    },
                    ..c
                },
                Poll::Ready(Ok(Some(chunk.data))),
            ),
            EventView::End => (ended(c, net_size, data_size), Poll::Ready(Ok(None))),
            EventView::Failed(e) => (ended(c, net_size, data_size), Poll::Ready(Err(e))),
        }
    }
}

/// An event arrives at a cursor that is not waiting for the response any
/// more.
pub open spec fn body_step(c: RawCursorView, event: EventView) -> (RawCursorView, RawOutput) {
    match c.phase {
        RawPhase::Header { pending, net_size, data_size } => header_step(
            c,
            pending,
            net_size,
            data_size,
            event,
        ),
        RawPhase::Loading { net_size, data_size, terminated } => loading_step(
            c,
            net_size,
            data_size,
            terminated,
            event,
        ),
        RawPhase::Waiting { .. } => (c, Poll::Pending),
    }
}

/// The cursor after an event, and what it answers. A failure while the
/// response is awaited ends the cursor with nothing counted. A piece of the
/// body can only come from a response that has arrived, so it is taken as
/// the news of that, too.
pub open spec fn raw_step(c: RawCursorView, event: EventView) -> (RawCursorView, RawOutput) {
    match c.phase {
        RawPhase::Waiting { validation } => match event {
            EventView::Resolved => (resolved(c, validation), Poll::Pending),
            EventView::Failed(e) => (ended(c, 0, 0), Poll::Ready(Err(e))),
            _ => body_step(resolved(c, validation), event),
        },
        _ => body_step(c, event),
    }
}

/// The bytes received so far, as the cursor reports them: nothing while it
/// waits for the response or the header.
pub open spec fn received(c: RawCursorView) -> u64 {
    match c.phase {
        RawPhase::Loading { net_size, .. } => net_size,
        _ => 0,
    }
}

/// The bytes decoded so far, as the cursor reports them.
pub open spec fn decoded(c: RawCursorView) -> u64 {
    match c.phase {
        RawPhase::Loading { data_size, .. } => data_size,
        _ => 0,
    }
}

/// The body has ended or failed.
pub open spec fn terminated(c: RawCursorView) -> bool {
    c.phase matches RawPhase::Loading { terminated, .. } && terminated
}

/// What a poll answers, as values.
pub open spec fn output_view(output: Poll<Result<Option<Bytes>, Error>>) -> RawOutput {
    match output {
        Poll::Pending => Poll::Pending,
        Poll::Ready(Ok(None)) => Poll::Ready(Ok(None)),
        Poll::Ready(Ok(Some(data))) => Poll::Ready(Ok(Some(bytes_view(data)))),
        Poll::Ready(Err(e)) => Poll::Ready(Err(e@)),
    }
}

/// No event makes a counter smaller, brings a cursor back from its end, or
/// changes the fields of the row type; and validated columns stay.
pub proof fn lemma_raw_step_monotonic(c: RawCursorView, event: EventView)
    ensures
        received(raw_step(c, event).0) >= received(c),
        decoded(raw_step(c, event).0) >= decoded(c),
        terminated(c) ==> raw_step(c, event) == (
            c,
            Poll::<Result<Option<Seq<u8>>, ErrorView>>::Ready(Ok(None)),
        ),
        raw_step(c, event).0.fields == c.fields,
        c.phase is Loading ==> raw_step(c, event).0.phase is Loading && raw_step(
            c,
            event,
        ).0.row_metadata == c.row_metadata,
        raw_step(c, event).1 matches Poll::Ready(Err(_)) ==> terminated(raw_step(c, event).0),
{
}

/// Columns that do not fit the row type end the cursor with an error about
/// the header: nothing is handed out, and no columns are kept.
pub proof fn lemma_unfit_columns_are_refused(
    c: RawCursorView,
    pending: Seq<u8>,
    net_size: u64,
    data_size: u64,
    chunk: ChunkView,
)
    requires
        columns_header(pending + chunk.data) matches HeaderView::Complete { columns, .. }
            && !compatible(columns, c.fields),
    ensures
        ({
            let (after, output) = header_chunk(c, pending, net_size, data_size, chunk);
            &&& output matches Poll::Ready(Err(ErrorView::InvalidColumnsHeader(_)))
            &&& terminated(after)
            &&& after.row_metadata == c.row_metadata
        }),
{
    let columns = columns_header(pending + chunk.data)->Complete_columns;
    lemma_validate_iff_compatible(columns, c.fields);
}

/// The cursor waits: for the response, or, the response being there, for
/// the rest of its column header. The counters are those of the chunks that
/// have arrived for the header.
#[derive(Clone, Copy)]
enum RawCursorWaiting {
    Response { validation: bool },
    Header { net_size: u64, data_size: u64 },
}

/// The cursor hands out the body; `terminated` once the body has ended or
/// failed.
#[derive(Clone, Copy)]
struct RawCursorLoading {
    net_size: u64,
    data_size: u64,
    terminated: bool,
}

#[derive(Clone, Copy)]
enum RawCursorState {
    Waiting(RawCursorWaiting),
    Loading(RawCursorLoading),
}

/// A cursor over raw bytes of a query response.
pub struct RawCursor {
    state: RawCursorState,
    /// What has arrived of the response while its header is incomplete.
    pending: BytesExt,
    fields: Vec<Vec<u8>>,
    row_metadata: Option<RowMetadata>,
}

impl View for RawCursor {
    type V = RawCursorView;

    closed spec fn view(&self) -> RawCursorView {
        RawCursorView {
            phase: match self.state {
                RawCursorState::Waiting(RawCursorWaiting::Response { validation }) => {
                    RawPhase::Waiting { validation }
                },
                RawCursorState::Waiting(RawCursorWaiting::Header { net_size, data_size }) => {
                    RawPhase::Header { pending: self.pending@, net_size, data_size }
                },
                RawCursorState::Loading(l) => RawPhase::Loading {
                    net_size: l.net_size,
                    data_size: l.data_size,
                    terminated: l.terminated,
                },
            },
            fields: names_view(self.fields@),
            row_metadata: match self.row_metadata {
                Some(meta) => Some(meta@),
                None => None,
            },
        }
    }
}

/// Adds to a counter, which stops at the largest value that it can hold.
fn count(total: u64, more: usize) -> (sum: u64)
    ensures
        sum == grow(total, more as nat),
{
    total.saturating_add(more as u64)
}

impl RawCursor {
    /// A cursor that waits for the response. With `validation` it reads the
    /// column header first and checks its columns against `fields`, the names
    /// of the fields of the row type; without, it takes the whole body for
    /// rows.
    pub fn new(validation: bool, fields: Vec<Vec<u8>>) -> (cursor: Self)
        ensures
            cursor@ == (RawCursorView {
                phase: RawPhase::Waiting { validation },
                fields: names_view(fields@),
                row_metadata: None,
            }),
    {
        RawCursor {
            state: RawCursorState::Waiting(RawCursorWaiting::Response { validation }),
            pending: BytesExt::new(),
            fields,
            row_metadata: None,
        }
    }

    /// Takes the next event and answers with the next bytes of the body
    /// (`Some`), with its end (`None`), with an error, or with the need for
    /// another event.
    pub fn poll_next(&mut self, event: Event) -> (output: Poll<Result<Option<Bytes>, Error>>)
        ensures
            (final(self)@, output_view(output)) == raw_step(old(self)@, event@),
            received(final(self)@) >= received(old(self)@),
            decoded(final(self)@) >= decoded(old(self)@),
    {
        match self.state {
            RawCursorState::Waiting(state) => self.poll_resolve(state, event),
            RawCursorState::Loading(state) => self.poll_loading(state, event),
        }
    }

    /// Takes an event while the body is handed out.
    fn poll_loading(&mut self, state: RawCursorLoading, event: Event) -> (output: Poll<
        Result<Option<Bytes>, Error>,
    >)
        requires
            old(self).state == RawCursorState::Loading(state),
        ensures
            (final(self)@, output_view(output)) == body_step(old(self)@, event@),
            final(self)@.phase is Loading,
    {
        if state.terminated {
            return Poll::Ready(Ok(None));
        }
        match event {
            Event::Resolved => Poll::Pending,
            Event::Chunk(chunk) => {
                self.state = RawCursorState::Loading(
                    RawCursorLoading {
                        net_size: count(state.net_size, chunk.net_size),
                        data_size: count(state.data_size, bytes_len(&chunk.data)),
                        terminated: false,
                    },
                );
                Poll::Ready(Ok(Some(chunk.data)))
            },
            Event::End => {
                self.terminate(state.net_size, state.data_size);
                Poll::Ready(Ok(None))
            },
            Event::Failed(e) => {
                self.terminate(state.net_size, state.data_size);
                Poll::Ready(Err(e))
            },
        }
    }

    /// Ends the cursor, `net_size` and `data_size` counted.
    fn terminate(&mut self, net_size: u64, data_size: u64)
        ensures
            final(self)@ == ended(old(self)@, net_size, data_size),
    {
        self.state = RawCursorState::Loading(
            RawCursorLoading { net_size, data_size, terminated: true },
        );
    }

    /// Takes an event while the response or its column header is awaited.
    fn poll_resolve(&mut self, state: RawCursorWaiting, event: Event) -> (output: Poll<
        Result<Option<Bytes>, Error>,
    >)
        requires
            old(self).state == RawCursorState::Waiting(state),
        ensures
            (final(self)@, output_view(output)) == raw_step(old(self)@, event@),
    {
        let (net_size, data_size) = match state {
            RawCursorWaiting::Header { net_size, data_size } => (net_size, data_size),
            RawCursorWaiting::Response { validation } => {
                if let Event::Failed(e) = event {
                    // The state is replaced even so: the cursor stays at its end.
                    self.terminate(0, 0);
                    return Poll::Ready(Err(e));
                }
                if !validation {
                    let state = RawCursorLoading { net_size: 0, data_size: 0, terminated: false };
                    self.state = RawCursorState::Loading(state);
                    return self.poll_loading(state, event);
                }
                self.pending = BytesExt::new();
                self.state = RawCursorState::Waiting(
                    RawCursorWaiting::Header { net_size: 0, data_size: 0 },
                );
                (0, 0)
            },
        };
        match event {
            Event::Resolved => Poll::Pending,
            Event::Chunk(chunk) => self.parse_row_metadata(net_size, data_size, chunk),
            Event::End => {
                self.terminate(net_size, data_size);
                Poll::Ready(Err(Error::truncated_header()))
            },
            Event::Failed(e) => {
                self.terminate(net_size, data_size);
                Poll::Ready(Err(e))
            },
        }
    }

    /// Takes a chunk while the column header is awaited.
    fn parse_row_metadata(&mut self, net_size: u64, data_size: u64, chunk: Chunk) -> (output: Poll<
        Result<Option<Bytes>, Error>,
    >)
        requires
            old(self)@.phase == (RawPhase::Header {
                pending: old(self).pending@,
                net_size,
                data_size,
            }),
        ensures
            (final(self)@, output_view(output)) == header_chunk(
                old(self)@,
                old(self).pending@,
                net_size,
                data_size,
                chunk@,
            ),
    {
        let net_size = count(net_size, chunk.net_size);
        let data_size = count(data_size, bytes_len(&chunk.data));
        self.pending.extend(chunk.data);
        match parse_columns_header(self.pending.slice()) {
            HeaderParse::Incomplete => {
                // Perhaps the header comes in multiple chunks.
                self.state = RawCursorState::Waiting(
                    RawCursorWaiting::Header { net_size, data_size },
                );
                Poll::Pending
            },
            HeaderParse::Malformed(e) => {
                self.terminate(net_size, data_size);
                Poll::Ready(Err(Error::InvalidColumnsHeader(e)))
            },
            HeaderParse::Complete { columns, len } => {
                match RowMetadata::new_for_cursor(columns, &self.fields) {
                    Err(e) => {
                        self.terminate(net_size, data_size);
                        Poll::Ready(Err(Error::InvalidColumnsHeader(e)))
                    },
                    Ok(row_metadata) => {
                        self.pending.advance(len);
                        let remaining_data = if self.pending.remaining() > 0 {
                            Poll::Ready(
                                Ok(Some(bytes_from_vec(slice_to_vec(self.pending.slice())))),
                            )
                        } else {
                            Poll::Pending
                        };
                        self.pending = BytesExt::new();
                        self.row_metadata = Some(row_metadata);
                        self.state = RawCursorState::Loading(
                            RawCursorLoading { net_size, data_size, terminated: false },
                        );
                        remaining_data
                    },
                }
            },
        }
    }

    /// The columns of the result, once a header has been read and accepted.
    pub fn row_metadata(&self) -> (metadata: Option<&RowMetadata>)
        ensures
            match metadata {
                Some(meta) => self@.row_metadata == Some(meta@),
                None => self@.row_metadata is None,
            },
    {
        self.row_metadata.as_ref()
    }

    /// The number of bytes received on the wire since the body began; nothing
    /// before that.
    pub fn received_bytes(&self) -> (n: u64)
        ensures
            n == received(self@),
    {
        match self.state {
            RawCursorState::Loading(state) => state.net_size,
            RawCursorState::Waiting(_) => 0,
        }
    }

    /// The number of bytes after decompression since the body began; nothing
    /// before that.
    pub fn decoded_bytes(&self) -> (n: u64)
        ensures
            n == decoded(self@),
    {
        match self.state {
            RawCursorState::Loading(state) => state.data_size,
            RawCursorState::Waiting(_) => 0,
        }
    }

    /// Whether the body has ended or failed.
    pub fn is_terminated(&self) -> (b: bool)
        ensures
            b == terminated(self@),
    {
        match self.state {
            RawCursorState::Loading(state) => state.terminated,
            RawCursorState::Waiting(_) => false,
        }
    }
}

} // verus!
