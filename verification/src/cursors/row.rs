//! The cursor that emits rows.
//!
//! It keeps what has arrived of the body and is not decoded yet, and decodes
//! one row at a time from the front of that. A row may lie across any number
//! of chunks: as long as a row is incomplete nothing of it is dropped, and the
//! next attempt starts where this one did.

use crate::bytes_ext::BytesExt;
use crate::cursors::raw::{
    decoded, output_view, raw_step, received, terminated, RawCursor, RawCursorView, RawPhase,
};
use crate::error::{row_overrun, Error, ErrorView};
use crate::response::{Event, EventView, Poll};
use crate::row::{Decoded, DecodedView, RowRead};
use crate::row_metadata::{names_view, RowMetadata};
use std::marker::PhantomData;
use vstd::prelude::*;
use vstd::slice::slice_to_vec;
use vstd::utf8::encode_utf8;

verus! {

/// A row cursor as a value.
pub struct RowCursorView {
    pub raw: RawCursorView,
    /// The bytes of the body that have arrived and are not decoded yet.
    pub buffer: Seq<u8>,
}

/// What a poll of a row cursor answers, as values.
pub type RowOutput<T> = Poll<Result<Option<T>, ErrorView>>;

/// The cursor after an event, and whether the event was an error. The bytes
/// that the event brings for the body are appended to those not decoded yet.
pub open spec fn feed_step(c: RowCursorView, event: EventView) -> (
    RowCursorView,
    Result<(), ErrorView>,
) {
    let (raw, output) = raw_step(c.raw, event);
    match output {
        Poll::Ready(Ok(Some(data))) => (RowCursorView { raw, buffer: c.buffer + data }, Ok(())),
        Poll::Ready(Err(e)) => (RowCursorView { raw, buffer: c.buffer }, Err(e)),
        _ => (RowCursorView { raw, buffer: c.buffer }, Ok(())),
    }
}

/// What the cursor answers where no row can be had from the bytes that are
/// there: it needs more of the body; or, at the end of the body, it is
/// finished, unless bytes are left over, which is an error.
pub open spec fn without_row<T>(c: RowCursorView) -> RowOutput<T> {
    if !terminated(c.raw) {
        Poll::Pending
    } else if c.buffer.len() > 0 {
        Poll::Ready(Err(ErrorView::NotEnoughData))
    } else {
        Poll::Ready(Ok(None))
    }
}

/// The cursor after an attempt to decode a row from the bytes that are there,
/// and what it answers; `None` where no attempt was made. A row is handed out
/// and its bytes are consumed. A failure is handed out. Where the bytes end
/// inside a row, they all stay.
pub open spec fn settle<T>(c: RowCursorView, attempt: Option<DecodedView<T>>) -> (
    RowCursorView,
    RowOutput<T>,
) {
    match attempt {
        Some(DecodedView::Row { value, consumed }) => if consumed <= c.buffer.len() {
            (
                RowCursorView { raw: c.raw, buffer: c.buffer.skip(consumed as int) },
                Poll::Ready(Ok(Some(value))),
            )
        } else {
            (c, Poll::Ready(Err(row_overrun())))
        },
        Some(DecodedView::Failed(e)) => (c, Poll::Ready(Err(e))),
        _ => (c, without_row(c)),
    }
}

/// An attempt that asks for the next event leaves the cursor as it was:
/// giving up the wait for that event and asking again later is as if the
/// first attempt had never been made.
pub proof fn lemma_pending_changes_nothing<T>(c: RowCursorView, attempt: Option<DecodedView<T>>)
    ensures
        settle(c, attempt).1 is Pending ==> settle(c, attempt).0 == c,
        settle(c, attempt).0.raw == c.raw,
{
}

/// Once the body has ended with bytes left over, no attempt ends the rows
/// or asks for more: the attempt gives a row or an error, and where the
/// bytes are too short for a row, the error that says so.
pub proof fn lemma_leftover_is_an_error<T>(c: RowCursorView, attempt: Option<DecodedView<T>>)
    requires
        terminated(c.raw),
        c.buffer.len() > 0,
    ensures
        settle(c, attempt).1 matches Poll::Ready(answer) && !(answer matches Ok(None)),
        attempt is None || attempt == Some(DecodedView::<T>::NotEnoughData) ==> settle(c, attempt)
            == (c, Poll::<Result<Option<T>, ErrorView>>::Ready(Err(ErrorView::NotEnoughData))),
{
}

/// No event makes a counter of the cursor smaller, and no attempt to decode
/// a row changes one.
pub proof fn lemma_counters_never_shrink<T>(
    c: RowCursorView,
    event: EventView,
    attempt: Option<DecodedView<T>>,
)
    ensures
        received(feed_step(c, event).0.raw) >= received(c.raw),
        decoded(feed_step(c, event).0.raw) >= decoded(c.raw),
        received(settle(c, attempt).0.raw) == received(c.raw),
        decoded(settle(c, attempt).0.raw) == decoded(c.raw),
{
}

/// What a poll answers, as values.
pub open spec fn row_output_view<T>(output: Poll<Result<Option<T>, Error>>) -> RowOutput<T> {
    match output {
        Poll::Pending => Poll::Pending,
        Poll::Ready(Ok(row)) => Poll::Ready(Ok(row)),
        Poll::Ready(Err(e)) => Poll::Ready(Err(e@)),
    }
}

/// The bytes of each of `names`.
pub open spec fn names_bytes(names: Seq<String>) -> Seq<Seq<u8>> {
    Seq::new(names.len(), |i: int| encode_utf8(names[i]@))
}

/// The names as byte strings.
pub fn encode_names(names: &Vec<String>) -> (fields: Vec<Vec<u8>>)
    ensures
        names_view(fields@) == names_bytes(names@),
{
    let mut fields: Vec<Vec<u8>> = Vec::new();
    let mut i: usize = 0;
    while i < names.len()
        invariant
            i <= names@.len(),
            fields@.len() == i,
            forall|k: int| 0 <= k < i ==> (#[trigger] fields@[k])@ == encode_utf8(names@[k]@),
        decreases names@.len() - i,
    {
        fields.push(slice_to_vec(names[i].as_str().as_bytes()));
        i = i + 1;
    }
    assert(names_view(fields@) =~= names_bytes(names@));
    fields
}

/// A cursor that emits rows decoded from the body of a response.
pub struct RowCursor<T> {
    raw: RawCursor,
    bytes: BytesExt,
    _marker: PhantomData<T>,
}

impl<T> View for RowCursor<T> {
    type V = RowCursorView;

    closed spec fn view(&self) -> RowCursorView {
        RowCursorView { raw: self.raw@, buffer: self.bytes@ }
    }
}

impl<T: RowRead> RowCursor<T> {
    /// A cursor for rows of `T` that waits for the response, with nothing
    /// received. With `validation` the response begins with a column header,
    /// which is checked against the fields of `T`.
    pub fn new(validation: bool) -> (cursor: Self)
        ensures
            cursor@.raw.phase == (RawPhase::Waiting { validation }),
            cursor@.raw.row_metadata is None,
            cursor@.buffer == Seq::<u8>::empty(),
    {
        let names = T::column_names();
        Self::with_fields(validation, encode_names(&names))
    }

    /// A cursor as [`RowCursor::new`] makes it, for a row type with the
    /// fields of the given names.
    pub fn with_fields(validation: bool, fields: Vec<Vec<u8>>) -> (cursor: Self)
        ensures
            cursor@ == (RowCursorView {
                raw: RawCursorView {
                    phase: RawPhase::Waiting { validation },
                    fields: names_view(fields@),
                    row_metadata: None,
                },
                buffer: Seq::empty(),
            }),
    {
        RowCursor {
            raw: RawCursor::new(validation, fields),
            bytes: BytesExt::new(),
            _marker: PhantomData,
        }
    }

    /// Emits the next row, if one can be had without waiting: `Some` row,
    /// `None` at the end of the rows, an error, or the need for the next
    /// event, which [`RowCursor::feed`] takes.
    ///
    /// The row type is handed all the bytes that are there and, where the
    /// columns were validated, the columns; where no bytes are there it is not
    /// asked. Whatever it makes of the bytes, the cursor goes by [`settle`].
    /// An answer that asks for the next event leaves the cursor as it was:
    /// whoever gives up waiting for that event has lost nothing.
    pub fn next(&mut self) -> (output: Poll<Result<Option<T>, Error>>)
        ensures
            exists|attempt: Option<DecodedView<T>>|
                (attempt is Some <==> old(self)@.buffer.len() > 0) && (
                    final(self)@,
                    row_output_view(output),
                ) == #[trigger] settle(old(self)@, attempt),
            output is Pending ==> final(self)@ == old(self)@,
            final(self)@.raw == old(self)@.raw,
    {
        if self.bytes.remaining() > 0 {
            let attempt = T::decode(self.bytes.slice(), self.raw.row_metadata());
            self.conclude(Some(attempt))
        } else {
            self.conclude(None)
        }
    }

    /// Goes on from an attempt to decode a row from the bytes that are there;
    /// `None` where no attempt was made.
    pub fn conclude(&mut self, attempt: Option<Decoded<T>>) -> (output: Poll<
        Result<Option<T>, Error>,
    >)
        ensures
            (final(self)@, row_output_view(output)) == settle(
                old(self)@,
                match attempt {
                    Some(a) => Some(a@),
                    None => None,
                },
            ),
    {
        match attempt {
            Some(Decoded::Row { value, consumed }) => {
                if consumed <= self.bytes.remaining() {
                    self.bytes.advance(consumed);
                    Poll::Ready(Ok(Some(value)))
                } else {
                    Poll::Ready(Err(Error::row_overrun()))
                }
            },
            Some(Decoded::Failed(e)) => Poll::Ready(Err(e)),
            _ => {
                if !self.raw.is_terminated() {
                    Poll::Pending
                } else if self.bytes.remaining() > 0 {
                    // If some data is left, we have an incomplete row in the buffer.
                    // This is usually a schema mismatch on the client side.
                    Poll::Ready(Err(Error::NotEnoughData))
                } else {
                    Poll::Ready(Ok(None))
                }
            },
        }
    }

    /// Takes the next event from the transport. Bytes of the body are kept
    /// for [`RowCursor::next`]; an error of the transport or of the column
    /// header is handed out.
    pub fn feed(&mut self, event: Event) -> (result: Result<(), Error>)
        ensures
            final(self)@ == feed_step(old(self)@, event@).0,
            match result {
                Ok(()) => feed_step(old(self)@, event@).1 is Ok,
                Err(e) => feed_step(old(self)@, event@).1 == Err::<(), ErrorView>(e@),
            },
            received(final(self)@.raw) >= received(old(self)@.raw),
            decoded(final(self)@.raw) >= decoded(old(self)@.raw),
    {
        match self.raw.poll_next(event) {
            Poll::Ready(Ok(Some(chunk))) => {
                self.bytes.extend(chunk);
                Ok(())
            },
            Poll::Ready(Err(e)) => Err(e),
            _ => Ok(()),
        }
    }

    /// The columns of the result, once a header has been read and accepted.
    pub fn row_metadata(&self) -> (metadata: Option<&RowMetadata>)
        ensures
            match metadata {
                Some(meta) => self@.raw.row_metadata == Some(meta@),
                None => self@.raw.row_metadata is None,
            },
    {
        self.raw.row_metadata()
    }

    /// Returns the total size in bytes received from the server since the
    /// body of the response began. It counts the body only, as it came over
    /// the wire, and never gets smaller.
    pub fn received_bytes(&self) -> (n: u64)
        ensures
            n == received(self@.raw),
    {
        self.raw.received_bytes()
    }

    /// Returns the total size in bytes decompressed since the body of the
    /// response began. It never gets smaller.
    pub fn decoded_bytes(&self) -> (n: u64)
        ensures
            n == decoded(self@.raw),
    {
        self.raw.decoded_bytes()
    }
}

} // verus!
