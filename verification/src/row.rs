//! What a row type has to provide so that a cursor can produce it.

use crate::error::{Error, ErrorView};
use crate::row_metadata::RowMetadata;
use vstd::prelude::*;

verus! {

/// The outcome of one attempt to decode a row from the front of a byte slice.
#[derive(Debug, PartialEq, Eq)]
pub enum Decoded<T> {
    /// A whole row, and the number of bytes that it took.
    Row { value: T, consumed: usize },
    /// The slice ends inside the row. This is no error: more bytes may come.
    NotEnoughData,
    /// The bytes are not a row.
    Failed(Error),
}

/// The outcome of an attempt to decode a row, as a value.
pub enum DecodedView<T> {
    Row { value: T, consumed: nat },
    NotEnoughData,
    Failed(ErrorView),
}

impl<T> View for Decoded<T> {
    type V = DecodedView<T>;

    open spec fn view(&self) -> DecodedView<T> {
        match *self {
            Decoded::Row { value, consumed } => DecodedView::Row {
                value,
                consumed: consumed as nat,
            },
            Decoded::NotEnoughData => DecodedView::NotEnoughData,
            Decoded::Failed(e) => DecodedView::Failed(e@),
        }
    }
}

/// A row type that a cursor can produce.
pub trait RowRead: Sized {
    /// The names of the fields of the row type, in their order.
    fn column_names() -> Vec<String>;

    /// Attempts to decode one row from the front of `bytes`. `metadata` holds
    /// the columns that the server declared, where they were validated.
    fn decode(bytes: &[u8], metadata: Option<&RowMetadata>) -> Decoded<Self>;
}

} // verus!
