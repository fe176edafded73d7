//! What can go wrong while a response is read.

use crate::columns_header::HeaderError;
use vstd::prelude::*;

verus! {

/// An error of a cursor. Every one of them is final: the cursor that reports
/// it is at its end.
#[derive(Debug, Clone, PartialEq, Eq)]
pub enum Error {
    /// The transport failed, before or while the response body arrived.
    Network(String),
    /// The response is not what a query's response can be.
    BadResponse(String),
    /// The column header is malformed, or its columns do not fit the row type.
    InvalidColumnsHeader(HeaderError),
    /// The response ended inside a row.
    NotEnoughData,
    /// A row could not be decoded.
    Custom(String),
}

/// An error as a value.
pub enum ErrorView {
    Network(Seq<char>),
    BadResponse(Seq<char>),
    InvalidColumnsHeader(HeaderError),
    NotEnoughData,
    Custom(Seq<char>),
}

impl View for Error {
    type V = ErrorView;

    open spec fn view(&self) -> ErrorView {
        match *self {
            Error::Network(m) => ErrorView::Network(m@),
            Error::BadResponse(m) => ErrorView::BadResponse(m@),
            Error::InvalidColumnsHeader(e) => ErrorView::InvalidColumnsHeader(e),
            Error::NotEnoughData => ErrorView::NotEnoughData,
            Error::Custom(m) => ErrorView::Custom(m@),
        }
    }
}

/// The error of a response that ends before its column header does.
pub open spec fn truncated_header() -> ErrorView {
    ErrorView::BadResponse("Could not read columns header"@)
}

/// The error of a row decoder that claims more bytes than it was given.
pub open spec fn row_overrun() -> ErrorView {
    ErrorView::Custom("a row cannot be longer than the bytes it was decoded from"@)
}

impl Error {
    /// The error of a response that ends before its column header does.
    pub fn truncated_header() -> (e: Error)
        ensures
            e@ == truncated_header(),
    {
        Error::BadResponse("Could not read columns header".to_owned())
    }

    /// The error of a row decoder that claims more bytes than it was given.
    pub fn row_overrun() -> (e: Error)
        ensures
            e@ == row_overrun(),
    {
        Error::Custom("a row cannot be longer than the bytes it was decoded from".to_owned())
    }
}

} // verus!
