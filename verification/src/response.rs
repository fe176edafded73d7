//! What the transport hands to a cursor.
//!
//! The cursors never wait. Whoever drives one waits for the response and its
//! body, and hands over each thing that arrived as an [`Event`]; the cursor
//! answers with what is ready, or that it needs the next event.

use crate::bytes_ext::bytes_view;
use crate::error::{Error, ErrorView};
use bytes::Bytes;
use vstd::prelude::*;

verus! {

/// A piece of the response body: its bytes after decompression, and the
/// number of bytes that it took on the wire.
#[derive(Debug, PartialEq, Eq)]
pub struct Chunk {
    pub data: Bytes,
    pub net_size: usize,
}

/// A chunk as a value.
pub struct ChunkView {
    pub data: Seq<u8>,
    pub net_size: nat,
}

impl View for Chunk {
    type V = ChunkView;

    open spec fn view(&self) -> ChunkView {
        ChunkView { data: bytes_view(self.data), net_size: self.net_size as nat }
    }
}

/// One thing that arrived from the transport.
#[derive(Debug, PartialEq, Eq)]
pub enum Event {
    /// The response is there; its body follows.
    Resolved,
    /// The next chunk of the body.
    Chunk(Chunk),
    /// The body is complete.
    End,
    /// The response or its body failed.
    Failed(Error),
}

/// An event as a value.
pub enum EventView {
    Resolved,
    Chunk(ChunkView),
    End,
    Failed(ErrorView),
}

impl View for Event {
    type V = EventView;

    open spec fn view(&self) -> EventView {
        match *self {
            Event::Resolved => EventView::Resolved,
            Event::Chunk(chunk) => EventView::Chunk(chunk@),
            Event::End => EventView::End,
            Event::Failed(e) => EventView::Failed(e@),
        }
    }
}

/// The answer of a cursor: a result, or the need for the next event.
#[derive(Debug, PartialEq, Eq)]
pub enum Poll<T> {
    Ready(T),
    Pending,
}

} // verus!
