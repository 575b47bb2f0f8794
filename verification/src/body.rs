//! The response body: one of the byte streams, or nothing. A transport
//! drives the stream chunk by chunk; for the in-memory backend the whole
//! body can be produced at once, verified against the stream
//! specifications.

use vstd::prelude::*;

use crate::stream::{FileBytesStream, FileBytesStreamRange, FileBytesStreamMultiRange,
    FileSeekState, bytes_left, multipart_body_spec, ranges_valid};
use crate::vfs::MemoryFile;

verus! {

/// A response body: nothing, the whole file, one range, or several ranges
/// as a multipart/byteranges body.
pub enum Body<F> {
    /// No response body.
    Empty,
    /// Serve the complete file.
    Full(FileBytesStream<F>),
    /// Serve one range of the file.
    Range(FileBytesStreamRange<F>),
    /// Serve several ranges of the file.
    MultiRange(FileBytesStreamMultiRange<F>),
}

/// The bytes a fresh in-memory body produces in total.
pub open spec fn body_bytes(b: Body<MemoryFile>) -> Seq<u8> {
    match b {
        Body::Empty => Seq::<u8>::empty(),
        Body::Full(s) => bytes_left(s.file.data@, s.file.pos as int, s.remaining as int),
        Body::Range(r) => bytes_left(
            r.file_stream.file.data@,
            r.start_offset as int,
            r.file_stream.remaining as int,
        ),
        Body::MultiRange(m) => multipart_body_spec(
            m.file_range.file_stream.file.data@,
            m.ranges@,
            m.boundary@,
            m.content_type@,
            m.file_length,
        ),
    }
}

/// An in-memory body as a builder hands it out, before any pull.
pub open spec fn body_fresh(b: Body<MemoryFile>) -> bool {
    match b {
        Body::Empty => true,
        Body::Full(_) => true,
        Body::Range(r) => r.seek_state == FileSeekState::NeedSeek,
        Body::MultiRange(m) => !m.completed && m.is_first_boundary && m.next_range == 0
            && m.file_range.file_stream.remaining == 0 && ranges_valid(m.ranges@, m.file_length)
            && m.file_range.file_stream.file.data@.len() == m.file_length,
    }
}

impl Body<MemoryFile> {
    /// Produce the whole body at once.
    pub fn drain(self) -> (r: Vec<u8>)
        requires
            body_fresh(self),
        ensures
            r@ == body_bytes(self),
    {
        match self {
            Body::Empty => {
                let empty: Vec<u8> = Vec::new();
                proof {
                    assert(empty@ =~= Seq::<u8>::empty());
                }
                empty
            },
            Body::Full(s) => s.drain(),
            Body::Range(r) => r.drain(),
            Body::MultiRange(m) => m.drain(),
        }
    }
}

} // verus!
