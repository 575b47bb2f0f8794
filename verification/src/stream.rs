//! Lazy byte streams over a file handle: the whole file, one bounded range
//! after a seek, or several ranges rendered as a multipart/byteranges body
//! with its exact length computed in advance.
//!
//! The structs hold the decision state (how much remains, whether a seek is
//! pending, which range is next); an asynchronous driver performs the reads
//! and seeks and feeds their results back. For the in-memory backend the
//! whole body can be produced directly, verified against the same
//! specifications.

use vstd::prelude::*;

use crate::range::ByteRange;
use crate::util::{dec_bytes, u64_to_dec, append_bytes};
use crate::vfs::MemoryFile;
use vstd::string::StringSliceAdditionalSpecFns;

verus! {

/// The size of the reusable read buffer a driver should use per pull.
pub const BUF_SIZE: usize = 8 * 1024;

/// The bytes still to come from a plain stream over `data` at position
/// `pos` with `remaining` bytes allowed: up to the end of the data or the
/// remaining budget, whichever is shorter.
pub open spec fn bytes_left(data: Seq<u8>, pos: int, remaining: int) -> Seq<u8> {
    if pos > data.len() {
        Seq::empty()
    } else {
        data.subrange(pos, pos + vstd::math::min(remaining, data.len() - pos))
    }
}

/// A stream of byte chunks over a file, reading at most `remaining` more
/// bytes, at most `BUF_SIZE` per pull. An empty read ends the stream.
pub struct FileBytesStream<F> {
    /// The file handle; owned exclusively by the stream.
    pub file: F,
    /// How many bytes may still be read.
    pub remaining: u64,
}

impl<F> FileBytesStream<F> {
    /// A stream over the whole file.
    pub fn new(file: F) -> (r: Self)
        ensures
            r.file == file,
            r.remaining == u64::MAX,
    {
        FileBytesStream { file, remaining: u64::MAX }
    }

    /// A stream reading at most `limit` bytes.
    pub fn new_with_limit(file: F, limit: u64) -> (r: Self)
        ensures
            r.file == file,
            r.remaining == limit,
    {
        FileBytesStream { file, remaining: limit }
    }

    /// How many bytes the next pull may read: the remaining budget capped
    /// by the buffer size.
    pub fn max_chunk_len(&self) -> (n: usize)
        ensures
            n == vstd::math::min(self.remaining as int, BUF_SIZE as int),
    {
        if self.remaining < BUF_SIZE as u64 {
            self.remaining as usize
        } else {
            BUF_SIZE
        }
    }

    /// Record that a pull read `n` bytes.
    pub fn note_read(&mut self, n: usize)
        requires
            n <= vstd::math::min(old(self).remaining as int, BUF_SIZE as int),
        ensures
            final(self).file == old(self).file,
            final(self).remaining == old(self).remaining - n,
    {
        self.remaining = self.remaining - n as u64;
    }
}

impl FileBytesStream<MemoryFile> {
    /// Produce the whole rest of the stream at once.
    #[verifier::loop_isolation(false)]
    pub fn drain(self) -> (r: Vec<u8>)
        ensures
            r@ == bytes_left(self.file.data@, self.file.pos as int, self.remaining as int),
    {
        let FileBytesStream { mut file, mut remaining } = self;
        let ghost target = bytes_left(file.data@, file.pos as int, remaining as int);
        let mut out: Vec<u8> = Vec::new();
        proof {
            assert(out@ + bytes_left(file.data@, file.pos as int, remaining as int) =~= target);
        }
        loop
            invariant
                out@ + bytes_left(file.data@, file.pos as int, remaining as int) == target,
            decreases remaining,
        {
            let max_len = if remaining < BUF_SIZE as u64 {
                remaining as usize
            } else {
                BUF_SIZE
            };
            let ghost pos0 = file.pos as int;
            let ghost rem0 = remaining as int;
            let ghost data = file.data@;
            let chunk = file.read_at(max_len);
            if chunk.len() == 0 {
                proof {
                    if pos0 <= data.len() {
                        let amt = vstd::math::min(data.len() - pos0, max_len as int);
                        assert(amt == 0);
                        assert(bytes_left(data, pos0, rem0) =~= Seq::<u8>::empty());
                    }
                    assert(out@ =~= target);
                }
                return out;
            }
            proof {
                let amt = vstd::math::min(data.len() - pos0, max_len as int);
                assert(chunk@.len() == amt);
                let m = vstd::math::min(rem0, data.len() - pos0);
                assert(amt <= m);
                assert(bytes_left(data, pos0, rem0) =~= data.subrange(pos0, pos0 + amt)
                    + data.subrange(pos0 + amt, pos0 + m));
                assert(data.subrange(pos0 + amt, pos0 + m) =~= bytes_left(
                    data,
                    pos0 + amt,
                    rem0 - amt,
                ));
            }
            let n = chunk.len();
            let ghost prev = out@;
            append_bytes(&mut out, &chunk);
            remaining = remaining - n as u64;
            proof {
                assert(out@ + bytes_left(file.data@, file.pos as int, remaining as int) =~= target);
            }
        }
    }
}

/// The progress of the one seek a range-bounded stream performs before its
/// first read; seeking itself may suspend, so it is a state of its own.
#[derive(Clone, Copy, Debug, PartialEq, Eq, Structural)]
pub enum FileSeekState {
    /// The seek has not been issued yet.
    NeedSeek,
    /// The seek was issued and has not completed.
    Seeking,
    /// The seek completed; reads may proceed.
    Reading,
}

/// A stream of byte chunks over one range of a file: exactly one seek to
/// the range's start, then a bounded read sequence.
pub struct FileBytesStreamRange<F> {
    /// The bounded stream that reads after the seek.
    pub file_stream: FileBytesStream<F>,
    /// Where the initial seek stands.
    pub seek_state: FileSeekState,
    /// The offset the initial seek moves to.
    pub start_offset: u64,
}

impl<F> FileBytesStreamRange<F> {
    /// A stream over one range of the file.
    pub fn new(file: F, range: ByteRange) -> (r: Self)
        ensures
            r.file_stream.file == file,
            r.file_stream.remaining == range.length,
            r.seek_state == FileSeekState::NeedSeek,
            r.start_offset == range.start,
    {
        FileBytesStreamRange {
            file_stream: FileBytesStream::new_with_limit(file, range.length),
            seek_state: FileSeekState::NeedSeek,
            start_offset: range.start,
        }
    }

    fn without_initial_range(file: F) -> (r: Self)
        ensures
            r.file_stream.file == file,
            r.file_stream.remaining == 0,
            r.seek_state == FileSeekState::NeedSeek,
            r.start_offset == 0,
    {
        FileBytesStreamRange {
            file_stream: FileBytesStream::new_with_limit(file, 0),
            seek_state: FileSeekState::NeedSeek,
            start_offset: 0,
        }
    }

    /// Whether the initial seek still has to be issued.
    pub fn needs_seek(&self) -> (r: bool)
        ensures
            r == (self.seek_state == FileSeekState::NeedSeek),
    {
        match self.seek_state {
            FileSeekState::NeedSeek => true,
            _ => false,
        }
    }

    /// Whether the stream is waiting for an issued seek to complete.
    pub fn is_seeking(&self) -> (r: bool)
        ensures
            r == (self.seek_state == FileSeekState::Seeking),
    {
        match self.seek_state {
            FileSeekState::Seeking => true,
            _ => false,
        }
    }

    /// Issue the seek: the driver must move the file to the returned
    /// offset and report completion with `seek_done`.
    pub fn begin_seek(&mut self) -> (offset: u64)
        requires
            old(self).seek_state == FileSeekState::NeedSeek,
        ensures
            final(self).seek_state == FileSeekState::Seeking,
            final(self).file_stream == old(self).file_stream,
            final(self).start_offset == old(self).start_offset,
            offset == old(self).start_offset,
    {
        self.seek_state = FileSeekState::Seeking;
        self.start_offset
    }

    /// The issued seek completed; reads may proceed.
    pub fn seek_done(&mut self)
        requires
            old(self).seek_state == FileSeekState::Seeking,
        ensures
            final(self).seek_state == FileSeekState::Reading,
            final(self).file_stream == old(self).file_stream,
            final(self).start_offset == old(self).start_offset,
    {
        self.seek_state = FileSeekState::Reading;
    }
}

impl FileBytesStreamRange<MemoryFile> {
    /// Produce the whole range at once: the seek, then every chunk.
    pub fn drain(self) -> (r: Vec<u8>)
        requires
            self.seek_state == FileSeekState::NeedSeek,
        ensures
            r@ == bytes_left(
                self.file_stream.file.data@,
                self.start_offset as int,
                self.file_stream.remaining as int,
            ),
    {
        let FileBytesStreamRange { mut file_stream, seek_state: _, start_offset } = self;
        file_stream.file.seek_to(start_offset);
        file_stream.drain()
    }
}

/// The bytes `\r\n`.
pub open spec fn crlf() -> Seq<u8> {
    seq![0x0du8, 0x0au8]
}

/// The bytes `--`.
pub open spec fn dashes() -> Seq<u8> {
    seq![0x2du8, 0x2du8]
}

/// The bytes of `Content-Range: bytes `.
pub open spec fn content_range_label() -> Seq<u8> {
    seq![
        0x43u8,
        0x6fu8,
        0x6eu8,
        0x74u8,
        0x65u8,
        0x6eu8,
        0x74u8,
        0x2du8,
        0x52u8,
        0x61u8,
        0x6eu8,
        0x67u8,
        0x65u8,
        0x3au8,
        0x20u8,
        0x62u8,
        0x79u8,
        0x74u8,
        0x65u8,
        0x73u8,
        0x20u8,
    ]
}

/// The bytes of `Content-Type: `.
pub open spec fn content_type_label() -> Seq<u8> {
    seq![
        0x43u8,
        0x6fu8,
        0x6eu8,
        0x74u8,
        0x65u8,
        0x6eu8,
        0x74u8,
        0x2du8,
        0x54u8,
        0x79u8,
        0x70u8,
        0x65u8,
        0x3au8,
        0x20u8,
    ]
}

/// The optional `Content-Type` line of a part header.
pub open spec fn multipart_ct_part(content_type: Seq<u8>) -> Seq<u8> {
    if content_type.len() > 0 {
        content_type_label() + content_type + crlf()
    } else {
        Seq::<u8>::empty()
    }
}

/// The header block written before one range's bytes: the boundary line,
/// the part's `Content-Range`, the optional `Content-Type`, and a blank
/// line. Parts after the first are preceded by `\r\n`.
pub open spec fn multipart_header_spec(
    boundary: Seq<u8>,
    content_type: Seq<u8>,
    range: ByteRange,
    is_first: bool,
    file_length: u64,
) -> Seq<u8> {
    (if is_first {
        Seq::<u8>::empty()
    } else {
        crlf()
    }) + dashes() + boundary + crlf() + content_range_label() + dec_bytes(range.start as nat)
        + seq![0x2du8] + dec_bytes((range.start + range.length - 1) as nat) + seq![0x2fu8]
        + dec_bytes(file_length as nat) + crlf() + multipart_ct_part(content_type) + crlf()
}

/// The closing boundary line `\r\n--boundary--\r\n`.
pub open spec fn multipart_end_spec(boundary: Seq<u8>) -> Seq<u8> {
    crlf() + dashes() + boundary + dashes() + crlf()
}

/// Ranges a multipart body can be rendered for: each non-empty and wholly
/// inside the file.
pub open spec fn ranges_valid(ranges: Seq<ByteRange>, size: u64) -> bool {
    forall|i: int|
        0 <= i < ranges.len() ==> (#[trigger] ranges[i]).length >= 1 && ranges[i].start
            + ranges[i].length <= size
}

/// The rendered parts from `ranges` on: each part's header, then its bytes.
pub open spec fn multipart_parts_spec(
    content: Seq<u8>,
    ranges: Seq<ByteRange>,
    boundary: Seq<u8>,
    content_type: Seq<u8>,
    file_length: u64,
    is_first: bool,
) -> Seq<u8>
    decreases ranges.len(),
{
    if ranges.len() == 0 {
        Seq::<u8>::empty()
    } else {
        multipart_header_spec(boundary, content_type, ranges[0], is_first, file_length)
            + bytes_left(content, ranges[0].start as int, ranges[0].length as int)
            + multipart_parts_spec(
            content,
            ranges.skip(1),
            boundary,
            content_type,
            file_length,
            false,
        )
    }
}

/// The whole rendered multipart/byteranges body.
pub open spec fn multipart_body_spec(
    content: Seq<u8>,
    ranges: Seq<ByteRange>,
    boundary: Seq<u8>,
    content_type: Seq<u8>,
    file_length: u64,
) -> Seq<u8> {
    multipart_parts_spec(content, ranges, boundary, content_type, file_length, true)
        + multipart_end_spec(boundary)
}

/// The length of the rendered parts, computed from the ranges alone.
pub open spec fn multipart_parts_len(
    ranges: Seq<ByteRange>,
    boundary: Seq<u8>,
    content_type: Seq<u8>,
    file_length: u64,
    is_first: bool,
) -> int
    decreases ranges.len(),
{
    if ranges.len() == 0 {
        0
    } else {
        multipart_header_spec(boundary, content_type, ranges[0], is_first, file_length).len()
            + ranges[0].length + multipart_parts_len(
            ranges.skip(1),
            boundary,
            content_type,
            file_length,
            false,
        )
    }
}

/// The exact length of the whole multipart body, from the ranges alone.
pub open spec fn multipart_len_spec(
    ranges: Seq<ByteRange>,
    boundary: Seq<u8>,
    content_type: Seq<u8>,
    file_length: u64,
) -> int {
    multipart_parts_len(ranges, boundary, content_type, file_length, true) + multipart_end_spec(
        boundary,
    ).len()
}

pub(crate) proof fn lemma_multipart_parts_len_nonneg(
    ranges: Seq<ByteRange>,
    boundary: Seq<u8>,
    content_type: Seq<u8>,
    file_length: u64,
    is_first: bool,
)
    ensures
        multipart_parts_len(ranges, boundary, content_type, file_length, is_first) >= 0,
    decreases ranges.len(),
{
    if ranges.len() > 0 {
        lemma_multipart_parts_len_nonneg(ranges.skip(1), boundary, content_type, file_length, false);
    }
}

proof fn lemma_multipart_parts_len_is_spec_len(
    content: Seq<u8>,
    ranges: Seq<ByteRange>,
    boundary: Seq<u8>,
    content_type: Seq<u8>,
    file_length: u64,
    is_first: bool,
)
    requires
        ranges_valid(ranges, file_length),
        content.len() == file_length,
    ensures
        multipart_parts_spec(content, ranges, boundary, content_type, file_length, is_first).len()
            == multipart_parts_len(ranges, boundary, content_type, file_length, is_first),
    decreases ranges.len(),
{
    if ranges.len() > 0 {
        assert(ranges_valid(ranges.skip(1), file_length)) by {
            assert forall|i: int| 0 <= i < ranges.skip(1).len() implies (#[trigger] ranges.skip(
                1,
            )[i]).length >= 1 && ranges.skip(1)[i].start + ranges.skip(1)[i].length
                <= file_length by {
                assert(ranges.skip(1)[i] == ranges[i + 1]);
            }
        }
        lemma_multipart_parts_len_is_spec_len(
            content,
            ranges.skip(1),
            boundary,
            content_type,
            file_length,
            false,
        );
        assert(ranges[0].length >= 1 && ranges[0].start + ranges[0].length <= file_length);
        assert(bytes_left(content, ranges[0].start as int, ranges[0].length as int).len()
            == ranges[0].length);
    }
}

/// The law the exact `Content-Length` of a multipart response rests on:
/// for any file content of the declared length, the length computed in
/// advance from the ranges equals the length of the rendered body.
pub proof fn lemma_multipart_len_is_body_len(
    content: Seq<u8>,
    ranges: Seq<ByteRange>,
    boundary: Seq<u8>,
    content_type: Seq<u8>,
    file_length: u64,
)
    requires
        ranges_valid(ranges, file_length),
        content.len() == file_length,
    ensures
        multipart_body_spec(content, ranges, boundary, content_type, file_length).len()
            == multipart_len_spec(ranges, boundary, content_type, file_length),
{
    lemma_multipart_parts_len_is_spec_len(content, ranges, boundary, content_type, file_length, true);
}

fn push_content_range_label(out: &mut Vec<u8>)
    ensures
        final(out)@ == old(out)@ + content_range_label(),
{
    out.push(0x43);
    out.push(0x6f);
    out.push(0x6e);
    out.push(0x74);
    out.push(0x65);
    out.push(0x6e);
    out.push(0x74);
    out.push(0x2d);
    out.push(0x52);
    out.push(0x61);
    out.push(0x6e);
    out.push(0x67);
    out.push(0x65);
    out.push(0x3a);
    out.push(0x20);
    out.push(0x62);
    out.push(0x79);
    out.push(0x74);
    out.push(0x65);
    out.push(0x73);
    out.push(0x20);
    proof {
        assert(out@ =~= old(out)@ + content_range_label());
    }
}

fn push_content_type_label(out: &mut Vec<u8>)
    ensures
        final(out)@ == old(out)@ + content_type_label(),
{
    out.push(0x43);
    out.push(0x6f);
    out.push(0x6e);
    out.push(0x74);
    out.push(0x65);
    out.push(0x6e);
    out.push(0x74);
    out.push(0x2d);
    out.push(0x54);
    out.push(0x79);
    out.push(0x70);
    out.push(0x65);
    out.push(0x3a);
    out.push(0x20);
    proof {
        assert(out@ =~= old(out)@ + content_type_label());
    }
}

/// Render one part's header block.
pub(crate) fn render_multipart_header(
    boundary: &Vec<u8>,
    content_type: &Vec<u8>,
    range: ByteRange,
    is_first: bool,
    file_length: u64,
) -> (r: Vec<u8>)
    requires
        range.length >= 1,
        range.start + range.length <= file_length,
    ensures
        r@ == multipart_header_spec(boundary@, content_type@, range, is_first, file_length),
{
    let mut out: Vec<u8> = Vec::new();
    if !is_first {
        out.push(0x0d);
        out.push(0x0a);
    }
    let ghost first_part: Seq<u8> = if is_first {
        Seq::<u8>::empty()
    } else {
        crlf()
    };
    proof {
        assert(out@ =~= first_part);
    }
    out.push(0x2d);
    out.push(0x2d);
    proof {
        assert(out@ =~= first_part + dashes());
    }
    append_bytes(&mut out, boundary);
    out.push(0x0d);
    out.push(0x0a);
    proof {
        assert(out@ =~= first_part + dashes() + boundary@ + crlf());
    }
    push_content_range_label(&mut out);
    let sd = u64_to_dec(range.start);
    append_bytes(&mut out, &sd);
    out.push(0x2d);
    proof {
        assert(out@ =~= first_part + dashes() + boundary@ + crlf() + content_range_label()
            + dec_bytes(range.start as nat) + seq![0x2du8]);
    }
    let ed = u64_to_dec(range.start + range.length - 1);
    append_bytes(&mut out, &ed);
    out.push(0x2f);
    let fd = u64_to_dec(file_length);
    append_bytes(&mut out, &fd);
    out.push(0x0d);
    out.push(0x0a);
    let ghost head = first_part + dashes() + boundary@ + crlf() + content_range_label()
        + dec_bytes(range.start as nat) + seq![0x2du8] + dec_bytes(
        (range.start + range.length - 1) as nat,
    ) + seq![0x2fu8] + dec_bytes(file_length as nat) + crlf();
    proof {
        assert(out@ =~= head);
    }
    if content_type.len() > 0 {
        push_content_type_label(&mut out);
        append_bytes(&mut out, content_type);
        out.push(0x0d);
        out.push(0x0a);
        proof {
            assert(out@ =~= head + multipart_ct_part(content_type@));
        }
    } else {
        proof {
            assert(out@ =~= head + multipart_ct_part(content_type@));
        }
    }
    out.push(0x0d);
    out.push(0x0a);
    proof {
        assert(out@ =~= multipart_header_spec(
            boundary@,
            content_type@,
            range,
            is_first,
            file_length,
        ));
    }
    out
}

/// Render the closing boundary line.
pub(crate) fn render_multipart_header_end(boundary: &Vec<u8>) -> (r: Vec<u8>)
    ensures
        r@ == multipart_end_spec(boundary@),
{
    let mut out: Vec<u8> = Vec::new();
    out.push(0x0d);
    out.push(0x0a);
    out.push(0x2d);
    out.push(0x2d);
    append_bytes(&mut out, boundary);
    out.push(0x2d);
    out.push(0x2d);
    out.push(0x0d);
    out.push(0x0a);
    proof {
        assert(out@ =~= multipart_end_spec(boundary@));
    }
    out
}

/// What a pull from a multipart stream does next.
pub enum MultiRangeStep {
    /// Emit these bytes (a part header or the closing boundary).
    Emit(Vec<u8>),
    /// Read from the current range's stream.
    ReadRange,
    /// The body is complete.
    Done,
}

/// A stream providing several ranges of one file as a multipart/byteranges
/// body, advancing range by range and closing with the final boundary.
pub struct FileBytesStreamMultiRange<F> {
    /// The range stream serving the current part's bytes.
    pub file_range: FileBytesStreamRange<F>,
    /// The parts still to serve, in order.
    pub ranges: Vec<ByteRange>,
    /// The index of the next range to start.
    pub next_range: usize,
    /// Whether the next part header is the first (no leading `\r\n`).
    pub is_first_boundary: bool,
    /// Whether the closing boundary was emitted.
    pub completed: bool,
    /// The boundary token separating parts.
    pub boundary: Vec<u8>,
    /// The `Content-Type` repeated in each part header; empty for none.
    pub content_type: Vec<u8>,
    /// The total size of the file the ranges come from.
    pub file_length: u64,
}

impl<F> FileBytesStreamMultiRange<F> {
    /// A multipart stream over the given file, ranges and boundary.
    ///
    /// The boundary keeps the parts apart and must be unlikely to occur in
    /// the file.
    pub fn new(file: F, ranges: Vec<ByteRange>, boundary: Vec<u8>, file_length: u64) -> (r: Self)
        ensures
            r.file_range.file_stream.file == file,
            r.file_range.file_stream.remaining == 0,
            r.file_range.seek_state == FileSeekState::NeedSeek,
            r.ranges == ranges,
            r.next_range == 0,
            r.is_first_boundary,
            !r.completed,
            r.boundary == boundary,
            r.content_type@ == Seq::<u8>::empty(),
            r.file_length == file_length,
    {
        FileBytesStreamMultiRange {
            file_range: FileBytesStreamRange::without_initial_range(file),
            ranges,
            next_range: 0,
            is_first_boundary: true,
            completed: false,
            boundary,
            content_type: Vec::new(),
            file_length,
        }
    }

    /// Set the `Content-Type` repeated in each part header.
    pub fn set_content_type(&mut self, content_type: &str)
        ensures
            final(self).content_type@ == content_type.spec_bytes(),
            final(self).file_range == old(self).file_range,
            final(self).ranges == old(self).ranges,
            final(self).next_range == old(self).next_range,
            final(self).is_first_boundary == old(self).is_first_boundary,
            final(self).completed == old(self).completed,
            final(self).boundary == old(self).boundary,
            final(self).file_length == old(self).file_length,
    {
        self.content_type = vstd::slice::slice_to_vec(content_type.as_bytes());
    }

    /// The exact length of the body this stream will produce, computed in
    /// advance so the response can declare a `Content-Length`.
    #[verifier::loop_isolation(false)]
    pub fn compute_length(&self) -> (r: u64)
        requires
            ranges_valid(self.ranges@, self.file_length),
            multipart_len_spec(self.ranges@, self.boundary@, self.content_type@, self.file_length)
                <= u64::MAX,
        ensures
            r as int == multipart_len_spec(
                self.ranges@,
                self.boundary@,
                self.content_type@,
                self.file_length,
            ),
    {
        let ghost rangesv = self.ranges@;
        let mut total: u64 = 0;
        let mut idx: usize = 0;
        proof {
            assert(rangesv.skip(0) =~= rangesv);
        }
        while idx < self.ranges.len()
            invariant
                0 <= idx <= rangesv.len(),
                total as int + multipart_parts_len(
                    rangesv.skip(idx as int),
                    self.boundary@,
                    self.content_type@,
                    self.file_length,
                    idx == 0,
                ) == multipart_parts_len(
                    rangesv,
                    self.boundary@,
                    self.content_type@,
                    self.file_length,
                    true,
                ),
            decreases rangesv.len() - idx,
        {
            let ghost rel = rangesv.skip(idx as int);
            proof {
                assert(rel[0] == rangesv[idx as int]);
                assert(rel.skip(1) =~= rangesv.skip(idx + 1));
                lemma_multipart_parts_len_nonneg(
                    rangesv.skip(idx + 1),
                    self.boundary@,
                    self.content_type@,
                    self.file_length,
                    false,
                );
            }
            let range = self.ranges[idx];
            let header = render_multipart_header(
                &self.boundary,
                &self.content_type,
                range,
                idx == 0,
                self.file_length,
            );
            total = total + header.len() as u64;
            total = total + range.length;
            idx += 1;
        }
        proof {
            assert(rangesv.skip(rangesv.len() as int) =~= Seq::<ByteRange>::empty());
        }
        let end = render_multipart_header_end(&self.boundary);
        total + end.len() as u64
    }

    /// Decide the next step of the body: emit the next part header or the
    /// closing boundary when the current range is exhausted, read from the
    /// current range otherwise.
    pub fn advance(&mut self) -> (step: MultiRangeStep)
        requires
            ranges_valid(old(self).ranges@, old(self).file_length),
            old(self).next_range <= old(self).ranges@.len(),
        ensures
            final(self).ranges == old(self).ranges,
            final(self).boundary == old(self).boundary,
            final(self).content_type == old(self).content_type,
            final(self).file_length == old(self).file_length,
            final(self).file_range.file_stream.file == old(self).file_range.file_stream.file,
            (match step {
                MultiRangeStep::Done => old(self).completed && *final(self) == *old(self),
                MultiRangeStep::ReadRange => !old(self).completed
                    && old(self).file_range.file_stream.remaining > 0 && *final(self) == *old(self),
                MultiRangeStep::Emit(bytes) => ({
                    let pre = *old(self);
                    let post = *final(self);
                    !pre.completed && pre.file_range.file_stream.remaining == 0 && (
                    if pre.next_range == pre.ranges@.len() {
                        bytes@ == multipart_end_spec(pre.boundary@) && post.completed
                            && post.next_range == pre.next_range && post.is_first_boundary
                            == pre.is_first_boundary && post.file_range == pre.file_range
                    } else {
                        let range = pre.ranges@[pre.next_range as int];
                        pre.next_range < pre.ranges@.len() && bytes@ == multipart_header_spec(
                            pre.boundary@,
                            pre.content_type@,
                            range,
                            pre.is_first_boundary,
                            pre.file_length,
                        ) && !post.completed && post.next_range == pre.next_range + 1
                            && !post.is_first_boundary && post.file_range.seek_state
                            == FileSeekState::NeedSeek && post.file_range.start_offset
                            == range.start && post.file_range.file_stream.remaining == range.length
                    })
                }),
            }),
    {
        if self.completed {
            return MultiRangeStep::Done;
        }
        if self.file_range.file_stream.remaining == 0 {
            if self.next_range == self.ranges.len() {
                self.completed = true;
                let bytes = render_multipart_header_end(&self.boundary);
                return MultiRangeStep::Emit(bytes);
            }
            let range = self.ranges[self.next_range];
            let cur_is_first = self.is_first_boundary;
            self.is_first_boundary = false;
            self.next_range = self.next_range + 1;
            self.file_range.seek_state = FileSeekState::NeedSeek;
            self.file_range.start_offset = range.start;
            self.file_range.file_stream.remaining = range.length;
            let bytes = render_multipart_header(
                &self.boundary,
                &self.content_type,
                range,
                cur_is_first,
                self.file_length,
            );
            return MultiRangeStep::Emit(bytes);
        }
        MultiRangeStep::ReadRange
    }
}

impl FileBytesStreamMultiRange<MemoryFile> {
    /// Produce the whole multipart body at once.
    #[verifier::loop_isolation(false)]
    pub fn drain(self) -> (r: Vec<u8>)
        requires
            !self.completed,
            self.is_first_boundary,
            self.next_range == 0,
            self.file_range.file_stream.remaining == 0,
            ranges_valid(self.ranges@, self.file_length),
            self.file_range.file_stream.file.data@.len() == self.file_length,
        ensures
            r@ == multipart_body_spec(
                self.file_range.file_stream.file.data@,
                self.ranges@,
                self.boundary@,
                self.content_type@,
                self.file_length,
            ),
    {
        let data = self.file_range.file_stream.file.data;
        let ranges = self.ranges;
        let boundary = self.boundary;
        let content_type = self.content_type;
        let file_length = self.file_length;
        let ghost rangesv = ranges@;
        let ghost body = multipart_body_spec(data@, rangesv, boundary@, content_type@, file_length);
        let mut out: Vec<u8> = Vec::new();
        let mut idx: usize = 0;
        proof {
            assert(rangesv.skip(0) =~= rangesv);
            assert(out@ + multipart_parts_spec(data@, rangesv, boundary@, content_type@,
                file_length, true) + multipart_end_spec(boundary@) =~= body);
        }
        while idx < ranges.len()
            invariant
                0 <= idx <= rangesv.len(),
                out@ + multipart_parts_spec(
                    data@,
                    rangesv.skip(idx as int),
                    boundary@,
                    content_type@,
                    file_length,
                    idx == 0,
                ) + multipart_end_spec(boundary@) == body,
            decreases rangesv.len() - idx,
        {
            let ghost rel = rangesv.skip(idx as int);
            proof {
                assert(rel[0] == rangesv[idx as int]);
                assert(rel.skip(1) =~= rangesv.skip(idx + 1));
            }
            let range = ranges[idx];
            proof {
                assert(rangesv[idx as int].length >= 1 && rangesv[idx as int].start + rangesv[
                    idx as int
                ].length <= file_length);
                assert(data@.len() == file_length);
            }
            let header = render_multipart_header(
                &boundary,
                &content_type,
                range,
                idx == 0,
                file_length,
            );
            let ghost prev = out@;
            append_bytes(&mut out, &header);
            let dlen = data.len();
            proof {
                assert(dlen == data@.len());
                assert(range.start + range.length <= dlen);
            }
            let start = range.start as usize;
            let chunk = crate::util::copy_range(&data, start, start + range.length as usize);
            proof {
                assert(chunk@ =~= bytes_left(data@, range.start as int, range.length as int));
            }
            append_bytes(&mut out, &chunk);
            proof {
                assert(out@ =~= prev + (multipart_header_spec(
                    boundary@,
                    content_type@,
                    range,
                    idx == 0,
                    file_length,
                ) + bytes_left(data@, range.start as int, range.length as int)));
                assert(out@ + multipart_parts_spec(
                    data@,
                    rangesv.skip(idx + 1),
                    boundary@,
                    content_type@,
                    file_length,
                    false,
                ) + multipart_end_spec(boundary@) =~= body);
            }
            idx += 1;
        }
        proof {
            assert(rangesv.skip(rangesv.len() as int) =~= Seq::<ByteRange>::empty());
        }
        let end = render_multipart_header_end(&boundary);
        append_bytes(&mut out, &end);
        proof {
            assert(out@ =~= body);
        }
        out
    }
}

} // verus!
