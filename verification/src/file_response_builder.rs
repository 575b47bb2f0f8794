//! Building a response for a resolved file: `Last-Modified`/`ETag`
//! computation, the `If-Modified-Since` and `If-Range` conditionals, range
//! handling with exact `Content-Range`/`Content-Length` values, and the
//! choice of body stream.

use vstd::prelude::*;

use crate::body::Body;
use crate::range::{ByteRange, RangeParseError, range_header_spec};
use crate::resolve::{Encoding, Method, ResolvedFile, opt_string_view};
use crate::stream::{FileBytesStream, FileBytesStreamRange, FileBytesStreamMultiRange,
    FileSeekState, multipart_len_spec, multipart_parts_len, multipart_end_spec, ranges_valid};
use crate::util::{ascii_to_chars, ascii_string, is_ascii_seq, hex_bytes, dec_bytes, dec_chars,
    u64_to_hex, u64_to_dec, append_bytes, lemma_hex_bytes_ascii, lemma_dec_bytes_ascii};
use crate::vfs::Timespec;
use vstd::string::StringSliceAdditionalSpecFns;
use vstd::string::StringExecFns;
use vstd::utf8::encode_utf8;

verus! {

/// Modification times this close to the epoch (below two seconds) are
/// implausible — platforms report them for files with no real mtime — and
/// are treated as absent.
pub const MIN_VALID_MTIME_SECS: u64 = 2;

/// The largest modification time the HTTP date format can carry (the year
/// 9999); formatting a later one is refused by the date library.
pub const MAX_HTTP_DATE_SECS: u64 = 253402300800;

/// A protocol-neutral response: the status code, the response headers in
/// order, and the body as a lazy byte-stream description.
pub struct Response<F> {
    /// The HTTP status code.
    pub status: u16,
    /// The response headers, in the order they are emitted.
    pub headers: Vec<(String, String)>,
    /// The response body.
    pub body: Body<F>,
}

/// The view of a header list: name and value character sequences.
pub open spec fn headers_view(h: Seq<(String, String)>) -> Seq<(Seq<char>, Seq<char>)> {
    Seq::new(h.len(), |i: int| (h[i].0@, h[i].1@))
}

fn push_header(headers: &mut Vec<(String, String)>, name: &str, value: String)
    ensures
        headers_view(final(headers)@) == headers_view(old(headers)@).push((name@, value@)),
{
    let ghost prev = headers_view(headers@);
    headers.push((String::from_str(name), value));
    proof {
        assert(headers_view(headers@) =~~= prev.push((name@, value@)));
    }
}

/// A modification time the conditionals trust: present and plausibly after
/// the epoch.
pub open spec fn effective_modified(m: Option<Timespec>) -> Option<Timespec> {
    match m {
        Some(t) => if t.secs >= MIN_VALID_MTIME_SECS {
            Some(t)
        } else {
            None
        },
        None => None,
    }
}

/// The bytes of the weak ETag: size, whole seconds and nanoseconds of the
/// modification time, in lowercase hexadecimal.
pub open spec fn etag_bytes(size: u64, t: Timespec) -> Seq<u8> {
    seq![0x57u8, 0x2fu8, 0x22u8] + hex_bytes(size as nat) + seq![0x2du8] + hex_bytes(
        t.secs as nat,
    ) + seq![0x2eu8] + hex_bytes(t.nanos as nat) + seq![0x22u8]
}

/// The weak ETag as characters: `W/"size-secs.nanos"`.
pub open spec fn etag_spec(size: u64, t: Timespec) -> Seq<char> {
    ascii_to_chars(etag_bytes(size, t))
}

/// Render the weak ETag.
pub fn make_etag(size: u64, t: Timespec) -> (r: String)
    ensures
        r@ == etag_spec(size, t),
{
    let mut out: Vec<u8> = Vec::new();
    out.push(0x57);
    out.push(0x2f);
    out.push(0x22);
    let ghost head = seq![0x57u8, 0x2fu8, 0x22u8];
    proof {
        assert(out@ =~= head);
    }
    let szd = u64_to_hex(size);
    append_bytes(&mut out, &szd);
    out.push(0x2d);
    proof {
        assert(out@ =~= head + hex_bytes(size as nat) + seq![0x2du8]);
    }
    let sd = u64_to_hex(t.secs);
    append_bytes(&mut out, &sd);
    out.push(0x2e);
    let nd = u64_to_hex(t.nanos as u64);
    append_bytes(&mut out, &nd);
    out.push(0x22);
    proof {
        assert(out@ =~= etag_bytes(size, t));
        lemma_hex_bytes_ascii(size as nat);
        lemma_hex_bytes_ascii(t.secs as nat);
        lemma_hex_bytes_ascii(t.nanos as nat);
        assert(is_ascii_seq(out@));
    }
    ascii_string(out.as_slice())
}

/// The HTTP date string for a moment given in whole seconds since the
/// epoch; the wire format has second resolution.
pub uninterp spec fn http_date_of(secs: u64) -> Seq<char>;

/// Relies on `httpdate::fmt_http_date`: the IMF-fixdate rendering is a
/// function of the whole seconds alone; it refuses dates past the year
/// 9999.
#[verifier::external_body]
pub(crate) fn format_http_date(secs: u64) -> (r: String)
    requires
        secs < MAX_HTTP_DATE_SECS,
    ensures
        r@ == http_date_of(secs),
{
    httpdate::fmt_http_date(
        std::time::UNIX_EPOCH + std::time::Duration::from_secs(secs),
    )
}

/// What `httpdate::parse_http_date` yields for a header value, as whole
/// seconds since the epoch; `None` for anything it cannot parse.
pub uninterp spec fn parsed_http_date_of(s: Seq<char>) -> Option<u64>;

/// Relies on `httpdate::parse_http_date`: parsing is a function of the
/// string alone, and a parsed date is never before the epoch.
#[verifier::external_body]
fn parse_http_date(s: &str) -> (r: Option<u64>)
    ensures
        r == parsed_http_date_of(s@),
{
    match httpdate::parse_http_date(s) {
        Ok(t) => match t.duration_since(std::time::UNIX_EPOCH) {
            Ok(d) => Some(d.as_secs()),
            Err(_) => None,
        },
        Err(_) => None,
    }
}

/// A boundary byte: an ASCII digit or letter.
pub open spec fn is_boundary_byte(b: u8) -> bool {
    (0x30 <= b && b <= 0x39) || (0x41 <= b && b <= 0x5a) || (0x61 <= b && b <= 0x7a)
}

/// The length of every generated boundary token.
pub const BOUNDARY_LENGTH: usize = 60;

/// A well-formed multipart boundary: fixed length, alphanumeric ASCII, so
/// it is printable and unlikely to collide with file content.
pub open spec fn boundary_wf(b: Seq<u8>) -> bool {
    b.len() == BOUNDARY_LENGTH && (forall|i: int| 0 <= i < b.len() ==> is_boundary_byte(#[trigger] b[i]))
}

/// Relies on `rand::Rng::gen_range`: a sample of `0..n` is below `n`.
#[verifier::external_body]
fn random_below(n: usize) -> (r: usize)
    requires
        n >= 1,
    ensures
        r < n,
{
    rand::Rng::gen_range(&mut rand::thread_rng(), 0..n)
}

fn boundary_alphabet() -> (r: Vec<u8>)
    ensures
        r@.len() == 62,
        forall|i: int| 0 <= i < r@.len() ==> is_boundary_byte(#[trigger] r@[i]),
{
    let mut v: Vec<u8> = Vec::new();
    let mut c: u8 = 0x30;
    while c < 0x3a
        invariant
            0x30 <= c <= 0x3a,
            v@.len() == c - 0x30,
            forall|i: int| 0 <= i < v@.len() ==> is_boundary_byte(#[trigger] v@[i]),
        decreases 0x3a - c,
    {
        v.push(c);
        c += 1;
    }
    let mut c: u8 = 0x41;
    while c < 0x5b
        invariant
            0x41 <= c <= 0x5b,
            v@.len() == 10 + c - 0x41,
            forall|i: int| 0 <= i < v@.len() ==> is_boundary_byte(#[trigger] v@[i]),
        decreases 0x5b - c,
    {
        v.push(c);
        c += 1;
    }
    let mut c: u8 = 0x61;
    while c < 0x7b
        invariant
            0x61 <= c <= 0x7b,
            v@.len() == 36 + c - 0x61,
            forall|i: int| 0 <= i < v@.len() ==> is_boundary_byte(#[trigger] v@[i]),
        decreases 0x7b - c,
    {
        v.push(c);
        c += 1;
    }
    v
}

/// Generate a fresh boundary token: alphanumeric ASCII of fixed length.
/// Two generated boundaries need not be related in any way.
fn make_boundary() -> (r: Vec<u8>)
    ensures
        boundary_wf(r@),
{
    let alphabet = boundary_alphabet();
    let mut out: Vec<u8> = Vec::new();
    let mut i: usize = 0;
    while i < BOUNDARY_LENGTH
        invariant
            0 <= i <= BOUNDARY_LENGTH,
            out@.len() == i,
            forall|j: int| 0 <= j < out@.len() ==> is_boundary_byte(#[trigger] out@[j]),
            alphabet@.len() == 62,
            forall|j: int| 0 <= j < alphabet@.len() ==> is_boundary_byte(#[trigger] alphabet@[j]),
        decreases BOUNDARY_LENGTH - i,
    {
        let idx = random_below(alphabet.len());
        out.push(alphabet[idx]);
        i += 1;
    }
    out
}

/// The bytes of `public, max-age=`.
pub open spec fn cache_control_label() -> Seq<u8> {
    seq![
        0x70u8,
        0x75u8,
        0x62u8,
        0x6cu8,
        0x69u8,
        0x63u8,
        0x2cu8,
        0x20u8,
        0x6du8,
        0x61u8,
        0x78u8,
        0x2du8,
        0x61u8,
        0x67u8,
        0x65u8,
        0x3du8,
    ]
}

/// The `Cache-Control` value for a configured lifespan in seconds.
pub open spec fn cache_control_spec(secs: u32) -> Seq<char> {
    ascii_to_chars(cache_control_label() + dec_bytes(secs as nat))
}

fn make_cache_control(secs: u32) -> (r: String)
    ensures
        r@ == cache_control_spec(secs),
{
    let mut out: Vec<u8> = Vec::new();
    out.push(0x70);
    out.push(0x75);
    out.push(0x62);
    out.push(0x6c);
    out.push(0x69);
    out.push(0x63);
    out.push(0x2c);
    out.push(0x20);
    out.push(0x6d);
    out.push(0x61);
    out.push(0x78);
    out.push(0x2d);
    out.push(0x61);
    out.push(0x67);
    out.push(0x65);
    out.push(0x3d);
    proof {
        assert(out@ =~= cache_control_label());
    }
    let d = u64_to_dec(secs as u64);
    append_bytes(&mut out, &d);
    proof {
        assert(dec_bytes(secs as u64 as nat) == dec_bytes(secs as nat));
        lemma_dec_bytes_ascii(secs as nat);
        assert(is_ascii_seq(out@));
    }
    ascii_string(out.as_slice())
}

/// The bytes of `bytes `.
pub open spec fn bytes_label() -> Seq<u8> {
    seq![0x62u8, 0x79u8, 0x74u8, 0x65u8, 0x73u8, 0x20u8]
}

/// The `Content-Range` value for a single served range:
/// `bytes start-end/size`.
pub open spec fn content_range_spec(r: ByteRange, size: u64) -> Seq<char> {
    ascii_to_chars(
        bytes_label() + dec_bytes(r.start as nat) + seq![0x2du8] + dec_bytes(
            (r.start + r.length - 1) as nat,
        ) + seq![0x2fu8] + dec_bytes(size as nat),
    )
}

fn make_content_range(r: ByteRange, size: u64) -> (s: String)
    requires
        r.length >= 1,
        r.start + r.length <= size,
    ensures
        s@ == content_range_spec(r, size),
{
    let mut out: Vec<u8> = Vec::new();
    out.push(0x62);
    out.push(0x79);
    out.push(0x74);
    out.push(0x65);
    out.push(0x73);
    out.push(0x20);
    proof {
        assert(out@ =~= bytes_label());
    }
    let sd = u64_to_dec(r.start);
    append_bytes(&mut out, &sd);
    out.push(0x2d);
    let ed = u64_to_dec(r.start + r.length - 1);
    append_bytes(&mut out, &ed);
    out.push(0x2f);
    let zd = u64_to_dec(size);
    append_bytes(&mut out, &zd);
    proof {
        assert(out@ =~= bytes_label() + dec_bytes(r.start as nat) + seq![0x2du8] + dec_bytes(
            (r.start + r.length - 1) as nat,
        ) + seq![0x2fu8] + dec_bytes(size as nat));
        lemma_dec_bytes_ascii(r.start as nat);
        lemma_dec_bytes_ascii((r.start + r.length - 1) as nat);
        lemma_dec_bytes_ascii(size as nat);
        assert(is_ascii_seq(out@));
    }
    ascii_string(out.as_slice())
}

/// Render a number in decimal, as a string.
pub fn make_decimal(n: u64) -> (r: String)
    ensures
        r@ == dec_chars(n as nat),
{
    let d = u64_to_dec(n);
    proof {
        lemma_dec_bytes_ascii(n as nat);
    }
    ascii_string(d.as_slice())
}

/// The bytes of `multipart/byteranges; boundary=`.
pub open spec fn multipart_ct_label() -> Seq<u8> {
    seq![
        0x6du8,
        0x75u8,
        0x6cu8,
        0x74u8,
        0x69u8,
        0x70u8,
        0x61u8,
        0x72u8,
        0x74u8,
        0x2fu8,
        0x62u8,
        0x79u8,
        0x74u8,
        0x65u8,
        0x72u8,
        0x61u8,
        0x6eu8,
        0x67u8,
        0x65u8,
        0x73u8,
        0x3bu8,
        0x20u8,
        0x62u8,
        0x6fu8,
        0x75u8,
        0x6eu8,
        0x64u8,
        0x61u8,
        0x72u8,
        0x79u8,
        0x3du8,
    ]
}

/// The `Content-Type` value of a multipart response:
/// `multipart/byteranges; boundary=…`.
pub open spec fn multipart_ct_spec(boundary: Seq<u8>) -> Seq<char> {
    ascii_to_chars(multipart_ct_label() + boundary)
}

fn make_multipart_ct(boundary: &Vec<u8>) -> (r: String)
    requires
        boundary_wf(boundary@),
    ensures
        r@ == multipart_ct_spec(boundary@),
{
    let mut out: Vec<u8> = Vec::new();
    out.push(0x6d);
    out.push(0x75);
    out.push(0x6c);
    out.push(0x74);
    out.push(0x69);
    out.push(0x70);
    out.push(0x61);
    out.push(0x72);
    out.push(0x74);
    out.push(0x2f);
    out.push(0x62);
    out.push(0x79);
    out.push(0x74);
    out.push(0x65);
    out.push(0x72);
    out.push(0x61);
    out.push(0x6e);
    out.push(0x67);
    out.push(0x65);
    out.push(0x73);
    out.push(0x3b);
    out.push(0x20);
    out.push(0x62);
    out.push(0x6f);
    out.push(0x75);
    out.push(0x6e);
    out.push(0x64);
    out.push(0x61);
    out.push(0x72);
    out.push(0x79);
    out.push(0x3d);
    proof {
        assert(out@ =~= multipart_ct_label());
    }
    append_bytes(&mut out, boundary);
    proof {
        assert(is_ascii_seq(out@));
    }
    ascii_string(out.as_slice())
}

/// Settings for building a file response: the conditional and range
/// request headers, whether the request was `HEAD`, and the cache
/// lifespan, applied to a resolved file's metadata.
pub struct FileResponseBuilder {
    /// Whether to send cache headers, and what lifespan to indicate.
    pub cache_headers: Option<u32>,
    /// Whether this is a `HEAD` request, with no response body.
    pub is_head: bool,
    /// The `If-Modified-Since` moment, in whole seconds since the epoch.
    pub if_modified_since: Option<u64>,
    /// The unparsed `Range` request header value, if any.
    pub range: Option<String>,
    /// The unparsed `If-Range` request header value; may match the ETag or
    /// the formatted `Last-Modified`.
    pub if_range: Option<String>,
}

impl FileResponseBuilder {
    /// A builder with nothing set.
    pub fn new() -> (r: Self)
        ensures
            r.cache_headers is None,
            !r.is_head,
            r.if_modified_since is None,
            r.range is None,
            r.if_range is None,
    {
        FileResponseBuilder {
            cache_headers: None,
            is_head: false,
            if_modified_since: None,
            range: None,
            if_range: None,
        }
    }

    /// Add cache headers to responses, with the given lifespan in seconds.
    pub fn cache_headers(&mut self, value: Option<u32>)
        ensures
            final(self).cache_headers == value,
            final(self).is_head == old(self).is_head,
            final(self).if_modified_since == old(self).if_modified_since,
            final(self).range == old(self).range,
            final(self).if_range == old(self).if_range,
    {
        self.cache_headers = value;
    }

    /// Set whether this is a `HEAD` request, with no response body.
    pub fn is_head(&mut self, value: bool)
        ensures
            final(self).cache_headers == old(self).cache_headers,
            final(self).is_head == value,
            final(self).if_modified_since == old(self).if_modified_since,
            final(self).range == old(self).range,
            final(self).if_range == old(self).if_range,
    {
        self.is_head = value;
    }

    /// Set `HEAD` handling from the request method.
    pub fn request_method(&mut self, method: Method)
        ensures
            final(self).cache_headers == old(self).cache_headers,
            final(self).is_head == (method is Head),
            final(self).if_modified_since == old(self).if_modified_since,
            final(self).range == old(self).range,
            final(self).if_range == old(self).if_range,
    {
        self.is_head = match method {
            Method::Head => true,
            _ => false,
        };
    }

    /// Build responses for the given `If-Modified-Since` moment, in whole
    /// seconds since the epoch.
    pub fn if_modified_since(&mut self, value: Option<u64>)
        ensures
            final(self).cache_headers == old(self).cache_headers,
            final(self).is_head == old(self).is_head,
            final(self).if_modified_since == value,
            final(self).range == old(self).range,
            final(self).if_range == old(self).if_range,
    {
        self.if_modified_since = value;
    }

    /// Parse an `If-Modified-Since` request header value.
    pub fn if_modified_since_header(&mut self, value: Option<&str>)
        ensures
            final(self).cache_headers == old(self).cache_headers,
            final(self).is_head == old(self).is_head,
            final(self).if_modified_since == (match value {
                None => None,
                Some(v) => parsed_http_date_of(v@),
            }),
            final(self).range == old(self).range,
            final(self).if_range == old(self).if_range,
    {
        self.if_modified_since = match value {
            None => None,
            Some(v) => parse_http_date(v),
        };
    }

    /// Keep the `If-Range` request header value; an absent header leaves
    /// the previous value in place.
    pub fn if_range(&mut self, value: Option<&str>)
        ensures
            final(self).cache_headers == old(self).cache_headers,
            final(self).is_head == old(self).is_head,
            final(self).if_modified_since == old(self).if_modified_since,
            final(self).range == old(self).range,
            opt_string_view(final(self).if_range) == (match value {
                None => opt_string_view(old(self).if_range),
                Some(v) => Some(v@),
            }),
    {
        if let Some(s) = value {
            self.if_range = Some(String::from_str(s));
        }
    }

    /// Keep the `Range` request header value.
    pub fn range_header(&mut self, value: Option<&str>)
        ensures
            final(self).cache_headers == old(self).cache_headers,
            final(self).is_head == old(self).is_head,
            final(self).if_modified_since == old(self).if_modified_since,
            opt_string_view(final(self).range) == (match value {
                None => None,
                Some(v) => Some(v@),
            }),
            final(self).if_range == old(self).if_range,
    {
        self.range = match value {
            None => None,
            Some(v) => Some(String::from_str(v)),
        };
    }
}

/// Whether the request is answered with 304 Not Modified: a trusted
/// modification time exists and is, truncated to whole seconds, at or
/// before the `If-Modified-Since` moment.
pub open spec fn not_modified_spec(b: FileResponseBuilder, m: Option<Timespec>) -> bool {
    match (m, b.if_modified_since) {
        (Some(t), Some(ims)) => t.secs <= ims,
        _ => false,
    }
}

/// Whether range handling may proceed: no `If-Range` header, or one that
/// textually matches the computed ETag or the formatted `Last-Modified`.
pub open spec fn range_cond_ok_spec(b: FileResponseBuilder, size: u64, m: Option<Timespec>) -> bool {
    match b.if_range {
        None => true,
        Some(v) => (match m {
            Some(t) => v@ == etag_spec(size, t) || v@ == http_date_of(t.secs),
            None => false,
        }),
    }
}

/// What the `Range` header asks for, after the `If-Range` precondition:
/// nothing (absent, invalid, or the precondition failed), unsatisfiable,
/// or a list of ranges.
pub ghost enum RangeOutcome {
    /// Serve the whole file as if no `Range` header were present.
    NoneRequested,
    /// Every requested range is beyond the end of the file.
    NoOverlap,
    /// The usable ranges, in request order.
    Ranges(Seq<ByteRange>),
}

/// The range outcome of a request.
pub open spec fn range_outcome_spec(b: FileResponseBuilder, size: u64, m: Option<Timespec>) -> RangeOutcome {
    match b.range {
        None => RangeOutcome::NoneRequested,
        Some(s) => if !range_cond_ok_spec(b, size, m) {
            RangeOutcome::NoneRequested
        } else {
            match range_header_spec(encode_utf8(s@), size) {
                Err(RangeParseError::InvalidRange) => RangeOutcome::NoneRequested,
                Err(RangeParseError::NoOverlap) => RangeOutcome::NoOverlap,
                Ok(rs) => RangeOutcome::Ranges(rs),
            }
        },
    }
}

/// How the response is served.
pub ghost enum BuildCase {
    /// 304, no headers, no body.
    NotModified,
    /// 200 with no body: a `HEAD` request.
    Head,
    /// 416: requested ranges that cannot be satisfied.
    Unsatisfiable,
    /// 206 with one range.
    Single(ByteRange),
    /// 206 with a multipart/byteranges body.
    Multi(Seq<ByteRange>),
    /// 200 with the whole file.
    Whole,
}

/// Which way a response is built, given the builder settings and the
/// file's metadata. A zero-length range (possible only for an empty file)
/// and a multipart body too long for its length accounting are
/// unsatisfiable.
pub open spec fn build_case_spec(
    b: FileResponseBuilder,
    size: u64,
    modified: Option<Timespec>,
    ct_bytes: Seq<u8>,
    boundary: Seq<u8>,
) -> BuildCase {
    let m = effective_modified(modified);
    if not_modified_spec(b, m) {
        BuildCase::NotModified
    } else if b.is_head {
        BuildCase::Head
    } else {
        match range_outcome_spec(b, size, m) {
            RangeOutcome::NoneRequested => BuildCase::Whole,
            RangeOutcome::NoOverlap => BuildCase::Unsatisfiable,
            RangeOutcome::Ranges(rs) => if rs.len() == 1 {
                if rs[0].length == 0 {
                    BuildCase::Unsatisfiable
                } else {
                    BuildCase::Single(rs[0])
                }
            } else if rs.len() > 1 {
                if (exists|i: int| 0 <= i < rs.len() && (#[trigger] rs[i]).length == 0)
                    || multipart_len_spec(rs, boundary, ct_bytes, size) > u64::MAX {
                    BuildCase::Unsatisfiable
                } else {
                    BuildCase::Multi(rs)
                }
            } else {
                BuildCase::Whole
            },
        }
    }
}

/// The `Content-Encoding` header value for a chosen encoding.
pub open spec fn encoding_chars(e: Encoding) -> Seq<char> {
    match e {
        Encoding::Gzip => "gzip"@,
        Encoding::Br => "br"@,
        Encoding::Zstd => "zstd"@,
    }
}

/// The headers every non-304 response carries: validators and
/// `Accept-Ranges` when the modification time is trusted, the negotiated
/// `Content-Encoding`, and `Cache-Control` when a lifespan is configured.
pub open spec fn base_headers_spec(
    b: FileResponseBuilder,
    size: u64,
    m: Option<Timespec>,
    encoding: Option<Encoding>,
) -> Seq<(Seq<char>, Seq<char>)> {
    (match m {
        Some(t) => seq![
            ("ETag"@, etag_spec(size, t)),
            ("Last-Modified"@, http_date_of(t.secs)),
            ("Accept-Ranges"@, "bytes"@),
        ],
        None => Seq::<(Seq<char>, Seq<char>)>::empty(),
    }) + (match encoding {
        Some(e) => seq![("Content-Encoding"@, encoding_chars(e))],
        None => Seq::<(Seq<char>, Seq<char>)>::empty(),
    }) + (match b.cache_headers {
        Some(secs) => seq![("Cache-Control"@, cache_control_spec(secs))],
        None => Seq::<(Seq<char>, Seq<char>)>::empty(),
    })
}

/// Whether a built response is exactly the one the specification names for
/// the given builder, file metadata and boundary: status, the full header
/// list in order, and a body stream of the right kind over the file's
/// handle.
pub open spec fn build_matches<F>(
    r: Response<F>,
    b: FileResponseBuilder,
    handle: F,
    size: u64,
    modified: Option<Timespec>,
    content_type: Option<Seq<char>>,
    encoding: Option<Encoding>,
    boundary: Seq<u8>,
) -> bool {
    let m = effective_modified(modified);
    let base = base_headers_spec(b, size, m, encoding);
    let ct_bytes = (match content_type {
        None => Seq::<u8>::empty(),
        Some(s) => encode_utf8(s),
    });
    match build_case_spec(b, size, modified, ct_bytes, boundary) {
        BuildCase::NotModified => r.status == 304 && headers_view(r.headers@) == Seq::<
            (Seq<char>, Seq<char>),
        >::empty() && r.body is Empty,
        BuildCase::Head => r.status == 200 && headers_view(r.headers@) == base.push(
            ("Content-Length"@, dec_chars(size as nat)),
        ) && r.body is Empty,
        BuildCase::Unsatisfiable => r.status == 416 && headers_view(r.headers@) == base
            && r.body is Empty,
        BuildCase::Single(rg) => r.status == 206 && headers_view(r.headers@) == base.push(
            ("Content-Range"@, content_range_spec(rg, size)),
        ).push(("Content-Length"@, dec_chars(rg.length as nat))) && (match r.body {
            Body::Range(st) => st.file_stream.file == handle && st.file_stream.remaining
                == rg.length && st.seek_state == FileSeekState::NeedSeek && st.start_offset
                == rg.start,
            _ => false,
        }),
        BuildCase::Multi(rs) => r.status == 206 && headers_view(r.headers@) == base.push(
            ("Content-Type"@, multipart_ct_spec(boundary)),
        ).push(
            ("Content-Length"@, dec_chars(multipart_len_spec(rs, boundary, ct_bytes, size) as nat)),
        ) && (match r.body {
            Body::MultiRange(st) => st.file_range.file_stream.file == handle
                && st.file_range.file_stream.remaining == 0 && st.file_range.seek_state
                == FileSeekState::NeedSeek && st.ranges@ == rs && st.next_range == 0
                && st.is_first_boundary && !st.completed && st.boundary@ == boundary
                && st.content_type@ == ct_bytes && st.file_length == size,
            _ => false,
        }),
        BuildCase::Whole => r.status == 200 && headers_view(r.headers@) == base.push(
            ("Content-Length"@, dec_chars(size as nat)),
        ) + (match content_type {
            Some(s) => seq![("Content-Type"@, s)],
            None => Seq::<(Seq<char>, Seq<char>)>::empty(),
        }) && (match r.body {
            Body::Full(st) => st.file == handle && st.remaining == u64::MAX,
            _ => false,
        }),
    }
}

/// The length of the multipart body for these parts, if it fits the
/// `u64` length accounting.
#[verifier::loop_isolation(false)]
fn try_multipart_len(
    ranges: &Vec<ByteRange>,
    boundary: &Vec<u8>,
    content_type: &Vec<u8>,
    file_length: u64,
) -> (r: Option<u64>)
    requires
        ranges_valid(ranges@, file_length),
    ensures
        (match r {
            Some(n) => n as int == multipart_len_spec(
                ranges@,
                boundary@,
                content_type@,
                file_length,
            ),
            None => multipart_len_spec(ranges@, boundary@, content_type@, file_length)
                > u64::MAX,
        }),
{
    let ghost rangesv = ranges@;
    let mut total: u64 = 0;
    let mut idx: usize = 0;
    proof {
        assert(rangesv.skip(0) =~= rangesv);
    }
    while idx < ranges.len()
        invariant
            0 <= idx <= rangesv.len(),
            total as int + multipart_parts_len(
                rangesv.skip(idx as int),
                boundary@,
                content_type@,
                file_length,
                idx == 0,
            ) == multipart_parts_len(rangesv, boundary@, content_type@, file_length, true),
        decreases rangesv.len() - idx,
    {
        let ghost rel = rangesv.skip(idx as int);
        proof {
            assert(rel[0] == rangesv[idx as int]);
            assert(rel.skip(1) =~= rangesv.skip(idx + 1));
            crate::stream::lemma_multipart_parts_len_nonneg(
                rangesv.skip(idx + 1),
                boundary@,
                content_type@,
                file_length,
                false,
            );
        }
        let range = ranges[idx];
        let header = crate::stream::render_multipart_header(
            boundary,
            content_type,
            range,
            idx == 0,
            file_length,
        );
        let step = match total.checked_add(header.len() as u64) {
            Some(t) => t.checked_add(range.length),
            None => None,
        };
        match step {
            Some(t) => {
                total = t;
            },
            None => {
                proof {
                    assert(multipart_end_spec(boundary@).len() >= 0);
                }
                return None;
            },
        }
        idx += 1;
    }
    proof {
        assert(rangesv.skip(rangesv.len() as int) =~= Seq::<ByteRange>::empty());
    }
    let end = crate::stream::render_multipart_header_end(boundary);
    match total.checked_add(end.len() as u64) {
        Some(t) => Some(t),
        None => None,
    }
}

/// The `If-Modified-Since` law: against a file whose trusted modification
/// time is `t`, a conditional request with no range handling in play is
/// answered 304 with no body when the header names a moment at or after
/// `t` (compared in whole seconds), and 200 with the whole file when it
/// names an earlier moment.
pub proof fn lemma_if_modified_since(
    b: FileResponseBuilder,
    size: u64,
    t: Timespec,
    ims: u64,
    ct_bytes: Seq<u8>,
    boundary: Seq<u8>,
)
    requires
        t.secs >= MIN_VALID_MTIME_SECS,
        b.if_modified_since == Some(ims),
        !b.is_head,
        b.range is None,
    ensures
        t.secs <= ims ==> build_case_spec(b, size, Some(t), ct_bytes, boundary)
            == BuildCase::NotModified,
        ims < t.secs ==> build_case_spec(b, size, Some(t), ct_bytes, boundary) == BuildCase::Whole,
{
}

impl FileResponseBuilder {
    #[verifier::rlimit(60)]
    fn build_with_boundary<F>(&self, file: ResolvedFile<F>, boundary: Vec<u8>) -> (r: Response<F>)
        requires
            (match file.modified {
                Some(t) => t.secs < MAX_HTTP_DATE_SECS,
                None => true,
            }),
            boundary_wf(boundary@),
        ensures
            build_matches(
                r,
                *self,
                file.handle,
                file.size,
                file.modified,
                opt_string_view(file.content_type),
                file.encoding,
                boundary@,
            ),
    {
        let ResolvedFile { handle, path: _, size, modified, content_type, encoding } = file;
        let m: Option<Timespec> = match modified {
            Some(t) => if t.secs >= MIN_VALID_MTIME_SECS {
                Some(t)
            } else {
                None
            },
            None => None,
        };
        // `If-Modified-Since`: compare whole seconds only, because the
        // HTTP date format has no fractional part.
        if let Some(t) = m {
            if let Some(ims) = self.if_modified_since {
                if t.secs <= ims {
                    let no_headers: Vec<(String, String)> = Vec::new();
                    proof {
                        assert(headers_view(no_headers@) =~~= Seq::<(Seq<char>, Seq<char>)>::empty());
                    }
                    return Response { status: 304, headers: no_headers, body: Body::Empty };
                }
            }
        }
        let mut headers: Vec<(String, String)> = Vec::new();
        let mut range_cond_ok = match self.if_range {
            None => true,
            Some(_) => false,
        };
        if let Some(t) = m {
            let etag = make_etag(size, t);
            if let Some(v) = &self.if_range {
                if v.eq(&etag) {
                    range_cond_ok = true;
                }
            }
            push_header(&mut headers, "ETag", etag);
            let lm = format_http_date(t.secs);
            if let Some(v) = &self.if_range {
                if v.eq(&lm) {
                    range_cond_ok = true;
                }
            }
            push_header(&mut headers, "Last-Modified", lm);
            push_header(&mut headers, "Accept-Ranges", String::from_str("bytes"));
        }
        if let Some(e) = encoding {
            push_header(&mut headers, "Content-Encoding", String::from_str(e.to_header_value()));
        }
        if let Some(secs) = self.cache_headers {
            push_header(&mut headers, "Cache-Control", make_cache_control(secs));
        }
        proof {
            assert(headers_view(headers@) =~~= base_headers_spec(
                *self,
                size,
                effective_modified(modified),
                encoding,
            ));
            assert(range_cond_ok == range_cond_ok_spec(*self, size, effective_modified(modified)));
        }
        if self.is_head {
            push_header(&mut headers, "Content-Length", make_decimal(size));
            return Response { status: 200, headers, body: Body::Empty };
        }
        // Parse the `Range` header, when the `If-Range` precondition lets
        // range handling proceed. Invalid syntax is treated as no range.
        let mut no_overlap = false;
        let mut ranges: Vec<ByteRange> = Vec::new();
        let mut have_ranges = false;
        if range_cond_ok {
            if let Some(s) = &self.range {
                proof {
                    crate::range::lemma_ranges_within(encode_utf8(s@), size);
                }
                match ByteRange::parse(s.as_str(), size) {
                    Ok(rs) => {
                        ranges = rs;
                        have_ranges = true;
                    },
                    Err(RangeParseError::NoOverlap) => {
                        no_overlap = true;
                    },
                    Err(RangeParseError::InvalidRange) => {},
                }
            }
        }
        if no_overlap {
            return Response { status: 416, headers, body: Body::Empty };
        }
        if have_ranges && ranges.len() == 1 {
            let rg = ranges[0];
            if rg.length == 0 {
                return Response { status: 416, headers, body: Body::Empty };
            }
            push_header(&mut headers, "Content-Range", make_content_range(rg, size));
            push_header(&mut headers, "Content-Length", make_decimal(rg.length));
            return Response {
                status: 206,
                headers,
                body: Body::Range(FileBytesStreamRange::new(handle, rg)),
            };
        }
        if have_ranges && ranges.len() > 1 {
            let mut i: usize = 0;
            let mut any_empty = false;
            while i < ranges.len()
                invariant
                    0 <= i <= ranges@.len(),
                    any_empty == (exists|j: int|
                        0 <= j < i && (#[trigger] ranges@[j]).length == 0),
                decreases ranges@.len() - i,
            {
                if ranges[i].length == 0 {
                    any_empty = true;
                }
                i += 1;
            }
            if any_empty {
                return Response { status: 416, headers, body: Body::Empty };
            }
            let ct_bytes: Vec<u8> = match &content_type {
                Some(s) => vstd::slice::slice_to_vec(s.as_str().as_bytes()),
                None => Vec::new(),
            };
            proof {
                assert(ct_bytes@ == (match opt_string_view(content_type) {
                    None => Seq::<u8>::empty(),
                    Some(s) => encode_utf8(s),
                })) by {
                    if content_type is None {
                        assert(ct_bytes@ =~= Seq::<u8>::empty());
                    }
                }
                assert forall|j: int| 0 <= j < ranges@.len() implies ((#[trigger] ranges@[j]).length
                    >= 1 && ranges@[j].start + ranges@[j].length <= size) by {}
                assert(ranges_valid(ranges@, size));
            }
            match try_multipart_len(&ranges, &boundary, &ct_bytes, size) {
                None => {
                    return Response { status: 416, headers, body: Body::Empty };
                },
                Some(total) => {
                    push_header(&mut headers, "Content-Type", make_multipart_ct(&boundary));
                    push_header(&mut headers, "Content-Length", make_decimal(total));
                    let mut stream = FileBytesStreamMultiRange::new(handle, ranges, boundary, size);
                    if let Some(s) = &content_type {
                        stream.set_content_type(s.as_str());
                    }
                    return Response { status: 206, headers, body: Body::MultiRange(stream) };
                },
            }
        }
        let ghost base = base_headers_spec(*self, size, effective_modified(modified), encoding);
        push_header(&mut headers, "Content-Length", make_decimal(size));
        if let Some(s) = content_type {
            let ghost sv = s@;
            push_header(&mut headers, "Content-Type", s);
            proof {
                assert(headers_view(headers@) =~~= base.push(
                    ("Content-Length"@, dec_chars(size as nat)),
                ) + seq![("Content-Type"@, sv)]);
            }
        } else {
            proof {
                assert(headers_view(headers@) =~~= base.push(
                    ("Content-Length"@, dec_chars(size as nat)),
                ) + Seq::<(Seq<char>, Seq<char>)>::empty());
            }
        }
        Response { status: 200, headers, body: Body::Full(FileBytesStream::new(handle)) }
    }

    /// Build the response for a resolved file: evaluate the conditionals
    /// against its metadata, honour a satisfiable `Range` request with 206
    /// and exact length accounting, and otherwise serve the whole file.
    ///
    /// The one free choice in the response is the multipart boundary
    /// token, which is drawn fresh for each response.
    pub fn build<F>(&self, file: ResolvedFile<F>) -> (r: Response<F>)
        requires
            (match file.modified {
                Some(t) => t.secs < MAX_HTTP_DATE_SECS,
                None => true,
            }),
        ensures
            exists|bnd: Seq<u8>|
                #[trigger] boundary_wf(bnd) && build_matches(
                    r,
                    *self,
                    file.handle,
                    file.size,
                    file.modified,
                    opt_string_view(file.content_type),
                    file.encoding,
                    bnd,
                ),
    {
        let boundary = make_boundary();
        let ghost bnd = boundary@;
        let r = self.build_with_boundary(file, boundary);
        proof {
            assert(boundary_wf(bnd) && build_matches(
                r,
                *self,
                file.handle,
                file.size,
                file.modified,
                opt_string_view(file.content_type),
                file.encoding,
                bnd,
            ));
        }
        r
    }
}

} // verus!
