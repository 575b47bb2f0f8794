//! Resolution of a request to a file: method filtering, path sanitization,
//! the directory-index fallback, redirect detection, and negotiation of
//! pre-compressed sibling files (`.zst`, `.br`, `.gz`).

use vstd::prelude::*;

use crate::requested_path::{RequestedPath, sanitize_spec};
use crate::util::{split_on, split_bytes, trim_spec, trim_bytes, first_sep, utf8_lossy_of,
    bytes_to_string_lossy, copy_range, append_bytes};
use crate::vfs::{FileOpener, FileWithMetadata, FsEntry, FsNode, Timespec, VfsError};
use vstd::string::StringSliceAdditionalSpecFns;
use vstd::string::StrSliceExecFns;
use vstd::string::StringExecFns;

verus! {

/// The HTTP request method, as far as resolution cares: `GET` and `HEAD`
/// are served, anything else is refused.
#[derive(Clone, Copy, Debug, PartialEq, Eq, Structural)]
pub enum Method {
    /// A `GET` request.
    Get,
    /// A `HEAD` request.
    Head,
    /// Any other method.
    Other,
}

/// A content encoding this library can serve from pre-compressed siblings.
#[derive(Clone, Copy, Debug, PartialEq, Eq, Structural)]
pub enum Encoding {
    /// The body is gzip-compressed.
    Gzip,
    /// The body is brotli-compressed.
    Br,
    /// The body is zstd-compressed.
    Zstd,
}

impl Encoding {
    /// The `Content-Encoding` header value for this encoding.
    pub fn to_header_value(&self) -> (r: &'static str)
        ensures
            r@ == (match self {
                Encoding::Gzip => "gzip"@,
                Encoding::Br => "br"@,
                Encoding::Zstd => "zstd"@,
            }),
    {
        match self {
            Encoding::Gzip => "gzip",
            Encoding::Br => "br",
            Encoding::Zstd => "zstd",
        }
    }
}

/// Which encodings may be used, as flags: always the intersection of what
/// the client asked for and what the server allows.
#[derive(Clone, Copy, Debug, PartialEq, Eq, Structural)]
pub struct AcceptEncoding {
    /// Look for `.gz` siblings.
    pub gzip: bool,
    /// Look for `.br` siblings.
    pub br: bool,
    /// Look for `.zst` siblings.
    pub zstd: bool,
}

/// The bytes of the token `gzip`.
pub open spec fn gzip_token() -> Seq<u8> {
    seq![0x67u8, 0x7au8, 0x69u8, 0x70u8]
}

/// The bytes of the token `br`.
pub open spec fn br_token() -> Seq<u8> {
    seq![0x62u8, 0x72u8]
}

/// The bytes of the token `zstd`.
pub open spec fn zstd_token() -> Seq<u8> {
    seq![0x7au8, 0x73u8, 0x74u8, 0x64u8]
}

/// The encoding token one comma-separated piece names: the part before any
/// `;` (quality weights are ignored), trimmed.
pub open spec fn token_of(piece: Seq<u8>) -> Seq<u8> {
    trim_spec(
        match first_sep(piece, 0x3b) {
            None => piece,
            Some(i) => piece.take(i),
        },
    )
}

/// The flags an `Accept-Encoding` header value sets: one flag per known
/// token, matched case-sensitively.
pub open spec fn accept_encoding_fold(pieces: Seq<Seq<u8>>) -> AcceptEncoding
    decreases pieces.len(),
{
    if pieces.len() == 0 {
        AcceptEncoding { gzip: false, br: false, zstd: false }
    } else {
        let prev = accept_encoding_fold(pieces.drop_last());
        let tok = token_of(pieces.last());
        AcceptEncoding {
            gzip: prev.gzip || tok == gzip_token(),
            br: prev.br || tok == br_token(),
            zstd: prev.zstd || tok == zstd_token(),
        }
    }
}

/// What parsing an `Accept-Encoding` header value yields.
pub open spec fn accept_encoding_spec(h: Seq<u8>) -> AcceptEncoding {
    accept_encoding_fold(split_on(h, 0x2c))
}

impl AcceptEncoding {
    /// All encodings allowed.
    pub fn all() -> (r: Self)
        ensures
            r.gzip && r.br && r.zstd,
    {
        Self { gzip: true, br: true, zstd: true }
    }

    /// No encodings allowed.
    pub fn none() -> (r: Self)
        ensures
            !r.gzip && !r.br && !r.zstd,
    {
        Self { gzip: false, br: false, zstd: false }
    }

    /// The intersection of two flag sets; the effective set is never a
    /// superset of either side.
    pub fn intersect(self, rhs: Self) -> (r: Self)
        ensures
            r == (AcceptEncoding {
                gzip: self.gzip && rhs.gzip,
                br: self.br && rhs.br,
                zstd: self.zstd && rhs.zstd,
            }),
    {
        Self { gzip: self.gzip && rhs.gzip, br: self.br && rhs.br, zstd: self.zstd && rhs.zstd }
    }

    /// Parse an `Accept-Encoding` header value: split on commas, ignore
    /// quality weights, match the known tokens case-sensitively after
    /// trimming.
    #[verifier::loop_isolation(false)]
    pub fn from_header_value(value: &str) -> (r: Self)
        ensures
            r == accept_encoding_spec(value.spec_bytes()),
    {
        let bytes = vstd::slice::slice_to_vec(value.as_bytes());
        let pieces = split_bytes(&bytes, 0x2c);
        let ghost piecesv = pieces.deep_view();
        let mut res = Self::none();
        let mut idx: usize = 0;
        proof {
            assert(piecesv.take(0) =~= Seq::<Seq<u8>>::empty());
        }
        while idx < pieces.len()
            invariant
                0 <= idx <= pieces@.len(),
                res == accept_encoding_fold(piecesv.take(idx as int)),
            decreases pieces@.len() - idx,
        {
            proof {
                assert(piecesv.take(idx + 1).drop_last() =~= piecesv.take(idx as int));
                assert(piecesv.take(idx + 1).last() == piecesv[idx as int]);
                assert(piecesv[idx as int] =~= pieces@[idx as int]@);
            }
            let piece = &pieces[idx];
            let mut semi: usize = 0;
            while semi < piece.len() && piece[semi] != 0x3b
                invariant
                    0 <= semi <= piece@.len(),
                    forall|k: int| 0 <= k < semi ==> piece@[k] != 0x3b,
                decreases piece@.len() - semi,
            {
                semi += 1;
            }
            let before = copy_range(piece, 0, semi);
            proof {
                crate::util::lemma_first_sep(piece@, 0x3b);
                if semi == piece.len() {
                    if let Some(j) = first_sep(piece@, 0x3b) {
                        assert(piece@[j] != 0x3b);
                        assert(false);
                    }
                    assert(before@ =~= piece@);
                } else {
                    assert(piece@[semi as int] == 0x3b);
                    match first_sep(piece@, 0x3b) {
                        None => {
                            assert(false);
                        },
                        Some(j) => {
                            if j < semi {
                                assert(piece@[j] != 0x3b);
                                assert(false);
                            }
                            if semi < j {
                                assert(piece@[semi as int] != 0x3b);
                                assert(false);
                            }
                            assert(before@ =~= piece@.take(j));
                        },
                    }
                }
            }
            let tok = trim_bytes(&before);
            if tok.len() == 4 && tok[0] == 0x67 && tok[1] == 0x7a && tok[2] == 0x69 && tok[3]
                == 0x70 {
                proof {
                    assert(tok@ =~= gzip_token());
                }
                res.gzip = true;
            } else if tok.len() == 2 && tok[0] == 0x62 && tok[1] == 0x72 {
                proof {
                    assert(tok@ =~= br_token());
                }
                res.br = true;
            } else if tok.len() == 4 && tok[0] == 0x7a && tok[1] == 0x73 && tok[2] == 0x74
                && tok[3] == 0x64 {
                proof {
                    assert(tok@ =~= zstd_token());
                }
                res.zstd = true;
            } else {
                proof {
                    if tok@ == gzip_token() {
                        assert(tok@.len() == 4 && tok@[0] == 0x67 && tok@[1] == 0x7a && tok@[2]
                            == 0x69 && tok@[3] == 0x70);
                    }
                    if tok@ == br_token() {
                        assert(tok@.len() == 2 && tok@[0] == 0x62 && tok@[1] == 0x72);
                    }
                    if tok@ == zstd_token() {
                        assert(tok@.len() == 4 && tok@[0] == 0x7a && tok@[1] == 0x73 && tok@[2]
                            == 0x74 && tok@[3] == 0x64);
                    }
                }
            }
            idx += 1;
        }
        proof {
            assert(piecesv.take(piecesv.len() as int) =~= piecesv);
        }
        res
    }
}

/// The index of the last `.` in a segment, if any.
pub open spec fn last_dot(seg: Seq<u8>) -> Option<int>
    decreases seg.len(),
{
    if seg.len() == 0 {
        None
    } else if seg.last() == 0x2e {
        Some(seg.len() - 1)
    } else {
        last_dot(seg.drop_last())
    }
}

/// The extension of a file segment: the part after the last `.`, none when
/// there is no dot or the only dot starts a hidden file.
pub open spec fn ext_of_segment(seg: Seq<u8>) -> Option<Seq<u8>> {
    match last_dot(seg) {
        None => None,
        Some(j) => if j == 0 {
            None
        } else {
            Some(seg.skip(j + 1))
        },
    }
}

/// The extension of the last segment of a path.
pub open spec fn ext_of_path(segs: Seq<Seq<u8>>) -> Option<Seq<u8>> {
    if segs.len() == 0 {
        None
    } else {
        ext_of_segment(segs.last())
    }
}

/// The MIME type `mime_guess` knows for a file extension; empty when it has
/// no guess.
pub uninterp spec fn mime_for_ext(ext: Seq<char>) -> Seq<char>;

/// Relies on `mime_guess::from_ext`: the first guess is a function of the
/// extension alone; the empty string stands for no guess.
#[verifier::external_body]
fn guess_mime_from_ext(ext: &str) -> (r: String)
    ensures
        r@ == mime_for_ext(ext@),
{
    match mime_guess::from_ext(ext).first() {
        Some(m) => m.to_string(),
        None => String::new(),
    }
}

/// JavaScript media types gain an explicit UTF-8 charset; every other type
/// passes through unchanged.
pub open spec fn set_charset_spec(m: Seq<char>) -> Seq<char> {
    if m == "application/javascript"@ {
        "application/javascript; charset=utf-8"@
    } else if m == "text/javascript"@ {
        "text/javascript; charset=utf-8"@
    } else {
        m
    }
}

fn set_charset(m: String) -> (r: String)
    ensures
        r@ == set_charset_spec(m@),
{
    let js = String::from_str("application/javascript");
    if m == js {
        return String::from_str("application/javascript; charset=utf-8");
    }
    let tjs = String::from_str("text/javascript");
    if m == tjs {
        return String::from_str("text/javascript; charset=utf-8");
    }
    m
}

/// The view of an optional owned string.
pub open spec fn opt_string_view(o: Option<String>) -> Option<Seq<char>> {
    match o {
        None => None,
        Some(s) => Some(s@),
    }
}

/// The `Content-Type` served for a path: guessed from the extension of the
/// logical resource (never from an encoded sibling's extension), with the
/// charset fixup applied.
pub open spec fn content_type_spec(segs: Seq<Seq<u8>>) -> Option<Seq<char>> {
    let raw = match ext_of_path(segs) {
        None => Seq::<char>::empty(),
        Some(e) => mime_for_ext(utf8_lossy_of(e)),
    };
    let m = set_charset_spec(raw);
    if m.len() == 0 {
        None
    } else {
        Some(m)
    }
}

fn ext_of_segment_exec(seg: &Vec<u8>) -> (r: Option<Vec<u8>>)
    ensures
        (match r {
            None => ext_of_segment(seg@) is None,
            Some(e) => ext_of_segment(seg@) == Some(e@),
        }),
{
    let mut j: usize = seg.len();
    while j > 0 && seg[j - 1] != 0x2e
        invariant
            0 <= j <= seg@.len(),
            forall|k: int| j <= k < seg@.len() ==> seg@[k] != 0x2e,
        decreases j,
    {
        j -= 1;
    }
    proof {
        lemma_last_dot(seg@, j as int);
    }
    if j == 0 {
        return None;
    }
    if j == 1 {
        return None;
    }
    let e = copy_range(seg, j, seg.len());
    proof {
        assert(e@ =~= seg@.skip(j as int));
    }
    Some(e)
}

proof fn lemma_last_dot(seg: Seq<u8>, j: int)
    requires
        0 <= j <= seg.len(),
        forall|k: int| j <= k < seg.len() ==> seg[k] != 0x2e,
        j > 0 ==> seg[j - 1] == 0x2e,
    ensures
        last_dot(seg) == (if j == 0 {
            None::<int>
        } else {
            Some(j - 1)
        }),
    decreases seg.len(),
{
    if seg.len() == 0 {
    } else if j == seg.len() {
    } else {
        assert(seg.last() != 0x2e);
        lemma_last_dot(seg.drop_last(), j);
    }
}

fn content_type_for(path: &Vec<Vec<u8>>) -> (r: Option<String>)
    ensures
        opt_string_view(r) == content_type_spec(path.deep_view()),
{
    let raw: String;
    if path.len() == 0 {
        raw = String::new();
        proof {
            assert(path.deep_view().len() == 0);
        }
    } else {
        let last = &path[path.len() - 1];
        proof {
            assert(path.deep_view().last() =~= last@);
        }
        match ext_of_segment_exec(last) {
            None => {
                raw = String::new();
            },
            Some(e) => {
                let ext = bytes_to_string_lossy(e.as_slice());
                raw = guess_mime_from_ext(ext.as_str());
            },
        }
    }
    let m = set_charset(raw);
    if m.as_str().is_empty() {
        None
    } else {
        Some(m)
    }
}

/// All the data needed to serve a resolved file.
pub struct ResolvedFile<F> {
    /// Open file handle.
    pub handle: F,
    /// The resolved and sanitized path segments of the file actually
    /// served; for directory indexes this ends in `index.html`, for
    /// pre-encoded siblings the last segment carries the compressed
    /// extension.
    pub path: Vec<Vec<u8>>,
    /// Size in bytes.
    pub size: u64,
    /// Last modification time.
    pub modified: Option<Timespec>,
    /// MIME type for the `Content-Type` header, from the logical resource.
    pub content_type: Option<String>,
    /// The `Content-Encoding` of a pre-encoded sibling, if one was picked.
    pub encoding: Option<Encoding>,
}

/// The result of resolution: every ordinary scenario of static serving as
/// an explicit variant, never an error.
pub enum ResolveResult<F> {
    /// The request method was neither `GET` nor `HEAD`.
    MethodNotMatched,
    /// The requested file does not exist.
    NotFound,
    /// The requested file cannot be accessed.
    PermissionDenied,
    /// A directory was requested as a file: redirect to the slash form.
    IsDirectory {
        /// The path to redirect to, with a guaranteed trailing slash.
        redirect_to: String,
    },
    /// The requested file was found.
    Found(ResolvedFile<F>),
}

/// The parsed request parameters resolution works from.
pub struct ResolveParams {
    /// Sanitized path segments of the request.
    pub path: Vec<Vec<u8>>,
    /// Whether a directory was requested (the raw path ended with `/`).
    pub is_dir_request: bool,
    /// Intersection of the request `Accept-Encoding` and the allowed set.
    pub accept_encoding: AcceptEncoding,
}

/// Ghost description of what resolution yields.
pub ghost enum SpecResolved {
    /// The method is not served.
    MethodNotMatched,
    /// No node at the path.
    NotFound,
    /// The node refuses access.
    PermissionDenied,
    /// A directory was requested as a file.
    IsDirectory { redirect_to: Seq<char> },
    /// A file was found.
    Found {
        path: Seq<Seq<u8>>,
        entry: FsEntry,
        content_type: Option<Seq<char>>,
        encoding: Option<Encoding>,
    },
}

/// The segment `index.html`.
pub open spec fn index_html_seg() -> Seq<u8> {
    seq![0x69u8, 0x6eu8, 0x64u8, 0x65u8, 0x78u8, 0x2eu8, 0x68u8, 0x74u8, 0x6du8, 0x6cu8]
}

/// The suffix `.zst`.
pub open spec fn zst_ext() -> Seq<u8> {
    seq![0x2eu8, 0x7au8, 0x73u8, 0x74u8]
}

/// The suffix `.br`.
pub open spec fn br_ext() -> Seq<u8> {
    seq![0x2eu8, 0x62u8, 0x72u8]
}

/// The suffix `.gz`.
pub open spec fn gz_ext() -> Seq<u8> {
    seq![0x2eu8, 0x67u8, 0x7au8]
}

/// The sibling path probed for a pre-encoded file: the suffix is appended
/// to the last segment.
pub open spec fn with_ext(segs: Seq<Seq<u8>>, ext: Seq<u8>) -> Seq<Seq<u8>> {
    if segs.len() == 0 {
        seq![ext]
    } else {
        segs.update(segs.len() - 1, segs.last() + ext)
    }
}

/// Whether the filesystem holds an openable node at `k`.
pub open spec fn openable_at(fs: Map<Seq<Seq<u8>>, FsNode>, k: Seq<Seq<u8>>) -> bool {
    fs.dom().contains(k) && fs[k] is Node
}

/// The entry at `k`, where one is openable.
pub open spec fn entry_at(fs: Map<Seq<Seq<u8>>, FsNode>, k: Seq<Seq<u8>>) -> FsEntry {
    match fs[k] {
        FsNode::Node(e) => e,
        FsNode::Denied => vstd::pervasive::arbitrary(),
    }
}

/// The redirect target for a directory requested as a file: a leading
/// slash, then each segment with a trailing slash — built per segment, so
/// the target never starts with `//`.
pub open spec fn redirect_target_spec(segs: Seq<Seq<u8>>) -> Seq<char>
    decreases segs.len(),
{
    if segs.len() == 0 {
        seq!['/']
    } else {
        redirect_target_spec(segs.drop_last()) + utf8_lossy_of(segs.last()) + seq!['/']
    }
}

/// The pre-encoded sibling the encoding probe picks: the fixed preference
/// order is zstd, then brotli, then gzip, each tried only when its flag is
/// set, taking the first sibling the filesystem holds.
pub open spec fn probe_spec(
    fs: Map<Seq<Seq<u8>>, FsNode>,
    segs: Seq<Seq<u8>>,
    ae: AcceptEncoding,
) -> Option<(Seq<Seq<u8>>, FsEntry, Encoding)> {
    if ae.zstd && openable_at(fs, with_ext(segs, zst_ext())) {
        Some(
            (with_ext(segs, zst_ext()), entry_at(fs, with_ext(segs, zst_ext())), Encoding::Zstd),
        )
    } else if ae.br && openable_at(fs, with_ext(segs, br_ext())) {
        Some((with_ext(segs, br_ext()), entry_at(fs, with_ext(segs, br_ext())), Encoding::Br))
    } else if ae.gzip && openable_at(fs, with_ext(segs, gz_ext())) {
        Some((with_ext(segs, gz_ext()), entry_at(fs, with_ext(segs, gz_ext())), Encoding::Gzip))
    } else {
        None
    }
}

/// The final resolution of a found file: the content type comes from the
/// logical path, the served entry from the probe or the original.
pub open spec fn resolve_final_spec(
    fs: Map<Seq<Seq<u8>>, FsNode>,
    segs: Seq<Seq<u8>>,
    e: FsEntry,
    ae: AcceptEncoding,
) -> SpecResolved {
    let ct = content_type_spec(segs);
    match probe_spec(fs, segs, ae) {
        Some(t) => SpecResolved::Found {
            path: t.0,
            entry: t.1,
            content_type: ct,
            encoding: Some(t.2),
        },
        None => SpecResolved::Found { path: segs, entry: e, content_type: ct, encoding: None },
    }
}

/// What resolving sanitized segments yields against a filesystem: open the
/// path; reconcile the directory flag (a trailing-slash request for a file
/// is absent, a file request for a directory redirects); fall back to the
/// directory index exactly once; then probe encodings.
pub open spec fn resolve_spec(
    fs: Map<Seq<Seq<u8>>, FsNode>,
    segs: Seq<Seq<u8>>,
    is_dir_request: bool,
    ae: AcceptEncoding,
) -> SpecResolved {
    if !fs.dom().contains(segs) {
        SpecResolved::NotFound
    } else {
        match fs[segs] {
            FsNode::Denied => SpecResolved::PermissionDenied,
            FsNode::Node(e) => {
                if is_dir_request && !e.is_dir {
                    SpecResolved::NotFound
                } else if !is_dir_request && e.is_dir {
                    SpecResolved::IsDirectory { redirect_to: redirect_target_spec(segs) }
                } else if !is_dir_request {
                    resolve_final_spec(fs, segs, e, ae)
                } else {
                    let ipath = segs.push(index_html_seg());
                    if !fs.dom().contains(ipath) {
                        SpecResolved::NotFound
                    } else {
                        match fs[ipath] {
                            FsNode::Denied => SpecResolved::PermissionDenied,
                            FsNode::Node(ie) => if ie.is_dir {
                                SpecResolved::NotFound
                            } else {
                                resolve_final_spec(fs, ipath, ie, ae)
                            },
                        }
                    }
                }
            },
        }
    }
}

/// What resolving a raw request path yields.
pub open spec fn resolve_path_spec(
    fs: Map<Seq<Seq<u8>>, FsNode>,
    raw: Seq<u8>,
    ae: AcceptEncoding,
) -> SpecResolved {
    resolve_spec(fs, sanitize_spec(raw), raw.len() > 0 && raw.last() == 0x2f, ae)
}

/// What resolving a whole request yields: only `GET` and `HEAD` proceed,
/// and the effective encoding set is the intersection of the allowed set
/// with what the `Accept-Encoding` header names.
pub open spec fn resolve_request_spec(
    fs: Map<Seq<Seq<u8>>, FsNode>,
    allowed: AcceptEncoding,
    method: Method,
    raw: Seq<u8>,
    ae_header: Option<Seq<u8>>,
) -> SpecResolved {
    if !(method is Get || method is Head) {
        SpecResolved::MethodNotMatched
    } else {
        let ae = match ae_header {
            None => AcceptEncoding { gzip: false, br: false, zstd: false },
            Some(h) => accept_encoding_spec(h),
        };
        resolve_path_spec(
            fs,
            raw,
            AcceptEncoding {
                gzip: allowed.gzip && ae.gzip,
                br: allowed.br && ae.br,
                zstd: allowed.zstd && ae.zstd,
            },
        )
    }
}

/// Whether an executable resolution result is the one the specification
/// names: same variant, same redirect target, and for a found file the
/// same path, metadata, content bytes, content type and encoding.
pub open spec fn result_matches<O: FileOpener>(r: &ResolveResult<O::File>, s: SpecResolved) -> bool {
    match s {
        SpecResolved::MethodNotMatched => r is MethodNotMatched,
        SpecResolved::NotFound => r is NotFound,
        SpecResolved::PermissionDenied => r is PermissionDenied,
        SpecResolved::IsDirectory { redirect_to } => (match r {
            ResolveResult::IsDirectory { redirect_to: t } => t@ == redirect_to,
            _ => false,
        }),
        SpecResolved::Found { path, entry, content_type, encoding } => (match r {
            ResolveResult::Found(f) => f.path.deep_view() == path && f.size == entry.content.len()
                && f.modified == entry.modified && O::handle_content(&f.handle) == entry.content
                && opt_string_view(f.content_type) == content_type && f.encoding == encoding,
            _ => false,
        }),
    }
}

/// The metadata of a found file always comes from some openable node of
/// the filesystem, whether or not the backend is infallible.
pub open spec fn found_from_fs<F>(fs: Map<Seq<Seq<u8>>, FsNode>, r: &ResolveResult<F>) -> bool {
    match r {
        ResolveResult::Found(f) => exists|k: Seq<Seq<u8>>|
            #[trigger] openable_at(fs, k) && entry_at(fs, k).modified == f.modified,
        _ => true,
    }
}

fn index_html_vec() -> (r: Vec<u8>)
    ensures
        r@ == index_html_seg(),
{
    let mut v: Vec<u8> = Vec::new();
    v.push(0x69);
    v.push(0x6e);
    v.push(0x64);
    v.push(0x65);
    v.push(0x78);
    v.push(0x2e);
    v.push(0x68);
    v.push(0x74);
    v.push(0x6d);
    v.push(0x6c);
    proof {
        assert(v@ =~= index_html_seg());
    }
    v
}

fn ext_vec(e: Encoding) -> (r: Vec<u8>)
    ensures
        r@ == (match e {
            Encoding::Zstd => zst_ext(),
            Encoding::Br => br_ext(),
            Encoding::Gzip => gz_ext(),
        }),
{
    let mut v: Vec<u8> = Vec::new();
    v.push(0x2e);
    match e {
        Encoding::Zstd => {
            v.push(0x7a);
            v.push(0x73);
            v.push(0x74);
            proof {
                assert(v@ =~= zst_ext());
            }
        },
        Encoding::Br => {
            v.push(0x62);
            v.push(0x72);
            proof {
                assert(v@ =~= br_ext());
            }
        },
        Encoding::Gzip => {
            v.push(0x67);
            v.push(0x7a);
            proof {
                assert(v@ =~= gz_ext());
            }
        },
    }
    v
}

fn with_ext_exec(path: &Vec<Vec<u8>>, ext: &Vec<u8>) -> (r: Vec<Vec<u8>>)
    ensures
        r.deep_view() == with_ext(path.deep_view(), ext@),
{
    let mut out = crate::vfs::clone_segments(path);
    if out.len() == 0 {
        out.push(ext.clone());
        proof {
            assert(out.deep_view() =~~= with_ext(path.deep_view(), ext@));
        }
    } else {
        let mut last = match out.pop() {
            Some(l) => l,
            None => Vec::new(),
        };
        let ghost lastv = last@;
        append_bytes(&mut last, ext);
        let ghost popped = out.deep_view();
        out.push(last);
        proof {
            assert(popped =~~= path.deep_view().drop_last());
            assert(out.deep_view() =~~= popped.push(lastv + ext@));
            assert(popped.push(lastv + ext@) =~~= with_ext(path.deep_view(), ext@));
        }
    }
    out
}

pub(crate) fn redirect_target(path: &Vec<Vec<u8>>) -> (r: String)
    ensures
        r@ == redirect_target_spec(path.deep_view()),
{
    let mut target = String::from_str("/");
    proof {
        reveal_strlit("/");
        assert(target@ =~= redirect_target_spec(Seq::<Seq<u8>>::empty()));
        assert(path.deep_view().take(0) =~= Seq::<Seq<u8>>::empty());
    }
    let mut i: usize = 0;
    while i < path.len()
        invariant
            0 <= i <= path@.len(),
            path.deep_view().len() == path@.len(),
            target@ == redirect_target_spec(path.deep_view().take(i as int)),
        decreases path@.len() - i,
    {
        let seg = bytes_to_string_lossy(path[i].as_slice());
        target.append(seg.as_str());
        target.append("/");
        proof {
            reveal_strlit("/");
            let pv = path.deep_view();
            assert(pv.take(i + 1).drop_last() =~= pv.take(i as int));
            assert(pv.take(i + 1).last() == pv[i as int]);
            assert(pv[i as int] =~= path@[i as int]@);
            assert(redirect_target_spec(pv.take(i as int)) + utf8_lossy_of(pv[i as int]) + "/"@
                =~= target@);
        }
        i += 1;
    }
    proof {
        assert(path.deep_view().take(path@.len() as int) =~= path.deep_view());
    }
    target
}

/// Resolves request paths to files inside a virtual filesystem.
pub struct Resolver<O> {
    /// The (virtual) filesystem used to open files.
    pub opener: O,
    /// Encodings the client is allowed to request with `Accept-Encoding`:
    /// only pre-encoded sibling files are ever served.
    pub allowed_encodings: AcceptEncoding,
}

impl<O: FileOpener> Resolver<O> {
    /// A resolver over the given filesystem, with no encodings allowed.
    pub fn with_opener(opener: O) -> (r: Self)
        ensures
            r.opener == opener,
            r.allowed_encodings == (AcceptEncoding { gzip: false, br: false, zstd: false }),
    {
        Self { opener, allowed_encodings: AcceptEncoding::none() }
    }

    fn resolve_final(
        &self,
        file: FileWithMetadata<O::File>,
        path: Vec<Vec<u8>>,
        ae: AcceptEncoding,
    ) -> (r: ResolveResult<O::File>)
        requires
            self.opener.infallible() ==> (openable_at(self.opener.fs(), path.deep_view()) && ({
                let e = entry_at(self.opener.fs(), path.deep_view());
                file.size == e.content.len() && file.modified == e.modified
                    && O::handle_content(&file.handle) == e.content
            })),
            exists|k: Seq<Seq<u8>>|
                #[trigger] openable_at(self.opener.fs(), k) && entry_at(
                    self.opener.fs(),
                    k,
                ).modified == file.modified,
        ensures
            self.opener.infallible() ==> result_matches::<O>(
                &r,
                resolve_final_spec(
                    self.opener.fs(),
                    path.deep_view(),
                    entry_at(self.opener.fs(), path.deep_view()),
                    ae,
                ),
            ),
            found_from_fs::<O::File>(self.opener.fs(), &r),
    {
        let content_type = content_type_for(&path);
        if ae.zstd {
            let ext = ext_vec(Encoding::Zstd);
            let sibling = with_ext_exec(&path, &ext);
            match self.opener.open(&sibling) {
                Ok(f) => {
                    proof {
                        assert(openable_at(self.opener.fs(), sibling.deep_view()));
                    }
                    return ResolveResult::Found(
                        ResolvedFile {
                            handle: f.handle,
                            path: sibling,
                            size: f.size,
                            modified: f.modified,
                            content_type,
                            encoding: Some(Encoding::Zstd),
                        },
                    );
                },
                Err(_) => {},
            }
        }
        if ae.br {
            let ext = ext_vec(Encoding::Br);
            let sibling = with_ext_exec(&path, &ext);
            match self.opener.open(&sibling) {
                Ok(f) => {
                    proof {
                        assert(openable_at(self.opener.fs(), sibling.deep_view()));
                    }
                    return ResolveResult::Found(
                        ResolvedFile {
                            handle: f.handle,
                            path: sibling,
                            size: f.size,
                            modified: f.modified,
                            content_type,
                            encoding: Some(Encoding::Br),
                        },
                    );
                },
                Err(_) => {},
            }
        }
        if ae.gzip {
            let ext = ext_vec(Encoding::Gzip);
            let sibling = with_ext_exec(&path, &ext);
            match self.opener.open(&sibling) {
                Ok(f) => {
                    proof {
                        assert(openable_at(self.opener.fs(), sibling.deep_view()));
                    }
                    return ResolveResult::Found(
                        ResolvedFile {
                            handle: f.handle,
                            path: sibling,
                            size: f.size,
                            modified: f.modified,
                            content_type,
                            encoding: Some(Encoding::Gzip),
                        },
                    );
                },
                Err(_) => {},
            }
        }
        ResolveResult::Found(
            ResolvedFile {
                handle: file.handle,
                path,
                size: file.size,
                modified: file.modified,
                content_type,
                encoding: None,
            },
        )
    }

    /// Resolve a sanitized request path against the filesystem.
    ///
    /// Expected failures (absent or inaccessible nodes) are ordinary
    /// results; `Err` carries only an unexpected failure of the backend,
    /// which an infallible backend never produces.
    pub fn resolve_path(&self, request_path: &str, accept_encoding: AcceptEncoding) -> (r: Result<
        ResolveResult<O::File>,
        VfsError,
    >)
        ensures
            self.opener.infallible() ==> (match r {
                Ok(res) => result_matches::<O>(
                    &res,
                    resolve_path_spec(
                        self.opener.fs(),
                        request_path.spec_bytes(),
                        accept_encoding,
                    ),
                ),
                Err(_) => false,
            }),
            (match r {
                Err(e) => !self.opener.infallible() && e == VfsError::Other,
                Ok(res) => found_from_fs::<O::File>(self.opener.fs(), &res),
            }),
    {
        let requested = RequestedPath::resolve(request_path);
        self.resolve_params(
            ResolveParams {
                path: requested.sanitized,
                is_dir_request: requested.is_dir_request,
                accept_encoding,
            },
        )
    }

    /// Resolve already-sanitized parameters against the filesystem; this is
    /// the step after a caller-supplied rewrite of the parameters.
    pub fn resolve_params(&self, params: ResolveParams) -> (r: Result<
        ResolveResult<O::File>,
        VfsError,
    >)
        ensures
            self.opener.infallible() ==> (match r {
                Ok(res) => result_matches::<O>(
                    &res,
                    resolve_spec(
                        self.opener.fs(),
                        params.path.deep_view(),
                        params.is_dir_request,
                        params.accept_encoding,
                    ),
                ),
                Err(_) => false,
            }),
            (match r {
                Err(e) => !self.opener.infallible() && e == VfsError::Other,
                Ok(res) => found_from_fs::<O::File>(self.opener.fs(), &res),
            }),
    {
        let ResolveParams { mut path, is_dir_request, accept_encoding } = params;
        let file = match self.opener.open(&path) {
            Ok(f) => f,
            Err(VfsError::NotFound) => {
                return Ok(ResolveResult::NotFound);
            },
            Err(VfsError::PermissionDenied) => {
                return Ok(ResolveResult::PermissionDenied);
            },
            Err(VfsError::Other) => {
                return Err(VfsError::Other);
            },
        };
        if is_dir_request && !file.is_dir {
            return Ok(ResolveResult::NotFound);
        }
        if !is_dir_request && file.is_dir {
            let target = redirect_target(&path);
            return Ok(ResolveResult::IsDirectory { redirect_to: target });
        }
        if !is_dir_request {
            proof {
                assert(openable_at(self.opener.fs(), path.deep_view()));
            }
            return Ok(self.resolve_final(file, path, accept_encoding));
        }
        let ghost before = path.deep_view();
        path.push(index_html_vec());
        proof {
            assert(path.deep_view() =~~= before.push(index_html_seg()));
        }
        let file = match self.opener.open(&path) {
            Ok(f) => f,
            Err(VfsError::NotFound) => {
                return Ok(ResolveResult::NotFound);
            },
            Err(VfsError::PermissionDenied) => {
                return Ok(ResolveResult::PermissionDenied);
            },
            Err(VfsError::Other) => {
                return Err(VfsError::Other);
            },
        };
        if file.is_dir {
            return Ok(ResolveResult::NotFound);
        }
        proof {
            assert(openable_at(self.opener.fs(), path.deep_view()));
        }
        Ok(self.resolve_final(file, path, accept_encoding))
    }

    /// Resolve a request: `GET` and `HEAD` proceed, anything else is
    /// `MethodNotMatched`; the `Accept-Encoding` header is parsed and
    /// intersected with the allowed set.
    pub fn resolve_request(
        &self,
        method: Method,
        request_path: &str,
        accept_encoding_header: Option<&str>,
    ) -> (r: Result<ResolveResult<O::File>, VfsError>)
        ensures
            self.opener.infallible() ==> (match r {
                Ok(res) => result_matches::<O>(
                    &res,
                    resolve_request_spec(
                        self.opener.fs(),
                        self.allowed_encodings,
                        method,
                        request_path.spec_bytes(),
                        (match accept_encoding_header {
                            None => None,
                            Some(h) => Some(h.spec_bytes()),
                        }),
                    ),
                ),
                Err(_) => false,
            }),
            (match r {
                Err(e) => !self.opener.infallible() && e == VfsError::Other,
                Ok(res) => found_from_fs::<O::File>(self.opener.fs(), &res),
            }),
    {
        match method {
            Method::Get | Method::Head => {},
            Method::Other => {
                return Ok(ResolveResult::MethodNotMatched);
            },
        }
        let requested = match accept_encoding_header {
            None => AcceptEncoding::none(),
            Some(h) => AcceptEncoding::from_header_value(h),
        };
        let accept_encoding = self.allowed_encodings.intersect(requested);
        self.resolve_path(request_path, accept_encoding)
    }
}

} // verus!
