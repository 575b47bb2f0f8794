//! Request-path sanitization: percent-decoding and normalization of the raw
//! request path into a safe, root-relative sequence of byte segments.
//!
//! A sanitized path never contains `..`, `.` or empty segments, and
//! drive-letter-like segments (`c:`…) are stripped defensively, so joining
//! the segments under a root directory can never escape that root.

use vstd::prelude::*;

use crate::util::{split_on, split_bytes};
use vstd::string::StringSliceAdditionalSpecFns;

verus! {

/// True for the ASCII digits and letters `a`–`f` / `A`–`F`.
pub open spec fn is_hex_byte(b: u8) -> bool {
    (0x30 <= b && b <= 0x39) || (0x41 <= b && b <= 0x46) || (0x61 <= b && b <= 0x66)
}

/// The value of a hexadecimal digit byte.
pub open spec fn hex_val(b: u8) -> u8 {
    if 0x30 <= b && b <= 0x39 {
        (b - 0x30) as u8
    } else if 0x41 <= b && b <= 0x46 {
        (b - 0x37) as u8
    } else {
        (b - 0x57) as u8
    }
}

/// Percent-decoding of a byte sequence: `%` followed by two hexadecimal
/// digits becomes the byte they spell; anything else passes through.
pub open spec fn pct_decode(s: Seq<u8>) -> Seq<u8>
    decreases s.len(),
{
    if s.len() == 0 {
        Seq::empty()
    } else if s[0] == 0x25 && s.len() >= 3 && is_hex_byte(s[1]) && is_hex_byte(s[2]) {
        seq![(hex_val(s[1]) * 16 + hex_val(s[2])) as u8] + pct_decode(s.skip(3))
    } else {
        seq![s[0]] + pct_decode(s.skip(1))
    }
}

fn hex_digit_val(b: u8) -> (r: u8)
    requires
        is_hex_byte(b),
    ensures
        r == hex_val(b),
{
    if b <= 0x39 {
        b - 0x30
    } else if b <= 0x46 {
        b - 0x37
    } else {
        b - 0x57
    }
}

fn is_hex(b: u8) -> (r: bool)
    ensures
        r == is_hex_byte(b),
{
    (0x30 <= b && b <= 0x39) || (0x41 <= b && b <= 0x46) || (0x61 <= b && b <= 0x66)
}

/// Percent-decode a byte vector.
pub fn decode_percents(s: &Vec<u8>) -> (r: Vec<u8>)
    ensures
        r@ == pct_decode(s@),
{
    let mut out: Vec<u8> = Vec::new();
    let mut i: usize = 0;
    proof {
        assert(s@.skip(0) =~= s@);
    }
    while i < s.len()
        invariant
            0 <= i <= s@.len(),
            pct_decode(s@) == out@ + pct_decode(s@.skip(i as int)),
        decreases s@.len() - i,
    {
        let ghost rel = s@.skip(i as int);
        proof {
            assert(rel[0] == s@[i as int]);
            if i + 2 < s.len() {
                assert(rel[1] == s@[i + 1]);
                assert(rel[2] == s@[i + 2]);
            }
        }
        let ghost prev = out@;
        if s[i] == 0x25 && s.len() - i > 2 && is_hex(s[i + 1]) && is_hex(s[i + 2]) {
            let b = hex_digit_val(s[i + 1]) * 16 + hex_digit_val(s[i + 2]);
            out.push(b);
            proof {
                assert(rel.skip(3) =~= s@.skip(i + 3));
                assert(pct_decode(rel) == seq![b] + pct_decode(s@.skip(i + 3)));
                assert(prev + (seq![b] + pct_decode(s@.skip(i + 3))) =~= out@ + pct_decode(
                    s@.skip(i + 3),
                ));
            }
            i += 3;
        } else {
            let b = s[i];
            out.push(b);
            proof {
                assert(rel.skip(1) =~= s@.skip(i + 1));
                assert(pct_decode(rel) == seq![b] + pct_decode(s@.skip(i + 1)));
                assert(prev + (seq![b] + pct_decode(s@.skip(i + 1))) =~= out@ + pct_decode(
                    s@.skip(i + 1),
                ));
            }
            i += 1;
        }
    }
    proof {
        assert(s@.skip(s@.len() as int) =~= Seq::<u8>::empty());
        assert(out@ + pct_decode(Seq::<u8>::empty()) =~= out@);
    }
    out
}

/// The single-dot segment `.`.
pub open spec fn seg_dot() -> Seq<u8> {
    seq![0x2eu8]
}

/// The parent-directory segment `..`.
pub open spec fn seg_dotdot() -> Seq<u8> {
    seq![0x2eu8, 0x2eu8]
}

/// True for ASCII letters.
pub open spec fn is_ascii_alpha(b: u8) -> bool {
    (0x41 <= b && b <= 0x5a) || (0x61 <= b && b <= 0x7a)
}

/// A segment that starts like a Windows drive specification (`c:`…), which
/// is stripped defensively on every platform.
pub open spec fn is_drive_like(seg: Seq<u8>) -> bool {
    seg.len() >= 2 && is_ascii_alpha(seg[0]) && seg[1] == 0x3a
}

/// A segment that is kept by normalization: non-empty, not `.`, not `..`,
/// and not drive-letter-like.
pub open spec fn is_normal_segment(seg: Seq<u8>) -> bool {
    seg.len() > 0 && seg != seg_dot() && seg != seg_dotdot() && !is_drive_like(seg)
}

/// Normalization of a segment list: normal segments are kept, `..` pops the
/// last kept segment (and is a no-op at the root), everything else is
/// dropped.
pub open spec fn normalize_segments(segs: Seq<Seq<u8>>) -> Seq<Seq<u8>>
    decreases segs.len(),
{
    if segs.len() == 0 {
        Seq::empty()
    } else {
        let prefix = normalize_segments(segs.drop_last());
        let last = segs.last();
        if last == seg_dotdot() {
            if prefix.len() > 0 {
                prefix.drop_last()
            } else {
                prefix
            }
        } else if is_normal_segment(last) {
            prefix.push(last)
        } else {
            prefix
        }
    }
}

/// What sanitization produces for a raw request path: percent-decode, split
/// on `/`, normalize.
pub open spec fn sanitize_spec(raw: Seq<u8>) -> Seq<Seq<u8>> {
    normalize_segments(split_on(pct_decode(raw), 0x2f))
}

/// Every segment a normalization produces is a normal segment: never `..`,
/// never empty, never a drive spec. This is what keeps the resolved target
/// inside the configured root, no matter how many `..` segments — literal
/// or percent-encoded — the raw path held.
pub proof fn lemma_normalize_all_normal(segs: Seq<Seq<u8>>)
    ensures
        forall|i: int|
            0 <= i < normalize_segments(segs).len() ==> is_normal_segment(
                #[trigger] normalize_segments(segs)[i],
            ),
    decreases segs.len(),
{
    if segs.len() > 0 {
        lemma_normalize_all_normal(segs.drop_last());
        let prefix = normalize_segments(segs.drop_last());
        let res = normalize_segments(segs);
        assert forall|i: int| 0 <= i < res.len() implies is_normal_segment(res[i]) by {
            if segs.last() == seg_dotdot() {
                assert(res[i] == prefix[i]);
            } else if is_normal_segment(segs.last()) {
                if i < prefix.len() {
                    assert(res[i] == prefix[i]);
                } else {
                    assert(res[i] == segs.last());
                }
            } else {
                assert(res[i] == prefix[i]);
            }
        }
    }
}

/// Every segment a normalization produces came from its input.
proof fn lemma_normalize_subset(segs: Seq<Seq<u8>>)
    ensures
        forall|i: int|
            0 <= i < normalize_segments(segs).len() ==> segs.contains(
                #[trigger] normalize_segments(segs)[i],
            ),
    decreases segs.len(),
{
    if segs.len() > 0 {
        lemma_normalize_subset(segs.drop_last());
        let prefix = normalize_segments(segs.drop_last());
        let res = normalize_segments(segs);
        assert forall|i: int| 0 <= i < res.len() implies segs.contains(res[i]) by {
            if segs.last() == seg_dotdot() || (!is_normal_segment(segs.last())) || i
                < prefix.len() {
                assert(res[i] == prefix[i]);
                assert(segs.drop_last().contains(prefix[i]));
                let k = choose|k: int|
                    0 <= k < segs.drop_last().len() && segs.drop_last()[k] == prefix[i];
                assert(segs[k] == prefix[i]);
            } else {
                assert(res[i] == segs.last());
                assert(segs[segs.len() - 1] == segs.last());
            }
        }
    }
}

/// The root-escape law, stated on raw request paths: no matter how many
/// `..` segments — literal or percent-encoded — the raw path held, every
/// sanitized segment is a plain name: never `..`, `.` or empty, never a
/// drive specification, and never holding a path separator. Joining such
/// segments under a root directory stays within that root.
pub proof fn lemma_sanitized_within_root(raw: Seq<u8>)
    ensures
        forall|i: int|
            0 <= i < sanitize_spec(raw).len() ==> is_normal_segment(
                #[trigger] sanitize_spec(raw)[i],
            ),
        forall|i: int, j: int|
            0 <= i < sanitize_spec(raw).len() && 0 <= j < sanitize_spec(raw)[i].len()
                ==> #[trigger] sanitize_spec(raw)[i][j] != 0x2f,
{
    let segs = split_on(pct_decode(raw), 0x2f);
    lemma_normalize_all_normal(segs);
    lemma_normalize_subset(segs);
    crate::util::lemma_split_on_no_sep(pct_decode(raw), 0x2f);
    assert forall|i: int, j: int|
        0 <= i < sanitize_spec(raw).len() && 0 <= j < sanitize_spec(raw)[i].len() implies
        #[trigger] sanitize_spec(raw)[i][j] != 0x2f by {
        let x = sanitize_spec(raw)[i];
        assert(segs.contains(x));
        let k = choose|k: int| 0 <= k < segs.len() && segs[k] == x;
        assert(segs[k][j] != 0x2f);
    }
}

fn is_normal_segment_exec(seg: &Vec<u8>) -> (r: bool)
    ensures
        r == is_normal_segment(seg@),
{
    if seg.len() == 0 {
        proof {
            assert(seg@.len() == 0);
        }
        return false;
    }
    if seg.len() == 1 && seg[0] == 0x2e {
        proof {
            assert(seg@ =~= seg_dot());
        }
        return false;
    }
    if seg.len() == 2 && seg[0] == 0x2e && seg[1] == 0x2e {
        proof {
            assert(seg@ =~= seg_dotdot());
        }
        return false;
    }
    if seg.len() >= 2 && ((0x41 <= seg[0] && seg[0] <= 0x5a) || (0x61 <= seg[0] && seg[0]
        <= 0x7a)) && seg[1] == 0x3a {
        return false;
    }
    proof {
        if seg@ == seg_dot() {
            assert(seg@.len() == 1 && seg@[0] == 0x2e);
        }
        if seg@ == seg_dotdot() {
            assert(seg@.len() == 2 && seg@[0] == 0x2e && seg@[1] == 0x2e);
        }
    }
    true
}

/// Normalize an already percent-decoded path: split on `/` and fold the
/// segments, dropping `.` and empty segments and popping on `..`.
pub fn normalize_path(decoded: &Vec<u8>) -> (r: Vec<Vec<u8>>)
    ensures
        r.deep_view() == normalize_segments(split_on(decoded@, 0x2f)),
{
    let segs = split_bytes(decoded, 0x2f);
    let ghost segsv = segs.deep_view();
    let mut out: Vec<Vec<u8>> = Vec::new();
    let mut idx: usize = 0;
    proof {
        assert(segsv.take(0) =~= Seq::<Seq<u8>>::empty());
    }
    while idx < segs.len()
        invariant
            0 <= idx <= segs@.len(),
            segsv == segs.deep_view(),
            segsv.len() == segs@.len(),
            out.deep_view() == normalize_segments(segsv.take(idx as int)),
        decreases segs@.len() - idx,
    {
        let seg = &segs[idx];
        proof {
            assert(segsv.take(idx + 1).drop_last() =~= segsv.take(idx as int));
            assert(segsv.take(idx + 1).last() == segsv[idx as int]);
            assert(segsv[idx as int] =~= seg@);
        }
        let ghost prev = out.deep_view();
        if seg.len() == 2 && seg[0] == 0x2e && seg[1] == 0x2e {
            proof {
                assert(seg@ =~= seg_dotdot());
            }
            if out.len() > 0 {
                out.pop();
                proof {
                    assert(out.deep_view() =~~= prev.drop_last());
                }
            }
        } else {
            proof {
                if seg@ == seg_dotdot() {
                    assert(seg@.len() == 2 && seg@[0] == 0x2e && seg@[1] == 0x2e);
                }
            }
            if is_normal_segment_exec(seg) {
                let copy = seg.clone();
                proof {
                    assert(copy@ == seg@);
                }
                out.push(copy);
                proof {
                    assert(out.deep_view() =~~= prev.push(seg@));
                }
            }
        }
        idx += 1;
    }
    proof {
        assert(segsv.take(segsv.len() as int) =~= segsv);
    }
    out
}

/// A sanitized request path together with whether the raw path asked for a
/// directory (ended in `/`).
pub struct RequestedPath {
    /// Sanitized path of the request, as root-relative segments.
    pub sanitized: Vec<Vec<u8>>,
    /// Whether a directory was requested: the raw path ended with a slash.
    pub is_dir_request: bool,
}

impl RequestedPath {
    /// Sanitize the raw request path: percent-decode it, normalize the
    /// segments, and record whether a directory was requested.
    pub fn resolve(request_path: &str) -> (r: RequestedPath)
        ensures
            r.sanitized.deep_view() == sanitize_spec(request_path.spec_bytes()),
            r.is_dir_request == (request_path.spec_bytes().len() > 0
                && request_path.spec_bytes().last() == 0x2f),
    {
        let bytes = request_path.as_bytes();
        let raw = vstd::slice::slice_to_vec(bytes);
        let is_dir_request = raw.len() > 0 && raw[raw.len() - 1] == 0x2f;
        let decoded = decode_percents(&raw);
        RequestedPath { sanitized: normalize_path(&decoded), is_dir_request }
    }
}

} // verus!
