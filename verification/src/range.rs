//! `Range` header parsing: the byte-range grammar (`bytes=start-end`,
//! `start-`, `-suffix`, comma-separated, with lax whitespace), validated
//! against the file size.
//!
//! Invalid syntax is an error the caller treats as "no range requested";
//! ranges that lie wholly beyond the end of the file make the request
//! unsatisfiable.

use vstd::prelude::*;

use crate::util::{first_sep, lemma_first_sep, split_on, split_bytes, trim_spec, trim_bytes,
    copy_range};
use vstd::string::StringSliceAdditionalSpecFns;

verus! {

/// A byte range of a file: `start + length` never exceeds the file size
/// when produced by the parser against that size.
#[derive(Clone, Copy, Debug, PartialEq, Eq, Structural)]
pub struct ByteRange {
    /// Offset of the first byte of the range.
    pub start: u64,
    /// Number of bytes in the range.
    pub length: u64,
}

/// Why a `Range` header was rejected.
#[derive(Clone, Copy, Debug, PartialEq, Eq, Structural)]
pub enum RangeParseError {
    /// The header is syntactically invalid.
    InvalidRange,
    /// Every requested range starts at or after the end of the file.
    NoOverlap,
}

/// Decimal parsing with accumulator; fails on a non-digit or on overflow.
pub open spec fn parse_u64_rec(s: Seq<u8>, acc: u64) -> Option<u64>
    decreases s.len(),
{
    if s.len() == 0 {
        Some(acc)
    } else if !(0x30 <= s[0] && s[0] <= 0x39) {
        None
    } else if acc * 10 + (s[0] - 0x30) > u64::MAX {
        None
    } else {
        parse_u64_rec(s.skip(1), (acc * 10 + (s[0] - 0x30)) as u64)
    }
}

/// The number a non-empty, all-digit byte sequence spells, if it fits.
pub open spec fn parse_u64_spec(s: Seq<u8>) -> Option<u64> {
    if s.len() == 0 {
        None
    } else {
        parse_u64_rec(s, 0)
    }
}

/// Parse a decimal number from bytes.
pub fn parse_u64_bytes(s: &Vec<u8>) -> (r: Option<u64>)
    ensures
        r == parse_u64_spec(s@),
{
    if s.len() == 0 {
        return None;
    }
    let mut acc: u64 = 0;
    let mut i: usize = 0;
    proof {
        assert(s@.skip(0) =~= s@);
    }
    while i < s.len()
        invariant
            0 <= i <= s@.len(),
            s@.len() > 0,
            parse_u64_rec(s@, 0) == parse_u64_rec(s@.skip(i as int), acc),
        decreases s@.len() - i,
    {
        let ghost rel = s@.skip(i as int);
        proof {
            assert(rel[0] == s@[i as int]);
            assert(rel.skip(1) =~= s@.skip(i + 1));
        }
        let b = s[i];
        if !(0x30 <= b && b <= 0x39) {
            return None;
        }
        let d = (b - 0x30) as u64;
        match acc.checked_mul(10) {
            None => {
                return None;
            },
            Some(m) => {
                match m.checked_add(d) {
                    None => {
                        return None;
                    },
                    Some(x) => {
                        acc = x;
                    },
                }
            },
        }
        i += 1;
    }
    proof {
        assert(s@.skip(s@.len() as int) =~= Seq::<u8>::empty());
    }
    Some(acc)
}

/// What one comma-separated piece of the header means, against `size`:
/// `Err` for invalid syntax, `Ok(None)` for a range with no overlap (or an
/// explicit zero-length suffix), `Ok(Some(..))` for a usable range.
pub open spec fn parse_single_range_spec(p: Seq<u8>, size: u64) -> Result<Option<ByteRange>, ()> {
    match first_sep(p, 0x2d) {
        None => Err(()),
        Some(i) => {
            let start_str = trim_spec(p.take(i));
            let end_str = trim_spec(p.skip(i + 1));
            if start_str.len() == 0 {
                if end_str.len() == 0 || end_str[0] == 0x2d {
                    Err(())
                } else {
                    match parse_u64_spec(end_str) {
                        None => Err(()),
                        Some(len0) => if len0 == 0 {
                            Ok(None)
                        } else {
                            let l = if len0 > size {
                                size
                            } else {
                                len0
                            };
                            Ok(Some(ByteRange { start: (size - l) as u64, length: l }))
                        },
                    }
                }
            } else {
                match parse_u64_spec(start_str) {
                    None => Err(()),
                    Some(start) => if start >= size {
                        Ok(None)
                    } else if end_str.len() == 0 {
                        Ok(Some(ByteRange { start, length: (size - start) as u64 }))
                    } else {
                        match parse_u64_spec(end_str) {
                            None => Err(()),
                            Some(end) => if start > end {
                                Err(())
                            } else {
                                let e = if end >= size {
                                    (size - 1) as u64
                                } else {
                                    end
                                };
                                Ok(Some(ByteRange { start, length: (e - start + 1) as u64 }))
                            },
                        }
                    },
                }
            }
        },
    }
}

fn parse_single_range(p: &Vec<u8>, size: u64) -> (r: Result<Option<ByteRange>, ()>)
    ensures
        r == parse_single_range_spec(p@, size),
{
    let mut dash: usize = 0;
    while dash < p.len() && p[dash] != 0x2d
        invariant
            0 <= dash <= p@.len(),
            forall|k: int| 0 <= k < dash ==> p@[k] != 0x2d,
        decreases p@.len() - dash,
    {
        dash += 1;
    }
    proof {
        lemma_first_sep(p@, 0x2d);
    }
    if dash == p.len() {
        proof {
            if let Some(j) = first_sep(p@, 0x2d) {
                assert(p@[j] != 0x2d);
                assert(false);
            }
        }
        return Err(());
    }
    proof {
        match first_sep(p@, 0x2d) {
            None => {
                assert(p@[dash as int] != 0x2d);
                assert(false);
            },
            Some(j) => {
                if j < dash {
                    assert(p@[j] != 0x2d);
                    assert(false);
                }
                if dash < j {
                    assert(p@[dash as int] != 0x2d);
                    assert(false);
                }
            },
        }
    }
    let before = copy_range(p, 0, dash);
    let after = copy_range(p, dash + 1, p.len());
    proof {
        assert(before@ =~= p@.take(dash as int));
        assert(after@ =~= p@.skip(dash + 1));
    }
    let start_str = trim_bytes(&before);
    let end_str = trim_bytes(&after);
    if start_str.len() == 0 {
        if end_str.len() == 0 || end_str[0] == 0x2d {
            return Err(());
        }
        match parse_u64_bytes(&end_str) {
            None => Err(()),
            Some(len0) => {
                if len0 == 0 {
                    Ok(None)
                } else {
                    let l = if len0 > size {
                        size
                    } else {
                        len0
                    };
                    Ok(Some(ByteRange { start: size - l, length: l }))
                }
            },
        }
    } else {
        match parse_u64_bytes(&start_str) {
            None => Err(()),
            Some(start) => {
                if start >= size {
                    Ok(None)
                } else if end_str.len() == 0 {
                    Ok(Some(ByteRange { start, length: size - start }))
                } else {
                    match parse_u64_bytes(&end_str) {
                        None => Err(()),
                        Some(end) => {
                            if start > end {
                                Err(())
                            } else {
                                let e = if end >= size {
                                    size - 1
                                } else {
                                    end
                                };
                                Ok(Some(ByteRange { start, length: e - start + 1 }))
                            }
                        },
                    }
                }
            },
        }
    }
}

/// Folding the pieces of the header: the usable ranges in order, and
/// whether any piece was dropped for lack of overlap.
pub open spec fn parse_pieces_spec(pieces: Seq<Seq<u8>>, size: u64) -> Result<
    (Seq<ByteRange>, bool),
    (),
>
    decreases pieces.len(),
{
    if pieces.len() == 0 {
        Ok((Seq::empty(), false))
    } else {
        let p = trim_spec(pieces[0]);
        let rest = parse_pieces_spec(pieces.skip(1), size);
        if p.len() == 0 {
            rest
        } else {
            match parse_single_range_spec(p, size) {
                Err(e) => Err(e),
                Ok(None) => match rest {
                    Err(e) => Err(e),
                    Ok((rs, _)) => Ok((rs, true)),
                },
                Ok(Some(r)) => match rest {
                    Err(e) => Err(e),
                    Ok((rs, no)) => Ok((seq![r] + rs, no)),
                },
            }
        }
    }
}

/// The `bytes=` prefix every range header starts with.
pub open spec fn bytes_prefix() -> Seq<u8> {
    seq![0x62u8, 0x79u8, 0x74u8, 0x65u8, 0x73u8, 0x3du8]
}

/// What `Range` header parsing yields against a file of `size` bytes.
///
/// An empty header parses to no ranges; a header without the `bytes=`
/// prefix, a malformed piece, or an inverted range is invalid; a header
/// whose every non-empty piece lies beyond the end of the file has no
/// overlap.
pub open spec fn range_header_spec(h: Seq<u8>, size: u64) -> Result<Seq<ByteRange>, RangeParseError> {
    if h.len() == 0 {
        Ok(Seq::empty())
    } else if !(h.len() >= 6 && h.take(6) == bytes_prefix()) {
        Err(RangeParseError::InvalidRange)
    } else {
        match parse_pieces_spec(split_on(h.skip(6), 0x2c), size) {
            Err(_) => Err(RangeParseError::InvalidRange),
            Ok((rs, no)) => if no && rs.len() == 0 {
                Err(RangeParseError::NoOverlap)
            } else {
                Ok(rs)
            },
        }
    }
}

proof fn lemma_single_within(p: Seq<u8>, size: u64)
    ensures
        (match parse_single_range_spec(p, size) {
            Ok(Some(r)) => r.start + r.length <= size && (size > 0 ==> r.length >= 1),
            _ => true,
        }),
{
}

proof fn lemma_pieces_within(pieces: Seq<Seq<u8>>, size: u64)
    ensures
        (match parse_pieces_spec(pieces, size) {
            Ok(p) => forall|i: int|
                0 <= i < p.0.len() ==> ((#[trigger] p.0[i]).start + p.0[i].length <= size && (size
                    > 0 ==> p.0[i].length >= 1)),
            Err(_) => true,
        }),
    decreases pieces.len(),
{
    if pieces.len() > 0 {
        lemma_pieces_within(pieces.skip(1), size);
        let p = trim_spec(pieces[0]);
        if p.len() > 0 {
            lemma_single_within(p, size);
            match parse_single_range_spec(p, size) {
                Ok(Some(r)) => {
                    match parse_pieces_spec(pieces.skip(1), size) {
                        Ok(rest) => {
                            let whole = seq![r] + rest.0;
                            assert forall|i: int| 0 <= i < whole.len() implies ((
                            #[trigger] whole[i]).start + whole[i].length <= size && (size > 0
                                ==> whole[i].length >= 1)) by {
                                if i > 0 {
                                    assert(whole[i] == rest.0[i - 1]);
                                }
                            }
                        },
                        Err(_) => {},
                    }
                },
                _ => {},
            }
        }
    }
}

/// Every range the parser accepts lies within the file: its end never
/// passes the file size, and on a non-empty file it covers at least one
/// byte.
pub proof fn lemma_ranges_within(h: Seq<u8>, size: u64)
    ensures
        (match range_header_spec(h, size) {
            Ok(rs) => forall|i: int|
                0 <= i < rs.len() ==> ((#[trigger] rs[i]).start + rs[i].length <= size && (size > 0
                    ==> rs[i].length >= 1)),
            Err(_) => true,
        }),
{
    if h.len() > 0 && h.len() >= 6 && h.take(6) == bytes_prefix() {
        lemma_pieces_within(split_on(h.skip(6), 0x2c), size);
    }
}

impl ByteRange {
    /// Parse a `Range` request header against the file size.
    #[verifier::loop_isolation(false)]
    pub fn parse(header: &str, size: u64) -> (r: Result<Vec<ByteRange>, RangeParseError>)
        ensures
            range_header_spec(header.spec_bytes(), size) == (match r {
                Ok(v) => Ok::<Seq<ByteRange>, RangeParseError>(v@),
                Err(e) => Err(e),
            }),
    {
        let bytes = vstd::slice::slice_to_vec(header.as_bytes());
        if bytes.len() == 0 {
            let empty: Vec<ByteRange> = Vec::new();
            return Ok(empty);
        }
        if bytes.len() < 6 || bytes[0] != 0x62 || bytes[1] != 0x79 || bytes[2] != 0x74 || bytes[3]
            != 0x65 || bytes[4] != 0x73 || bytes[5] != 0x3d {
            proof {
                if bytes@.len() >= 6 && bytes@.take(6) == bytes_prefix() {
                    assert(bytes@.take(6)[0] == bytes@[0]);
                    assert(bytes@.take(6)[1] == bytes@[1]);
                    assert(bytes@.take(6)[2] == bytes@[2]);
                    assert(bytes@.take(6)[3] == bytes@[3]);
                    assert(bytes@.take(6)[4] == bytes@[4]);
                    assert(bytes@.take(6)[5] == bytes@[5]);
                }
            }
            return Err(RangeParseError::InvalidRange);
        }
        proof {
            assert(bytes@.take(6) =~= bytes_prefix());
        }
        let rest = copy_range(&bytes, 6, bytes.len());
        proof {
            assert(rest@ =~= bytes@.skip(6));
        }
        let pieces = split_bytes(&rest, 0x2c);
        let ghost piecesv = pieces.deep_view();
        let ghost full = parse_pieces_spec(piecesv, size);
        let mut ranges: Vec<ByteRange> = Vec::new();
        let mut no_overlap = false;
        let mut idx: usize = 0;
        proof {
            assert(piecesv.skip(0) =~= piecesv);
        }
        while idx < pieces.len()
            invariant
                0 <= idx <= pieces@.len(),
                piecesv == pieces.deep_view(),
                piecesv.len() == pieces@.len(),
                full == parse_pieces_spec(piecesv, size),
                (match parse_pieces_spec(piecesv.skip(idx as int), size) {
                    Ok(p) => full == Ok::<_, ()>((ranges@ + p.0, no_overlap || p.1)),
                    Err(_) => full matches Err(_),
                }),
            decreases pieces@.len() - idx,
        {
            let ghost rel = piecesv.skip(idx as int);
            proof {
                assert(rel[0] == piecesv[idx as int]);
                assert(rel.skip(1) =~= piecesv.skip(idx + 1));
                assert(piecesv[idx as int] =~= pieces@[idx as int]@);
            }
            let piece = trim_bytes(&pieces[idx]);
            if piece.len() == 0 {
                idx += 1;
                continue;
            }
            match parse_single_range(&piece, size) {
                Err(_) => {
                    proof {
                        assert(parse_pieces_spec(rel, size) matches Err(_));
                    }
                    return Err(RangeParseError::InvalidRange);
                },
                Ok(None) => {
                    no_overlap = true;
                },
                Ok(Some(r)) => {
                    let ghost prev = ranges@;
                    ranges.push(r);
                    proof {
                        match parse_pieces_spec(piecesv.skip(idx + 1), size) {
                            Ok(p) => {
                                assert(parse_pieces_spec(rel, size) == Ok::<_, ()>(
                                    (seq![r] + p.0, p.1),
                                ));
                                assert(prev + (seq![r] + p.0) =~= ranges@ + p.0);
                            },
                            Err(_) => {},
                        }
                    }
                },
            }
            idx += 1;
        }
        proof {
            assert(piecesv.skip(piecesv.len() as int) =~= Seq::<Seq<u8>>::empty());
            assert(parse_pieces_spec(Seq::<Seq<u8>>::empty(), size) == Ok::<_, ()>(
                (Seq::<ByteRange>::empty(), false),
            ));
            assert(ranges@ + Seq::<ByteRange>::empty() =~= ranges@);
        }
        if no_overlap && ranges.len() == 0 {
            return Err(RangeParseError::NoOverlap);
        }
        Ok(ranges)
    }
}

} // verus!
