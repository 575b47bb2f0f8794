//! Small text helpers shared by the protocol logic: ASCII classification,
//! decimal and hexadecimal rendering of numbers, and lossy UTF-8 decoding.

use vstd::prelude::*;

verus! {

/// True when every byte is ASCII.
pub open spec fn is_ascii_seq(s: Seq<u8>) -> bool {
    forall|i: int| 0 <= i < s.len() ==> s[i] < 0x80
}

/// The characters an ASCII byte sequence decodes to, one per byte.
pub open spec fn ascii_to_chars(s: Seq<u8>) -> Seq<char> {
    Seq::new(s.len(), |i: int| s[i] as char)
}

/// What `String::from_utf8_lossy` returns for a byte sequence.
pub uninterp spec fn utf8_lossy_of(s: Seq<u8>) -> Seq<char>;

/// Relies on `String::from_utf8_lossy`: invalid sequences are replaced, and
/// ASCII bytes (which are always valid UTF-8) decode to themselves, one
/// character per byte.
#[verifier::external_body]
pub(crate) fn bytes_to_string_lossy(b: &[u8]) -> (r: String)
    ensures
        r@ == utf8_lossy_of(b@),
        is_ascii_seq(b@) ==> r@ == ascii_to_chars(b@),
{
    String::from_utf8_lossy(b).into_owned()
}

/// The decimal digits of `n`, most significant first.
pub open spec fn dec_bytes(n: nat) -> Seq<u8>
    decreases n,
{
    if n < 10 {
        seq![(0x30 + n) as u8]
    } else {
        dec_bytes(n / 10).push((0x30 + n % 10) as u8)
    }
}

/// The decimal rendering of `n` as characters.
pub open spec fn dec_chars(n: nat) -> Seq<char> {
    ascii_to_chars(dec_bytes(n))
}

/// Decimal digits are ASCII.
pub proof fn lemma_dec_bytes_ascii(n: nat)
    ensures
        is_ascii_seq(dec_bytes(n)),
        dec_bytes(n).len() >= 1,
    decreases n,
{
    if n >= 10 {
        lemma_dec_bytes_ascii(n / 10);
    }
}

/// Render `n` in decimal.
pub fn u64_to_dec(n: u64) -> (r: Vec<u8>)
    ensures
        r@ == dec_bytes(n as nat),
    decreases n,
{
    if n < 10 {
        let mut v: Vec<u8> = Vec::new();
        v.push(0x30 + n as u8);
        v
    } else {
        let mut v = u64_to_dec(n / 10);
        v.push(0x30 + (n % 10) as u8);
        v
    }
}

/// The lowercase hexadecimal digit for a value below 16.
pub open spec fn hex_digit(d: u8) -> u8 {
    if d < 10 {
        (0x30 + d) as u8
    } else {
        (0x57 + d) as u8
    }
}

/// The lowercase hexadecimal digits of `n`, most significant first.
pub open spec fn hex_bytes(n: nat) -> Seq<u8>
    decreases n,
{
    if n < 16 {
        seq![hex_digit(n as u8)]
    } else {
        hex_bytes(n / 16).push(hex_digit((n % 16) as u8))
    }
}

/// Hexadecimal digits are ASCII.
pub proof fn lemma_hex_bytes_ascii(n: nat)
    ensures
        is_ascii_seq(hex_bytes(n)),
        hex_bytes(n).len() >= 1,
    decreases n,
{
    if n >= 16 {
        lemma_hex_bytes_ascii(n / 16);
    }
}

/// Render `n` in lowercase hexadecimal.
pub fn u64_to_hex(n: u64) -> (r: Vec<u8>)
    ensures
        r@ == hex_bytes(n as nat),
    decreases n,
{
    if n < 16 {
        let d = n as u8;
        let mut v: Vec<u8> = Vec::new();
        if d < 10 {
            v.push(0x30 + d);
        } else {
            v.push(0x57 + d);
        }
        v
    } else {
        let mut v = u64_to_hex(n / 16);
        let d = (n % 16) as u8;
        if d < 10 {
            v.push(0x30 + d);
        } else {
            v.push(0x57 + d);
        }
        v
    }
}

/// Turn ASCII bytes into the `String` spelling the same characters.
pub fn ascii_string(b: &[u8]) -> (r: String)
    requires
        is_ascii_seq(b@),
    ensures
        r@ == ascii_to_chars(b@),
{
    bytes_to_string_lossy(b)
}

/// Append the bytes of `b` to `a`.
pub fn append_bytes(a: &mut Vec<u8>, b: &Vec<u8>)
    ensures
        final(a)@ == old(a)@ + b@,
{
    let mut i: usize = 0;
    while i < b.len()
        invariant
            0 <= i <= b@.len(),
            a@ == old(a)@ + b@.take(i as int),
        decreases b@.len() - i,
    {
        a.push(b[i]);
        proof {
            assert(old(a)@ + b@.take(i as int) + seq![b@[i as int]] =~= old(a)@ + b@.take(i + 1));
        }
        i += 1;
    }
    proof {
        assert(b@.take(b@.len() as int) =~= b@);
    }
}

/// The first index holding `sep`, if any.
pub open spec fn first_sep(s: Seq<u8>, sep: u8) -> Option<int>
    decreases s.len(),
{
    if s.len() == 0 {
        None
    } else if s[0] == sep {
        Some(0)
    } else {
        match first_sep(s.skip(1), sep) {
            Some(i) => Some(i + 1),
            None => None,
        }
    }
}

/// `first_sep` finds exactly the least index holding `sep`.
pub proof fn lemma_first_sep(s: Seq<u8>, sep: u8)
    ensures
        match first_sep(s, sep) {
            Some(i) => 0 <= i < s.len() && s[i] == sep && (forall|k: int|
                0 <= k < i ==> s[k] != sep),
            None => forall|k: int| 0 <= k < s.len() ==> s[k] != sep,
        },
    decreases s.len(),
{
    if s.len() > 0 && s[0] != sep {
        lemma_first_sep(s.skip(1), sep);
        match first_sep(s.skip(1), sep) {
            None => {
                assert forall|k: int| 0 <= k < s.len() implies s[k] != sep by {
                    if k > 0 {
                        assert(s.skip(1)[k - 1] == s[k]);
                    }
                }
            },
            Some(i) => {
                assert(s.skip(1)[i] == s[i + 1]);
                assert forall|k: int| 0 <= k < i + 1 implies s[k] != sep by {
                    if k > 0 {
                        assert(s.skip(1)[k - 1] == s[k]);
                    }
                }
            },
        }
    }
}

/// The pieces of `s` between occurrences of `sep`; always at least one piece.
pub open spec fn split_on(s: Seq<u8>, sep: u8) -> Seq<Seq<u8>>
    decreases s.len(),
{
    match first_sep(s, sep) {
        None => seq![s],
        Some(i) => {
            if 0 <= i < s.len() {
                seq![s.take(i)] + split_on(s.skip(i + 1), sep)
            } else {
                seq![s]
            }
        },
    }
}

/// Unfold `split_on` at a known first separator position.
pub proof fn lemma_split_on_step(s: Seq<u8>, sep: u8, i: int)
    requires
        0 <= i < s.len(),
        s[i] == sep,
        forall|k: int| 0 <= k < i ==> s[k] != sep,
    ensures
        split_on(s, sep) == seq![s.take(i)] + split_on(s.skip(i + 1), sep),
{
    lemma_first_sep(s, sep);
    match first_sep(s, sep) {
        None => {
            assert(false);
        },
        Some(j) => {
            if j < i {
                assert(s[j] != sep);
                assert(false);
            }
            if i < j {
                assert(false);
            }
        },
    }
}

/// `split_on` of a separator-free sequence is that sequence alone.
pub proof fn lemma_split_on_whole(s: Seq<u8>, sep: u8)
    requires
        forall|k: int| 0 <= k < s.len() ==> s[k] != sep,
    ensures
        split_on(s, sep) == seq![s],
{
    lemma_first_sep(s, sep);
    if let Some(i) = first_sep(s, sep) {
        assert(s[i] == sep);
        assert(false);
    }
}

/// No piece of a split contains the separator.
pub proof fn lemma_split_on_no_sep(s: Seq<u8>, sep: u8)
    ensures
        forall|i: int, j: int|
            0 <= i < split_on(s, sep).len() && 0 <= j < split_on(s, sep)[i].len()
                ==> #[trigger] split_on(s, sep)[i][j] != sep,
    decreases s.len(),
{
    lemma_first_sep(s, sep);
    match first_sep(s, sep) {
        None => {
            assert forall|i: int, j: int|
                0 <= i < split_on(s, sep).len() && 0 <= j < split_on(s, sep)[i].len() implies
                #[trigger] split_on(s, sep)[i][j] != sep by {
                assert(split_on(s, sep)[i] == s);
            }
        },
        Some(k) => {
            lemma_split_on_no_sep(s.skip(k + 1), sep);
            assert forall|i: int, j: int|
                0 <= i < split_on(s, sep).len() && 0 <= j < split_on(s, sep)[i].len() implies
                #[trigger] split_on(s, sep)[i][j] != sep by {
                if i == 0 {
                    assert(split_on(s, sep)[0] == s.take(k));
                    assert(s.take(k)[j] == s[j]);
                } else {
                    assert(split_on(s, sep)[i] == split_on(s.skip(k + 1), sep)[i - 1]);
                }
            }
        },
    }
}

/// Copy the bytes of `s` between `from` (inclusive) and `to` (exclusive).
pub fn copy_range(s: &Vec<u8>, from: usize, to: usize) -> (r: Vec<u8>)
    requires
        from <= to <= s@.len(),
    ensures
        r@ == s@.subrange(from as int, to as int),
{
    let mut out: Vec<u8> = Vec::new();
    let mut j: usize = from;
    while j < to
        invariant
            from <= j <= to <= s@.len(),
            out@ == s@.subrange(from as int, j as int),
        decreases to - j,
    {
        out.push(s[j]);
        assert(out@ =~= s@.subrange(from as int, j + 1));
        j += 1;
    }
    out
}

/// Split a byte vector on a separator byte.
pub fn split_bytes(s: &Vec<u8>, sep: u8) -> (r: Vec<Vec<u8>>)
    ensures
        r.deep_view() == split_on(s@, sep),
{
    let mut pieces: Vec<Vec<u8>> = Vec::new();
    let mut start: usize = 0;
    let mut i: usize = 0;
    proof {
        assert(s@.skip(0) =~= s@);
        assert(pieces.deep_view() + split_on(s@, sep) =~~= split_on(s@, sep));
    }
    while i < s.len()
        invariant
            0 <= start <= i <= s@.len(),
            forall|k: int| start <= k < i ==> s@[k] != sep,
            split_on(s@, sep) == pieces.deep_view() + split_on(s@.skip(start as int), sep),
        decreases s@.len() - i,
    {
        if s[i] == sep {
            let piece = copy_range(s, start, i);
            proof {
                let rel = s@.skip(start as int);
                assert(rel[i - start] == s@[i as int]);
                assert forall|k: int| 0 <= k < i - start implies rel[k] != sep by {
                    assert(rel[k] == s@[k + start]);
                }
                lemma_split_on_step(rel, sep, i - start);
                assert(rel.take(i - start) =~= s@.subrange(start as int, i as int));
                assert(rel.skip(i - start + 1) =~= s@.skip(i + 1));
            }
            let ghost prev = pieces.deep_view();
            pieces.push(piece);
            proof {
                assert(pieces.deep_view() =~~= prev + seq![s@.subrange(start as int, i as int)]);
                assert(prev + (seq![s@.subrange(start as int, i as int)] + split_on(
                    s@.skip(i + 1),
                    sep,
                )) =~~= pieces.deep_view() + split_on(s@.skip(i + 1), sep));
            }
            start = i + 1;
        }
        i += 1;
    }
    let piece = copy_range(s, start, s.len());
    proof {
        let rel = s@.skip(start as int);
        assert forall|k: int| 0 <= k < rel.len() implies rel[k] != sep by {
            assert(rel[k] == s@[k + start]);
        }
        lemma_split_on_whole(rel, sep);
    }
    let ghost prev = pieces.deep_view();
    pieces.push(piece);
    proof {
        assert(s@.subrange(start as int, s@.len() as int) =~= s@.skip(start as int));
        assert(pieces.deep_view() =~~= prev + seq![s@.skip(start as int)]);
        assert(prev + split_on(s@.skip(start as int), sep) =~~= pieces.deep_view());
    }
    pieces
}

/// The bytes `http-range` style trimming removes: space and horizontal tab.
pub open spec fn is_ws(b: u8) -> bool {
    b == 0x20 || b == 0x09
}

/// `s` without leading whitespace.
pub open spec fn trim_start_spec(s: Seq<u8>) -> Seq<u8>
    decreases s.len(),
{
    if s.len() > 0 && is_ws(s[0]) {
        trim_start_spec(s.skip(1))
    } else {
        s
    }
}

/// `s` without trailing whitespace.
pub open spec fn trim_end_spec(s: Seq<u8>) -> Seq<u8>
    decreases s.len(),
{
    if s.len() > 0 && is_ws(s.last()) {
        trim_end_spec(s.drop_last())
    } else {
        s
    }
}

/// `s` without leading or trailing space and tab bytes.
pub open spec fn trim_spec(s: Seq<u8>) -> Seq<u8> {
    trim_end_spec(trim_start_spec(s))
}

proof fn lemma_trim_start_at(s: Seq<u8>, k: int)
    requires
        0 <= k <= s.len(),
        forall|j: int| 0 <= j < k ==> is_ws(s[j]),
        k < s.len() ==> !is_ws(s[k]),
    ensures
        trim_start_spec(s) == s.skip(k),
    decreases k,
{
    if k == 0 {
        assert(s.skip(0) =~= s);
    } else {
        assert(is_ws(s[0]));
        lemma_trim_start_at(s.skip(1), k - 1);
        assert(s.skip(1).skip(k - 1) =~= s.skip(k));
    }
}

proof fn lemma_trim_end_at(s: Seq<u8>, k: int)
    requires
        0 <= k <= s.len(),
        forall|j: int| k <= j < s.len() ==> is_ws(s[j]),
        k > 0 ==> !is_ws(s[k - 1]),
    ensures
        trim_end_spec(s) == s.take(k),
    decreases s.len() - k,
{
    if k == s.len() {
        assert(s.take(k) =~= s);
    } else {
        assert(is_ws(s.last()));
        lemma_trim_end_at(s.drop_last(), k);
        assert(s.drop_last().take(k) =~= s.take(k));
    }
}

/// Trim space and tab bytes from both ends.
pub fn trim_bytes(s: &Vec<u8>) -> (r: Vec<u8>)
    ensures
        r@ == trim_spec(s@),
{
    let mut lo: usize = 0;
    while lo < s.len() && (s[lo] == 0x20 || s[lo] == 0x09)
        invariant
            0 <= lo <= s@.len(),
            forall|j: int| 0 <= j < lo ==> is_ws(s@[j]),
        decreases s@.len() - lo,
    {
        lo += 1;
    }
    proof {
        lemma_trim_start_at(s@, lo as int);
    }
    let mut hi: usize = s.len();
    while hi > lo && (s[hi - 1] == 0x20 || s[hi - 1] == 0x09)
        invariant
            lo <= hi <= s@.len(),
            forall|j: int| hi <= j < s@.len() ==> is_ws(s@[j]),
        decreases hi,
    {
        hi -= 1;
    }
    proof {
        let t = s@.skip(lo as int);
        assert forall|j: int| (hi - lo) <= j < t.len() implies is_ws(t[j]) by {
            assert(t[j] == s@[j + lo]);
        }
        if hi > lo {
            assert(t[hi - lo - 1] == s@[hi - 1]);
        }
        lemma_trim_end_at(t, hi - lo);
    }
    let mut out: Vec<u8> = Vec::new();
    let mut j: usize = lo;
    while j < hi
        invariant
            lo <= j <= hi <= s@.len(),
            out@ == s@.subrange(lo as int, j as int),
        decreases hi - j,
    {
        out.push(s[j]);
        assert(out@ =~= s@.subrange(lo as int, j + 1));
        j += 1;
    }
    proof {
        assert(out@ =~= s@.skip(lo as int).take(hi - lo as int));
    }
    out
}

} // verus!
