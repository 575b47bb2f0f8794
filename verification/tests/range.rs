use staticfile::range::{ByteRange, RangeParseError};

fn parses(header: &str, size: u64, expected: Vec<(u64, u64)>) {
    let got = ByteRange::parse(header, size).unwrap();
    assert_eq!(got.len(), expected.len(), "parse({:?}, {})", header, size);
    for (i, (start, length)) in expected.iter().enumerate() {
        assert_eq!(got[i].start, *start, "parse({:?}, {})[{}].start", header, size, i);
        assert_eq!(got[i].length, *length, "parse({:?}, {})[{}].length", header, size, i);
    }
}

fn rejects(header: &str, size: u64) {
    assert!(ByteRange::parse(header, size).is_err(), "parse({:?}, {})", header, size);
}

#[test]
fn range_parse_empty_header_is_no_ranges() {
    parses("", 0, vec![]);
    parses("", 1000, vec![]);
}

#[test]
fn range_parse_rejects_invalid_syntax() {
    rejects("foo", 0);
    rejects("bytes=7", 10);
    rejects("bytes= 7 ", 10);
    rejects("bytes=5-4", 10);
    rejects("bytes=--6", 200);
    rejects("bytes=--0", 200);
    rejects("bytes=---0", 200);
    rejects("bytes=-6-", 0);
    rejects("bytes=A-", 10);
    rejects("bytes=A- ", 10);
    rejects("bytes=A-Z", 10);
    rejects("bytes= -Z", 10);
    rejects("bytes=5-Z", 10);
    rejects("bytes=Ran-dom, garbage", 10);
    rejects("bytes=0x01-0x02", 10);
    rejects("bytes=1-2,bytes=3-4", 10);
    rejects("bytes=1-2,blergh=3-4", 10);
    rejects("blergh=1-2,bytes=3-4", 10);
    rejects("bytes=0-2,5-4", 10);
    rejects("bytes=2-5,4-3", 10);
    rejects("bytes=--5,4--3", 10);
    rejects("bytes=0-99999999999999999999999999999999999999999999", 10);
}

#[test]
fn range_parse_empty_pieces_are_skipped() {
    parses("bytes=", 0, vec![]);
    parses("bytes=", 200, vec![]);
    parses("bytes=         ", 10, vec![]);
    parses("bytes= , , ,   ", 10, vec![]);
}

#[test]
fn range_parse_suffix_ranges() {
    parses("bytes=-6", 200, vec![(194, 6)]);
    parses("bytes=-5", 10, vec![(5, 5)]);
    parses("bytes=-15", 10, vec![(0, 10)]);
    parses("bytes=-500", 10000, vec![(9500, 500)]);
    rejects("bytes=-0", 200);
    rejects("bytes=-0", 0);
    rejects("bytes=-0", 5);
    parses("bytes=-1", 0, vec![(0, 0)]);
}

#[test]
fn range_parse_open_and_closed_ranges() {
    parses("bytes=6-", 200, vec![(6, 194)]);
    parses("bytes=0-9", 10, vec![(0, 10)]);
    parses("bytes=0-", 10, vec![(0, 10)]);
    parses("bytes=5-", 10, vec![(5, 5)]);
    parses("bytes=0-20", 10, vec![(0, 10)]);
    parses("bytes=0-499", 10000, vec![(0, 500)]);
    parses("bytes=500-999", 10000, vec![(500, 500)]);
    parses("bytes=9500-", 10000, vec![(9500, 500)]);
    rejects("bytes=1-", 0);
}

#[test]
fn range_parse_drops_ranges_without_overlap() {
    parses("bytes=15-,0-5", 10, vec![(0, 6)]);
    parses("bytes=50-60,2-3", 10, vec![(2, 2)]);
    parses("bytes=50-60,-5", 10, vec![(5, 5)]);
    parses("bytes=50-60,7-", 10, vec![(7, 3)]);
    rejects("bytes=50-60,20-", 10);
    parses("bytes=50-60,20-,3-4", 10, vec![(3, 2)]);
    rejects("bytes=15-20,-0", 10);
    parses("bytes=15-20,-0", 20, vec![(15, 5)]);
}

#[test]
fn range_parse_multiple_ranges() {
    parses("bytes=1-2,5-", 10, vec![(1, 2), (5, 5)]);
    parses("bytes=-2 , 7-", 11, vec![(9, 2), (7, 4)]);
    parses("bytes=0-0 ,2-2, 7-", 11, vec![(0, 1), (2, 1), (7, 4)]);
    parses("bytes=0-0,-1", 10000, vec![(0, 1), (9999, 1)]);
    parses("bytes=500-600,601-999", 10000, vec![(500, 101), (601, 399)]);
    parses("bytes=500-700,601-999", 10000, vec![(500, 201), (601, 399)]);
    parses("bytes=9-20,-5", 10, vec![(9, 1), (5, 5)]);
}

#[test]
fn range_parse_is_lax_about_whitespace() {
    parses("bytes=   1 -2   ,  4- 5, 7 - 8 , ,,", 11, vec![(1, 2), (4, 2), (7, 2)]);
}

#[test]
fn range_parse_error_kinds() {
    assert!(matches!(
        ByteRange::parse("bytes=5-4", 10),
        Err(RangeParseError::InvalidRange)
    ));
    assert!(matches!(
        ByteRange::parse("bytes=20-", 10),
        Err(RangeParseError::NoOverlap)
    ));
}
