use staticfile::body::Body;
use staticfile::file_response_builder::{make_etag, Response};
use staticfile::range::ByteRange;
use staticfile::requested_path::{decode_percents, RequestedPath};
use staticfile::resolve::{AcceptEncoding, Method, ResolveResult, Resolver};
use staticfile::response_builder::RequestHead;
use staticfile::service::Static;
use staticfile::stream::{FileBytesStream, FileBytesStreamMultiRange, MultiRangeStep};
use staticfile::vfs::{MemoryFile, MemoryFs, Timespec};

fn mtime() -> Timespec {
    Timespec { secs: 1_600_000_000, nanos: 0 }
}

fn request(path: &str) -> RequestHead {
    RequestHead {
        method: Method::Get,
        path: path.to_string(),
        query: None,
        accept_encoding: None,
        if_modified_since: None,
        if_range: None,
        range: None,
    }
}

fn header(res: &Response<MemoryFile>, name: &str) -> Option<String> {
    for (n, v) in res.headers.iter() {
        if n.as_str() == name {
            return Some(v.clone());
        }
    }
    None
}

#[test]
fn resolving_root_serves_index_content() {
    let mut fs = MemoryFs::new();
    fs.add("index.html", "X".as_bytes().to_vec(), Some(mtime()));
    let resolver = Resolver::with_opener(fs);

    let result = resolver.resolve_path("/", AcceptEncoding::none()).unwrap();
    match result {
        ResolveResult::Found(file) => {
            assert_eq!(file.size, 1);
            let body = FileBytesStream::new(file.handle).drain();
            assert_eq!(body, "X".as_bytes());
        }
        _ => panic!("expected a found file"),
    }
}

#[test]
fn redirect_preserves_query_string() {
    let mut fs = MemoryFs::new();
    fs.add("dir/index.html", "this is index".as_bytes().to_vec(), Some(mtime()));
    let static_ = Static::with_opener(fs);

    let mut req = request("/dir");
    req.query = Some("a=b".to_string());
    let res = static_.serve(&req).unwrap();
    assert_eq!(res.status, 301);
    assert_eq!(header(&res, "Location").unwrap(), "/dir/?a=b");
}

#[test]
fn redirect_rebuilds_non_ascii_segments() {
    let mut fs = MemoryFs::new();
    fs.add("dir\u{e9}/index.html", "x".as_bytes().to_vec(), Some(mtime()));
    let static_ = Static::with_opener(fs);

    let res = static_.serve(&request("/dir%C3%A9")).unwrap();
    assert_eq!(res.status, 301);
    assert_eq!(header(&res, "Location").unwrap(), "/dir\u{e9}/");
}

#[test]
fn etag_is_hex_of_size_and_mtime() {
    let etag = make_etag(13, Timespec { secs: 10, nanos: 255 });
    assert_eq!(etag, "W/\"d-a.ff\"");
}

#[test]
fn resolving_twice_gives_identical_outcome_and_etag() {
    let mut fs = MemoryFs::new();
    fs.add("file1.html", "this is file1".as_bytes().to_vec(), Some(mtime()));
    let static_ = Static::with_opener(fs);

    let res1 = static_.serve(&request("/file1.html")).unwrap();
    let res2 = static_.serve(&request("/file1.html")).unwrap();
    assert_eq!(res1.status, res2.status);
    assert_eq!(header(&res1, "ETag"), header(&res2, "ETag"));
    assert_eq!(res1.body.drain(), res2.body.drain());
}

#[test]
fn accept_encoding_parses_tokens_and_weights() {
    let ae = AcceptEncoding::from_header_value("gzip, br;q=0.5");
    assert!(ae.gzip);
    assert!(ae.br);
    assert!(!ae.zstd);

    let ae = AcceptEncoding::from_header_value(" zstd ");
    assert!(ae.zstd && !ae.gzip && !ae.br);

    let ae = AcceptEncoding::from_header_value("GZIP, identity");
    assert!(!ae.gzip && !ae.br && !ae.zstd);
}

#[test]
fn negotiation_prefers_zstd_and_keeps_logical_content_type() {
    let mut fs = MemoryFs::new();
    fs.add("file1.html", "plain".as_bytes().to_vec(), Some(mtime()));
    fs.add("file1.html.gz", "gzipped".as_bytes().to_vec(), Some(mtime()));
    fs.add("file1.html.zst", "zstded".as_bytes().to_vec(), Some(mtime()));
    let mut static_ = Static::with_opener(fs);
    static_.allowed_encodings(AcceptEncoding::all());

    let mut req = request("/file1.html");
    req.accept_encoding = Some("gzip, zstd, br".to_string());
    let res = static_.serve(&req).unwrap();
    assert_eq!(header(&res, "Content-Encoding").unwrap(), "zstd");
    assert_eq!(header(&res, "Content-Type").unwrap(), "text/html");
    assert_eq!(String::from_utf8(res.body.drain()).unwrap(), "zstded");
}

#[test]
fn negotiation_respects_server_policy() {
    let mut fs = MemoryFs::new();
    fs.add("file1.html", "plain".as_bytes().to_vec(), Some(mtime()));
    fs.add("file1.html.gz", "gzipped".as_bytes().to_vec(), Some(mtime()));
    let static_ = Static::with_opener(fs);

    let mut req = request("/file1.html");
    req.accept_encoding = Some("gzip".to_string());
    let res = static_.serve(&req).unwrap();
    assert!(header(&res, "Content-Encoding").is_none());
    assert_eq!(String::from_utf8(res.body.drain()).unwrap(), "plain");
}

#[test]
fn multipart_length_matches_rendered_body() {
    let data: Vec<u8> = "this is file1".as_bytes().to_vec();
    let file = MemoryFile { data, pos: 0 };
    let ranges = vec![
        ByteRange { start: 0, length: 4 },
        ByteRange { start: 5, length: 8 },
    ];
    let boundary: Vec<u8> = "b0undary".as_bytes().to_vec();
    let mut stream = FileBytesStreamMultiRange::new(file, ranges, boundary, 13);
    stream.set_content_type("text/html");
    let declared = stream.compute_length();
    let body = stream.drain();
    assert_eq!(declared as usize, body.len());
}

fn drive_range_stream(range: &mut staticfile::stream::FileBytesStreamRange<MemoryFile>) -> Vec<u8> {
    let mut out: Vec<u8> = Vec::new();
    if range.needs_seek() {
        let offset = range.begin_seek();
        range.file_stream.file.seek_to(offset);
        range.seek_done();
    }
    loop {
        let max_len = range.file_stream.max_chunk_len();
        let chunk = range.file_stream.file.read_at(max_len);
        if chunk.is_empty() {
            break;
        }
        range.file_stream.note_read(chunk.len());
        out.extend_from_slice(&chunk);
    }
    out
}

#[test]
fn multipart_stream_advances_range_by_range() {
    let data: Vec<u8> = "this is file1".as_bytes().to_vec();
    let expected_parts: Vec<&str> = vec!["this", "is file1"];
    let file = MemoryFile { data, pos: 0 };
    let ranges = vec![
        ByteRange { start: 0, length: 4 },
        ByteRange { start: 5, length: 8 },
    ];
    let boundary: Vec<u8> = "b0undary".as_bytes().to_vec();
    let mut stream = FileBytesStreamMultiRange::new(file, ranges, boundary, 13);
    stream.set_content_type("text/html");
    let declared = stream.compute_length();

    // Drive the stream the way a transport would: emitted header chunks
    // alternate with the current range's bytes until the closing boundary.
    let mut body: Vec<u8> = Vec::new();
    let mut parts_seen = 0;
    loop {
        match stream.advance() {
            MultiRangeStep::Done => break,
            MultiRangeStep::Emit(bytes) => body.extend_from_slice(&bytes),
            MultiRangeStep::ReadRange => {
                let part = drive_range_stream(&mut stream.file_range);
                assert_eq!(part, expected_parts[parts_seen].as_bytes());
                parts_seen += 1;
                body.extend_from_slice(&part);
            }
        }
    }
    assert_eq!(parts_seen, 2);
    assert_eq!(declared as usize, body.len());
    let rendered = String::from_utf8(body).unwrap();
    assert!(rendered.starts_with("--b0undary\r\nContent-Range: bytes 0-3/13\r\n"));
    assert!(rendered.ends_with("\r\n--b0undary--\r\n"));
}

#[test]
fn head_requests_have_no_body() {
    let mut fs = MemoryFs::new();
    fs.add("file1.html", "this is file1".as_bytes().to_vec(), Some(mtime()));
    let static_ = Static::with_opener(fs);

    let mut req = request("/file1.html");
    req.method = Method::Head;
    let res = static_.serve(&req).unwrap();
    assert_eq!(res.status, 200);
    assert_eq!(header(&res, "Content-Length").unwrap(), "13");
    assert!(matches!(res.body, Body::Empty));
}

#[test]
fn other_methods_are_not_matched() {
    let mut fs = MemoryFs::new();
    fs.add("file1.html", "this is file1".as_bytes().to_vec(), Some(mtime()));
    let static_ = Static::with_opener(fs);

    let mut req = request("/file1.html");
    req.method = Method::Other;
    let res = static_.serve(&req).unwrap();
    assert_eq!(res.status, 400);
}

#[test]
fn if_range_matching_last_modified_allows_ranges() {
    let mut fs = MemoryFs::new();
    fs.add(
        "file1.html",
        "this is file1".as_bytes().to_vec(),
        Some(Timespec { secs: 499137720, nanos: 0 }),
    );
    let static_ = Static::with_opener(fs);

    let mut req = request("/file1.html");
    req.range = Some("bytes=5-".to_string());
    req.if_range = Some("Sat, 26 Oct 1985 01:22:00 GMT".to_string());
    let res = static_.serve(&req).unwrap();
    assert_eq!(res.status, 206);
    assert_eq!(header(&res, "Content-Range").unwrap(), "bytes 5-12/13");
    assert_eq!(String::from_utf8(res.body.drain()).unwrap(), "is file1");
}

#[test]
fn invalid_range_syntax_serves_whole_file() {
    let mut fs = MemoryFs::new();
    fs.add("file1.html", "this is file1".as_bytes().to_vec(), Some(mtime()));
    let static_ = Static::with_opener(fs);

    let mut req = request("/file1.html");
    req.range = Some("bytes=frogs".to_string());
    let res = static_.serve(&req).unwrap();
    assert_eq!(res.status, 200);
    assert_eq!(String::from_utf8(res.body.drain()).unwrap(), "this is file1");
}

#[test]
fn suffix_range_on_empty_file_is_not_satisfiable() {
    let mut fs = MemoryFs::new();
    fs.add("empty.html", Vec::new(), Some(mtime()));
    let static_ = Static::with_opener(fs);

    let mut req = request("/empty.html");
    req.range = Some("bytes=-1".to_string());
    let res = static_.serve(&req).unwrap();
    assert_eq!(res.status, 416);
}

#[test]
fn percent_decoding_is_lossless_on_malformed_escapes() {
    let raw: Vec<u8> = "/a%2Fb%zz%2".as_bytes().to_vec();
    let decoded = decode_percents(&raw);
    assert_eq!(decoded, "/a/b%zz%2".as_bytes().to_vec());
}

#[test]
fn sanitization_strips_traversal_and_drive_segments() {
    let requested = RequestedPath::resolve("/../..%2f../etc/passwd");
    let segments: Vec<Vec<u8>> = requested.sanitized;
    assert_eq!(segments.len(), 2);
    assert_eq!(segments[0], "etc".as_bytes().to_vec());
    assert_eq!(segments[1], "passwd".as_bytes().to_vec());
    assert!(!requested.is_dir_request);

    let requested = RequestedPath::resolve("/c:/evil/");
    let segments: Vec<Vec<u8>> = requested.sanitized;
    assert_eq!(segments.len(), 1);
    assert_eq!(segments[0], "evil".as_bytes().to_vec());
    assert!(requested.is_dir_request);
}

#[test]
fn trailing_slash_on_file_is_not_found() {
    let mut fs = MemoryFs::new();
    fs.add("file1.html", "this is file1".as_bytes().to_vec(), Some(mtime()));
    let static_ = Static::with_opener(fs);

    let res = static_.serve(&request("/file1.html/")).unwrap();
    assert_eq!(res.status, 404);
}

#[test]
fn directory_index_of_index_directory_is_not_found() {
    let mut fs = MemoryFs::new();
    fs.add("dir/index.html/oops.html", "x".as_bytes().to_vec(), Some(mtime()));
    let static_ = Static::with_opener(fs);

    let res = static_.serve(&request("/dir/")).unwrap();
    assert_eq!(res.status, 404);
}
