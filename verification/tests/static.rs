use staticfile::file_response_builder::Response;
use staticfile::resolve::Method;
use staticfile::resolve::AcceptEncoding;
use staticfile::response_builder::RequestHead;
use staticfile::service::Static;
use staticfile::vfs::{MemoryFile, MemoryFs, Timespec};

fn now_secs() -> u64 {
    std::time::SystemTime::now()
        .duration_since(std::time::UNIX_EPOCH)
        .unwrap()
        .as_secs()
}

fn harness(files: Vec<(&str, &str)>) -> Static<MemoryFs> {
    let mtime = Timespec { secs: now_secs(), nanos: 0 };
    let mut fs = MemoryFs::new();
    for (subpath, contents) in files {
        fs.add(subpath, contents.as_bytes().to_vec(), Some(mtime));
    }
    let mut static_ = Static::with_opener(fs);
    static_.cache_headers(Some(3600));
    static_.allowed_encodings(AcceptEncoding::all());
    static_
}

fn head(path: &str) -> RequestHead {
    RequestHead {
        method: Method::Get,
        path: path.to_string(),
        query: None,
        accept_encoding: None,
        if_modified_since: None,
        if_range: None,
        range: None,
    }
}

fn get(static_: &Static<MemoryFs>, path: &str) -> Response<MemoryFile> {
    static_.serve(&head(path)).unwrap()
}

fn read_body(res: Response<MemoryFile>) -> String {
    String::from_utf8(res.body.drain()).unwrap()
}

fn header(res: &Response<MemoryFile>, name: &str) -> Option<String> {
    for (n, v) in res.headers.iter() {
        if n.as_str() == name {
            return Some(v.clone());
        }
    }
    None
}

#[test]
fn serves_non_default_file_from_absolute_root_path() {
    let harness = harness(vec![("file1.html", "this is file1")]);

    let res = get(&harness, "/file1.html");
    assert_eq!(read_body(res), "this is file1");
}

#[test]
fn serves_default_file_from_absolute_root_path() {
    let harness = harness(vec![("index.html", "this is index")]);

    let res = get(&harness, "/index.html");
    assert_eq!(read_body(res), "this is index");
}

#[test]
fn serves_default_file_from_empty_root_path() {
    let harness = harness(vec![("index.html", "this is index")]);

    let res = get(&harness, "/");
    assert_eq!(read_body(res), "this is index");
}

#[test]
fn returns_404_if_file_not_found() {
    let harness = harness(vec![]);

    let res = get(&harness, "/");
    assert_eq!(res.status, 404);
}

#[test]
fn redirects_if_trailing_slash_is_missing() {
    let harness = harness(vec![("dir/index.html", "this is index")]);

    let res = get(&harness, "/dir");
    assert_eq!(res.status, 301);
    assert_eq!(header(&res, "Location").unwrap(), "/dir/");
}

#[test]
fn decodes_percent_notation() {
    let harness = harness(vec![("has space.html", "file with funky chars")]);

    let res = get(&harness, "/has%20space.html");
    assert_eq!(read_body(res), "file with funky chars");
}

#[test]
fn normalizes_path() {
    let harness = harness(vec![("index.html", "this is index")]);

    let res = get(&harness, "/xxx/../index.html");
    assert_eq!(read_body(res), "this is index");
}

#[test]
fn normalizes_percent_encoded_path() {
    let harness = harness(vec![("file1.html", "this is file1")]);

    let res = get(&harness, "/xxx/..%2ffile1.html");
    assert_eq!(read_body(res), "this is file1");
}

#[test]
fn prevents_from_escaping_root() {
    let harness = harness(vec![("file1.html", "this is file1")]);

    let res = get(&harness, "/../file1.html");
    assert_eq!(read_body(res), "this is file1");

    let res = get(&harness, "/..%2ffile1.html");
    assert_eq!(read_body(res), "this is file1");

    let res = get(&harness, "/xxx/..%2f..%2ffile1.html");
    assert_eq!(read_body(res), "this is file1");
}

#[test]
fn sends_headers() {
    let harness = harness(vec![("file1.html", "this is file1")]);

    let res = get(&harness, "/file1.html");
    assert_eq!(res.status, 200);
    assert_eq!(header(&res, "Content-Length").unwrap(), "13");
    assert!(header(&res, "Last-Modified").is_some());
    assert!(header(&res, "ETag").is_some());
    assert_eq!(header(&res, "Cache-Control").unwrap(), "public, max-age=3600");
    assert_eq!(header(&res, "Content-Type").unwrap(), "text/html");

    assert_eq!(read_body(res), "this is file1");
}

#[test]
fn content_length() {
    let mut harness = harness(vec![("file1.html", "this is file1")]);

    let res = get(&harness, "/file1.html");
    let mtime = Timespec { secs: now_secs(), nanos: 0 };
    harness.resolver.opener.add(
        "file1.html",
        "this is file1more content".as_bytes().to_vec(),
        Some(mtime),
    );
    assert_eq!(header(&res, "Content-Length").unwrap(), "13");
    assert_eq!(read_body(res), "this is file1");
}

#[test]
fn changes_content_type_on_extension() {
    let harness = harness(vec![("file1.gif", "this is file1")]);

    let res = get(&harness, "/file1.gif");
    assert_eq!(header(&res, "Content-Type").unwrap(), "image/gif");
}

#[test]
fn serves_file_with_old_if_modified_since() {
    let harness = harness(vec![("file1.html", "this is file1")]);

    let if_modified = std::time::SystemTime::now() - std::time::Duration::from_secs(3600);
    let mut req = head("/file1.html");
    req.if_modified_since = Some(httpdate::fmt_http_date(if_modified));

    let res = harness.serve(&req).unwrap();
    assert_eq!(read_body(res), "this is file1");
}

#[test]
fn serves_file_with_new_if_modified_since() {
    let harness = harness(vec![("file1.html", "this is file1")]);

    let if_modified = std::time::SystemTime::now() + std::time::Duration::from_secs(3600);
    let mut req = head("/file1.html");
    req.if_modified_since = Some(httpdate::fmt_http_date(if_modified));

    let res = harness.serve(&req).unwrap();
    assert_eq!(res.status, 304);
}

#[test]
fn last_modified_is_gmt() {
    let mut fs = MemoryFs::new();
    fs.add(
        "file1.html",
        "this is file1".as_bytes().to_vec(),
        Some(Timespec { secs: 499137720, nanos: 0 }),
    );
    let mut static_ = Static::with_opener(fs);
    static_.cache_headers(Some(3600));

    let res = get(&static_, "/file1.html");
    assert_eq!(
        header(&res, "Last-Modified").unwrap(),
        "Sat, 26 Oct 1985 01:22:00 GMT"
    );
}

#[test]
fn no_headers_for_invalid_mtime() {
    let mut fs = MemoryFs::new();
    fs.add(
        "file1.html",
        "this is file1".as_bytes().to_vec(),
        Some(Timespec { secs: 1, nanos: 0 }),
    );
    let static_ = Static::with_opener(fs);

    let res = get(&static_, "/file1.html");
    assert!(header(&res, "ETag").is_none());
    assert!(header(&res, "Last-Modified").is_none());
}

#[test]
fn serves_file_ranges_beginning() {
    let harness = harness(vec![("file1.html", "this is file1")]);

    let mut req = head("/file1.html");
    req.range = Some("bytes=0-3".to_string());

    let res = harness.serve(&req).unwrap();
    assert_eq!(res.status, 206);
    assert_eq!(header(&res, "Content-Range").unwrap(), "bytes 0-3/13");
    assert_eq!(header(&res, "Content-Length").unwrap(), "4");
    assert_eq!(read_body(res), "this");
}

#[test]
fn serves_file_ranges_end() {
    let harness = harness(vec![("file1.html", "this is file1")]);

    let mut req = head("/file1.html");
    req.range = Some("bytes=5-".to_string());

    let res = harness.serve(&req).unwrap();
    assert_eq!(read_body(res), "is file1");
}

#[test]
fn serves_file_ranges_multi() {
    let harness = harness(vec![("file1.html", "this is file1")]);

    let mut req = head("/file1.html");
    req.range = Some("bytes=0-3, 5-".to_string());

    let res = harness.serve(&req).unwrap();
    let content_type = header(&res, "Content-Type").unwrap();
    assert!(content_type.starts_with("multipart/byteranges; boundary="));
    let boundary = content_type[31..].to_string();

    let mut expectation = String::new();
    expectation.push_str(&format!("--{}\r\n", boundary));
    expectation.push_str("Content-Range: bytes 0-3/13\r\n");
    expectation.push_str("Content-Type: text/html\r\n");
    expectation.push_str("\r\n");
    expectation.push_str("this\r\n");

    expectation.push_str(&format!("--{}\r\n", boundary));
    expectation.push_str("Content-Range: bytes 5-12/13\r\n");
    expectation.push_str("Content-Type: text/html\r\n");
    expectation.push_str("\r\n");
    expectation.push_str("is file1\r\n");
    expectation.push_str(&format!("--{}--\r\n", boundary));

    assert_eq!(read_body(res), expectation);
}

#[test]
fn serves_file_ranges_multi_assert_content_length_correct() {
    let harness = harness(vec![("file1.html", "this is file1")]);

    let mut req = head("/file1.html");
    req.range = Some("bytes=0-3, 5-".to_string());

    let res = harness.serve(&req).unwrap();
    let content_length: usize = header(&res, "Content-Length").unwrap().parse().unwrap();

    assert_eq!(read_body(res).len(), content_length);
}

#[test]
fn serves_file_ranges_if_range_negative() {
    let harness = harness(vec![("file1.html", "this is file1")]);

    let mut req = head("/file1.html");
    req.range = Some("bytes=5-".to_string());
    req.if_range = Some("Sat, 26 Oct 1985 01:22:00 GMT".to_string());

    let res = harness.serve(&req).unwrap();
    // The whole file comes back, since If-Range matched nothing.
    assert_eq!(read_body(res), "this is file1");
}

#[test]
fn serves_file_ranges_if_range_etag_positive() {
    let harness = harness(vec![("file1.html", "this is file1")]);

    // A first request goes out without a validator, to learn the ETag.
    let res = get(&harness, "/file1.html");
    let etag_value = header(&res, "ETag").unwrap();

    let mut req = head("/file1.html");
    req.range = Some("bytes=5-".to_string());
    req.if_range = Some(etag_value);

    let res = harness.serve(&req).unwrap();
    assert_eq!(read_body(res), "is file1");
}

#[test]
fn serves_requested_range_not_satisfiable_when_at_end() {
    let harness = harness(vec![("file1.html", "this is file1")]);

    let mut req = head("/file1.html");
    req.range = Some("bytes=13-".to_string());

    let res = harness.serve(&req).unwrap();
    assert_eq!(res.status, 416);
}

#[test]
fn ignore_windows_drive_letter() {
    let harness = harness(vec![("file1.html", "this is file1")]);

    let res = get(&harness, "/c:/file1.html");
    assert_eq!(read_body(res), "this is file1");
}
