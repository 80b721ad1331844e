use tunnelto_server::bytes::{find_header_end, rewrite_request_path};
use tunnelto_server::http::{auth_header_matches, content_length, has_chunked_body, header_text, Header};

fn header(name: &str, value: &[u8]) -> Header {
    Header { name: name.to_string(), value: value.to_vec() }
}

#[test]
fn header_end_is_behind_the_first_empty_line() {
    assert_eq!(find_header_end(b""), None);
    assert_eq!(find_header_end(b"\r\n\r"), None);
    assert_eq!(find_header_end(b"\r\n\r\n"), Some(4));
    assert_eq!(find_header_end(b"GET / HTTP/1.1\r\n\r\nbody\r\n\r\n"), Some(18));
    assert_eq!(find_header_end(b"a\r\r\n\r\n"), Some(6));
    assert_eq!(find_header_end(b"a\n\n"), None);
}

#[test]
fn header_end_does_not_move_when_more_comes() {
    let head = b"GET / HTTP/1.1\r\nHost: a\r\n\r\n";
    let mut longer = head.to_vec();
    longer.extend_from_slice(b"\r\n\r\n more");
    assert_eq!(find_header_end(head), Some(head.len()));
    assert_eq!(find_header_end(&longer), Some(head.len()));
}

#[test]
fn rewriting_replaces_the_target_only() {
    assert_eq!(
        rewrite_request_path(b"GET /id/x?y HTTP/1.1\r\nHost: a b\r\n\r\n", "/x?y"),
        b"GET /x?y HTTP/1.1\r\nHost: a b\r\n\r\n".to_vec()
    );
    assert_eq!(
        rewrite_request_path(b"GET /a b HTTP/1.1\r\n\r\n", "/"),
        b"GET / b HTTP/1.1\r\n\r\n".to_vec()
    );
    assert_eq!(
        rewrite_request_path("POST /é HTTP/1.1\r\n\r\n".as_bytes(), "/é/ü"),
        "POST /é/ü HTTP/1.1\r\n\r\n".as_bytes().to_vec()
    );
}

#[test]
fn heads_without_a_target_are_left_alone() {
    for head in [&b"GET / HTTP/1.1"[..], b"\r\nGET / HTTP/1.1\r\n\r\n", b"GET\r\n\r\n", b"GET /\r\n\r\n", b""] {
        assert_eq!(rewrite_request_path(head, "/new"), head.to_vec());
    }
}

#[test]
fn rewritten_heads_are_one_head() {
    let head = b"GET /id/a/b HTTP/1.1\r\nHost: x\r\nA: b\r\n\r\n";
    let rewritten = rewrite_request_path(head, "/a/b");
    assert_eq!(find_header_end(&rewritten), Some(rewritten.len()));
}

#[test]
fn the_first_header_counts() {
    let headers = [header("A", b"1"), header("b", b"2"), header("B", b"3")];
    assert_eq!(header_text(&headers, "B"), Some("2"));
    assert_eq!(header_text(&headers, "c"), None);
    let broken = [header("b", b"\xff"), header("b", b"2")];
    assert_eq!(header_text(&broken, "b"), None);
    assert_eq!(header_text(&[header("b", "grüße".as_bytes())], "b"), Some("grüße"));
    assert_eq!(header_text(&[header("b", b"\xed\xa0\x80")], "b"), None);
}

#[test]
fn token_headers() {
    let headers = [header("X-Token", b"  secret\t"), header("x-token", b"other")];
    assert!(auth_header_matches(&headers, "x-token", "secret"));
    assert!(!auth_header_matches(&headers, "x-token", "other"));
    assert!(!auth_header_matches(&headers, "x-token", "Secret"));
    assert!(!auth_header_matches(&headers, "token", "secret"));
    assert!(!auth_header_matches(&[header("x-token", b"\xff")], "x-token", ""));
    assert!(!auth_header_matches(&[], "x-token", ""));
}

#[test]
fn body_lengths() {
    assert_eq!(content_length(&[]), None);
    assert_eq!(content_length(&[header("Content-Length", b" 12 ")]), Some(12));
    assert_eq!(content_length(&[header("content-length", b"+3")]), Some(3));
    assert_eq!(content_length(&[header("content-length", b"x"), header("content-length", b"3")]), None);
    assert_eq!(content_length(&[header("content-length", b"99999999999999999999")]), None);
    assert_eq!(content_length(&[header("content-length", b"-1")]), None);
}

#[test]
fn chunked_bodies() {
    assert!(has_chunked_body(&[header("Transfer-Encoding", b"Chunked")]));
    assert!(has_chunked_body(&[header("transfer-encoding", b"gzip"), header("TRANSFER-ENCODING", b"gzip, chunked")]));
    assert!(!has_chunked_body(&[header("transfer-encoding", b"gzip")]));
    assert!(!has_chunked_body(&[header("te", b"chunked")]));
    assert!(!has_chunked_body(&[header("transfer-encoding", b"\xffchunked")]));
    assert!(!has_chunked_body(&[]));
}
