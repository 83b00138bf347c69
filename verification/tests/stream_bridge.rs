use share_one_list::bridge::{
    decide_request, find_double_crlf, reply_bytes, split_head, url_query_param, Reply,
    RequestAction,
};

const CRLF: &str = "\r\n";

#[test]
fn the_head_ends_at_the_first_blank_line() {
    let mut buf = format!("POST /upload?token=t HTTP/1.1{}Content-Length: 3{}{}", CRLF, CRLF, CRLF).into_bytes();
    buf.extend_from_slice(b"abc");
    let pos = find_double_crlf(&buf).unwrap();
    let (head, rest) = split_head(&buf).unwrap();
    assert_eq!(head.len(), pos);
    assert_eq!(rest, b"abc".to_vec());
    assert_eq!(find_double_crlf(b"GET / HTTP/1.1\r\n"), None);
    assert_eq!(split_head(b"abc"), None);
}

#[test]
fn preflight_gets_the_private_network_allowance() {
    let head = format!("OPTIONS /upload HTTP/1.1{}Host: x{}Origin: https://contoso.sharepoint.com", CRLF, CRLF);
    assert_eq!(decide_request(&head, "tok", false), RequestAction::Reply(Reply::Preflight));
    let text = reply_bytes(Reply::Preflight);
    assert!(text.starts_with("HTTP/1.1 204 No Content\r\n"));
    assert!(text.to_ascii_lowercase().contains("access-control-allow-private-network: true"));
    assert!(text.ends_with("Content-Length: 0\r\nConnection: close\r\n\r\n"));
}

#[test]
fn uploads_need_the_token_and_a_body() {
    let wrong = format!("POST /upload?token=wrong HTTP/1.1{}Content-Length: 3", CRLF);
    assert_eq!(decide_request(&wrong, "tok", false), RequestAction::Reply(Reply::Forbidden));
    assert!(reply_bytes(Reply::Forbidden).starts_with("HTTP/1.1 403"));
    let good = format!(
        "POST /upload?token=tok HTTP/1.1{}Content-Type: application/octet-stream{}content-LENGTH:  500000 ",
        CRLF, CRLF
    );
    assert_eq!(decide_request(&good, "tok", false), RequestAction::Upload(500000));
    assert_eq!(decide_request(&good, "tok", true), RequestAction::Reply(Reply::Conflict));
    let empty = format!("POST /upload?token=tok HTTP/1.1{}Content-Length: 0", CRLF);
    assert_eq!(decide_request(&empty, "tok", false), RequestAction::Reply(Reply::EmptyBody));
    let unparsable = format!("POST /upload?token=tok HTTP/1.1{}Content-Length: x{}Content-Length: 7", CRLF, CRLF);
    assert_eq!(decide_request(&unparsable, "tok", false), RequestAction::Upload(7));
    let other = format!("GET /upload?token=tok HTTP/1.1{}", CRLF);
    assert_eq!(decide_request(&other, "tok", false), RequestAction::Reply(Reply::NotFound));
    assert_eq!(decide_request("POST /upload", "tok", false), RequestAction::Ignore);
    assert_eq!(
        reply_bytes(Reply::Saved),
        "HTTP/1.1 200 OK\r\nAccess-Control-Allow-Origin: *\r\nContent-Length: 5\r\nConnection: close\r\n\r\nsaved"
    );
}

#[test]
fn query_parameters_are_read_from_the_target() {
    assert_eq!(url_query_param("/upload?a=1&token=xyz&token=2", "token").as_deref(), Some("xyz"));
    assert_eq!(url_query_param("/upload?flag&token=", "token").as_deref(), Some(""));
    assert_eq!(url_query_param("/upload", "token"), None);
    assert_eq!(url_query_param("/upload?tok=1", "token"), None);
}
