use yolofi::dns::{build_query, parse_response, DnsError};
use yolofi::http::{build_get_request, HttpResponse};

#[test]
fn http_response_is_split_into_status_headers_and_body() {
    let raw: &[u8] = b"HTTP/1.1 200 OK\r\nServer: Custom\r\nX-A :  b c \r\n\r\n<html></html>";
    let r = HttpResponse::parse(raw).expect("parses");
    assert_eq!(r.status, 200);
    assert_eq!(
        r.headers,
        vec![("Server".to_string(), "Custom".to_string()), ("X-A".to_string(), "b c".to_string())]
    );
    assert_eq!(r.body, b"<html></html>".to_vec());
}

#[test]
fn http_response_rejections() {
    assert!(HttpResponse::parse(b"HTTP/1.1 200 OK\r\n").is_none());
    assert!(HttpResponse::parse(b"HTTP/1.1\r\n\r\nbody").is_none());
    assert!(HttpResponse::parse(b"HTTP/1.1 abc OK\r\n\r\n").is_none());
    assert!(HttpResponse::parse(b"HTTP/1.1 70000 OK\r\n\r\n").is_none());
    assert_eq!(HttpResponse::parse(b"HTTP/1.1 +404\r\n\r\n").unwrap().status, 404);
}

#[test]
fn get_request_text() {
    let r = build_get_request("example.com", "/index.html");
    assert_eq!(
        String::from_utf8(r).unwrap(),
        "GET /index.html HTTP/1.1\r\nHost: example.com\r\nUser-Agent: YolofiBrowser/0.1\r\nConnection: close\r\n\r\n"
    );
}

#[test]
fn dns_query_layout() {
    let q = build_query("google.com");
    let mut expected = vec![0x12, 0x34, 0x01, 0x00, 0x00, 0x01, 0, 0, 0, 0, 0, 0];
    expected.push(6);
    expected.extend_from_slice(b"google");
    expected.push(3);
    expected.extend_from_slice(b"com");
    expected.extend_from_slice(&[0, 0, 1, 0, 1]);
    assert_eq!(q, expected);
}

fn answer(rdata: &[u8], rdlength: u16, pointer: bool) -> Vec<u8> {
    let mut b = build_query("a.b");
    b.extend_from_slice(if pointer { &[0xC0, 0x0C] } else { &[0x01, 0x61] });
    b.extend_from_slice(&[0, 1, 0, 1, 0, 0, 0, 60]);
    b.extend_from_slice(&rdlength.to_be_bytes());
    b.extend_from_slice(rdata);
    b
}

#[test]
fn dns_answer_gives_dotted_address() {
    assert_eq!(parse_response(&answer(&[142, 250, 0, 7], 4, true)), Ok("142.250.0.7".to_string()));
}

#[test]
fn dns_answer_errors() {
    assert_eq!(parse_response(&[0u8; 5]), Err(DnsError::PacketTooShort));
    assert_eq!(parse_response(&build_query("a.b")), Err(DnsError::NoAnswer));
    assert_eq!(parse_response(&answer(&[1, 2, 3, 4], 4, false)), Err(DnsError::Unsupported));
    assert_eq!(parse_response(&answer(&[1, 2, 3, 4, 5, 6], 6, true)), Err(DnsError::NotARecord));
    assert_eq!(parse_response(&answer(&[1, 2], 4, true)), Err(DnsError::Truncated));
}

#[test]
fn response_head_alone() {
    let (status, headers) = yolofi::http::parse_head("HTTP/1.0 301 Moved\nLocation: /x\nbad line").unwrap();
    assert_eq!(status, 301);
    assert_eq!(headers, vec![("Location".to_string(), "/x".to_string())]);
    assert!(yolofi::http::parse_head("").is_none());
}
