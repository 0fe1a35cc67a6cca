use ferriscuit::connection::{accept_retry_step, get_route, validate_request, AcceptRetry};
use ferriscuit::errors::{Error, ErrorType, ServerError, SocketError};
use ferriscuit::request::{HttpMethod, Request};
use ferriscuit::response::{echo_message, route_get, user_agent_of, Code, ContentType, GetRoute, Response};
use flate2::read::GzDecoder;
use std::io::Read;

#[test]
fn parse_full_request() {
    let raw = String::from(
        "GET /index.html HTTP/1.1\r\nHost: localhost\r\nAccept-Encoding: gzip",
    );
    let req = Request::new(raw).unwrap();
    assert!(req.method == HttpMethod::GET);
    assert_eq!(req.uri, "/index.html");
    assert_eq!(
        req.request_headers,
        vec!["Host: localhost".to_string(), "Accept-Encoding: gzip".to_string()]
    );
    assert!(req.is_compression_supported());
}

#[test]
fn parse_request_without_gzip_offer() {
    let raw = String::from("POST /files/a.txt HTTP/1.1\r\nHost: localhost\r\nbody");
    let req = Request::new(raw).unwrap();
    assert!(req.method == HttpMethod::POST);
    assert!(!req.is_compression_supported());
    assert_eq!(req.post_content().unwrap(), "body");
}

#[test]
fn short_request_is_invalid() {
    let raw = String::from("GET / HTTP/1.1\r\n");
    let err = Request::new(raw).unwrap_err();
    assert_eq!(err.to_string(), "Error: Invalid request");
}

#[test]
fn malformed_request_line_is_invalid() {
    let raw = String::from("GET /\r\nHost: x\r\nY: z\r\n");
    let err = Request::new(raw).unwrap_err();
    assert_eq!(err.to_string(), "Error: Invalid request line");
}

#[test]
fn wrong_protocol_is_invalid() {
    let raw = String::from("GET / HTTP/1.0\r\nHost: x\r\nY: z\r\n");
    let err = Request::new(raw).unwrap_err();
    assert_eq!(err.to_string(), "Error: Invalid protocol");
}

#[test]
fn request_line_parsing() {
    let line = String::from("GET /echo/hi HTTP/1.1");
    let (m, u, p) = Request::parse_request_line(&line).unwrap();
    assert_eq!(m, "GET");
    assert_eq!(u, "/echo/hi");
    assert_eq!(p, "HTTP/1.1");
}

#[test]
fn method_names_are_read_case_insensitively() {
    assert!(HttpMethod::get_method(&String::from("get")) == HttpMethod::GET);
    assert!(HttpMethod::get_method(&String::from("Post")) == HttpMethod::POST);
    assert!(HttpMethod::get_method(&String::from("PUT")) == HttpMethod::PUT);
    assert!(HttpMethod::get_method(&String::from("anything")) == HttpMethod::DELETE);
}

#[test]
fn file_path_from_uri_and_args() {
    let req = Request {
        request_headers: vec![],
        method: HttpMethod::GET,
        uri: String::from("/files/notes.txt"),
    };
    let args = vec![
        String::from("server"),
        String::from("--directory"),
        String::from("/tmp/files/"),
    ];
    assert_eq!(req.get_file_path(&args).unwrap(), "/tmp/files/notes.txt");
    let short = vec![String::from("server")];
    assert!(req.get_file_path(&short).is_err());
}

#[test]
fn status_code_texts() {
    assert_eq!(Code::Okay.to_code(), "200");
    assert_eq!(Code::Teapot.to_code(), "418");
    assert_eq!(Code::NotFound.to_string(), "404 Not Found");
    assert_eq!(ContentType::Octet.to_string(), "application/octet-stream");
}

#[test]
fn response_plain_text_forms() {
    let ok = Response {
        message: String::from("hello"),
        code: Code::Okay,
        content_type: ContentType::Text,
        compression: false,
    };
    assert_eq!(
        ok.to_string(),
        "HTTP/1.1 200 200 OK\r\nContent-Type: text/plain\r\nContent-Length: 5\r\n\r\nhello"
    );
    let missing = Response {
        message: String::from("Not found"),
        code: Code::NotFound,
        content_type: ContentType::Text,
        compression: false,
    };
    assert_eq!(
        missing.to_string(),
        "HTTP/1.1 404 404 Not Found\r\n\r\nNot found\r\n\r\n"
    );
}

#[test]
fn plain_text_length_counts_bytes() {
    // one character, two bytes: the header counts bytes
    let r = Response {
        message: String::from("\u{e9}"),
        code: Code::Okay,
        content_type: ContentType::Text,
        compression: false,
    };
    assert_eq!(
        r.to_string(),
        "HTTP/1.1 200 200 OK\r\nContent-Type: text/plain\r\nContent-Length: 2\r\n\r\n\u{e9}"
    );
}

#[test]
fn wire_reply_carries_plain_body() {
    let ok = Response {
        message: String::from("hello"),
        code: Code::Okay,
        content_type: ContentType::Text,
        compression: false,
    };
    let bytes = ok.to_bytes();
    let text = String::from_utf8(bytes).unwrap();
    assert!(text.starts_with("HTTP/1.1 200 OK\r\nServer: Ferriscuit\r\nDate: "));
    assert!(text.contains("\r\nCache-Control: no-cache\r\nContent-Type: text/plain\r\n"));
    assert!(text.contains("Content-Length: 5\r\n\r\n"));
    assert!(text.ends_with("\r\n\r\nhello"));
}

#[test]
fn wire_reply_compresses_body() {
    let ok = Response {
        message: String::from("hello hello hello hello"),
        code: Code::Okay,
        content_type: ContentType::Text,
        compression: true,
    };
    let bytes = ok.to_bytes();
    // find the blank line that closes the headers
    let mut split = 0;
    for i in 0..bytes.len() - 3 {
        if &bytes[i..i + 4] == b"\r\n\r\n" {
            split = i + 4;
            break;
        }
    }
    let body = &bytes[split..];
    // a gzip stream, not the bare text
    assert_eq!(body[0], 0x1f);
    assert_eq!(body[1], 0x8b);
    let mut decoder = GzDecoder::new(body);
    let mut out = String::new();
    decoder.read_to_string(&mut out).unwrap();
    assert_eq!(out, "hello hello hello hello");
}

#[test]
fn get_routing() {
    assert!(route_get(&String::from("/")) == GetRoute::Root);
    assert!(route_get(&String::from("/Echo/hi")) == GetRoute::Echo);
    assert!(route_get(&String::from("/user-agent")) == GetRoute::UserAgent);
    assert!(route_get(&String::from("/files/x")) == GetRoute::Files);
    assert!(route_get(&String::from("/elsewhere")) == GetRoute::NotFound);
}

#[test]
fn echo_and_user_agent_helpers() {
    assert_eq!(echo_message(&String::from("/echo/banana")), "banana");
    let req = Request {
        request_headers: vec![
            String::from("Host: localhost"),
            String::from("User-Agent: curl/7.1"),
        ],
        method: HttpMethod::GET,
        uri: String::from("/user-agent"),
    };
    assert_eq!(user_agent_of(&req).unwrap(), "curl/7.1");
    let bare = Request {
        request_headers: vec![],
        method: HttpMethod::GET,
        uri: String::from("/user-agent"),
    };
    assert!(user_agent_of(&bare).is_none());
}

#[test]
fn routes_and_validation() {
    assert_eq!(get_route("Home"), b"GET / HTTP/1.1");
    assert_eq!(get_route("hayley"), b"GET /hayley HTTP/1.1");
    assert_eq!(get_route("anything"), b"GET / HTTP/1.1");
    assert!(validate_request(b"GET / HTTP/1.1").is_ok());
}

#[test]
fn accept_backoff_doubles_then_gives_up() {
    assert!(accept_retry_step(200) == AcceptRetry::RetryAfter(400));
    assert!(accept_retry_step(6000) == AcceptRetry::RetryAfter(12000));
    assert!(accept_retry_step(6400) == AcceptRetry::GiveUp);
}

#[test]
fn error_display_forms() {
    let e = ErrorType::SocketError(String::from("Creating socket"));
    assert_eq!(e.to_string(), "Error with socket: Creating socket");
    let e = ErrorType::ConnectionError(String::from("x"));
    assert_eq!(e.to_string(), "Connection Error: x");
    let s = SocketError { msg: String::from("Error creating socket") };
    assert_eq!(s.to_string(), "Error with socket: Error creating socket");
    assert_eq!(s.clone().to_string(), "Error with socket: Error creating socket");
    let s = ServerError { message: String::from("binding to port") };
    assert_eq!(s.to_string(), "Error: binding to port");
    let r = Error { message: String::from("oops") };
    assert_eq!(r.clone().to_string(), "Error: oops");
}
