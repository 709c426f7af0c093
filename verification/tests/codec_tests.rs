//! End-to-end tests of the codec: the wire examples, the decode error
//! cases, and concrete instances of the codec's laws.

use http_wire::model::DecodeError;
use http_wire::model::HttpContent;
use http_wire::model::HttpContentType;
use http_wire::model::HttpMethod;
use http_wire::model::HttpRequest;
use http_wire::model::HttpResponse;
use http_wire::model::HttpStatusCode;
use http_wire::encode::build_ok_response;
use http_wire::encode::encode_request;

#[test]
fn test_parse_simple_get_request() {
    let raw_request = "GET /example/resource HTTP/1.1\r\n\r\n";
    let request = HttpRequest::new(raw_request).unwrap();

    let expected = HttpRequest {
        method: HttpMethod::Get,
        path: String::from("/example/resource"),
        headers: Vec::new(),
        content: None,
    };
    assert_eq!(request, expected);
}

#[test]
fn test_parse_simple_get_request_with_headers() {
    let raw_request = "GET /example/resource HTTP/1.1\r\nHost: www.example.com\r\nUser-Agent: Mozilla/5.0 (Windows NT 10.0; Win64; x64; rv:100.0) Gecko/20100101 Firefox/100.0\r\n\r\n";
    let request = HttpRequest::new(raw_request).unwrap();

    let headers = vec![
        (
            String::from("Host"),
            String::from("www.example.com"),
        ),
        (
            String::from("User-Agent"),
            String::from(
                "Mozilla/5.0 (Windows NT 10.0; Win64; x64; rv:100.0) Gecko/20100101 Firefox/100.0",
            ),
        ),
    ];

    let expected = HttpRequest {
        method: HttpMethod::Get,
        path: String::from("/example/resource"),
        headers,
        content: None,
    };
    assert_eq!(request, expected);
}

#[test]
fn test_parse_simple_post_request() {
    let raw_request = "POST /example/resource HTTP/1.1\r\nHost: www.example.com\r\nContent-Type: application/json\r\n\r\n{\"key1\": \"value1\", \"key2\": \"value2\"}";
    let request = HttpRequest::new(raw_request).unwrap();

    let headers = vec![
        (String::from("Host"), String::from("www.example.com")),
        (
            String::from("Content-Type"),
            String::from("application/json"),
        ),
    ];

    // The decoder tags every non-empty body as plain text; it does not
    // consult the Content-Type header, so the type here is TextPlain even
    // though the header says application/json.
    let expected = HttpRequest {
        method: HttpMethod::Post,
        path: String::from("/example/resource"),
        headers,
        content: Some(HttpContent {
            content: String::from("{\"key1\": \"value1\", \"key2\": \"value2\"}"),
            content_type: HttpContentType::TextPlain,
        }),
    };
    assert_eq!(request, expected);
}

#[test]
fn round_trip_of_assembled_request() {
    let method = "POST";
    let path = "/submit";
    let name = "X-Token";
    let value = "abc";
    let body = "payload";
    let raw = format!(
        "{} {} HTTP/1.1\r\n{}: {}\r\n\r\n{}",
        method, path, name, value, body
    );
    let request = HttpRequest::new(&raw).unwrap();
    assert_eq!(request.method, HttpMethod::Post);
    assert_eq!(request.path, path);
    assert_eq!(
        request.headers,
        vec![(String::from(name), String::from(value))]
    );
    let content = request.content.unwrap();
    assert_eq!(content.content, body);
    assert_eq!(content.content_type, HttpContentType::TextPlain);
}

#[test]
fn round_trip_drops_empty_body() {
    let raw = format!("{} {} HTTP/1.1\r\n{}: {}\r\n\r\n{}", "GET", "/x", "A", "b", "");
    let request = HttpRequest::new(&raw).unwrap();
    assert!(request.content.is_none());
}

#[test]
fn encode_request_exact_wire_text() {
    let headers = vec![
        (String::from("Host"), String::from("example")),
        (String::from("Accept"), String::from("*/*")),
    ];
    let raw = encode_request(HttpMethod::Get, "/index", &headers, "");
    assert_eq!(
        raw,
        "GET /index HTTP/1.1\r\nHost: example\r\nAccept: */*\r\n\r\n"
    );
}

#[test]
fn encode_request_then_decode_round_trips() {
    let headers = vec![
        (String::from("Host"), String::from("example")),
        (String::from("Accept"), String::from("*/*")),
    ];
    let raw = encode_request(HttpMethod::Post, "/submit", &headers, "payload");
    let request = HttpRequest::new(&raw).unwrap();
    let expected = HttpRequest {
        method: HttpMethod::Post,
        path: String::from("/submit"),
        headers,
        content: Some(HttpContent {
            content: String::from("payload"),
            content_type: HttpContentType::TextPlain,
        }),
    };
    assert_eq!(request, expected);
}

#[test]
fn decode_zero_headers_empty_body() {
    let request = HttpRequest::new("GET /a HTTP/1.1\r\n\r\n").unwrap();
    assert_eq!(request.method, HttpMethod::Get);
    assert_eq!(request.path, "/a");
    assert!(request.headers.is_empty());
    assert!(request.content.is_none());
}

#[test]
fn decode_two_headers_no_content() {
    let request = HttpRequest::new("GET /r HTTP/1.1\r\nHost: h\r\nUser-Agent: UA\r\n\r\n").unwrap();
    assert_eq!(
        request.headers,
        vec![
            (String::from("Host"), String::from("h")),
            (String::from("User-Agent"), String::from("UA")),
        ]
    );
    assert!(request.content.is_none());
}

#[test]
fn decode_post_with_json_header_tags_body_plain() {
    let request =
        HttpRequest::new("POST /r HTTP/1.1\r\nContent-Type: application/json\r\n\r\n{\"a\":1}")
            .unwrap();
    let content = request.content.unwrap();
    assert_eq!(content.content, "{\"a\":1}");
    assert_eq!(content.content_type, HttpContentType::TextPlain);
    // The header itself still names the JSON type, for callers that
    // re-derive the tag.
    assert_eq!(request.headers[0].1, "application/json");
    assert_eq!(
        HttpContentType::parse(&request.headers[0].1).unwrap(),
        HttpContentType::ApplicationJson
    );
}

#[test]
fn header_lookup_finds_stored_value() {
    let request = HttpRequest::new("GET /r HTTP/1.1\r\nHost: h\r\nUser-Agent: UA\r\n\r\n").unwrap();
    assert_eq!(request.header("User-Agent"), Some(&String::from("UA")));
    assert_eq!(request.header("Host"), Some(&String::from("h")));
    assert_eq!(request.header("Accept"), None);
}

#[test]
fn decode_missing_separator_is_malformed() {
    let r = HttpRequest::new("GET /a HTTP/1.1\r\nHost: h\r\n");
    assert_eq!(r.unwrap_err(), DecodeError::MalformedRequest);
}

#[test]
fn decode_unknown_method() {
    let r = HttpRequest::new("PATCH /a HTTP/1.1\r\n\r\n");
    assert_eq!(r.unwrap_err(), DecodeError::UnknownMethod);
}

#[test]
fn decode_one_token_start_line_is_malformed() {
    let r = HttpRequest::new("GET\r\n\r\n");
    assert_eq!(r.unwrap_err(), DecodeError::MalformedRequest);
}

#[test]
fn decode_empty_start_line_is_unknown_method() {
    let r = HttpRequest::new("\r\n\r\n");
    assert_eq!(r.unwrap_err(), DecodeError::UnknownMethod);
}

#[test]
fn decode_keeps_path_verbatim() {
    let request = HttpRequest::new("GET /files/a%20b?q=1#frag HTTP/1.1\r\n\r\n").unwrap();
    assert_eq!(request.path, "/files/a%20b?q=1#frag");
}

#[test]
fn decode_last_write_wins_on_duplicate_header() {
    let request =
        HttpRequest::new("GET / HTTP/1.1\r\nHost: first\r\nHost: second\r\n\r\n").unwrap();
    assert_eq!(
        request.headers,
        vec![(String::from("Host"), String::from("second"))]
    );
}

#[test]
fn decode_skips_lines_without_colon() {
    let request = HttpRequest::new("GET / HTTP/1.1\r\nnonsense line\r\nHost: h\r\n\r\n").unwrap();
    assert_eq!(
        request.headers,
        vec![(String::from("Host"), String::from("h"))]
    );
}

#[test]
fn decode_trims_header_value_only() {
    let request = HttpRequest::new("GET / HTTP/1.1\r\nX-Pad :  \t spaced \t \r\n\r\n").unwrap();
    assert_eq!(
        request.headers,
        vec![(String::from("X-Pad "), String::from("spaced"))]
    );
}

#[test]
fn decode_preserves_nul_bytes_in_body() {
    let request = HttpRequest::new("POST /files/x HTTP/1.1\r\n\r\n\u{0}\u{0}").unwrap();
    assert_eq!(request.content.unwrap().content, "\u{0}\u{0}");
}

#[test]
fn decode_body_may_contain_separator() {
    let request = HttpRequest::new("POST /x HTTP/1.1\r\n\r\nfirst\r\n\r\nsecond").unwrap();
    assert_eq!(request.content.unwrap().content, "first\r\n\r\nsecond");
}

#[test]
fn encode_not_found_without_content() {
    let response = HttpResponse {
        status_code: HttpStatusCode::NotFound,
        content: None,
    };
    assert_eq!(response.encode(), "HTTP/1.1 404 Not Found\r\n\r\n");
}

#[test]
fn encode_created_without_content() {
    let response = HttpResponse {
        status_code: HttpStatusCode::Created,
        content: None,
    };
    assert_eq!(response.encode(), "HTTP/1.1 201 Created\r\n\r\n");
}

#[test]
fn encode_ok_with_plain_text_body() {
    let response = build_ok_response(Some("hello"));
    assert_eq!(response.status_code, HttpStatusCode::Okay);
    assert_eq!(
        response.encode(),
        "HTTP/1.1 200 OK\r\nContent-Type: text/plain\r\nContent-Length: 5\r\n\r\nhello"
    );
}

#[test]
fn encode_ok_without_body() {
    let response = build_ok_response(None);
    assert_eq!(response.encode(), "HTTP/1.1 200 OK\r\n\r\n");
}

#[test]
fn encode_counts_bytes_not_characters() {
    // "h\u{e9}llo" has five characters but six bytes.
    let response = build_ok_response(Some("h\u{e9}llo"));
    let wire = response.encode();
    assert_eq!(
        wire,
        "HTTP/1.1 200 OK\r\nContent-Type: text/plain\r\nContent-Length: 6\r\n\r\nh\u{e9}llo"
    );
    let expected_len = "HTTP/1.1 200 OK\r\nContent-Type: text/plain\r\nContent-Length: 6\r\n\r\n"
        .len()
        + "h\u{e9}llo".len();
    assert_eq!(wire.len(), expected_len);
}

#[test]
fn encode_octet_stream_content_type() {
    let response = HttpResponse {
        status_code: HttpStatusCode::Okay,
        content: Some(HttpContent {
            content: String::from("data"),
            content_type: HttpContentType::ApplicationOctetStream,
        }),
    };
    assert_eq!(
        response.encode(),
        "HTTP/1.1 200 OK\r\nContent-Type: application/octet-stream\r\nContent-Length: 4\r\n\r\ndata"
    );
}

#[test]
fn method_parse_exact_match() {
    assert_eq!(HttpMethod::parse("GET").unwrap(), HttpMethod::Get);
    assert_eq!(HttpMethod::parse("POST").unwrap(), HttpMethod::Post);
    assert_eq!(
        HttpMethod::parse("get").unwrap_err(),
        DecodeError::UnknownMethod
    );
    assert_eq!(
        HttpMethod::parse("").unwrap_err(),
        DecodeError::UnknownMethod
    );
}

#[test]
fn status_reason_phrases() {
    assert_eq!(HttpStatusCode::Okay.canonical_reason(), "200 OK");
    assert_eq!(HttpStatusCode::Created.canonical_reason(), "201 Created");
    assert_eq!(HttpStatusCode::NotFound.canonical_reason(), "404 Not Found");
}

#[test]
fn content_type_mime_round_trip() {
    for t in [
        HttpContentType::ApplicationJson,
        HttpContentType::ApplicationOctetStream,
        HttpContentType::TextPlain,
    ] {
        assert_eq!(HttpContentType::parse(t.as_str()).unwrap(), t);
    }
    assert_eq!(HttpContentType::ApplicationJson.as_str(), "application/json");
    assert_eq!(
        HttpContentType::ApplicationOctetStream.as_str(),
        "application/octet-stream"
    );
    assert_eq!(HttpContentType::TextPlain.as_str(), "text/plain");
}

#[test]
fn content_type_parse_rejects_unknown() {
    assert_eq!(
        HttpContentType::parse("text/html").unwrap_err(),
        DecodeError::UnknownContentType
    );
    assert_eq!(
        HttpContentType::parse("text/plain; charset=utf-8").unwrap_err(),
        DecodeError::UnknownContentType
    );
}
