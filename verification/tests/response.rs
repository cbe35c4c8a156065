use afire::{Header, Response, SetCookie};

#[test]
fn response_new() {
    let response = Response::new();

    assert_eq!(
        response,
        Response {
            status: 200,
            data: vec![79, 75],
            headers: vec![],
            reason: None,
            close: false
        }
    );
}

#[test]
fn response_default() {
    assert_eq!(Response::new(), Response::default());
}

#[test]
fn response_status() {
    let response = Response::new().status(100);

    assert_eq!(response.status, 100);
}

#[test]
fn response_reason() {
    let response = Response::new().reason("Good");

    assert_eq!(response.reason, Some("Good".to_owned()));
}

#[test]
fn response_text() {
    let response = Response::new().text("Hello World");

    assert_eq!(
        response.data,
        vec![72, 101, 108, 108, 111, 32, 87, 111, 114, 108, 100]
    );
}

#[test]
fn response_bytes() {
    let response = Response::new().bytes(vec![100]);

    assert_eq!(response.data, vec![100]);
}

#[test]
fn response_header() {
    let response = Response::new()
        .header("Name", "Value")
        .header("Hello", "World");

    assert_eq!(
        response.headers,
        vec![Header::new("Name", "Value"), Header::new("Hello", "World")]
    );
}

#[test]
fn response_headers() {
    let response = Response::new().headers(vec![
        Header::new("Name", "Value"),
        Header::new("Hello", "World"),
    ]);

    assert_eq!(
        response.headers,
        vec![Header::new("Name", "Value"), Header::new("Hello", "World")]
    );
}

#[test]
fn response_close() {
    let response = Response::new().close();

    assert!(response.close);
}

#[test]
fn response_cookie() {
    let response = Response::new().cookie(SetCookie::new("Name", "Value"));

    assert_eq!(
        response.headers,
        vec![Header::new("Set-Cookie", "Name=Value;")]
    );
}

#[test]
fn response_cookies() {
    let response = Response::new().cookies(vec![
        SetCookie::new("Name", "Value"),
        SetCookie::new("Hello", "World"),
    ]);

    assert_eq!(
        response.headers,
        vec![
            Header::new("Set-Cookie", "Name=Value;"),
            Header::new("Set-Cookie", "Hello=World;")
        ]
    );
}

#[test]
fn response_content_adds_the_type() {
    let response = Response::new().content(afire::Content::JSON);
    assert_eq!(
        response.headers,
        vec![Header::new("Content-Type", "application/json")]
    );
    let custom = Response::new().content(afire::Content::Custom("image/png".to_owned()));
    assert_eq!(custom.headers, vec![Header::new("Content-Type", "image/png")]);
}

#[test]
fn response_builders_keep_the_other_fields() {
    let response = Response::new()
        .status(404)
        .reason("Gone Fishing")
        .text("nope")
        .header("A", "1")
        .close();
    assert_eq!(
        response,
        Response {
            status: 404,
            data: vec![110, 111, 112, 101],
            headers: vec![Header::new("A", "1")],
            reason: Some("Gone Fishing".to_owned()),
            close: true
        }
    );
}

#[test]
fn response_on_the_wire() {
    let defaults = vec![Header::new("Server", "afire/2.1.0")];
    let bytes = Response::new().to_bytes(&defaults);
    assert_eq!(
        String::from_utf8(bytes).unwrap(),
        "HTTP/1.1 200 OK\r\nServer: afire/2.1.0\r\nContent-Length: 2\r\n\r\nOK"
    );
}

#[test]
fn response_on_the_wire_with_reason_and_body() {
    let bytes = Response::new()
        .status(418)
        .reason("Teapot")
        .bytes(vec![0, 255, 10])
        .header("X-Kind", "pot")
        .to_bytes(&vec![]);
    let mut expected =
        "HTTP/1.1 418 Teapot\r\nX-Kind: pot\r\nContent-Length: 3\r\n\r\n".as_bytes().to_vec();
    expected.extend_from_slice(&[0, 255, 10]);
    assert_eq!(bytes, expected);
}

#[test]
fn response_status_line_uses_the_default_reason() {
    let bytes = Response::new().status(404).bytes(vec![]).to_bytes(&vec![]);
    assert_eq!(
        String::from_utf8(bytes).unwrap(),
        "HTTP/1.1 404 Not Found\r\nContent-Length: 0\r\n\r\n"
    );
    assert_eq!(afire::status::reason_phrase(500), "Internal Server Error");
    assert_eq!(afire::status::reason_phrase(429), "Too Many Requests");
    assert_eq!(afire::status::reason_phrase(799), "OK");
}

#[test]
fn default_and_handler_headers_are_both_present() {
    let defaults = vec![
        Header::new("Server", "afire/2.1.0"),
        Header::new("Content-Type", "text/plain"),
        Header::new("X-Frame", "deny"),
    ];
    let response = Response::new().header("content-type", "text/html").header("X-Mine", "1");
    let merged = response.merged_headers(&defaults);
    assert_eq!(
        merged,
        vec![
            Header::new("content-type", "text/html"),
            Header::new("X-Mine", "1"),
            Header::new("Server", "afire/2.1.0"),
            Header::new("X-Frame", "deny"),
            Header::new("Content-Length", "2"),
        ]
    );
    let count = merged
        .iter()
        .filter(|h| h.name.eq_ignore_ascii_case("Content-Type"))
        .count();
    assert_eq!(count, 1);
}

#[test]
fn content_length_of_the_handler_is_kept() {
    let response = Response::new().header("Content-Length", "99");
    let merged = response.merged_headers(&vec![]);
    assert_eq!(merged, vec![Header::new("Content-Length", "99")]);
}

#[test]
fn defaults_of_one_name_are_both_kept() {
    let defaults = vec![Header::new("X-A", "1"), Header::new("x-a", "2")];
    let merged = Response::new().merged_headers(&defaults);
    assert_eq!(
        merged,
        vec![
            Header::new("X-A", "1"),
            Header::new("x-a", "2"),
            Header::new("Content-Length", "2")
        ]
    );
    let merged = Response::new().header("X-a", "0").merged_headers(&defaults);
    assert_eq!(
        merged,
        vec![Header::new("X-a", "0"), Header::new("Content-Length", "2")]
    );
}

#[test]
fn content_length_of_a_default_is_kept() {
    let defaults = vec![Header::new("Content-Length", "7")];
    let merged = Response::new().merged_headers(&defaults);
    assert_eq!(merged, vec![Header::new("Content-Length", "7")]);
}

#[test]
fn set_cookie_with_attributes() {
    let cookie = SetCookie::new("id", "7")
        .max_age(3600)
        .domain("example.com")
        .path("/")
        .secure(true);
    assert_eq!(
        cookie.to_string(),
        "id=7; Max-Age=3600; Domain=example.com; Path=/; Secure;"
    );
    assert_eq!(SetCookie::new("a", "b").path("/x").to_string(), "a=b; Path=/x;");
}
