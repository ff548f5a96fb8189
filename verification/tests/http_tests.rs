use package_registry::http::{header_content_length, http_response, parse_request_line};
use package_registry::router::{dispatch, rocket, Handler};

#[test]
fn route_table_has_three_routes() {
    let routes = rocket();
    assert_eq!(routes.len(), 3);
    assert_eq!(routes[0].method, "GET");
    assert_eq!(routes[0].path, "/");
    assert_eq!(routes[0].handler, Handler::Index);
    assert_eq!(routes[1].method, "GET");
    assert_eq!(routes[1].path, "/api/v1/packages");
    assert_eq!(routes[1].handler, Handler::PackagesGet);
    assert_eq!(routes[2].method, "POST");
    assert_eq!(routes[2].path, "/api/v1/packages");
    assert_eq!(routes[2].handler, Handler::PackagesPost);
}

#[test]
fn dispatch_serves_the_mounted_routes() {
    assert_eq!(dispatch("GET", "/"), Some(Handler::Index));
    assert_eq!(dispatch("GET", "/api/v1/packages"), Some(Handler::PackagesGet));
    assert_eq!(dispatch("POST", "/api/v1/packages"), Some(Handler::PackagesPost));
    assert_eq!(dispatch("GET", "/nope"), None);
    assert_eq!(dispatch("POST", "/"), None);
    assert_eq!(dispatch("PUT", "/api/v1/packages"), None);
    assert_eq!(dispatch("get", "/"), None);
}

#[test]
fn request_line_yields_method_and_path() {
    let q = parse_request_line("GET /api/v1/packages HTTP/1.1").unwrap();
    assert_eq!(q.method, "GET");
    assert_eq!(q.path, "/api/v1/packages");
    let q = parse_request_line("POST / HTTP/1.0").unwrap();
    assert_eq!(q.method, "POST");
    assert_eq!(q.path, "/");
}

#[test]
fn request_line_rejects_malformed_lines() {
    assert!(parse_request_line("").is_none());
    assert!(parse_request_line("GET").is_none());
    assert!(parse_request_line("GET /").is_none());
    assert!(parse_request_line(" GET / HTTP/1.1").is_none());
    assert!(parse_request_line("GET  / HTTP/1.1").is_none());
}

#[test]
fn content_length_header_is_recognized() {
    assert_eq!(header_content_length("Content-Length: 42"), Some(42));
    assert_eq!(header_content_length("content-length:7"), Some(7));
    assert_eq!(header_content_length("CONTENT-LENGTH:  0  "), Some(0));
    assert_eq!(header_content_length("Content-Length: 42\r\n"), Some(42));
}

#[test]
fn content_length_rejects_other_lines() {
    assert_eq!(header_content_length("Content-Type: text/html"), None);
    assert_eq!(header_content_length("Content-Length:"), None);
    assert_eq!(header_content_length("Content-Length: 12a"), None);
    assert_eq!(header_content_length("Content-Length: -1"), None);
    assert_eq!(header_content_length("Content-Length: 99999999999999999999999"), None);
    assert_eq!(header_content_length("GET / HTTP/1.1"), None);
}

#[test]
fn response_carries_status_headers_and_body() {
    assert_eq!(
        http_response(200, "OK", "text/plain", "hi"),
        "HTTP/1.1 200 OK\r\nContent-Type: text/plain\r\nContent-Length: 2\r\nConnection: close\r\n\r\nhi"
    );
    assert_eq!(
        http_response(400, "Bad Request", "text/plain", ""),
        "HTTP/1.1 400 Bad Request\r\nContent-Type: text/plain\r\nContent-Length: 0\r\nConnection: close\r\n\r\n"
    );
    // The declared length counts bytes, not characters.
    let r = http_response(200, "OK", "text/plain", "\u{e9}");
    assert!(r.contains("Content-Length: 2\r\n"));
}
