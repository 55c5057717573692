use web_server::chars::decimal_string;
use web_server::server::PageLookup;
use web_server::server::decompose_request;
use web_server::server::empty_response;
use web_server::server::handle_request;
use web_server::server::page_path;
use web_server::server::response_with_content;

fn test_handle_request(request: &str, expected_status_code: usize) {
    let (status, _) = handle_request(vec![String::from(request)], PageLookup::NotFound);
    assert_eq!(status, expected_status_code);
}

#[test]
fn handle_request_returns_400_for_malformed_body() {
    test_handle_request("'; SELECT * FROM users;", 400);
}

#[test]
fn handle_request_returns_404_for_nonexistent_page() {
    test_handle_request("GET /doesntexist HTTP/1.1", 404)
}

#[test]
fn handle_request_returns_505_for_incompatible_http_version() {
    test_handle_request("GET / HTTP/2.0", 505);
}

#[test]
fn lib_decompose_request_with_custom_route() {
    let request = "GET /test HTTP/1.1";
    let (method, route, version) = decompose_request(request).unwrap();

    assert_eq!(method, "GET");
    assert_eq!(route, "/test");
    assert_eq!(version, "1.1");
}

#[test]
fn handle_request_returns_405_for_non_get_method() {
    test_handle_request("DELETE /test HTTP/1.1", 405);
}

#[test]
fn handle_request_returns_200_with_found_page() {
    let (status, response) = handle_request(
        vec![String::from("GET /greeting HTTP/1.1")],
        PageLookup::Found(String::from("hello")),
    );
    assert_eq!(status, 200);
    assert_eq!(response, "HTTP/1.1 200 OK\r\nContent-Length: 5\r\n\r\nhello");
}

#[test]
fn handle_request_returns_500_for_unreadable_page() {
    let (status, _) = handle_request(
        vec![String::from("GET /locked HTTP/1.1")],
        PageLookup::Failed,
    );
    assert_eq!(status, 500);
}

#[test]
fn handle_request_returns_400_for_empty_request() {
    let (status, response) = handle_request(Vec::new(), PageLookup::NotFound);
    assert_eq!(status, 400);
    assert_eq!(response, "HTTP/1.1 400 Bad Request\r\n\r\n");
}

#[test]
fn decompose_request_takes_the_route_greedily() {
    let request = "GET /a HTTP/1.1 HTTP/1.1";
    let (method, route, version) = decompose_request(request).unwrap();
    assert_eq!(method, "GET");
    assert_eq!(route, "/a HTTP/1.1");
    assert_eq!(version, "1.1");
}

#[test]
fn decompose_request_accepts_any_separator_between_version_digits() {
    let (_, _, version) = decompose_request("GET / HTTP/1x1").unwrap();
    assert_eq!(version, "1x1");
}

#[test]
fn decompose_request_rejects_versions_without_digits() {
    assert!(decompose_request("GET / HTTP/").is_none());
    assert!(decompose_request("GET / HTTP/..").is_none());
    assert!(decompose_request("GET / HTTP/1").is_none());
}

#[test]
fn decompose_request_rejects_lowercase_methods() {
    assert!(decompose_request("get / HTTP/1.1").is_none());
}

#[test]
fn decompose_request_rejects_routes_without_slash() {
    assert!(decompose_request("GET test HTTP/1.1").is_none());
}

#[test]
fn empty_response_formats_status_line() {
    let response = empty_response("404 Not Found");
    assert_eq!(response, "HTTP/1.1 404 Not Found\r\n\r\n");
}

#[test]
fn response_with_content_counts_bytes() {
    let response = response_with_content("200 OK", "body text");
    assert_eq!(response, "HTTP/1.1 200 OK\r\nContent-Length: 9\r\n\r\nbody text");
}

#[test]
fn response_with_content_handles_empty_body() {
    let response = response_with_content("200 OK", "");
    assert_eq!(response, "HTTP/1.1 200 OK\r\nContent-Length: 0\r\n\r\n");
}

#[test]
fn page_path_maps_root_to_index() {
    assert_eq!(page_path("/"), "pages/index.html");
    assert_eq!(page_path("/test"), "pages//test.html");
}

#[test]
fn decimal_string_renders_exact_digits() {
    assert_eq!(decimal_string(0), "0");
    assert_eq!(decimal_string(7), "7");
    assert_eq!(decimal_string(10), "10");
    assert_eq!(decimal_string(1234567890), "1234567890");
}
