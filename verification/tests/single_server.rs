use web_server::server::PageLookup;
use web_server::single::decompose_request;
use web_server::single::empty_response;
use web_server::single::handle_request;
use web_server::single::response_with_content;

#[test]
fn main_decompose_request_with_custom_route() {
    let request = "GET /test HTTP/1.1";
    let (method, route, version) = decompose_request(request).unwrap();
    assert_eq!(method, "GET");
    assert_eq!(route, "/test");
    assert_eq!(version, "HTTP/1.1");
}

#[test]
fn single_handle_request_rejects_other_version_tags() {
    let (header, response) = handle_request(
        vec![String::from("GET / HTTP/1x1")],
        PageLookup::NotFound,
    );
    assert_eq!(header, "HTTP/1.1 505 HTTP Version Not Supported");
    assert_eq!(response, "505 HTTP Version Not Supported\r\n\r\n");
}

#[test]
fn single_handle_request_rejects_malformed_lines() {
    let (header, _) = handle_request(
        vec![String::from("'; SELECT * FROM users;")],
        PageLookup::NotFound,
    );
    assert_eq!(header, "HTTP/1.1 400 Bad Request");
}

#[test]
fn single_handle_request_serves_found_pages() {
    let (header, response) = handle_request(
        vec![String::from("GET /greeting HTTP/1.1")],
        PageLookup::Found(String::from("hi")),
    );
    assert_eq!(header, "HTTP/1.1 200 OK");
    assert_eq!(response, "HTTP/1.1 200 OK\r\nContent-Length: 2\r\n\r\nhi");
}

#[test]
fn single_empty_response_repeats_the_status_in_the_body() {
    let (header, response) = empty_response("404 Not Found");
    assert_eq!(header, "HTTP/1.1 404 Not Found");
    assert_eq!(response, "404 Not Found\r\n\r\n");
}

#[test]
fn single_response_with_content_counts_bytes() {
    let (header, response) = response_with_content("200 OK", "abc");
    assert_eq!(header, "HTTP/1.1 200 OK");
    assert_eq!(response, "HTTP/1.1 200 OK\r\nContent-Length: 3\r\n\r\nabc");
}

#[test]
fn single_decompose_request_requires_the_full_tag() {
    assert!(decompose_request("GET /test HTTP/2.0").is_none());
    assert!(decompose_request("GET /test").is_none());
}
