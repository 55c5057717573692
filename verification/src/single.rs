//! Request handling for the single-threaded variant of the server.
//!
//! This variant differs from the pooled one in two ways: the request
//! line must end in the literal protocol tag (`HTTP/1` then one
//! further character then `1`), whose text is captured whole as the
//! version, and a response is a pair of the full status line and the
//! response text, with no numeric code.

use vstd::prelude::*;

verus! {

use vstd::string::StrSliceExecFns;
use vstd::string::StringExecFns;
use crate::chars::is_upper;
use crate::chars::upper_char;
use crate::chars::upper_prefix_len;
use crate::chars::lemma_upper_prefix_len;
use crate::chars::str_eq;
use crate::chars::decimal_seq;
use crate::chars::decimal_string;
use crate::server::PageLookup;

/// The protocol tag sits at `v`: `HTTP/1`, one character that is not
/// a line break, then `1`.
pub open spec fn version_tag_at(s: Seq<char>, v: int) -> bool {
    &&& s[v] == 'H'
    &&& s[v + 1] == 'T'
    &&& s[v + 2] == 'T'
    &&& s[v + 3] == 'P'
    &&& s[v + 4] == '/'
    &&& s[v + 5] == '1'
    &&& s[v + 6] != '\n'
    &&& s[v + 7] == '1'
}

/// What this variant's `decompose_request` finds: the method is the
/// upper-case prefix, the route starts at its `/`, and the line ends
/// in a space and the eight-character protocol tag, which is the
/// version.
pub open spec fn parse_request_line(s: Seq<char>) -> Option<(Seq<char>, Seq<char>, Seq<char>)> {
    let m = upper_prefix_len(s) as int;
    let j = s.len() - 9;
    if m >= 1 && m + 1 < s.len() && s[m] == ' ' && s[m + 1] == '/' && m + 2 <= j && s[j] == ' '
        && version_tag_at(s, j + 1) && (forall|k: int| m + 1 <= k < j ==> s[k] != '\n') {
        Some((s.subrange(0, m), s.subrange(m + 1, j), s.subrange(j + 1, s.len() as int)))
    } else {
        None
    }
}

/// Split a request line into method, route and version, the version
/// being the whole protocol tag.  Returns `None` exactly when the
/// line fits no such split.
pub fn decompose_request(request: &str) -> (r: Option<(&str, &str, &str)>)
    ensures
        r matches Some(parts) ==> parse_request_line(request@)
            == Some((parts.0@, parts.1@, parts.2@)),
        r is None ==> parse_request_line(request@) is None,
{
    let n = request.unicode_len();
    let mut m: usize = 0;
    while m < n && upper_char(request.get_char(m))
        invariant
            m <= n,
            n == request@.len(),
            forall|k: int| 0 <= k < m as int ==> is_upper(#[trigger] request@[k]),
        decreases n - m,
    {
        m += 1;
    }
    proof {
        lemma_upper_prefix_len(request@, m as int);
    }
    if !(m >= 1 && m < n && n - m >= 2) {
        return None;
    }
    if request.get_char(m) != ' ' || request.get_char(m + 1) != '/' {
        return None;
    }
    if n - m < 11 {
        // No room for the route and the protocol tag.
        return None;
    }
    let j: usize = n - 9;
    if request.get_char(j) != ' ' {
        return None;
    }
    if request.get_char(j + 1) != 'H' || request.get_char(j + 2) != 'T'
        || request.get_char(j + 3) != 'T' || request.get_char(j + 4) != 'P'
        || request.get_char(j + 5) != '/' || request.get_char(j + 6) != '1'
        || request.get_char(j + 7) == '\n' || request.get_char(j + 8) != '1' {
        return None;
    }
    let mut k: usize = m + 1;
    while k < j
        invariant
            m as int + 1 <= k as int <= j as int,
            (j as int) < n as int,
            j as int == n as int - 9,
            n == request@.len(),
            upper_prefix_len(request@) == m as int,
            forall|k2: int| m as int + 1 <= k2 < k as int ==> request@[k2] != '\n',
        decreases j - k,
    {
        if request.get_char(k) == '\n' {
            return None;
        }
        k += 1;
    }
    let method = request.substring_char(0, m);
    let route = request.substring_char(m + 1, j);
    let version = request.substring_char(j + 1, n);
    Some((method, route, version))
}

/// The status line and response text for a status alone: the body of
/// the response repeats the status and closes the header block.
pub open spec fn spec_empty_response(status: Seq<char>) -> (Seq<char>, Seq<char>) {
    ("HTTP/1.1 "@ + status, status + "\r\n\r\n"@)
}

/// A response with no content.
pub fn empty_response(status: &str) -> (r: (String, String))
    ensures
        r.0@ == spec_empty_response(status@).0,
        r.1@ == spec_empty_response(status@).1,
{
    let mut header = String::from_str("HTTP/1.1 ");
    header.append(status);
    let mut response = String::from_str(status);
    response.append("\r\n\r\n");
    (header, response)
}

/// The status line and response text for a status and a body; the
/// Content-Length header carries the body's size in bytes.
pub open spec fn spec_response_with_content(status: Seq<char>, content: Seq<char>) -> (
    Seq<char>,
    Seq<char>,
) {
    (
        "HTTP/1.1 "@ + status,
        "HTTP/1.1 "@ + status + "\r\nContent-Length: "@
            + decimal_seq(vstd::utf8::encode_utf8(content).len() as usize as int) + "\r\n\r\n"@
            + content,
    )
}

/// A response with a body.
pub fn response_with_content(status: &str, content: &str) -> (r: (String, String))
    ensures
        r.0@ == spec_response_with_content(status@, content@).0,
        r.1@ == spec_response_with_content(status@, content@).1,
{
    let mut header = String::from_str("HTTP/1.1 ");
    header.append(status);
    let mut response = header.clone();
    response.append("\r\nContent-Length: ");
    let len_text = decimal_string(content.len());
    response.append(len_text.as_str());
    response.append("\r\n\r\n");
    response.append(content);
    proof {
        assert(response@ =~= spec_response_with_content(status@, content@).1);
    }
    (header, response)
}

/// The status line and response for one request, given the page
/// lookup's outcome.  A malformed line gets the 400 pair, a version
/// other than the full protocol tag the 505 pair, a method other than
/// `GET` the 405 pair, and otherwise the lookup decides.
pub open spec fn spec_handle_request(request: Seq<String>, page: PageLookup) -> (
    Seq<char>,
    Seq<char>,
) {
    if request.len() == 0 {
        spec_empty_response("400 Bad Request"@)
    } else {
        match parse_request_line(request[0]@) {
            Some(parts) => if parts.2 != "HTTP/1.1"@ {
                spec_empty_response("505 HTTP Version Not Supported"@)
            } else if parts.0 != "GET"@ {
                spec_empty_response("405 Method Not Allowed"@)
            } else {
                match page {
                    PageLookup::Found(content) => spec_response_with_content(
                        "200 OK"@,
                        content@,
                    ),
                    PageLookup::NotFound => spec_empty_response("404 Not Found"@),
                    PageLookup::Failed => spec_empty_response("500 Internal Server Error"@),
                }
            },
            None => spec_empty_response("400 Bad Request"@),
        }
    }
}

/// Answer one request with a status line and a response text, given
/// the raw request lines and the routed page lookup's outcome.
pub fn handle_request(request: Vec<String>, page: PageLookup) -> (r: (String, String))
    ensures
        r.0@ == spec_handle_request(request@, page).0,
        r.1@ == spec_handle_request(request@, page).1,
{
    if request.len() == 0 {
        return empty_response("400 Bad Request");
    }
    let first = request[0].as_str();
    match decompose_request(first) {
        Some((method, _route, version)) => {
            if !str_eq(version, "HTTP/1.1") {
                empty_response("505 HTTP Version Not Supported")
            } else if !str_eq(method, "GET") {
                empty_response("405 Method Not Allowed")
            } else {
                match page {
                    PageLookup::Found(content) => response_with_content(
                        "200 OK",
                        content.as_str(),
                    ),
                    PageLookup::NotFound => empty_response("404 Not Found"),
                    PageLookup::Failed => empty_response("500 Internal Server Error"),
                }
            }
        }
        None => empty_response("400 Bad Request"),
    }
}

} // verus!
