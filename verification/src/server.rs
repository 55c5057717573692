//! Request handling for the pooled server: the request-line grammar,
//! the routing decision, and the response text.
//!
//! A request line is `METHOD SP ROUTE SP "HTTP/" VERSION`, where
//! METHOD is one or more upper-case letters, ROUTE starts with `/` and
//! runs greedily to the last separator whose tail still parses, and
//! VERSION is a run of digits, one further character, and a second run
//! of digits.  Only a `GET` under version `1.1` is served; the page
//! lookup itself is the embedding's work, and its outcome is passed in
//! as a plain value.

use vstd::prelude::*;

verus! {

use vstd::string::StrSliceExecFns;
use vstd::string::StringExecFns;
use crate::chars::is_upper;
use crate::chars::is_digit;
use crate::chars::upper_char;
use crate::chars::digit_char;
use crate::chars::upper_prefix_len;
use crate::chars::lemma_upper_prefix_len;
use crate::chars::str_eq;
use crate::chars::decimal_seq;
use crate::chars::decimal_string;

/// Every character is a decimal digit.
pub open spec fn all_digits(s: Seq<char>) -> bool {
    forall|k: int| 0 <= k < s.len() ==> is_digit(#[trigger] s[k])
}

/// The version text splits at `i` into digits, one character that is
/// not a line break, and digits again.
pub open spec fn version_split_at(r: Seq<char>, i: int) -> bool {
    &&& 1 <= i <= r.len() - 2
    &&& all_digits(r.subrange(0, i))
    &&& r[i] != '\n'
    &&& all_digits(r.subrange(i + 1, r.len() as int))
}

/// The version text is well-formed: some such split exists.
pub open spec fn version_pattern(r: Seq<char>) -> bool {
    exists|i: int| version_split_at(r, i)
}

/// Decide `version_pattern` by scanning for a split position.
fn version_check(r: &str) -> (b: bool)
    ensures
        b == version_pattern(r@),
{
    let n = r.unicode_len();
    if n < 3 {
        return false;
    }
    // Longest digit prefix and longest digit suffix bound the splits.
    let mut dp: usize = 0;
    while dp < n && digit_char(r.get_char(dp))
        invariant
            dp <= n,
            n == r@.len(),
            forall|k: int| 0 <= k < dp as int ==> is_digit(#[trigger] r@[k]),
        decreases n - dp,
    {
        dp += 1;
    }
    let mut ss: usize = n;
    while ss > 0 && digit_char(r.get_char(ss - 1))
        invariant
            ss <= n,
            n == r@.len(),
            forall|k: int| ss as int <= k < n as int ==> is_digit(#[trigger] r@[k]),
        decreases ss,
    {
        ss -= 1;
    }
    let mut i: usize = 1;
    while i <= n - 2
        invariant
            1 <= i <= n - 1,
            3 <= n,
            n == r@.len(),
            dp <= n,
            forall|k: int| 0 <= k < dp as int ==> is_digit(#[trigger] r@[k]),
            dp < n ==> !is_digit(r@[dp as int]),
            ss <= n,
            forall|k: int| ss as int <= k < n as int ==> is_digit(#[trigger] r@[k]),
            ss > 0 ==> !is_digit(r@[ss as int - 1]),
            forall|k: int| 1 <= k < i as int ==> !version_split_at(r@, k),
        decreases n - i,
    {
        if i <= dp && ss <= i + 1 && r.get_char(i) != '\n' {
            proof {
                assert forall|k: int| 0 <= k < i as int
                    implies is_digit(#[trigger] r@.subrange(0, i as int)[k]) by {
                    assert(r@.subrange(0, i as int)[k] == r@[k]);
                };
                let tail = r@.subrange(i as int + 1, n as int);
                assert forall|k: int| 0 <= k < tail.len()
                    implies is_digit(#[trigger] tail[k]) by {
                    assert(tail[k] == r@[k + i as int + 1]);
                };
                assert(version_split_at(r@, i as int));
            }
            return true;
        }
        proof {
            if i as int > dp as int {
                assert(!all_digits(r@.subrange(0, i as int))) by {
                    assert(r@.subrange(0, i as int)[dp as int] == r@[dp as int]);
                };
            } else if (ss as int) > i as int + 1 {
                let tail = r@.subrange(i as int + 1, n as int);
                assert(!all_digits(tail)) by {
                    assert(tail[ss as int - 1 - (i as int + 1)] == r@[ss as int - 1]);
                };
            }
            assert(!version_split_at(r@, i as int));
        }
        i += 1;
    }
    proof {
        assert forall|k: int| !version_split_at(r@, k) by {
            if 1 <= k <= n as int - 2 {
                assert(!version_split_at(r@, k));
            }
        };
    }
    false
}

/// The request line splits at `j` for a method of length `m`: a space,
/// the protocol name, and a well-formed version, with no line break
/// inside the route.
pub open spec fn tail_at(s: Seq<char>, m: int, j: int) -> bool {
    &&& m + 2 <= j
    &&& j + 6 <= s.len()
    &&& s[j] == ' '
    &&& s.subrange(j + 1, j + 6) == "HTTP/"@
    &&& version_pattern(s.subrange(j + 6, s.len() as int))
    &&& forall|k: int| m + 1 <= k < j ==> s[k] != '\n'
}

/// The greedy split: the largest `j` at most `hi` at which the request
/// line splits, or -1 when there is none.
pub open spec fn best_tail(s: Seq<char>, m: int, hi: int) -> int
    decreases hi + 1,
{
    if hi < 0 {
        -1
    } else if tail_at(s, m, hi) {
        hi
    } else {
        best_tail(s, m, hi - 1)
    }
}

proof fn lemma_best_tail_skip(s: Seq<char>, m: int, hi: int, j: int)
    requires
        -1 <= j <= hi,
        forall|j2: int| j < j2 <= hi ==> !tail_at(s, m, j2),
    ensures
        best_tail(s, m, hi) == best_tail(s, m, j),
    decreases hi - j,
{
    if j < hi {
        lemma_best_tail_skip(s, m, hi - 1, j);
    }
}

proof fn lemma_best_tail_low(s: Seq<char>, m: int, hi: int)
    requires
        hi < m + 2,
    ensures
        best_tail(s, m, hi) == -1,
    decreases hi + 1,
{
    if hi >= 0 {
        lemma_best_tail_low(s, m, hi - 1);
    }
}

/// What `decompose_request` finds: the method is the upper-case
/// prefix, a space and the route's `/` must follow, and the line is
/// split greedily before `" HTTP/"` and the version.
pub open spec fn parse_request_line(s: Seq<char>) -> Option<(Seq<char>, Seq<char>, Seq<char>)> {
    let m = upper_prefix_len(s) as int;
    if m >= 1 && m + 1 < s.len() && s[m] == ' ' && s[m + 1] == '/' {
        let j = best_tail(s, m, s.len() - 1);
        if j >= 0 {
            Some(
                (
                    s.subrange(0, m),
                    s.subrange(m + 1, j),
                    s.subrange(j + 6, s.len() as int),
                ),
            )
        } else {
            None
        }
    } else {
        None
    }
}

/// Does the line split at `j`?  Decides `tail_at`.
fn tail_check(s: &str, m: usize, j: usize) -> (b: bool)
    requires
        m as int + 2 <= j as int,
        j < s@.len(),
    ensures
        b == tail_at(s@, m as int, j as int),
{
    let n = s.unicode_len();
    if n < 6 || j > n - 6 {
        return false;
    }
    if s.get_char(j) != ' ' {
        return false;
    }
    proof {
        reveal_strlit("HTTP/");
    }
    if s.get_char(j + 1) != 'H' || s.get_char(j + 2) != 'T' || s.get_char(j + 3) != 'T'
        || s.get_char(j + 4) != 'P' || s.get_char(j + 5) != '/' {
        proof {
            assert(s@.subrange(j as int + 1, j as int + 6) != "HTTP/"@) by {
                if s@.subrange(j as int + 1, j as int + 6) == "HTTP/"@ {
                    assert(s@[j as int + 1] == "HTTP/"@[0]);
                    assert(s@[j as int + 2] == "HTTP/"@[1]);
                    assert(s@[j as int + 3] == "HTTP/"@[2]);
                    assert(s@[j as int + 4] == "HTTP/"@[3]);
                    assert(s@[j as int + 5] == "HTTP/"@[4]);
                }
            };
        }
        return false;
    }
    proof {
        assert(s@.subrange(j as int + 1, j as int + 6) =~= "HTTP/"@);
    }
    let tail = s.substring_char(j + 6, n);
    if !version_check(tail) {
        return false;
    }
    let mut k: usize = m + 1;
    while k < j
        invariant
            m as int + 1 <= k as int <= j as int,
            j < s@.len(),
            forall|k2: int| m as int + 1 <= k2 < k as int ==> s@[k2] != '\n',
        decreases j - k,
    {
        if s.get_char(k) == '\n' {
            return false;
        }
        k += 1;
    }
    true
}

/// Split a request line into method, route and version.  The method
/// is the leading run of upper-case letters, the route starts at its
/// `/` and extends greedily, and the version is everything after the
/// last `" HTTP/"` whose tail still parses.  Returns `None` exactly
/// when the line fits no such split.
pub fn decompose_request(request: &str) -> (r: Option<(&str, &str, &str)>)
    ensures
        r matches Some(parts) ==> parse_request_line(request@)
            == Some((parts.0@, parts.1@, parts.2@)),
        r is None ==> parse_request_line(request@) is None,
{
    let n = request.unicode_len();
    let mut m: usize = 0;
    while m < n && upper_char(request.get_char(m))
        invariant
            m <= n,
            n == request@.len(),
            forall|k: int| 0 <= k < m as int ==> is_upper(#[trigger] request@[k]),
        decreases n - m,
    {
        m += 1;
    }
    proof {
        lemma_upper_prefix_len(request@, m as int);
    }
    if !(m >= 1 && m < n && n - m >= 2) {
        return None;
    }
    if request.get_char(m) != ' ' || request.get_char(m + 1) != '/' {
        return None;
    }
    let mut j: usize = n - 1;
    while j >= m + 2
        invariant
            m as int + 1 <= j as int,
            (j as int) < n as int,
            n == request@.len(),
            m as int + 2 <= n as int,
            m >= 1,
            upper_prefix_len(request@) == m as int,
            request@[m as int] == ' ',
            request@[m as int + 1] == '/',
            forall|j2: int| (j as int) < j2 < n as int ==> !tail_at(request@, m as int, j2),
        decreases j,
    {
        if tail_check(request, m, j) {
            proof {
                lemma_best_tail_skip(request@, m as int, n as int - 1, j as int);
                assert(best_tail(request@, m as int, n as int - 1) == j as int);
            }
            let method = request.substring_char(0, m);
            let route = request.substring_char(m + 1, j);
            let version = request.substring_char(j + 6, n);
            return Some((method, route, version));
        }
        j -= 1;
    }
    proof {
        lemma_best_tail_skip(request@, m as int, n as int - 1, j as int);
        lemma_best_tail_low(request@, m as int, j as int);
    }
    None
}

/// The response text for a status line alone.
pub open spec fn spec_empty_response(status: Seq<char>) -> Seq<char> {
    "HTTP/1.1 "@ + status + "\r\n\r\n"@
}

/// A response with no body: the protocol, the status, and a blank
/// header block.
pub fn empty_response(status: &str) -> (r: String)
    ensures
        r@ == spec_empty_response(status@),
{
    let mut r = String::from_str("HTTP/1.1 ");
    r.append(status);
    r.append("\r\n\r\n");
    r
}

/// The response text for a status line and a body: a Content-Length
/// header carries the body's size in bytes.
pub open spec fn spec_response_with_content(status: Seq<char>, content: Seq<char>) -> Seq<char> {
    "HTTP/1.1 "@ + status + "\r\nContent-Length: "@
        + decimal_seq(vstd::utf8::encode_utf8(content).len() as usize as int) + "\r\n\r\n"@
        + content
}

/// A response with a body.
pub fn response_with_content(status: &str, content: &str) -> (r: String)
    ensures
        r@ == spec_response_with_content(status@, content@),
{
    let mut r = String::from_str("HTTP/1.1 ");
    r.append(status);
    r.append("\r\nContent-Length: ");
    let len_text = decimal_string(content.len());
    r.append(len_text.as_str());
    r.append("\r\n\r\n");
    r.append(content);
    proof {
        assert(r@ =~= spec_response_with_content(status@, content@));
    }
    r
}

/// What the embedding's page lookup reported for the routed file.
pub enum PageLookup {
    /// The page exists; its text becomes the response body.
    Found(String),
    /// No such page.
    NotFound,
    /// The page could not be read for another reason.
    Failed,
}

/// The file consulted for a route: the index page for the root route,
/// and a page named after the route otherwise.
pub open spec fn spec_page_path(route: Seq<char>) -> Seq<char> {
    if route == "/"@ {
        "pages/index.html"@
    } else {
        "pages/"@ + route + ".html"@
    }
}

/// Where the content for `route` is looked up.
pub fn page_path(route: &str) -> (r: String)
    ensures
        r@ == spec_page_path(route@),
{
    if str_eq(route, "/") {
        String::from_str("pages/index.html")
    } else {
        let mut r = String::from_str("pages/");
        r.append(route);
        r.append(".html");
        r
    }
}

/// The status code and response for one request, given the page
/// lookup's outcome: a malformed line is a 400, a version other than
/// `1.1` a 505, a method other than `GET` a 405, and otherwise the
/// lookup decides among 200, 404 and 500.
pub open spec fn spec_handle_request(request: Seq<String>, page: PageLookup) -> (int, Seq<char>) {
    if request.len() == 0 {
        (400, spec_empty_response("400 Bad Request"@))
    } else {
        match parse_request_line(request[0]@) {
            Some(parts) => if parts.2 != "1.1"@ {
                (505, spec_empty_response("505 HTTP Version Not Supported"@))
            } else if parts.0 != "GET"@ {
                (405, spec_empty_response("405 Method Not Allowed"@))
            } else {
                match page {
                    PageLookup::Found(content) => (
                        200,
                        spec_response_with_content("200 OK"@, content@),
                    ),
                    PageLookup::NotFound => (404, spec_empty_response("404 Not Found"@)),
                    PageLookup::Failed => (
                        500,
                        spec_empty_response("500 Internal Server Error"@),
                    ),
                }
            },
            None => (400, spec_empty_response("400 Bad Request"@)),
        }
    }
}

/// Answer one request.  The caller parses nothing: it passes the raw
/// request lines and the outcome of looking up the routed page (only
/// consulted when a well-formed `GET` under version `1.1` arrives).
pub fn handle_request(request: Vec<String>, page: PageLookup) -> (r: (usize, String))
    ensures
        r.0 as int == spec_handle_request(request@, page).0,
        r.1@ == spec_handle_request(request@, page).1,
{
    if request.len() == 0 {
        return (400, empty_response("400 Bad Request"));
    }
    let first = request[0].as_str();
    match decompose_request(first) {
        Some((method, _route, version)) => {
            if !str_eq(version, "1.1") {
                (505, empty_response("505 HTTP Version Not Supported"))
            } else if !str_eq(method, "GET") {
                (405, empty_response("405 Method Not Allowed"))
            } else {
                match page {
                    PageLookup::Found(content) => {
                        let body = response_with_content("200 OK", content.as_str());
                        (200, body)
                    }
                    PageLookup::NotFound => (404, empty_response("404 Not Found")),
                    PageLookup::Failed => (500, empty_response("500 Internal Server Error")),
                }
            }
        }
        None => (400, empty_response("400 Bad Request")),
    }
}

} // verus!
