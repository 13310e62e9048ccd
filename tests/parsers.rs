use httpserver::parsers::{parse_method, parse_request, Request};
use httpserver::response::{
    is_get, is_post, is_sleep, is_valid, list_info, render_response, replace_str, route, Route,
};
use httpserver::text::contains_str;
use std::collections::HashMap;

#[test]
fn test_empty_req() {
    let parsed: HashMap<String, String> = parse_request("").entries().iter().cloned().collect();
    assert_eq!(parsed, HashMap::new());
}

#[test]
fn test_get_sleep_req() {
    let r = "GET /sleep/ HTTP/1.1
Host: 127.0.0.1:7878
User-Agent: Mozilla/5.0 (Macintosh; Intel Mac OS X 10.14; rv:70.0) Gecko/20100101 Firefox/70.0
Accept: text/html,application/xhtml+xml,application/xml;q=0.9,*/*;q=0.8
Accept-Language: en-US,en;q=0.5
Accept-Encoding: gzip, deflate
Connection: keep-alive
Cookie: PGADMIN_KEY=545c5f7d-bd15-44bf-8d8c-008ca33e5a61; PGADMIN_LANGUAGE=en
Upgrade-Insecure-Requests: 1
Cache-Control: max-age=0";
    let parsed = parse_request(r);
    assert!(
        parsed.get("endpoint").unwrap() == "/sleep/" && parsed.get("method").unwrap() == "GET"
    );
}

#[test]
fn test_get_index_req() {
    let r = "GET / HTTP/1.1
Host: 127.0.0.1:7878
User-Agent: Mozilla/5.0 (Macintosh; Intel Mac OS X 10.14; rv:70.0) Gecko/20100101 Firefox/70.0
Accept: text/html,application/xhtml+xml,application/xml;q=0.9,*/*;q=0.8
Accept-Language: en-US,en;q=0.5
Accept-Encoding: gzip, deflate
Connection: keep-alive
Cookie: PGADMIN_KEY=545c5f7d-bd15-44bf-8d8c-008ca33e5a61; PGADMIN_LANGUAGE=en
Upgrade-Insecure-Requests: 1
Cache-Control: max-age=0";
    let parsed = parse_request(r);
    assert!(parsed.get("endpoint").unwrap() == "/" && parsed.get("method").unwrap() == "GET");
}

#[test]
fn is_not_get_request() {
    let is_it = is_get(&Request::new());
    assert!(!is_it);
}

#[test]
fn is_get_request() {
    let mut req = Request::new();
    req.insert(String::from("method"), String::from("GET"));
    let is_it = is_get(&req);
    assert!(is_it);
}

#[test]
fn request_line_and_host_give_four_fields() {
    let parsed = parse_request("GET / HTTP/1.1\r\nHost: 127.0.0.1:7878");
    let fields: HashMap<String, String> = parsed.entries().iter().cloned().collect();
    let mut expected = HashMap::new();
    expected.insert(String::from("method"), String::from("GET"));
    expected.insert(String::from("endpoint"), String::from("/"));
    expected.insert(String::from("http-version"), String::from("HTTP/1.1"));
    expected.insert(String::from("host"), String::from("127.0.0.1:7878"));
    assert_eq!(fields, expected);
}

#[test]
fn header_names_are_trimmed_and_lower_cased() {
    let parsed = parse_request("POST /x HTTP/1.0\n  Content-TYPE :  text/plain  \nX-Empty: \nNoColon\n");
    assert_eq!(parsed.get("content-type").unwrap(), "text/plain");
    assert!(parsed.get("Content-TYPE").is_none());
    assert!(parsed.get("x-empty").is_none());
    assert!(parsed.get("nocolon").is_none());
    assert_eq!(parsed.len(), 4);
}

#[test]
fn later_header_replaces_earlier() {
    let parsed = parse_request("GET / HTTP/1.1\nHost: a\nHOST: b");
    assert_eq!(parsed.get("host").unwrap(), "b");
    assert_eq!(parsed.len(), 4);
}

#[test]
fn value_stops_at_next_separator() {
    let parsed = parse_request("GET / HTTP/1.1\nA: b: c");
    assert_eq!(parsed.get("a").unwrap(), "b");
}

#[test]
fn short_request_line() {
    let parsed = parse_method("GET");
    assert_eq!(parsed.len(), 1);
    assert_eq!(parsed.get("method").unwrap(), "GET");
    let parsed = parse_method("GET /a HTTP/1.1 extra");
    assert_eq!(parsed.get("http-version").unwrap(), "HTTP/1.1");
    assert_eq!(parsed.len(), 3);
}

#[test]
fn routes() {
    let index = parse_request("GET / HTTP/1.1");
    assert!(is_valid(&index) && is_get(&index) && !is_post(&index) && !is_sleep(&index));
    assert_eq!(route(&index), Route::Index);
    assert_eq!(route(&parse_request("POST /sleep/ HTTP/1.1")), Route::Sleep);
    assert_eq!(route(&parse_request("DELETE / HTTP/1.1")), Route::MethodNotAllowed);
    assert_eq!(route(&parse_request("GET /other HTTP/1.1")), Route::NotFound);
    assert_eq!(route(&Request::new()), Route::NotFound);
    assert_eq!(Route::NotFound.status_line(), "HTTP/1.1 404 Not Found\r\n\r\n");
    assert_eq!(Route::Sleep.page(), "html/sleep.html");
}

#[test]
fn list_info_lists_fields_in_order() {
    let parsed = parse_request("GET / HTTP/1.1");
    assert_eq!(
        list_info(&parsed),
        "<li><strong>method</strong>: GET</li>\n<li><strong>endpoint</strong>: /</li>\n<li><strong>http-version</strong>: HTTP/1.1</li>"
    );
    assert_eq!(list_info(&Request::new()), "");
}

#[test]
fn placeholder_is_replaced() {
    assert_eq!(replace_str("a{{}}b{{}}", "{{}}", "X"), "aXbX");
    assert_eq!(replace_str("aaa", "aa", "b"), "ba");
    assert_eq!(
        render_response(Route::Index, "<ul>{{}}</ul>", "<li>x</li>"),
        "HTTP/1.1 200 OK\r\n\r\n<ul><li>x</li></ul>"
    );
}

#[test]
fn substring_search() {
    assert!(contains_str("/sleep/", "/sleep"));
    assert!(contains_str("abc", ""));
    assert!(!contains_str("/sle", "/sleep"));
}
