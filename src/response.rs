//! The rules that answer a parsed request, and the text of the answer.
use vstd::prelude::*;
use vstd::string::*;
use crate::parsers::{lookup, Entries, Request};
use crate::text::{chars_of, contains, contains_str};

verus! {

/// The value of field `k`, or the empty text when there is none.
pub open spec fn field_or_empty(e: Entries, k: Seq<char>) -> Seq<char> {
    match lookup(e, k) {
        Some(v) => v,
        None => Seq::empty(),
    }
}

/// The value of field `key`, or the empty text.
fn field<'a>(req: &'a Request, key: &str, empty: &'a String) -> (r: &'a String)
    requires
        empty@.len() == 0,
    ensures
        r@ == field_or_empty(req@, key@),
{
    match req.get(key) {
        Some(v) => v,
        None => empty,
    }
}

/// Whether the method names `GET`.
pub fn is_get(req: &Request) -> (r: bool)
    ensures
        r == contains(field_or_empty(req@, "method"@), "GET"@),
{
    let empty = String::new();
    contains_str(field(req, "method", &empty).as_str(), "GET")
}

/// Whether the method names `POST`.
pub fn is_post(req: &Request) -> (r: bool)
    ensures
        r == contains(field_or_empty(req@, "method"@), "POST"@),
{
    let empty = String::new();
    contains_str(field(req, "method", &empty).as_str(), "POST")
}

/// Whether the endpoint is one the server has: `/`, or one with `/sleep` in it.
pub fn is_valid(req: &Request) -> (r: bool)
    ensures
        r == (field_or_empty(req@, "endpoint"@) == "/"@ || contains(
            field_or_empty(req@, "endpoint"@),
            "/sleep"@,
        )),
{
    let empty = String::new();
    let endpoint = field(req, "endpoint", &empty);
    let root = String::from_str("/");
    endpoint.eq(&root) || contains_str(endpoint.as_str(), "/sleep")
}

/// Whether the endpoint asks for the slow page.
pub fn is_sleep(req: &Request) -> (r: bool)
    ensures
        r == (contains(field_or_empty(req@, "endpoint"@), "/sleep"@) || contains(
            field_or_empty(req@, "endpoint"@),
            "/sleep/"@,
        )),
{
    let empty = String::new();
    let endpoint = field(req, "endpoint", &empty);
    contains_str(endpoint.as_str(), "/sleep") || contains_str(endpoint.as_str(), "/sleep/")
}

/// How a request is answered.
#[derive(PartialEq, Eq, Structural, Clone, Copy, Debug)]
pub enum Route {
    /// The slow page, served after a pause.
    Sleep,
    /// The index page.
    Index,
    /// A known endpoint asked for with a method other than GET or POST.
    MethodNotAllowed,
    /// An unknown endpoint.
    NotFound,
}

/// The answer to a request with fields `e`.
pub open spec fn route_of(e: Entries) -> Route {
    let method = field_or_empty(e, "method"@);
    let endpoint = field_or_empty(e, "endpoint"@);
    if !(endpoint == "/"@ || contains(endpoint, "/sleep"@)) {
        Route::NotFound
    } else if !(contains(method, "GET"@) || contains(method, "POST"@)) {
        Route::MethodNotAllowed
    } else if contains(endpoint, "/sleep"@) || contains(endpoint, "/sleep/"@) {
        Route::Sleep
    } else {
        Route::Index
    }
}

/// Decides how a request is answered.
pub fn route(req: &Request) -> (r: Route)
    ensures
        r == route_of(req@),
{
    if !is_valid(req) {
        Route::NotFound
    } else if !(is_get(req) || is_post(req)) {
        Route::MethodNotAllowed
    } else if is_sleep(req) {
        Route::Sleep
    } else {
        Route::Index
    }
}

impl Route {
    /// The status line of the answer.
    pub open spec fn status_line_text(&self) -> Seq<char> {
        match self {
            Route::Sleep | Route::Index => "HTTP/1.1 200 OK\r\n\r\n"@,
            Route::MethodNotAllowed => "HTTP/1.1 405 Method Not Allowed\r\n\r\n"@,
            Route::NotFound => "HTTP/1.1 404 Not Found\r\n\r\n"@,
        }
    }

    /// The status line and the blank line that opens the answer.
    pub fn status_line(&self) -> (r: &'static str)
        ensures
            r@ == self.status_line_text(),
    {
        match self {
            Route::Sleep | Route::Index => "HTTP/1.1 200 OK\r\n\r\n",
            Route::MethodNotAllowed => "HTTP/1.1 405 Method Not Allowed\r\n\r\n",
            Route::NotFound => "HTTP/1.1 404 Not Found\r\n\r\n",
        }
    }

    /// The page template that the answer's body is made from.
    pub fn page(&self) -> (r: &'static str)
        ensures
            r@ == match self {
                Route::Sleep => "html/sleep.html"@,
                Route::Index => "html/hello.html"@,
                Route::MethodNotAllowed => "html/405.html"@,
                Route::NotFound => "html/404.html"@,
            },
    {
        match self {
            Route::Sleep => "html/sleep.html",
            Route::Index => "html/hello.html",
            Route::MethodNotAllowed => "html/405.html",
            Route::NotFound => "html/404.html",
        }
    }
}

/// One field as a list item.
pub open spec fn info_item(p: (Seq<char>, Seq<char>)) -> Seq<char> {
    "<li><strong>"@ + p.0 + "</strong>: "@ + p.1 + "</li>"@
}

/// The fields as list items, one per line.
pub open spec fn info_list(e: Entries) -> Seq<char>
    decreases e.len(),
{
    if e.len() == 0 {
        Seq::empty()
    } else if e.len() == 1 {
        info_item(e[0])
    } else {
        info_list(e.drop_last()) + "\n"@ + info_item(e.last())
    }
}

/// The fields of a request as HTML list items, one per line.
pub fn list_info(req: &Request) -> (r: String)
    ensures
        r@ == info_list(req@),
{
    let entries = req.entries();
    let mut out = String::new();
    let mut i: usize = 0;
    while i < entries.len()
        invariant
            i <= entries@.len(),
            entries@.len() == req@.len(),
            forall|k: int| 0 <= k < entries@.len() ==> (#[trigger] entries@[k]).0@ == req@[k].0
                && entries@[k].1@ == req@[k].1,
            out@ == info_list(req@.subrange(0, i as int)),
        decreases entries@.len() - i,
    {
        let ghost done = req@.subrange(0, i as int);
        if i > 0 {
            out.append("\n");
        }
        out.append("<li><strong>");
        out.append(entries[i].0.as_str());
        out.append("</strong>: ");
        out.append(entries[i].1.as_str());
        out.append("</li>");
        proof {
            let next = req@.subrange(0, i + 1);
            assert(next.drop_last() =~= done);
            assert(next.last() == req@[i as int]);
            if i == 0 {
                assert(done =~= Seq::<(Seq<char>, Seq<char>)>::empty());
            }
            assert(out@ =~= info_list(next));
        }
        i = i + 1;
    }
    assert(req@.subrange(0, i as int) =~= req@);
    out
}

/// `s` with every occurrence of `pat` replaced by `with`, scanning from the
/// front; occurrences do not overlap.
pub open spec fn replace_all(s: Seq<char>, pat: Seq<char>, with: Seq<char>) -> Seq<char>
    decreases s.len(),
{
    if pat.len() == 0 || s.len() < pat.len() {
        s
    } else if s.subrange(0, pat.len() as int) == pat {
        with + replace_all(s.subrange(pat.len() as int, s.len() as int), pat, with)
    } else {
        seq![s[0]] + replace_all(s.subrange(1, s.len() as int), pat, with)
    }
}

/// Whether `p` occurs in `a` at position `i`.
fn matches_at(a: &Vec<char>, p: &Vec<char>, i: usize) -> (r: bool)
    requires
        i + p@.len() <= a@.len(),
    ensures
        r == (a@.subrange(i as int, i + p@.len()) == p@),
{
    let mut j: usize = 0;
    while j < p.len()
        invariant
            i + p@.len() <= a@.len(),
            a@.len() == a.len(),
            j <= p@.len(),
            forall|m: int| 0 <= m < j ==> a@[i + m] == p@[m],
        decreases p@.len() - j,
    {
        if a[i + j] != p[j] {
            assert(a@.subrange(i as int, i + p@.len())[j as int] != p@[j as int]);
            return false;
        }
        j = j + 1;
    }
    assert(a@.subrange(i as int, i + p@.len()) =~= p@);
    true
}

/// `s` with every occurrence of the non-empty `pat` replaced by `with`.
pub fn replace_str(s: &str, pat: &str, with: &str) -> (r: String)
    requires
        pat@.len() > 0,
    ensures
        r@ == replace_all(s@, pat@, with@),
{
    let a = chars_of(s);
    let p = chars_of(pat);
    let n = a.len();
    let mut out = String::new();
    let mut last: usize = 0;
    let mut i: usize = 0;
    assert(a@.subrange(0, n as int) =~= a@);
    while i < n
        invariant
            a@ == s@,
            p@ == pat@,
            n == a@.len(),
            p@.len() > 0,
            last <= i <= n,
            out@ + a@.subrange(last as int, i as int) + replace_all(
                a@.subrange(i as int, n as int),
                p@,
                with@,
            ) == replace_all(a@, p@, with@),
        decreases n - i,
    {
        let ghost rest = a@.subrange(i as int, n as int);
        if n - i >= p.len() && matches_at(&a, &p, i) {
            assert(rest.subrange(0, p@.len() as int) =~= a@.subrange(i as int, i + p@.len()));
            assert(rest.subrange(p@.len() as int, rest.len() as int) =~= a@.subrange(
                i + p@.len(),
                n as int,
            ));
            assert(replace_all(rest, p@, with@) == with@ + replace_all(
                a@.subrange(i + p@.len(), n as int),
                p@,
                with@,
            ));
            let ghost out0 = out@;
            let piece = s.substring_char(last, i);
            out.append(piece);
            out.append(with);
            assert(piece@ == a@.subrange(last as int, i as int));
            assert(out@ =~= out0 + a@.subrange(last as int, i as int) + with@);
            i = i + p.len();
            last = i;
            assert(a@.subrange(last as int, i as int) =~= Seq::<char>::empty());
        } else {
            assert(rest.subrange(1, rest.len() as int) =~= a@.subrange(i + 1, n as int));
            if n - i >= p.len() {
                assert(rest.subrange(0, p@.len() as int) =~= a@.subrange(i as int, i + p@.len()));
            }
            assert(a@.subrange(last as int, i + 1) =~= a@.subrange(last as int, i as int).push(
                a@[i as int],
            ));
            assert(replace_all(rest, p@, with@) == seq![a@[i as int]] + replace_all(
                a@.subrange(i + 1, n as int),
                p@,
                with@,
            ));
            i = i + 1;
        }
    }
    assert(a@.subrange(i as int, n as int) =~= Seq::<char>::empty());
    out.append(s.substring_char(last, n));
    assert(out@ =~= replace_all(a@, p@, with@));
    out
}

/// The text of an answer: its status line, then the page with the
/// placeholder `{{}}` replaced by the request's fields.
pub fn render_response(route: Route, html: &str, info: &str) -> (r: String)
    ensures
        r@ == route.status_line_text() + replace_all(html@, "{{}}"@, info@),
{
    proof {
        reveal_strlit("{{}}");
    }
    let body = replace_str(html, "{{}}", info);
    let mut out = String::from_str(route.status_line());
    out.append(body.as_str());
    out
}

} // verus!
