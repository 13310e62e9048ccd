//! Parsing an HTTP request into named fields, and the rules that answer it.
use vstd::prelude::*;
use vstd::string::*;
use crate::text::{
    chars_of, find_char, find_separator, index_of_from, lemma_index_of_from,
    lemma_separator_from, lower_of, lowercase, separator_from, trim_str, trimmed,
};

verus! {

/// Named fields in order: each key at most once.
pub type Entries = Seq<(Seq<char>, Seq<char>)>;

/// The position of the entry with key `k`, or -1.
pub open spec fn key_index(e: Entries, k: Seq<char>) -> int
    decreases e.len(),
{
    if e.len() == 0 {
        -1
    } else if e.last().0 == k {
        e.len() - 1
    } else {
        key_index(e.drop_last(), k)
    }
}

/// `e` with key `k` set to `v`: an entry with that key is replaced in place,
/// otherwise the entry goes at the end.
pub open spec fn put(e: Entries, k: Seq<char>, v: Seq<char>) -> Entries {
    let i = key_index(e, k);
    if i >= 0 {
        e.update(i, (k, v))
    } else {
        e.push((k, v))
    }
}

/// The value of key `k` in `e`, if any.
pub open spec fn lookup(e: Entries, k: Seq<char>) -> Option<Seq<char>> {
    let i = key_index(e, k);
    if i >= 0 {
        Some(e[i].1)
    } else {
        None
    }
}

/// `key_index` is -1 or the position of an entry with that key.
pub proof fn lemma_key_index(e: Entries, k: Seq<char>)
    ensures
        -1 <= key_index(e, k) < e.len(),
        key_index(e, k) >= 0 ==> e[key_index(e, k)].0 == k,
    decreases e.len(),
{
    if e.len() > 0 && e.last().0 != k {
        lemma_key_index(e.drop_last(), k);
    }
}

/// The fields of a request line `method endpoint http-version`, split at
/// single spaces and set over `acc`; words beyond the third are ignored.
pub open spec fn request_line_entries(acc: Entries, l: Seq<char>) -> Entries {
    let p0 = index_of_from(l, ' ', 0);
    let e1 = put(acc, "method"@, l.subrange(0, p0));
    if p0 >= l.len() {
        e1
    } else {
        let p1 = index_of_from(l, ' ', p0 + 1);
        let e2 = put(e1, "endpoint"@, l.subrange(p0 + 1, p1));
        if p1 >= l.len() {
            e2
        } else {
            let p2 = index_of_from(l, ' ', p1 + 1);
            put(e2, "http-version"@, l.subrange(p1 + 1, p2))
        }
    }
}

/// A header line `Name: value` set over `acc`: the name is trimmed and lower
/// cased, the value is what stands up to the next `": "`, trimmed. A line with
/// an empty name or value is ignored.
pub open spec fn header_entries(acc: Entries, l: Seq<char>) -> Entries {
    let q = separator_from(l, 0);
    let key = lower_of(trimmed(l.subrange(0, q)));
    let value = if q < l.len() {
        trimmed(l.subrange(q + 2, separator_from(l, q + 2)))
    } else {
        Seq::empty()
    };
    if key.len() == 0 || value.len() == 0 {
        acc
    } else {
        put(acc, key, value)
    }
}

/// Where the line that starts at `start` ends: before its `\n`, or before a
/// `\r\n`, or at the end of the text.
pub open spec fn line_end(s: Seq<char>, start: int) -> int {
    let e = index_of_from(s, '\n', start);
    if e < s.len() && e > start && s[e - 1] == '\r' {
        e - 1
    } else {
        e
    }
}

/// The fields of the lines of `s` from position `start` on, set over `acc`.
/// The line at position 0 is the request line, every later one a header.
pub open spec fn entries_from(s: Seq<char>, start: int, acc: Entries) -> Entries
    decreases s.len() + 1 - start,
    via entries_from_decreases
{
    if start < 0 || start >= s.len() {
        acc
    } else {
        let l = s.subrange(start, line_end(s, start));
        let next = if start == 0 {
            request_line_entries(acc, l)
        } else {
            header_entries(acc, l)
        };
        entries_from(s, index_of_from(s, '\n', start) + 1, next)
    }
}

#[via_fn]
proof fn entries_from_decreases(s: Seq<char>, start: int, acc: Entries) {
    if 0 <= start < s.len() {
        lemma_index_of_from(s, '\n', start);
    }
}

/// The fields of a whole request.
pub open spec fn request_entries(s: Seq<char>) -> Entries {
    entries_from(s, 0, Seq::empty())
}

/// The fields of a request, by name, in the order they were first set.
pub struct Request {
    entries: Vec<(String, String)>,
}

impl View for Request {
    type V = Entries;

    closed spec fn view(&self) -> Entries {
        self.entries@.map_values(|p: (String, String)| (p.0@, p.1@))
    }
}

impl Request {
    /// A request with no fields.
    pub fn new() -> (r: Request)
        ensures
            r@ == Seq::<(Seq<char>, Seq<char>)>::empty(),
    {
        let r = Request { entries: Vec::new() };
        assert(r@ =~= Seq::<(Seq<char>, Seq<char>)>::empty());
        r
    }

    /// The number of fields.
    pub fn len(&self) -> (r: usize)
        ensures
            r == self@.len(),
    {
        self.entries.len()
    }

    /// Whether there is no field.
    pub fn is_empty(&self) -> (r: bool)
        ensures
            r == (self@.len() == 0),
    {
        self.entries.len() == 0
    }

    /// The fields, in order.
    pub fn entries(&self) -> (r: &Vec<(String, String)>)
        ensures
            r@.len() == self@.len(),
            forall|i: int| 0 <= i < r@.len() ==> (#[trigger] r@[i]).0@ == self@[i].0 && r@[i].1@
                == self@[i].1,
    {
        &self.entries
    }

    /// The position of the field named `key`, if any.
    fn position(&self, key: &String) -> (r: Option<usize>)
        ensures
            r matches Some(i) ==> i == key_index(self@, key@),
            r is None ==> key_index(self@, key@) == -1,
    {
        let mut i = self.entries.len();
        assert(self@.subrange(0, i as int) =~= self@);
        while i > 0
            invariant
                i <= self.entries@.len(),
                key_index(self@, key@) == key_index(self@.subrange(0, i as int), key@),
            decreases i,
        {
            let ghost sub = self@.subrange(0, i as int);
            if self.entries[i - 1].0.eq(key) {
                return Some(i - 1);
            }
            assert(sub.drop_last() =~= self@.subrange(0, i - 1));
            i = i - 1;
        }
        assert(self@.subrange(0, 0) =~= Seq::<(Seq<char>, Seq<char>)>::empty());
        None
    }

    /// The value of the field named `key`, if any.
    pub fn get(&self, key: &str) -> (r: Option<&String>)
        ensures
            r matches Some(v) ==> lookup(self@, key@) == Some(v@),
            r is None ==> lookup(self@, key@) is None,
    {
        let k = String::from_str(key);
        proof {
            lemma_key_index(self@, key@);
        }
        match self.position(&k) {
            Some(i) => Some(&self.entries[i].1),
            None => None,
        }
    }

    /// Sets the field `key` to `value`, in place if it is there already.
    pub fn insert(&mut self, key: String, value: String)
        ensures
            final(self)@ == put(old(self)@, key@, value@),
    {
        proof {
            lemma_key_index(self@, key@);
        }
        match self.position(&key) {
            Some(i) => {
                self.entries.set(i, (key, value));
                assert(self@ =~= put(old(self)@, key@, value@));
            },
            None => {
                self.entries.push((key, value));
                assert(self@ =~= put(old(self)@, key@, value@));
            },
        }
    }
}

/// Splits a request line into `method`, `endpoint` and `http-version`.
pub fn parse_method(line: &str) -> (r: Request)
    ensures
        r@ == request_line_entries(Seq::empty(), line@),
{
    let l = chars_of(line);
    let n = l.len();
    let mut r = Request::new();
    proof {
        lemma_index_of_from(l@, ' ', 0);
    }
    let p0 = find_char(&l, ' ', 0);
    r.insert(String::from_str("method"), String::from_str(line.substring_char(0, p0)));
    if p0 >= n {
        return r;
    }
    proof {
        lemma_index_of_from(l@, ' ', p0 + 1);
    }
    let p1 = find_char(&l, ' ', p0 + 1);
    r.insert(String::from_str("endpoint"), String::from_str(line.substring_char(p0 + 1, p1)));
    if p1 >= n {
        return r;
    }
    proof {
        lemma_index_of_from(l@, ' ', p1 + 1);
    }
    let p2 = find_char(&l, ' ', p1 + 1);
    r.insert(String::from_str("http-version"), String::from_str(line.substring_char(p1 + 1, p2)));
    r
}

/// Sets the field of a header line `Name: value` over `out`.
fn apply_header(out: &mut Request, line: &str)
    ensures
        final(out)@ == header_entries(old(out)@, line@),
{
    let l = chars_of(line);
    proof {
        lemma_separator_from(l@, 0);
    }
    let q = find_separator(&l, 0);
    let key = lowercase(trim_str(line.substring_char(0, q)));
    if q >= l.len() {
        return;
    }
    proof {
        lemma_separator_from(l@, q + 2);
    }
    let q2 = find_separator(&l, q + 2);
    let value = trim_str(line.substring_char(q + 2, q2));
    if key.as_str().is_empty() || value.is_empty() {
        return;
    }
    out.insert(key, String::from_str(value));
}

/// Parses a request: the first line gives `method`, `endpoint` and
/// `http-version`, each later line `Name: value` a field named by the lower
/// cased name. Lines end at `\n` or `\r\n`.
pub fn parse_request(req: &str) -> (r: Request)
    ensures
        r@ == request_entries(req@),
{
    let s = chars_of(req);
    let n = s.len();
    let mut out = Request::new();
    let mut start: usize = 0;
    while start < n
        invariant
            s@ == req@,
            n == s@.len(),
            start <= n,
            start == 0 ==> out@ == Seq::<(Seq<char>, Seq<char>)>::empty(),
            entries_from(s@, start as int, out@) == request_entries(req@),
        decreases n - start,
    {
        proof {
            lemma_index_of_from(s@, '\n', start as int);
        }
        let e = find_char(&s, '\n', start);
        let mut end = e;
        if e < n && e > start && s[e - 1] == '\r' {
            end = e - 1;
        }
        let line = req.substring_char(start, end);
        let ghost before = out@;
        if start == 0 {
            out = parse_method(line);
        } else {
            apply_header(&mut out, line);
        }
        assert(entries_from(s@, start as int, before) == entries_from(s@, e + 1, out@));
        if e >= n {
            assert(entries_from(s@, e + 1, out@) == out@);
            return out;
        }
        start = e + 1;
    }
    out
}

} // verus!
