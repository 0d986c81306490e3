//! The request model and the parser that fills it from raw text.
use crate::text::{
    chars_of, contains_char, contains_http, find_char, find_word_end, has_http, index_from,
    skip_whitespace, skip_ws, string_of, sub_chars, trim, trimmed, word_end,
};
use vstd::prelude::*;

verus! {

/// The request method. `Uninitialized` stands for a method that was absent
/// or not recognised.
#[derive(Debug, Clone, Copy, PartialEq, Eq, Structural)]
pub enum Method {
    Get,
    Post,
    Uninitialized,
}

/// The protocol version. `V2_0` is reserved: the parser never produces it.
#[derive(Debug, Clone, Copy, PartialEq, Eq, Structural)]
pub enum Version {
    V1_1,
    V2_0,
    Uninitialized,
}

/// The requested resource, held as given on the request line.
#[derive(Debug, PartialEq, Eq)]
pub enum Resource {
    Path(String),
}

impl Resource {
    /// The characters of the path.
    pub open spec fn path(&self) -> Seq<char> {
        match self {
            Resource::Path(p) => p@,
        }
    }
}

/// The method that a method token names.
pub open spec fn method_of(t: Seq<char>) -> Method {
    if t == seq!['G', 'E', 'T'] {
        Method::Get
    } else if t == seq!['P', 'O', 'S', 'T'] {
        Method::Post
    } else {
        Method::Uninitialized
    }
}

/// The version that a version token names.
pub open spec fn version_of(t: Seq<char>) -> Version {
    if t == seq!['H', 'T', 'T', 'P', '/', '1', '.', '1'] {
        Version::V1_1
    } else {
        Version::Uninitialized
    }
}

fn method_from_chars(t: &Vec<char>) -> (r: Method)
    ensures
        r == method_of(t@),
{
    if t.len() == 3 && t[0] == 'G' && t[1] == 'E' && t[2] == 'T' {
        assert(t@ =~= seq!['G', 'E', 'T']);
        Method::Get
    } else if t.len() == 4 && t[0] == 'P' && t[1] == 'O' && t[2] == 'S' && t[3] == 'T' {
        assert(t@ =~= seq!['P', 'O', 'S', 'T']);
        Method::Post
    } else {
        Method::Uninitialized
    }
}

fn version_from_chars(t: &Vec<char>) -> (r: Version)
    ensures
        r == version_of(t@),
{
    if t.len() == 8 && t[0] == 'H' && t[1] == 'T' && t[2] == 'T' && t[3] == 'P' && t[4] == '/'
        && t[5] == '1' && t[6] == '.' && t[7] == '1' {
        assert(t@ =~= seq!['H', 'T', 'T', 'P', '/', '1', '.', '1']);
        Version::V1_1
    } else {
        Version::Uninitialized
    }
}

impl<'a> From<&'a str> for Method {
    /// Classifies a method token: `GET`, `POST`, anything else.
    fn from(value: &'a str) -> (r: Method) {
        method_from_chars(&chars_of(value))
    }
}

impl<'a> vstd::std_specs::convert::FromSpecImpl<&'a str> for Method {
    open spec fn obeys_from_spec() -> bool {
        true
    }

    open spec fn from_spec(v: &'a str) -> Method {
        method_of(v@)
    }
}

impl<'a> From<&'a str> for Version {
    /// Classifies a version token: `HTTP/1.1`, anything else.
    fn from(value: &'a str) -> (r: Version) {
        version_from_chars(&chars_of(value))
    }
}

impl<'a> vstd::std_specs::convert::FromSpecImpl<&'a str> for Version {
    open spec fn obeys_from_spec() -> bool {
        true
    }

    open spec fn from_spec(v: &'a str) -> Version {
        version_of(v@)
    }
}

/// The token of `l` that starts at the first non-whitespace index at or after `i`
/// (empty when only whitespace is left).
pub open spec fn word_at(l: Seq<char>, i: int) -> Seq<char> {
    l.subrange(skip_ws(l, i), word_end(l, skip_ws(l, i)))
}

/// Where the token of `word_at(l, i)` ends.
pub open spec fn after_word(l: Seq<char>, i: int) -> int {
    word_end(l, skip_ws(l, i))
}

/// The first whitespace-delimited token of a request line.
pub open spec fn method_word(l: Seq<char>) -> Seq<char> {
    word_at(l, 0)
}

/// The second whitespace-delimited token of a request line, or empty.
pub open spec fn resource_word(l: Seq<char>) -> Seq<char> {
    word_at(l, after_word(l, 0))
}

/// The third whitespace-delimited token of a request line, or empty.
pub open spec fn version_word(l: Seq<char>) -> Seq<char> {
    word_at(l, after_word(l, after_word(l, 0)))
}

/// Reads the token that starts at or after `i`; returns it and where it ends.
fn next_word(l: &Vec<char>, i: usize) -> (r: (Vec<char>, usize))
    requires
        i <= l.len(),
    ensures
        r.0@ == word_at(l@, i as int),
        r.1 == after_word(l@, i as int),
        i <= r.1 <= l.len(),
{
    let start = skip_whitespace(l, i);
    let end = find_word_end(l, start);
    (sub_chars(l, start, end), end)
}

fn request_line_parts(l: &Vec<char>) -> (r: (Method, Resource, Version))
    ensures
        r.0 == method_of(method_word(l@)),
        r.1.path() == resource_word(l@),
        r.2 == version_of(version_word(l@)),
{
    let (m, e0) = next_word(l, 0);
    let (res, e1) = next_word(l, e0);
    let (v, _e2) = next_word(l, e1);
    (method_from_chars(&m), Resource::Path(string_of(&res, 0, res.len())), version_from_chars(&v))
}

/// Splits a request line on whitespace into method, resource and version.
/// The first three tokens count; a missing token reads as empty text, so
/// the method or version is then `Uninitialized` and the path is empty.
pub fn process_request_line(s: &str) -> (r: (Method, Resource, Version))
    ensures
        r.0 == method_of(method_word(s@)),
        r.1.path() == resource_word(s@),
        r.2 == version_of(version_word(s@)),
{
    request_line_parts(&chars_of(s))
}

/// The key of a header line: what stands before its first colon, trimmed.
pub open spec fn header_key(l: Seq<char>) -> Seq<char> {
    trim(l.subrange(0, index_from(l, 0, ':')))
}

/// The value of a header line: what follows its first colon, trimmed; empty
/// when there is no colon.
pub open spec fn header_value(l: Seq<char>) -> Seq<char> {
    let c = index_from(l, 0, ':');
    if c < l.len() {
        trim(l.subrange(c + 1, l.len() as int))
    } else {
        Seq::empty()
    }
}

fn header_parts(l: &Vec<char>) -> (r: (String, String))
    ensures
        r.0@ == header_key(l@),
        r.1@ == header_value(l@),
{
    let c = find_char(l, ':');
    let key = trimmed(&sub_chars(l, 0, c));
    if c < l.len() {
        (key, trimmed(&sub_chars(l, c + 1, l.len())))
    } else {
        (key, String::new())
    }
}

/// Splits a header line on its first colon into a trimmed key and a trimmed
/// value.
pub fn process_header_line(s: &str) -> (r: (String, String))
    ensures
        r.0@ == header_key(s@),
        r.1@ == header_value(s@),
{
    header_parts(&chars_of(s))
}

/// A line that holds `HTTP` is taken as the request line.
pub open spec fn is_request_line(l: Seq<char>) -> bool {
    contains_http(l)
}

/// A line that is no request line and holds a colon is a header line.
pub open spec fn is_header_line(l: Seq<char>) -> bool {
    !contains_http(l) && contains_char(l, ':')
}

/// A non-empty line that is neither request line nor header line is a body line.
pub open spec fn is_body_line(l: Seq<char>) -> bool {
    !contains_http(l) && !contains_char(l, ':') && l.len() > 0
}

/// A line without the carriage return that ended it, if any.
pub open spec fn strip_cr(l: Seq<char>) -> Seq<char> {
    if l.len() > 0 && l.last() == '\r' {
        l.drop_last()
    } else {
        l
    }
}

/// The lines of `s` ended by a newline (each without `\n` and a `\r` just
/// before it), and the characters after the last newline.
pub open spec fn split_lines(s: Seq<char>) -> (Seq<Seq<char>>, Seq<char>)
    decreases s.len(),
{
    if s.len() == 0 {
        (Seq::empty(), Seq::empty())
    } else {
        let (ls, cur) = split_lines(s.drop_last());
        if s.last() == '\n' {
            (ls.push(strip_cr(cur)), Seq::empty())
        } else {
            (ls, cur.push(s.last()))
        }
    }
}

/// The lines of `s`: split at each `\n`, a `\r` just before it dropped; a last
/// line needs no newline, and nothing after a final newline is a line.
pub open spec fn lines(s: Seq<char>) -> Seq<Seq<char>> {
    let (ls, cur) = split_lines(s);
    if cur.len() == 0 {
        ls
    } else {
        ls.push(cur)
    }
}

/// The last request line among `ls`.
pub open spec fn request_line_of(ls: Seq<Seq<char>>) -> Option<Seq<char>>
    decreases ls.len(),
{
    if ls.len() == 0 {
        None
    } else if is_request_line(ls.last()) {
        Some(ls.last())
    } else {
        request_line_of(ls.drop_last())
    }
}

/// The method that the lines give.
pub open spec fn request_method(ls: Seq<Seq<char>>) -> Method {
    match request_line_of(ls) {
        Some(l) => method_of(method_word(l)),
        None => Method::Uninitialized,
    }
}

/// The version that the lines give.
pub open spec fn request_version(ls: Seq<Seq<char>>) -> Version {
    match request_line_of(ls) {
        Some(l) => version_of(version_word(l)),
        None => Version::Uninitialized,
    }
}

/// The resource path that the lines give.
pub open spec fn request_resource(ls: Seq<Seq<char>>) -> Seq<char> {
    match request_line_of(ls) {
        Some(l) => resource_word(l),
        None => Seq::empty(),
    }
}

/// The header mapping that the lines give: each header line in turn sets its key.
pub open spec fn headers_of(ls: Seq<Seq<char>>) -> Map<Seq<char>, Seq<char>>
    decreases ls.len(),
{
    if ls.len() == 0 {
        Map::empty()
    } else if is_header_line(ls.last()) {
        headers_of(ls.drop_last()).insert(header_key(ls.last()), header_value(ls.last()))
    } else {
        headers_of(ls.drop_last())
    }
}

/// The body that the lines give: the last body line, or empty.
pub open spec fn body_of(ls: Seq<Seq<char>>) -> Seq<char>
    decreases ls.len(),
{
    if ls.len() == 0 {
        Seq::empty()
    } else if is_body_line(ls.last()) {
        ls.last()
    } else {
        body_of(ls.drop_last())
    }
}

/// The entries `h` hold the mapping `m`: keys unique, one entry per key.
pub open spec fn entries_hold(h: Seq<(String, String)>, m: Map<Seq<char>, Seq<char>>) -> bool {
    &&& forall|i: int, j: int| 0 <= i < j < h.len() ==> h[i].0@ != h[j].0@
    &&& forall|i: int|
        0 <= i < h.len() ==> m.contains_key(#[trigger] h[i].0@) && m[h[i].0@] == h[i].1@
    &&& forall|k: Seq<char>| #[trigger] m.contains_key(k) ==> exists|i: int| 0 <= i < h.len() && h[i].0@ == k
}

/// Setting the entry at `i` to `(k, v)`, where `i` is the entry that held
/// `k` or one past the end when none did, keeps the entries holding the
/// mapping once `k` is set to `v`.
proof fn lemma_entries_set(
    before: Seq<(String, String)>,
    after: Seq<(String, String)>,
    m: Map<Seq<char>, Seq<char>>,
    i: int,
    k: Seq<char>,
    v: Seq<char>,
)
    requires
        entries_hold(before, m),
        0 <= i <= before.len(),
        i < before.len() ==> before[i].0@ == k && after.len() == before.len(),
        i == before.len() ==> after.len() == before.len() + 1,
        forall|j: int| 0 <= j < i ==> before[j].0@ != k,
        forall|j: int| 0 <= j < before.len() && j != i ==> after[j] == before[j],
        after[i].0@ == k,
        after[i].1@ == v,
    ensures
        entries_hold(after, m.insert(k, v)),
{
    let m2 = m.insert(k, v);
    assert forall|a: int, b: int| 0 <= a < b < after.len() implies after[a].0@ != after[b].0@ by {
        if a != i && b != i {
            assert(before[a].0@ != before[b].0@);
        } else if a == i {
            assert(before[a].0@ != before[b].0@ || i == before.len());
        } else {
            assert(before[a].0@ != k);
        }
    }
    assert forall|j: int| 0 <= j < after.len() implies m2.contains_key(#[trigger] after[j].0@)
        && m2[after[j].0@] == after[j].1@ by {
        if j != i {
            assert(after[j] == before[j]);
            assert(before[j].0@ != k || i == before.len());
        }
    }
    assert forall|q: Seq<char>| #[trigger] m2.contains_key(q) implies exists|j: int|
        0 <= j < after.len() && after[j].0@ == q by {
        if q != k {
            let j = choose|j: int| 0 <= j < before.len() && before[j].0@ == q;
            assert(after[j].0@ == q);
        } else {
            assert(after[i].0@ == q);
        }
    }
}

/// Sets `key` to `value` in the entries, replacing an entry with that key.
fn set_header(h: &mut Vec<(String, String)>, Ghost(m): Ghost<Map<Seq<char>, Seq<char>>>, key: String, value: String)
    requires
        entries_hold(old(h)@, m),
    ensures
        entries_hold(final(h)@, m.insert(key@, value@)),
{
    let ghost k = key@;
    let ghost v = value@;
    let ghost before = h@;
    let mut i: usize = 0;
    while i < h.len()
        invariant
            i <= h.len(),
            h@ == before,
            k == key@,
            v == value@,
            entries_hold(before, m),
            forall|j: int| 0 <= j < i ==> before[j].0@ != k,
        decreases h.len() - i,
    {
        if h[i].0 == key {
            h[i] = (key, value);
            proof {
                lemma_entries_set(before, h@, m, i as int, k, v);
            }
            return;
        }
        i = i + 1;
    }
    h.push((key, value));
    proof {
        lemma_entries_set(before, h@, m, before.len() as int, k, v);
    }
}

/// A parsed request. Fields the text did not determine hold their sentinel:
/// `Uninitialized`, an empty path, an empty body.
pub struct HttpRequest {
    pub method: Method,
    pub version: Version,
    pub resource: Resource,
    /// One entry per header key, with the value of the last line that set it.
    pub headers: Vec<(String, String)>,
    pub body: String,
}

impl HttpRequest {
    /// This request is what the lines `ls`, taken in order, give.
    pub open spec fn models_lines(&self, ls: Seq<Seq<char>>) -> bool {
        &&& self.method == request_method(ls)
        &&& self.version == request_version(ls)
        &&& self.resource.path() == request_resource(ls)
        &&& entries_hold(self.headers@, headers_of(ls))
        &&& self.body@ == body_of(ls)
    }

    /// This request is what parsing the text `s` gives.
    pub open spec fn is_parse_of(&self, s: Seq<char>) -> bool {
        self.models_lines(lines(s))
    }

    /// Takes one more line into account.
    fn take_line(&mut self, Ghost(ls): Ghost<Seq<Seq<char>>>, l: &Vec<char>)
        requires
            old(self).models_lines(ls),
        ensures
            final(self).models_lines(ls.push(l@)),
    {
        let ghost all = ls.push(l@);
        assert(all.drop_last() =~= ls);
        if has_http(l) {
            let (m, r, v) = request_line_parts(l);
            self.method = m;
            self.resource = r;
            self.version = v;
        } else if find_char(l, ':') < l.len() {
            let (k, v) = header_parts(l);
            set_header(&mut self.headers, Ghost(headers_of(ls)), k, v);
            assert(is_header_line(l@));
        } else if l.len() == 0 {
            // a blank line changes nothing
        } else {
            self.body = string_of(l, 0, l.len());
            assert(l@.subrange(0, l.len() as int) =~= l@);
        }
    }

    /// Parses raw request text. Never fails: each line is, in this order of
    /// precedence, the request line (it holds `HTTP`; the last one counts), a
    /// header line (it holds a colon; a later key replaces an earlier one),
    /// blank (skipped), or a body line (the last one is the body).
    pub fn parse(req: &str) -> (r: HttpRequest)
        ensures
            r.is_parse_of(req@),
    {
        let chars = chars_of(req);
        let mut r = HttpRequest {
            method: Method::Uninitialized,
            version: Version::Uninitialized,
            resource: Resource::Path(String::new()),
            headers: Vec::new(),
            body: String::new(),
        };
        let mut cur: Vec<char> = Vec::new();
        let ghost mut done: Seq<Seq<char>> = Seq::empty();
        assert(chars@.subrange(0, 0) =~= Seq::<char>::empty());
        assert(entries_hold(r.headers@, headers_of(done)));
        let mut i: usize = 0;
        while i < chars.len()
            invariant
                i <= chars.len(),
                split_lines(chars@.subrange(0, i as int)) == (done, cur@),
                r.models_lines(done),
            decreases chars.len() - i,
        {
            let c = chars[i];
            let ghost pre = chars@.subrange(0, i as int);
            assert(chars@.subrange(0, i + 1).drop_last() =~= pre);
            if c == '\n' {
                let n = cur.len();
                if n > 0 && cur[n - 1] == '\r' {
                    let line = sub_chars(&cur, 0, n - 1);
                    assert(line@ =~= strip_cr(cur@));
                    r.take_line(Ghost(done), &line);
                } else {
                    r.take_line(Ghost(done), &cur);
                }
                proof {
                    done = done.push(strip_cr(cur@));
                }
                cur = Vec::new();
            } else {
                cur.push(c);
            }
            i = i + 1;
        }
        assert(chars@.subrange(0, chars.len() as int) =~= req@);
        if cur.len() > 0 {
            r.take_line(Ghost(done), &cur);
        }
        r
    }
}

impl vstd::std_specs::convert::FromSpecImpl<String> for HttpRequest {
    /// The result is stated by the `ensures` of `from` below rather than as a
    /// single spec value: a spec function cannot build the `String` fields.
    open spec fn obeys_from_spec() -> bool {
        false
    }

    open spec fn from_spec(v: String) -> HttpRequest {
        arbitrary()
    }
}

impl From<String> for HttpRequest {
    /// Parses raw request text; see `HttpRequest::parse`.
    fn from(req: String) -> (r: HttpRequest)
        ensures
            r.is_parse_of(req@),
    {
        HttpRequest::parse(req.as_str())
    }
}

} // verus!
