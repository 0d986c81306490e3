//! Properties of the parser that span whole inputs.
use crate::request::{
    body_of, header_key, header_value, headers_of, is_body_line, is_header_line, lines,
    method_word, request_line_of, version_word, HttpRequest, Method, Version,
};
use crate::text::{contains_http, index_from, lemma_trim_idempotent, trim};
use vstd::prelude::*;

verus! {

/// The method is `Get` when the request line's first token is `GET`, `Post`
/// when it is `POST`, and `Uninitialized` for any other token or when no line
/// is a request line.
pub proof fn lemma_method_classified(r: HttpRequest, s: Seq<char>)
    requires
        r.is_parse_of(s),
    ensures
        match request_line_of(lines(s)) {
            Some(l) => {
                &&& method_word(l) == seq!['G', 'E', 'T'] ==> r.method == Method::Get
                &&& method_word(l) == seq!['P', 'O', 'S', 'T'] ==> r.method == Method::Post
                &&& method_word(l) != seq!['G', 'E', 'T'] && method_word(l) != seq![
                    'P',
                    'O',
                    'S',
                    'T',
                ] ==> r.method == Method::Uninitialized
            },
            None => r.method == Method::Uninitialized,
        },
{
}

/// The version is `V1_1` when the request line's third token is `HTTP/1.1`,
/// and `Uninitialized` otherwise; it is never `V2_0`.
pub proof fn lemma_version_classified(r: HttpRequest, s: Seq<char>)
    requires
        r.is_parse_of(s),
    ensures
        r.version != Version::V2_0,
        match request_line_of(lines(s)) {
            Some(l) => (r.version == Version::V1_1 <==> version_word(l) == seq![
                'H',
                'T',
                'T',
                'P',
                '/',
                '1',
                '.',
                '1',
            ]),
            None => r.version == Version::Uninitialized,
        },
{
}

/// A header line whose key no later header line repeats sets that key's
/// value in the mapping: of two lines with one key, the later one wins.
pub proof fn lemma_last_header_wins(ls: Seq<Seq<char>>, j: int)
    requires
        0 <= j < ls.len(),
        is_header_line(ls[j]),
        forall|k: int|
            j < k < ls.len() && #[trigger] is_header_line(ls[k]) ==> header_key(ls[k])
                != header_key(ls[j]),
    ensures
        headers_of(ls).contains_key(header_key(ls[j])),
        headers_of(ls)[header_key(ls[j])] == header_value(ls[j]),
    decreases ls.len(),
{
    if j < ls.len() - 1 {
        let rest = ls.drop_last();
        assert forall|k: int|
            j < k < rest.len() && #[trigger] is_header_line(rest[k]) implies header_key(rest[k])
            != header_key(rest[j]) by {
            assert(rest[k] == ls[k]);
        }
        lemma_last_header_wins(rest, j);
        assert(is_header_line(ls.last()) ==> header_key(ls[ls.len() - 1]) != header_key(ls[j]));
    }
}

/// In a parsed request, the entry for a header key holds the value of the
/// last header line with that key.
pub proof fn lemma_request_last_header_wins(r: HttpRequest, s: Seq<char>, j: int)
    requires
        r.is_parse_of(s),
        0 <= j < lines(s).len(),
        is_header_line(lines(s)[j]),
        forall|k: int|
            j < k < lines(s).len() && #[trigger] is_header_line(lines(s)[k]) ==> header_key(
                lines(s)[k],
            ) != header_key(lines(s)[j]),
    ensures
        exists|e: int|
            0 <= e < r.headers@.len() && r.headers@[e].0@ == header_key(lines(s)[j])
                && r.headers@[e].1@ == header_value(lines(s)[j]),
{
    let ls = lines(s);
    lemma_last_header_wins(ls, j);
    let key = header_key(ls[j]);
    assert(headers_of(ls).contains_key(key));
    let e = choose|e: int| 0 <= e < r.headers@.len() && r.headers@[e].0@ == key;
    assert(r.headers@[e].1@ == header_value(ls[j]));
}

/// Header keys and values come out trimmed, so trimming them again changes
/// nothing.
pub proof fn lemma_header_parts_trimmed(l: Seq<char>)
    ensures
        trim(header_key(l)) == header_key(l),
        trim(header_value(l)) == header_value(l),
{
    let c = index_from(l, 0, ':');
    lemma_trim_idempotent(l.subrange(0, c));
    lemma_trim_idempotent(l.subrange(c + 1, l.len() as int));
    assert(trim(Seq::<char>::empty()) =~= Seq::<char>::empty());
}

/// Without body lines the body is empty.
pub proof fn lemma_no_body_line(ls: Seq<Seq<char>>)
    requires
        forall|k: int| 0 <= k < ls.len() ==> !#[trigger] is_body_line(ls[k]),
    ensures
        body_of(ls) == Seq::<char>::empty(),
    decreases ls.len(),
{
    if ls.len() > 0 {
        let rest = ls.drop_last();
        assert forall|k: int| 0 <= k < rest.len() implies !#[trigger] is_body_line(rest[k]) by {
            assert(rest[k] == ls[k]);
        }
        assert(!is_body_line(ls[ls.len() - 1]));
        lemma_no_body_line(rest);
    }
}

/// With a single body line the body is that line, untrimmed.
pub proof fn lemma_single_body_line(ls: Seq<Seq<char>>, i: int)
    requires
        0 <= i < ls.len(),
        is_body_line(ls[i]),
        forall|k: int| 0 <= k < ls.len() && k != i ==> !#[trigger] is_body_line(ls[k]),
    ensures
        body_of(ls) == ls[i],
    decreases ls.len(),
{
    let rest = ls.drop_last();
    if i < ls.len() - 1 {
        assert forall|k: int| 0 <= k < rest.len() && k != i implies !#[trigger] is_body_line(
            rest[k],
        ) by {
            assert(rest[k] == ls[k]);
        }
        assert(!is_body_line(ls[ls.len() - 1]));
        assert(rest[i] == ls[i]);
        lemma_single_body_line(rest, i);
    }
}

/// A parsed request whose text has no body line has an empty body.
pub proof fn lemma_request_without_body_line(r: HttpRequest, s: Seq<char>)
    requires
        r.is_parse_of(s),
        forall|k: int| 0 <= k < lines(s).len() ==> !#[trigger] is_body_line(lines(s)[k]),
    ensures
        r.body@ == Seq::<char>::empty(),
{
    lemma_no_body_line(lines(s));
}

/// A parsed request whose text has exactly one body line has that line,
/// untrimmed, as its body.
pub proof fn lemma_request_single_body_line(r: HttpRequest, s: Seq<char>, i: int)
    requires
        r.is_parse_of(s),
        0 <= i < lines(s).len(),
        is_body_line(lines(s)[i]),
        forall|k: int| 0 <= k < lines(s).len() && k != i ==> !#[trigger] is_body_line(lines(s)[k]),
    ensures
        r.body@ == lines(s)[i],
{
    lemma_single_body_line(lines(s), i);
}

/// A blank line, wherever it is put among the lines, changes neither the
/// request line, the headers nor the body.
pub proof fn lemma_blank_line_ignored(ls: Seq<Seq<char>>, k: int)
    requires
        0 <= k <= ls.len(),
    ensures
        request_line_of(ls.insert(k, Seq::empty())) == request_line_of(ls),
        headers_of(ls.insert(k, Seq::empty())) == headers_of(ls),
        body_of(ls.insert(k, Seq::empty())) == body_of(ls),
    decreases ls.len(),
{
    let blank = Seq::<char>::empty();
    let ls2 = ls.insert(k, blank);
    assert(!contains_http(blank));
    if k == ls.len() {
        assert(ls2.drop_last() =~= ls);
        assert(ls2.last() == blank);
    } else {
        let rest = ls.drop_last();
        lemma_blank_line_ignored(rest, k);
        assert(ls2.drop_last() =~= rest.insert(k, blank));
        assert(ls2.last() == ls.last());
    }
}

/// Two requests whose lines differ by one blank line agree in method,
/// version, resource, headers and body.
pub proof fn lemma_blank_line_keeps_request(r1: HttpRequest, r2: HttpRequest, ls: Seq<Seq<char>>, k: int)
    requires
        0 <= k <= ls.len(),
        r1.models_lines(ls),
        r2.models_lines(ls.insert(k, Seq::empty())),
    ensures
        r2.method == r1.method,
        r2.version == r1.version,
        r2.resource.path() == r1.resource.path(),
        headers_of(ls.insert(k, Seq::empty())) == headers_of(ls),
        r2.body@ == r1.body@,
{
    lemma_blank_line_ignored(ls, k);
}

} // verus!
