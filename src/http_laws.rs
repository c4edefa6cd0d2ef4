use vstd::prelude::*;
use crate::http::{
    colon, crlf, http11, is_line_break, parse_headers, parse_request, skip_line_breaks, space,
    split_header_spec, start_of, take_until, verb_name, verb_of, HTTPVerb, RequestModel,
};
use crate::parser::{find_from, matches_at, ParserError};

verus! {

/// `s` holds no byte `b`.
pub open spec fn no_byte(s: Seq<u8>, b: u8) -> bool {
    forall|i: int| 0 <= i < s.len() ==> s[i] != b
}

/// `s` holds no `\r` directly followed by `\n`.
pub open spec fn no_crlf(s: Seq<u8>) -> bool {
    forall|i: int| 0 <= i < s.len() - 1 ==> !(#[trigger] s[i] == 13 && s[i + 1] == 10)
}

/// A header field that can be written on one line and read back: a name of
/// at least one byte and without colons, and no line end in name or value.
pub open spec fn writable_field(f: (Seq<u8>, Seq<u8>)) -> bool {
    &&& f.0.len() > 0
    &&& no_byte(f.0, 58)
    &&& no_crlf(f.0)
    &&& no_crlf(f.1)
}

/// How a header field is written: `name:value\r\n`.
pub open spec fn header_line(f: (Seq<u8>, Seq<u8>)) -> Seq<u8> {
    f.0 + colon() + f.1 + crlf()
}

/// The header lines of `fields`, in order.
pub open spec fn header_lines(fields: Seq<(Seq<u8>, Seq<u8>)>) -> Seq<u8>
    decreases fields.len(),
{
    if fields.len() == 0 {
        Seq::empty()
    } else {
        header_line(fields[0]) + header_lines(fields.drop_first())
    }
}

/// The request line: `verb url HTTP/1.1\r\n`, with the verb as bytes.
pub open spec fn request_line(verb: Seq<u8>, url: Seq<u8>) -> Seq<u8> {
    verb + space() + url + space() + http11() + crlf()
}

/// Every byte of `w` is `\r` or `\n`.
pub open spec fn only_line_breaks(w: Seq<u8>) -> bool {
    forall|i: int| 0 <= i < w.len() ==> is_line_break(#[trigger] w[i])
}

/// Bytes that can stand as the verb of a request line: at least one, no
/// space, and not starting with a line break.
pub open spec fn verb_token(v: Seq<u8>) -> bool {
    &&& v.len() > 0
    &&& !is_line_break(v[0])
    &&& no_byte(v, 32)
}

/// A whole request on the wire.
pub open spec fn serialize_request(
    verb: HTTPVerb,
    url: Seq<u8>,
    fields: Seq<(Seq<u8>, Seq<u8>)>,
    body: Seq<u8>,
) -> Seq<u8> {
    request_line(verb_name(verb), url) + header_lines(fields) + crlf() + body
}

/// `acc` with the fields added in order, a later one replacing an earlier one
/// of the same name.
pub open spec fn insert_all(acc: Map<Seq<u8>, Seq<u8>>, fields: Seq<(Seq<u8>, Seq<u8>)>) -> Map<
    Seq<u8>,
    Seq<u8>,
>
    decreases fields.len(),
{
    if fields.len() == 0 {
        acc
    } else {
        insert_all(acc.insert(fields[0].0, fields[0].1), fields.drop_first())
    }
}

proof fn lemma_find_first(input: Seq<u8>, pos: int, pat: Seq<u8>, k: int)
    requires
        0 <= pos,
        0 <= k,
        matches_at(input, pos + k, pat),
        forall|i: int| pos <= i < pos + k ==> !matches_at(input, i, pat),
    ensures
        find_from(input, pos, pat) == Some(pos + k),
    decreases k,
{
    if k > 0 {
        lemma_find_first(input, pos + 1, pat, k - 1);
    }
}

proof fn lemma_find_none(input: Seq<u8>, pos: int, pat: Seq<u8>)
    requires
        0 <= pos,
        forall|i: int| pos <= i ==> !matches_at(input, i, pat),
    ensures
        find_from(input, pos, pat) is None,
    decreases input.len() + 1 - pos,
{
    if pos + pat.len() <= input.len() {
        lemma_find_none(input, pos + 1, pat);
    }
}

/// In `pre + a + pat + rest`, reading from the end of `pre` up to `pat`
/// gives `a`, when `pat` does not start anywhere inside `a`.
proof fn lemma_take_until_concat(pre: Seq<u8>, a: Seq<u8>, pat: Seq<u8>, rest: Seq<u8>)
    requires
        forall|j: int| 0 <= j < a.len() ==> !matches_at(a + pat, j, pat),
    ensures
        take_until(pre + a + pat + rest, pre.len() as int, pat) == Some(
            (a, (pre.len() + a.len() + pat.len()) as int),
        ),
{
    let input = pre + a + pat + rest;
    let p = pre.len() as int;
    assert forall|i: int| p <= i < p + a.len() implies !matches_at(input, i, pat) by {
        let j = i - p;
        assert(!matches_at(a + pat, j, pat));
        assert(input.subrange(i, i + pat.len()) =~= (a + pat).subrange(j, j + pat.len()));
    }
    assert(input.subrange(p + a.len(), p + a.len() + pat.len()) =~= pat);
    lemma_find_first(input, p, pat, a.len() as int);
    assert(input.subrange(p, p + a.len()) =~= a);
}

proof fn lemma_no_space_match(a: Seq<u8>)
    requires
        no_byte(a, 32),
    ensures
        forall|j: int| 0 <= j < a.len() ==> !matches_at(a + space(), j, space()),
{
    assert forall|j: int| 0 <= j < a.len() implies !matches_at(a + space(), j, space()) by {
        if matches_at(a + space(), j, space()) {
            assert((a + space()).subrange(j, j + 1)[0] == a[j]);
        }
    }
}

proof fn lemma_no_crlf_match(a: Seq<u8>)
    requires
        no_crlf(a),
    ensures
        forall|j: int| 0 <= j < a.len() ==> !matches_at(a + crlf(), j, crlf()),
{
    assert forall|j: int| 0 <= j < a.len() implies !matches_at(a + crlf(), j, crlf()) by {
        if matches_at(a + crlf(), j, crlf()) {
            let w = (a + crlf()).subrange(j, j + 2);
            assert(w[0] == a[j]);
            assert(w[0] == 13u8);
            if j + 1 < a.len() {
                assert(w[1] == a[j + 1]);
            } else {
                assert(w[1] == 13u8);
            }
        }
    }
}

proof fn lemma_verb_name_round_trip(v: HTTPVerb)
    ensures
        verb_of(verb_name(v)) == Some(v),
        no_byte(verb_name(v), 32),
        verb_token(verb_name(v)),
{
    let names = seq![
        verb_name(HTTPVerb::GET),
        verb_name(HTTPVerb::POST),
        verb_name(HTTPVerb::PUT),
        verb_name(HTTPVerb::HEAD),
        verb_name(HTTPVerb::DELETE),
        verb_name(HTTPVerb::OPTIONS),
        verb_name(HTTPVerb::TRACE),
        verb_name(HTTPVerb::CONNECT),
    ];
    assert(verb_name(HTTPVerb::GET)[0] != verb_name(HTTPVerb::PUT)[0]);
    assert(verb_name(HTTPVerb::POST)[0] != verb_name(HTTPVerb::HEAD)[0]);
    assert(verb_name(HTTPVerb::OPTIONS)[0] != verb_name(HTTPVerb::CONNECT)[0]);
}

proof fn lemma_line_of_field(f: (Seq<u8>, Seq<u8>))
    requires
        writable_field(f),
    ensures
        split_header_spec(f.0 + colon() + f.1) == Some(f),
        no_crlf(f.0 + colon() + f.1),
        (f.0 + colon() + f.1).len() > 0,
{
    let line = f.0 + colon() + f.1;
    let n = f.0.len() as int;
    assert forall|i: int| 1 <= i < 1 + (n - 1) implies !matches_at(line, i, colon()) by {
        assert(line.subrange(i, i + 1)[0] == f.0[i]);
    }
    assert(line.subrange(n, n + 1) =~= colon());
    lemma_find_first(line, 1, colon(), n - 1);
    assert(line.subrange(0, n) =~= f.0);
    assert(line.subrange(n + 1, line.len() as int) =~= f.1);
    assert forall|i: int| 0 <= i < line.len() - 1 implies !(#[trigger] line[i] == 13 && line[i + 1] == 10) by {
        if i < n - 1 {
            assert(line[i] == f.0[i] && line[i + 1] == f.0[i + 1]);
        } else if i == n - 1 {
            assert(line[i + 1] == 58u8);
        } else if i == n {
            assert(line[i] == 58u8);
        } else {
            assert(line[i] == f.1[i - n - 1] && line[i + 1] == f.1[i - n]);
        }
    }
}

/// Header lines written from `fields` are read back one by one, each field
/// added to the map in order.
proof fn lemma_header_lines(
    pre: Seq<u8>,
    fields: Seq<(Seq<u8>, Seq<u8>)>,
    tail: Seq<u8>,
    acc: Map<Seq<u8>, Seq<u8>>,
)
    requires
        forall|i: int| 0 <= i < fields.len() ==> writable_field(#[trigger] fields[i]),
    ensures
        parse_headers(pre + header_lines(fields) + tail, pre.len() as int, acc) == parse_headers(
            pre + header_lines(fields) + tail,
            (pre.len() + header_lines(fields).len()) as int,
            insert_all(acc, fields),
        ),
    decreases fields.len(),
{
    if fields.len() > 0 {
        let f = fields[0];
        let rest = fields.drop_first();
        let line = f.0 + colon() + f.1;
        let input = pre + header_lines(fields) + tail;
        lemma_line_of_field(f);
        lemma_no_crlf_match(line);
        assert(input =~= pre + line + crlf() + (header_lines(rest) + tail));
        lemma_take_until_concat(pre, line, crlf(), header_lines(rest) + tail);
        let pre2 = pre + header_line(f);
        assert(input =~= pre2 + header_lines(rest) + tail);
        assert forall|i: int| 0 <= i < rest.len() implies writable_field(#[trigger] rest[i]) by {
            assert(rest[i] == fields[i + 1]);
        }
        lemma_header_lines(pre2, rest, tail, acc.insert(f.0, f.1));
    }
}

proof fn lemma_no_crlf_in_version()
    ensures
        no_crlf(http11()),
{
    assert forall|i: int| 0 <= i < http11().len() - 1 implies !(#[trigger] http11()[i] == 13
        && http11()[i + 1] == 10) by {
        assert(http11()[i] != 13);
    }
}

proof fn lemma_skip_line_breaks(w: Seq<u8>, tail: Seq<u8>, pos: int)
    requires
        only_line_breaks(w),
        0 <= pos <= w.len(),
        tail.len() > 0,
        !is_line_break(tail[0]),
    ensures
        skip_line_breaks(w + tail, pos) == w.len(),
    decreases w.len() - pos,
{
    if pos < w.len() {
        assert((w + tail)[pos] == w[pos]);
        lemma_skip_line_breaks(w, tail, pos + 1);
    } else {
        assert((w + tail)[pos] == tail[0]);
    }
}

/// After leading line breaks `w`, the request line `verb url version\r\n` is
/// read back piece by piece.
proof fn lemma_request_line(
    w: Seq<u8>,
    verb: Seq<u8>,
    url: Seq<u8>,
    version: Seq<u8>,
    rest: Seq<u8>,
)
    requires
        only_line_breaks(w),
        verb_token(verb),
        no_byte(url, 32),
        no_crlf(version),
    ensures
        ({
            let input = w + verb + space() + url + space() + version + crlf() + rest;
            let a = w.len() + verb.len() + 1;
            let b = a + url.len() + 1;
            let c = b + version.len() + 2;
            &&& start_of(input) == w.len()
            &&& take_until(input, w.len() as int, space()) == Some((verb, a as int))
            &&& take_until(input, a as int, space()) == Some((url, b as int))
            &&& take_until(input, b as int, crlf()) == Some((version, c as int))
        }),
{
    let input = w + verb + space() + url + space() + version + crlf() + rest;
    let tail = verb + space() + url + space() + version + crlf() + rest;
    assert(input =~= w + tail);
    assert(tail[0] == verb[0]);
    lemma_skip_line_breaks(w, tail, 0);
    lemma_no_space_match(verb);
    assert(input =~= w + verb + space() + (url + space() + version + crlf() + rest));
    lemma_take_until_concat(w, verb, space(), url + space() + version + crlf() + rest);
    lemma_no_space_match(url);
    assert(input =~= (w + verb + space()) + url + space() + (version + crlf() + rest));
    lemma_take_until_concat(w + verb + space(), url, space(), version + crlf() + rest);
    lemma_no_crlf_match(version);
    assert(input =~= (w + verb + space() + url + space()) + version + crlf() + rest);
    lemma_take_until_concat(w + verb + space() + url + space(), version, crlf(), rest);
}

/// Writing a request and reading it back gives the same verb, URL and body,
/// and the header fields as a map in which a later field replaces an earlier
/// one of the same name.
pub proof fn lemma_round_trip(
    verb: HTTPVerb,
    url: Seq<u8>,
    fields: Seq<(Seq<u8>, Seq<u8>)>,
    body: Seq<u8>,
)
    requires
        no_byte(url, 32),
        forall|i: int| 0 <= i < fields.len() ==> writable_field(#[trigger] fields[i]),
    ensures
        parse_request(serialize_request(verb, url, fields, body)) == Ok::<_, ParserError>(
            RequestModel { verb, url, headers: insert_all(Map::empty(), fields), body },
        ),
{
    let vn = verb_name(verb);
    let w = Seq::<u8>::empty();
    let input = serialize_request(verb, url, fields, body);
    let head = request_line(vn, url);
    lemma_verb_name_round_trip(verb);
    lemma_no_crlf_in_version();
    assert(input =~= w + vn + space() + url + space() + http11() + crlf() + (header_lines(fields)
        + crlf() + body));
    lemma_request_line(w, vn, url, http11(), header_lines(fields) + crlf() + body);
    assert(input =~= head + header_lines(fields) + (crlf() + body));
    lemma_header_lines(head, fields, crlf() + body, Map::empty());
    let pre = head + header_lines(fields);
    assert(input =~= pre + Seq::<u8>::empty() + crlf() + body);
    assert(forall|j: int| 0 <= j < 0 ==> !matches_at(Seq::<u8>::empty() + crlf(), j, crlf()));
    lemma_take_until_concat(pre, Seq::empty(), crlf(), body);
    assert(input.subrange(pre.len() + 2int, input.len() as int) =~= body);
}

/// A header line with no colon after its first byte makes the request
/// invalid, whatever the verb and leading line breaks.
pub proof fn lemma_header_without_colon(
    w: Seq<u8>,
    verb: Seq<u8>,
    url: Seq<u8>,
    fields: Seq<(Seq<u8>, Seq<u8>)>,
    line: Seq<u8>,
    rest: Seq<u8>,
)
    requires
        only_line_breaks(w),
        verb_token(verb),
        no_byte(url, 32),
        forall|i: int| 0 <= i < fields.len() ==> writable_field(#[trigger] fields[i]),
        line.len() > 0,
        forall|i: int| 1 <= i < line.len() ==> #[trigger] line[i] != 58,
        no_crlf(line),
    ensures
        parse_request(w + request_line(verb, url) + header_lines(fields) + line + crlf() + rest)
            == Err::<RequestModel, _>(ParserError::InvalidData),
{
    let input = w + request_line(verb, url) + header_lines(fields) + line + crlf() + rest;
    let head = w + request_line(verb, url);
    lemma_no_crlf_in_version();
    assert(input =~= w + verb + space() + url + space() + http11() + crlf() + (header_lines(
        fields,
    ) + line + crlf() + rest));
    lemma_request_line(w, verb, url, http11(), header_lines(fields) + line + crlf() + rest);
    assert(input =~= head + header_lines(fields) + (line + crlf() + rest));
    lemma_header_lines(head, fields, line + crlf() + rest, Map::empty());
    let pre = head + header_lines(fields);
    assert(input =~= pre + line + crlf() + rest);
    lemma_no_crlf_match(line);
    lemma_take_until_concat(pre, line, crlf(), rest);
    assert forall|i: int| 1 <= i implies !matches_at(line, i, colon()) by {
        if matches_at(line, i, colon()) {
            assert(line.subrange(i, i + 1)[0] == line[i]);
        }
    }
    lemma_find_none(line, 1, colon());
}

/// A request line whose version is not `HTTP/1.1` makes the request invalid,
/// whatever the verb and leading line breaks.
pub proof fn lemma_wrong_version(
    w: Seq<u8>,
    verb: Seq<u8>,
    url: Seq<u8>,
    version: Seq<u8>,
    rest: Seq<u8>,
)
    requires
        only_line_breaks(w),
        verb_token(verb),
        no_byte(url, 32),
        no_crlf(version),
        version != http11(),
    ensures
        parse_request(w + verb + space() + url + space() + version + crlf() + rest) == Err::<
            RequestModel,
            _,
        >(ParserError::InvalidData),
{
    lemma_request_line(w, verb, url, version, rest);
}

} // verus!
