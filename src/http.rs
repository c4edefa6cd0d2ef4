use vstd::prelude::*;
use crate::parser::{
    find_from, run_end, Consumer, ConsumerToEnd, InvalidStateError, Match,
    ParserError, ParserEvaluator, ParserState, Peeker, ReaderUntil, StepPredicate,
};
use vstd::slice::slice_subrange;
use crate::parser_laws::lemma_find_from_matches;

verus! {

/// The request methods that are told apart.
#[derive(Debug, Clone, Copy, PartialEq, Eq, Structural)]
pub enum HTTPVerb {
    GET,
    POST,
    PUT,
    HEAD,
    DELETE,
    OPTIONS,
    TRACE,
    CONNECT,
}

/// How a verb is spelled on the wire.
pub open spec fn verb_name(v: HTTPVerb) -> Seq<u8> {
    match v {
        HTTPVerb::GET => seq![71u8, 69, 84],
        HTTPVerb::POST => seq![80u8, 79, 83, 84],
        HTTPVerb::PUT => seq![80u8, 85, 84],
        HTTPVerb::HEAD => seq![72u8, 69, 65, 68],
        HTTPVerb::DELETE => seq![68u8, 69, 76, 69, 84, 69],
        HTTPVerb::OPTIONS => seq![79u8, 80, 84, 73, 79, 78, 83],
        HTTPVerb::TRACE => seq![84u8, 82, 65, 67, 69],
        HTTPVerb::CONNECT => seq![67u8, 79, 78, 78, 69, 67, 84],
    }
}

/// The verb spelled exactly by `bytes`, if any.
pub open spec fn verb_of(bytes: Seq<u8>) -> Option<HTTPVerb> {
    if bytes == verb_name(HTTPVerb::GET) {
        Some(HTTPVerb::GET)
    } else if bytes == verb_name(HTTPVerb::POST) {
        Some(HTTPVerb::POST)
    } else if bytes == verb_name(HTTPVerb::PUT) {
        Some(HTTPVerb::PUT)
    } else if bytes == verb_name(HTTPVerb::HEAD) {
        Some(HTTPVerb::HEAD)
    } else if bytes == verb_name(HTTPVerb::DELETE) {
        Some(HTTPVerb::DELETE)
    } else if bytes == verb_name(HTTPVerb::OPTIONS) {
        Some(HTTPVerb::OPTIONS)
    } else if bytes == verb_name(HTTPVerb::TRACE) {
        Some(HTTPVerb::TRACE)
    } else if bytes == verb_name(HTTPVerb::CONNECT) {
        Some(HTTPVerb::CONNECT)
    } else {
        None
    }
}

/// Whether two byte strings are equal.
fn bytes_eq(a: &[u8], b: &[u8]) -> (r: bool)
    ensures
        r == (a@ == b@),
{
    if a.len() != b.len() {
        return false;
    }
    let mut i: usize = 0;
    while i < a.len()
        invariant
            a@.len() == b@.len(),
            i <= a@.len(),
            forall|j: int| 0 <= j < i ==> a@[j] == b@[j],
        decreases a@.len() - i,
    {
        if a[i] != b[i] {
            return false;
        }
        i += 1;
    }
    assert(a@ =~= b@);
    true
}

impl HTTPVerb {
    /// The verb spelled exactly by `verb`, if any.
    pub fn parse_from_utf8(verb: &[u8]) -> (r: Option<HTTPVerb>)
        ensures
            r == verb_of(verb@),
    {
        let get = [71u8, 69, 84];
        let post = [80u8, 79, 83, 84];
        let put = [80u8, 85, 84];
        let head = [72u8, 69, 65, 68];
        let delete = [68u8, 69, 76, 69, 84, 69];
        let options = [79u8, 80, 84, 73, 79, 78, 83];
        let trace = [84u8, 82, 65, 67, 69];
        let connect = [67u8, 79, 78, 78, 69, 67, 84];
        assert(get@ == verb_name(HTTPVerb::GET));
        assert(post@ == verb_name(HTTPVerb::POST));
        assert(put@ == verb_name(HTTPVerb::PUT));
        assert(head@ == verb_name(HTTPVerb::HEAD));
        assert(delete@ == verb_name(HTTPVerb::DELETE));
        assert(options@ == verb_name(HTTPVerb::OPTIONS));
        assert(trace@ == verb_name(HTTPVerb::TRACE));
        assert(connect@ == verb_name(HTTPVerb::CONNECT));
        if bytes_eq(verb, get.as_slice()) {
            Some(HTTPVerb::GET)
        } else if bytes_eq(verb, post.as_slice()) {
            Some(HTTPVerb::POST)
        } else if bytes_eq(verb, put.as_slice()) {
            Some(HTTPVerb::PUT)
        } else if bytes_eq(verb, head.as_slice()) {
            Some(HTTPVerb::HEAD)
        } else if bytes_eq(verb, delete.as_slice()) {
            Some(HTTPVerb::DELETE)
        } else if bytes_eq(verb, options.as_slice()) {
            Some(HTTPVerb::OPTIONS)
        } else if bytes_eq(verb, trace.as_slice()) {
            Some(HTTPVerb::TRACE)
        } else if bytes_eq(verb, connect.as_slice()) {
            Some(HTTPVerb::CONNECT)
        } else {
            None
        }
    }
}

/// The map that a list of (name, value) pairs gives when a later pair
/// overrides an earlier one with the same name.
pub open spec fn pairs_map(s: Seq<(Seq<u8>, Seq<u8>)>) -> Map<Seq<u8>, Seq<u8>>
    decreases s.len(),
{
    if s.len() == 0 {
        Map::empty()
    } else {
        pairs_map(s.drop_last()).insert(s.last().0, s.last().1)
    }
}

/// No name occurs twice in `s`.
pub open spec fn unique_names(s: Seq<(Seq<u8>, Seq<u8>)>) -> bool {
    forall|i: int, j: int| 0 <= i < j < s.len() ==> s[i].0 != s[j].0
}

proof fn lemma_pairs_map_absent(s: Seq<(Seq<u8>, Seq<u8>)>, k: Seq<u8>)
    requires
        forall|j: int| 0 <= j < s.len() ==> s[j].0 != k,
    ensures
        !pairs_map(s).contains_key(k),
    decreases s.len(),
{
    if s.len() > 0 {
        lemma_pairs_map_absent(s.drop_last(), k);
    }
}

proof fn lemma_pairs_map_at(s: Seq<(Seq<u8>, Seq<u8>)>, j: int)
    requires
        unique_names(s),
        0 <= j < s.len(),
    ensures
        pairs_map(s).contains_key(s[j].0),
        pairs_map(s)[s[j].0] == s[j].1,
    decreases s.len(),
{
    if j < s.len() - 1 {
        lemma_pairs_map_at(s.drop_last(), j);
    }
}

proof fn lemma_pairs_map_update(s: Seq<(Seq<u8>, Seq<u8>)>, j: int, v: Seq<u8>)
    requires
        unique_names(s),
        0 <= j < s.len(),
    ensures
        pairs_map(s.update(j, (s[j].0, v))) == pairs_map(s).insert(s[j].0, v),
    decreases s.len(),
{
    let t = s.update(j, (s[j].0, v));
    if j == s.len() - 1 {
        assert(t.drop_last() =~= s.drop_last());
        assert(pairs_map(t) =~= pairs_map(s).insert(s[j].0, v));
    } else {
        lemma_pairs_map_update(s.drop_last(), j, v);
        assert(t.drop_last() =~= s.drop_last().update(j, (s[j].0, v)));
        assert(pairs_map(t) =~= pairs_map(s).insert(s[j].0, v));
    }
}

proof fn lemma_pairs_map_size(s: Seq<(Seq<u8>, Seq<u8>)>)
    requires
        unique_names(s),
    ensures
        pairs_map(s).dom().finite(),
        pairs_map(s).dom().len() == s.len(),
    decreases s.len(),
{
    if s.len() > 0 {
        let p = s.drop_last();
        lemma_pairs_map_size(p);
        lemma_pairs_map_absent(p, s.last().0);
    }
}

/// The header fields of a request: names mapped to values, each name once.
pub struct HeaderMap<'a> {
    entries: Vec<(&'a [u8], &'a [u8])>,
}

impl<'a> HeaderMap<'a> {
    /// The fields as (name, value) pairs, in the order of first insertion.
    pub closed spec fn pairs(&self) -> Seq<(Seq<u8>, Seq<u8>)> {
        self.entries@.map_values(|e: (&'a [u8], &'a [u8])| (e.0@, e.1@))
    }

    #[verifier::type_invariant]
    spec fn names_unique(&self) -> bool {
        unique_names(self.pairs())
    }

    /// No header fields.
    pub fn new() -> (r: HeaderMap<'a>)
        ensures
            r@ == Map::<Seq<u8>, Seq<u8>>::empty(),
    {
        let r = HeaderMap { entries: Vec::new() };
        assert(r.pairs() =~= Seq::empty());
        r
    }

    /// Where the field named `name` is stored, if there is one.
    fn position(&self, name: &[u8]) -> (r: Option<usize>)
        ensures
            match r {
                Some(j) => j < self.pairs().len() && self.pairs()[j as int].0 == name@,
                None => forall|j: int| 0 <= j < self.pairs().len() ==> self.pairs()[j].0 != name@,
            },
    {
        let mut i: usize = 0;
        while i < self.entries.len()
            invariant
                i <= self.entries@.len(),
                forall|j: int| 0 <= j < i ==> self.pairs()[j].0 != name@,
            decreases self.entries@.len() - i,
        {
            if bytes_eq(self.entries[i].0, name) {
                return Some(i);
            }
            i += 1;
        }
        None
    }

    /// The value of the field named `name`, if there is one.
    pub fn get(&self, name: &[u8]) -> (r: Option<&'a [u8]>)
        ensures
            match r {
                Some(v) => self@.contains_key(name@) && self@[name@] == v@,
                None => !self@.contains_key(name@),
            },
    {
        proof {
            use_type_invariant(self);
        }
        match self.position(name) {
            Some(j) => {
                proof {
                    lemma_pairs_map_at(self.pairs(), j as int);
                }
                Some(self.entries[j].1)
            },
            None => {
                proof {
                    lemma_pairs_map_absent(self.pairs(), name@);
                }
                None
            },
        }
    }

    /// Sets the field named `name` to `value`, replacing an earlier value.
    pub fn insert(&mut self, name: &'a [u8], value: &'a [u8])
        ensures
            final(self)@ == old(self)@.insert(name@, value@),
    {
        proof {
            use_type_invariant(&*self);
        }
        let ghost before = self.pairs();
        let found = self.position(name);
        let mut entries: Vec<(&'a [u8], &'a [u8])> = Vec::new();
        std::mem::swap(&mut entries, &mut self.entries);
        match found {
            Some(j) => {
                entries.set(j, (name, value));
                proof {
                    lemma_pairs_map_update(before, j as int, value@);
                }
                assert(entries@.map_values(|e: (&'a [u8], &'a [u8])| (e.0@, e.1@)) =~= before.update(
                    j as int,
                    (before[j as int].0, value@),
                ));
            },
            None => {
                entries.push((name, value));
                assert(entries@.map_values(|e: (&'a [u8], &'a [u8])| (e.0@, e.1@)) =~= before.push(
                    (name@, value@),
                ));
                assert(before.push((name@, value@)).drop_last() =~= before);
            },
        }
        *self = HeaderMap { entries };
    }

    /// Number of fields.
    pub fn len(&self) -> (r: usize)
        ensures
            r == self@.len(),
    {
        proof {
            use_type_invariant(self);
            lemma_pairs_map_size(self.pairs());
        }
        self.entries.len()
    }
}

impl<'a> View for HeaderMap<'a> {
    type V = Map<Seq<u8>, Seq<u8>>;

    closed spec fn view(&self) -> Map<Seq<u8>, Seq<u8>> {
        pairs_map(self.pairs())
    }
}

pub open spec fn space() -> Seq<u8> {
    seq![32u8]
}

pub open spec fn crlf() -> Seq<u8> {
    seq![13u8, 10u8]
}

pub open spec fn colon() -> Seq<u8> {
    seq![58u8]
}

/// The only protocol version accepted: `HTTP/1.1`.
pub open spec fn http11() -> Seq<u8> {
    seq![72u8, 84, 84, 80, 47, 49, 46, 49]
}

pub open spec fn is_line_break(b: u8) -> bool {
    b == 13 || b == 10
}

/// The first position at or after `pos` that does not hold `\r` or `\n`.
pub open spec fn skip_line_breaks(input: Seq<u8>, pos: int) -> int
    decreases input.len() - pos,
{
    if 0 <= pos < input.len() && is_line_break(input[pos]) {
        skip_line_breaks(input, pos + 1)
    } else {
        pos
    }
}

/// Where the request line starts: after any leading line breaks.
pub open spec fn start_of(input: Seq<u8>) -> int {
    skip_line_breaks(input, 0)
}

/// The bytes from `pos` up to the first occurrence of `pat`, and the position
/// just after that occurrence; nothing when `pat` does not occur.
pub open spec fn take_until(input: Seq<u8>, pos: int, pat: Seq<u8>) -> Option<(Seq<u8>, int)> {
    match find_from(input, pos, pat) {
        Some(i) => Some((input.subrange(pos, i), i + pat.len())),
        None => None,
    }
}

/// A header line cut at its first colon after the first byte: name and value.
pub open spec fn split_header_spec(line: Seq<u8>) -> Option<(Seq<u8>, Seq<u8>)> {
    match find_from(line, 1, colon()) {
        Some(i) => Some((line.subrange(0, i), line.subrange(i + 1, line.len() as int))),
        None => None,
    }
}

/// The header lines from `pos` on, added to `acc`, and the position just
/// after the empty line that ends them.
pub open spec fn parse_headers(input: Seq<u8>, pos: int, acc: Map<Seq<u8>, Seq<u8>>) -> Result<
    (Map<Seq<u8>, Seq<u8>>, int),
    ParserError,
>
    decreases input.len() + 1 - pos,
{
    match take_until(input, pos, crlf()) {
        None => Err(ParserError::InvalidState(InvalidStateError::EOF)),
        Some((line, next)) => if line.len() == 0 {
            Ok((acc, next))
        } else {
            match split_header_spec(line) {
                None => Err(ParserError::InvalidData),
                Some((name, value)) => {
                    proof {
                        lemma_find_from_matches(input, pos, crlf());
                    }
                    parse_headers(input, next, acc.insert(name, value))
                },
            }
        },
    }
}

/// A decoded request, as values.
pub struct RequestModel {
    pub verb: HTTPVerb,
    pub url: Seq<u8>,
    pub headers: Map<Seq<u8>, Seq<u8>>,
    pub body: Seq<u8>,
}

/// The request whose line gave `verb` and `url`, once the header lines of
/// `input` have given `headers`.
pub open spec fn finish_request(
    verb: HTTPVerb,
    url: Seq<u8>,
    input: Seq<u8>,
    headers: Result<(Map<Seq<u8>, Seq<u8>>, int), ParserError>,
) -> Result<RequestModel, ParserError> {
    match headers {
        Err(e) => Err(e),
        Ok((fields, after_headers)) => Ok(
            RequestModel {
                verb,
                url,
                headers: fields,
                body: input.subrange(after_headers, input.len() as int),
            },
        ),
    }
}

/// The verb that the bytes `name` stand for; an unknown one is read as `GET`.
pub open spec fn verb_or_get(name: Seq<u8>) -> HTTPVerb {
    match verb_of(name) {
        Some(v) => v,
        None => HTTPVerb::GET,
    }
}

/// What decoding `input` gives.
pub open spec fn parse_request(input: Seq<u8>) -> Result<RequestModel, ParserError> {
    let eof = ParserError::InvalidState(InvalidStateError::EOF);
    match take_until(input, start_of(input), space()) {
        None => Err(eof),
        Some((verb, after_verb)) => match take_until(input, after_verb, space()) {
            None => Err(eof),
            Some((url, after_url)) => match take_until(input, after_url, crlf()) {
                None => Err(eof),
                Some((version, after_version)) => if version != http11() {
                    Err(ParserError::InvalidData)
                } else {
                    finish_request(
                        verb_or_get(verb),
                        url,
                        input,
                        parse_headers(input, after_version, Map::empty()),
                    )
                },
            },
        },
    }
}

/// Marks a run of `\r` and `\n` bytes, one byte a step.
pub struct LineBreaks {}

impl StepPredicate for LineBreaks {
    open spec fn spec_step(&self, rest: Seq<u8>) -> Result<usize, ParserError> {
        if rest.len() > 0 && is_line_break(rest[0]) {
            Ok(1)
        } else {
            Ok(0)
        }
    }

    fn step(&self, rest: &[u8]) -> (r: Result<usize, ParserError>) {
        if rest.len() > 0 && (rest[0] == 13 || rest[0] == 10) {
            Ok(1)
        } else {
            Ok(0)
        }
    }
}

proof fn lemma_line_breaks_run(input: Seq<u8>, pos: int)
    requires
        0 <= pos <= input.len(),
    ensures
        run_end(LineBreaks {}, input, pos) == Ok::<int, ParserError>(skip_line_breaks(input, pos)),
    decreases input.len() - pos,
{
    let rest = input.subrange(pos, input.len() as int);
    if pos < input.len() {
        assert(rest[0] == input[pos]);
        if is_line_break(input[pos]) {
            lemma_line_breaks_run(input, pos + 1);
        }
    }
}

/// Reads up to the first occurrence of `pat` and past it, returning what came
/// before; fails with an end-of-input error when `pat` does not occur.
fn get_until<'a>(input: &'a [u8], state: &mut ParserState, pat: &[u8]) -> (r: Result<&'a [u8], ParserError>)
    requires
        old(state)@ <= input@.len(),
        pat@.len() > 0,
    ensures
        final(state)@ <= input@.len(),
        match take_until(input@, old(state)@ as int, pat@) {
            None => r == Err::<&[u8], _>(ParserError::InvalidState(InvalidStateError::EOF)),
            Some((bytes, next)) => (r matches Ok(s) && s@ == bytes) && final(state)@ == next,
        },
{
    proof {
        lemma_find_from_matches(input@, state@ as int, pat@);
    }
    // Both lengths fit in a usize, so skipping the pattern cannot overflow.
    let input_len = input.len();
    let pat_len = pat.len();
    assert(input@.len() == input_len && pat@.len() == pat_len);
    let reader = ReaderUntil { end_pattern: pat };
    let before = match reader.evaluate(input, state) {
        Ok(bytes) => bytes,
        Err(e) => {
            return Err(e);
        },
    };
    let probe = Match { pattern: pat };
    match probe.evaluate(input, state) {
        Ok(true) => {
            let skip = Peeker { peek_number: pat_len };
            match skip.evaluate(input, state) {
                Ok(_) => Ok(before),
                Err(e) => Err(e),
            }
        },
        _ => Err(ParserError::InvalidState(InvalidStateError::EOF)),
    }
}

/// Cuts a header line at its first colon after the first byte.
fn split_header<'a>(line: &'a [u8]) -> (r: Option<(&'a [u8], &'a [u8])>)
    ensures
        match split_header_spec(line@) {
            None => r is None,
            Some((name, value)) => r matches Some((n, v)) && n@ == name && v@ == value,
        },
{
    if line.len() == 0 {
        return None;
    }
    let colon_byte = [58u8];
    assert(colon_byte@ == colon());
    proof {
        lemma_find_from_matches(line@, 1, colon());
    }
    let mut state = ParserState::at(1);
    match get_until(line, &mut state, colon_byte.as_slice()) {
        Ok(_) => {
            let i = state.position() - 1;
            Some((slice_subrange(line, 0, i), slice_subrange(line, i + 1, line.len())))
        },
        Err(_) => None,
    }
}

/// A request decoded in place: its fields are views into the input buffer.
pub struct HttpQuery<'a> {
    pub verb: HTTPVerb,
    pub url: &'a [u8],
    pub body: &'a [u8],
    pub headers: HeaderMap<'a>,
}

impl<'a> View for HttpQuery<'a> {
    type V = RequestModel;

    open spec fn view(&self) -> RequestModel {
        RequestModel { verb: self.verb, url: self.url@, headers: self.headers@, body: self.body@ }
    }
}

impl<'a> HttpQuery<'a> {
    /// Decodes one HTTP/1.1 request: optional leading line breaks, the request
    /// line, the header lines up to an empty line, and the body, which is all
    /// that follows. An unknown verb is read as `GET`; a later header with the
    /// same name replaces an earlier one.
    pub fn from_string(q: &'a [u8]) -> (r: Result<HttpQuery<'a>, ParserError>)
        ensures
            match r {
                Ok(query) => parse_request(q@) == Ok::<_, ParserError>(query@),
                Err(e) => parse_request(q@) == Err::<RequestModel, _>(e),
            },
    {
        let sp = [32u8];
        let line_end = [13u8, 10u8];
        let version = [72u8, 84, 84, 80, 47, 49, 46, 49];
        assert(sp@ == space());
        assert(line_end@ == crlf());
        assert(version@ == http11());
        let mut state = ParserState::new();
        proof {
            lemma_line_breaks_run(q@, 0);
        }
        let skipper = Consumer { predicate: LineBreaks {} };
        match skipper.evaluate(q, &mut state) {
            Ok(_) => {},
            Err(e) => {
                return Err(e);
            },
        }
        let verb_bytes = match get_until(q, &mut state, sp.as_slice()) {
            Ok(bytes) => bytes,
            Err(e) => {
                return Err(e);
            },
        };
        let verb = match HTTPVerb::parse_from_utf8(verb_bytes) {
            Some(v) => v,
            None => HTTPVerb::GET,
        };
        assert(verb == verb_or_get(verb_bytes@));
        let url = match get_until(q, &mut state, sp.as_slice()) {
            Ok(bytes) => bytes,
            Err(e) => {
                return Err(e);
            },
        };
        let found_version = match get_until(q, &mut state, line_end.as_slice()) {
            Ok(bytes) => bytes,
            Err(e) => {
                return Err(e);
            },
        };
        if !bytes_eq(found_version, version.as_slice()) {
            return Err(ParserError::InvalidData);
        }
        let mut headers = HeaderMap::new();
        loop
            invariant
                state@ <= q@.len(),
                line_end@ == crlf(),
                parse_request(q@) == finish_request(
                    verb,
                    url@,
                    q@,
                    parse_headers(q@, state@ as int, headers@),
                ),
            decreases q@.len() - state@,
        {
            let ghost pos0 = state@ as int;
            let ghost fields0 = headers@;
            proof {
                lemma_find_from_matches(q@, state@ as int, crlf());
            }
            let line = match get_until(q, &mut state, line_end.as_slice()) {
                Ok(bytes) => bytes,
                Err(e) => {
                    return Err(e);
                },
            };
            if line.len() == 0 {
                let body = match (ConsumerToEnd {}).evaluate(q, &mut state) {
                    Ok(rest) => rest,
                    Err(e) => {
                        return Err(e);
                    },
                };
                return Ok(HttpQuery { verb, url, body, headers });
            }
            match split_header(line) {
                Some((name, value)) => {
                    headers.insert(name, value);
                    assert(parse_headers(q@, pos0, fields0) == parse_headers(
                        q@,
                        state@ as int,
                        headers@,
                    ));
                },
                None => {
                    return Err(ParserError::InvalidData);
                },
            }
        }
    }
}

} // verus!
