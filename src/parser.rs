use vstd::prelude::*;
use vstd::slice::slice_subrange;

verus! {

/// Errors after which no alternative is tried: the enclosing parse stops.
#[derive(Debug, Clone, Copy, PartialEq, Eq, Structural)]
pub enum InvalidStateError {
    /// The input ended in the middle of a pattern.
    EOF,
}

/// Why a parser failed.
#[derive(Debug, Clone, Copy, PartialEq, Eq, Structural)]
pub enum ParserError {
    /// Fewer bytes are left than a step needs.
    OutOfBoundsAccess,
    /// A failure after which no alternative is tried.
    InvalidState(InvalidStateError),
    /// The bytes do not have the expected form.
    InvalidData,
    /// A position would not fit in a `usize`.
    Overflow,
    /// Bytes that were to be text are not UTF-8.
    UTFError,
}

/// The cursor of a parse: the position of the next byte to read.
pub struct ParserState {
    pos: usize,
}

impl View for ParserState {
    type V = nat;

    closed spec fn view(&self) -> nat {
        self.pos as nat
    }
}

impl ParserState {
    /// A cursor at the start of the input.
    pub fn new() -> (r: ParserState)
        ensures
            r@ == 0,
    {
        ParserState { pos: 0 }
    }

    /// A cursor at `pos`.
    pub fn at(pos: usize) -> (r: ParserState)
        ensures
            r@ == pos,
    {
        ParserState { pos }
    }

    /// The position of the next byte to read.
    pub fn position(&self) -> (r: usize)
        ensures
            r == self@,
    {
        self.pos
    }

    /// The `size` bytes of `string` from `start` on.
    fn index_size<'a>(&self, string: &'a [u8], start: usize, size: usize) -> (r: Result<&'a [u8], ParserError>)
        ensures
            start + size > usize::MAX ==> r == Err::<&[u8], _>(ParserError::Overflow),
            start + size <= usize::MAX && start + size > string@.len() ==> r == Err::<&[u8], _>(
                ParserError::OutOfBoundsAccess,
            ),
            start + size <= string@.len() ==> r is Ok,
            r matches Ok(s) ==> s@ == string@.subrange(start as int, start + size),
    {
        let len = string.len();
        if size > usize::MAX - start {
            Err(ParserError::Overflow)
        } else if start + size > len {
            Err(ParserError::OutOfBoundsAccess)
        } else {
            Ok(slice_subrange(string, start, start + size))
        }
    }

    /// The `size` bytes of `string` under the cursor.
    fn get_n<'a>(&self, string: &'a [u8], size: usize) -> (r: Result<&'a [u8], ParserError>)
        ensures
            match peek_spec(string@, self@ as int, size as int) {
                Ok((bytes, _)) => r matches Ok(s) && s@ == bytes,
                Err(e) => r == Err::<&[u8], _>(e),
            },
    {
        self.index_size(string, self.pos, size)
    }
}

/// Whether `pat` occurs in `input` at position `i`.
pub open spec fn matches_at(input: Seq<u8>, i: int, pat: Seq<u8>) -> bool {
    &&& 0 <= i
    &&& i + pat.len() <= input.len()
    &&& input.subrange(i, i + pat.len()) == pat
}

/// The first position at or after `pos` where `pat` occurs in `input`.
pub open spec fn find_from(input: Seq<u8>, pos: int, pat: Seq<u8>) -> Option<int>
    decreases input.len() + 1 - pos,
{
    if pos < 0 || pos + pat.len() > input.len() {
        None
    } else if matches_at(input, pos, pat) {
        Some(pos)
    } else {
        find_from(input, pos + 1, pat)
    }
}

/// Where reading towards `pat` from `pos` stops: at the first occurrence of
/// `pat`, or at the end of the input when there is none.
pub open spec fn until_spec(input: Seq<u8>, pos: int, pat: Seq<u8>) -> int {
    match find_from(input, pos, pat) {
        Some(i) => i,
        None => input.len() as int,
    }
}

/// The `n` bytes from `pos` on and the position after them.
pub open spec fn peek_spec(input: Seq<u8>, pos: int, n: int) -> Result<(Seq<u8>, int), ParserError> {
    if pos + n > usize::MAX {
        Err(ParserError::Overflow)
    } else if pos + n > input.len() {
        Err(ParserError::OutOfBoundsAccess)
    } else {
        Ok((input.subrange(pos, pos + n), pos + n))
    }
}

/// Something that can be run on an input from a cursor.
///
/// `spec_evaluate(input, pos)` is what a run from `pos` gives: the model of
/// the output and the position where the cursor ends, or the error. After an
/// error the cursor is back where it was before the run.
pub trait ParserEvaluator<'a> {
    type Model;

    type Output: View<V = Self::Model>;

    spec fn spec_evaluate(&self, input: Seq<u8>, pos: int) -> Result<(Self::Model, int), ParserError>;

    fn evaluate(&self, string: &'a [u8], state: &mut ParserState) -> (r: Result<Self::Output, ParserError>)
        requires
            old(state)@ <= string@.len(),
        ensures
            final(state)@ <= string@.len(),
            r is Err ==> final(state)@ == old(state)@,
            match r {
                Ok(out) => self.spec_evaluate(string@, old(state)@ as int) == Ok::<_, ParserError>(
                    (out@, final(state)@ as int),
                ),
                Err(e) => self.spec_evaluate(string@, old(state)@ as int) == Err::<
                    (Self::Model, int),
                    _,
                >(e),
            },
    ;
}

/// Whether `pat` occurs in `string` at position `i`.
fn starts_at(string: &[u8], i: usize, pat: &[u8]) -> (r: bool)
    ensures
        r == matches_at(string@, i as int, pat@),
{
    if pat.len() > string.len() || i > string.len() - pat.len() {
        return false;
    }
    let n = string.len();
    let mut k: usize = 0;
    while k < pat.len()
        invariant
            n == string@.len(),
            i + pat@.len() <= string@.len(),
            k <= pat@.len(),
            forall|j: int| 0 <= j < k ==> string@[i + j] == pat@[j],
        decreases pat@.len() - k,
    {
        assert(i + k < string@.len());
        if string[i + k] != pat[k] {
            assert(string@.subrange(i as int, i + pat@.len())[k as int] != pat@[k as int]);
            return false;
        }
        k += 1;
    }
    assert(string@.subrange(i as int, i + pat@.len()) =~= pat@);
    true
}

/// Reads up to the first occurrence of a pattern, or to the end of the input;
/// the pattern itself is left unread.
pub struct ReaderUntil<'cs> {
    pub end_pattern: &'cs [u8],
}

impl<'a, 'cs> ParserEvaluator<'a> for ReaderUntil<'cs> {
    type Model = Seq<u8>;

    type Output = &'a [u8];

    open spec fn spec_evaluate(&self, input: Seq<u8>, pos: int) -> Result<(Seq<u8>, int), ParserError> {
        let end = until_spec(input, pos, self.end_pattern@);
        Ok((input.subrange(pos, end), end))
    }

    fn evaluate(&self, string: &'a [u8], state: &mut ParserState) -> (r: Result<&'a [u8], ParserError>) {
        let old_pos = state.pos;
        let len = string.len();
        let mut i = old_pos;
        while i < len && !starts_at(string, i, self.end_pattern)
            invariant
                old_pos <= i <= len,
                len == string@.len(),
                find_from(string@, old_pos as int, self.end_pattern@) == find_from(
                    string@,
                    i as int,
                    self.end_pattern@,
                ),
            decreases len - i,
        {
            i += 1;
        }
        proof {
            if i == len && self.end_pattern@.len() == 0 {
                assert(string@.subrange(i as int, i as int) =~= self.end_pattern@);
            }
        }
        state.pos = i;
        Ok(slice_subrange(string, old_pos, i))
    }
}

/// Reads a fixed number of bytes.
pub struct Peeker {
    pub peek_number: usize,
}

impl<'a> ParserEvaluator<'a> for Peeker {
    type Model = Seq<u8>;

    type Output = &'a [u8];

    open spec fn spec_evaluate(&self, input: Seq<u8>, pos: int) -> Result<(Seq<u8>, int), ParserError> {
        peek_spec(input, pos, self.peek_number as int)
    }

    fn evaluate(&self, string: &'a [u8], state: &mut ParserState) -> (r: Result<&'a [u8], ParserError>) {
        let res = state.get_n(string, self.peek_number);
        match res {
            Ok(bytes) => {
                state.pos = state.pos + self.peek_number;
                Ok(bytes)
            },
            Err(e) => Err(e),
        }
    }
}

/// Reads everything that is left.
pub struct ConsumerToEnd {}

impl<'a> ParserEvaluator<'a> for ConsumerToEnd {
    type Model = Seq<u8>;

    type Output = &'a [u8];

    open spec fn spec_evaluate(&self, input: Seq<u8>, pos: int) -> Result<(Seq<u8>, int), ParserError> {
        Ok((input.subrange(pos, input.len() as int), input.len() as int))
    }

    fn evaluate(&self, string: &'a [u8], state: &mut ParserState) -> (r: Result<&'a [u8], ParserError>) {
        let len = string.len();
        let res = slice_subrange(string, state.pos, len);
        state.pos = len;
        Ok(res)
    }
}

/// Tells, from the input that is left, how many bytes a run goes on by; 0
/// ends the run.
pub trait StepPredicate {
    spec fn spec_step(&self, rest: Seq<u8>) -> Result<usize, ParserError>;

    fn step(&self, rest: &[u8]) -> (r: Result<usize, ParserError>)
        ensures
            r == self.spec_step(rest@),
    ;
}

/// Where a run that `p` drives ends when it starts at `pos`.
pub open spec fn run_end<P: StepPredicate>(p: P, input: Seq<u8>, pos: int) -> Result<int, ParserError>
    decreases input.len() + 1 - pos,
{
    if pos < 0 || pos > input.len() {
        Err(ParserError::OutOfBoundsAccess)
    } else {
        match p.spec_step(input.subrange(pos, input.len() as int)) {
            Err(e) => Err(e),
            Ok(k) => if k == 0 {
                Ok(pos)
            } else if k > input.len() - pos {
                Err(ParserError::OutOfBoundsAccess)
            } else {
                run_end(p, input, pos + k)
            },
        }
    }
}

/// Reads a run of bytes whose extent a predicate decides step by step.
pub struct Consumer<P> {
    pub predicate: P,
}

impl<'a, P: StepPredicate> ParserEvaluator<'a> for Consumer<P> {
    type Model = Seq<u8>;

    type Output = &'a [u8];

    open spec fn spec_evaluate(&self, input: Seq<u8>, pos: int) -> Result<(Seq<u8>, int), ParserError> {
        match run_end(self.predicate, input, pos) {
            Ok(end) => Ok((input.subrange(pos, end), end)),
            Err(e) => Err(e),
        }
    }

    fn evaluate(&self, string: &'a [u8], state: &mut ParserState) -> (r: Result<&'a [u8], ParserError>) {
        let len = string.len();
        let start = state.pos;
        let mut cur = start;
        let mut done = false;
        let mut failure: Option<ParserError> = None;
        while !done
            invariant
                start <= cur <= len,
                len == string@.len(),
                !done ==> run_end(self.predicate, string@, start as int) == run_end(
                    self.predicate,
                    string@,
                    cur as int,
                ),
                !done ==> failure is None,
                done && failure is None ==> run_end(self.predicate, string@, start as int) == Ok::<
                    int,
                    ParserError,
                >(cur as int),
                done && failure is Some ==> run_end(self.predicate, string@, start as int)
                    == Err::<int, ParserError>(failure->Some_0),
            decreases len - cur + if done {
                0int
            } else {
                1int
            },
        {
            let rest = slice_subrange(string, cur, len);
            let step = self.predicate.step(rest);
            assert(run_end(self.predicate, string@, cur as int) == match step {
                Err(e) => Err(e),
                Ok(k) => if k == 0 {
                    Ok(cur as int)
                } else if k > len - cur {
                    Err(ParserError::OutOfBoundsAccess)
                } else {
                    run_end(self.predicate, string@, cur + k)
                },
            });
            match step {
                Err(e) => {
                    failure = Some(e);
                    done = true;
                },
                Ok(k) => {
                    if k == 0 {
                        done = true;
                    } else if k > len - cur {
                        failure = Some(ParserError::OutOfBoundsAccess);
                        done = true;
                    } else {
                        cur = cur + k;
                    }
                },
            }
        }
        match failure {
            Some(e) => Err(e),
            None => {
                state.pos = cur;
                Ok(slice_subrange(string, start, cur))
            },
        }
    }
}

/// Tells whether the input under the cursor starts with a pattern, without
/// moving the cursor.
pub struct Match<'cs> {
    pub pattern: &'cs [u8],
}

impl<'a, 'cs> ParserEvaluator<'a> for Match<'cs> {
    type Model = bool;

    type Output = bool;

    open spec fn spec_evaluate(&self, input: Seq<u8>, pos: int) -> Result<(bool, int), ParserError> {
        if input.len() - pos < self.pattern@.len() {
            Err(ParserError::InvalidState(InvalidStateError::EOF))
        } else {
            Ok((matches_at(input, pos, self.pattern@), pos))
        }
    }

    fn evaluate(&self, string: &'a [u8], state: &mut ParserState) -> (r: Result<bool, ParserError>) {
        if string.len() - state.pos < self.pattern.len() {
            Err(ParserError::InvalidState(InvalidStateError::EOF))
        } else {
            Ok(starts_at(string, state.pos, self.pattern))
        }
    }
}

/// Runs two parsers one after the other and returns both outputs.
pub struct Combine<A, B> {
    pub pa: A,
    pub pb: B,
}

impl<A, B> Combine<A, B> {
    pub fn new(pa: A, pb: B) -> (r: Combine<A, B>)
        ensures
            r.pa == pa,
            r.pb == pb,
    {
        Combine { pa, pb }
    }
}

impl<'a, A: ParserEvaluator<'a>, B: ParserEvaluator<'a>> ParserEvaluator<'a> for Combine<A, B> {
    type Model = (A::Model, B::Model);

    type Output = (A::Output, B::Output);

    open spec fn spec_evaluate(&self, input: Seq<u8>, pos: int) -> Result<((A::Model, B::Model), int), ParserError> {
        match self.pa.spec_evaluate(input, pos) {
            Err(e) => Err(e),
            Ok((a, mid)) => match self.pb.spec_evaluate(input, mid) {
                Err(e) => Err(e),
                Ok((b, end)) => Ok(((a, b), end)),
            },
        }
    }

    fn evaluate(&self, string: &'a [u8], state: &mut ParserState) -> (r: Result<(A::Output, B::Output), ParserError>) {
        let start = state.pos;
        let res_a = match self.pa.evaluate(string, state) {
            Ok(x) => x,
            Err(e) => {
                return Err(e);
            },
        };
        let res_b = match self.pb.evaluate(string, state) {
            Ok(x) => x,
            Err(e) => {
                state.pos = start;
                return Err(e);
            },
        };
        Ok((res_a, res_b))
    }
}

/// The output of whichever of two alternatives succeeded.
pub enum OneOf<A, B> {
    First(A),
    Second(B),
}

impl<A: View, B: View> View for OneOf<A, B> {
    type V = OneOf<A::V, B::V>;

    open spec fn view(&self) -> OneOf<A::V, B::V> {
        match self {
            OneOf::First(a) => OneOf::First(a@),
            OneOf::Second(b) => OneOf::Second(b@),
        }
    }
}

/// Runs a first parser; when it fails on the data, puts the cursor back and
/// runs a second one instead. An invalid-state error of the first is passed
/// on without trying the second.
pub struct TryOr<A, B> {
    pub pa: A,
    pub pb: B,
}

impl<A, B> TryOr<A, B> {
    pub fn new(pa: A, pb: B) -> (r: TryOr<A, B>)
        ensures
            r.pa == pa,
            r.pb == pb,
    {
        TryOr { pa, pb }
    }
}

impl<'a, A: ParserEvaluator<'a>, B: ParserEvaluator<'a>> ParserEvaluator<'a> for TryOr<A, B> {
    type Model = OneOf<A::Model, B::Model>;

    type Output = OneOf<A::Output, B::Output>;

    open spec fn spec_evaluate(&self, input: Seq<u8>, pos: int) -> Result<(OneOf<A::Model, B::Model>, int), ParserError> {
        match self.pa.spec_evaluate(input, pos) {
            Ok((a, end)) => Ok((OneOf::First(a), end)),
            Err(ParserError::InvalidState(s)) => Err(ParserError::InvalidState(s)),
            Err(_) => match self.pb.spec_evaluate(input, pos) {
                Ok((b, end)) => Ok((OneOf::Second(b), end)),
                Err(e) => Err(e),
            },
        }
    }

    fn evaluate(&self, string: &'a [u8], state: &mut ParserState) -> (r: Result<OneOf<A::Output, B::Output>, ParserError>) {
        let start = state.pos;
        match self.pa.evaluate(string, state) {
            Ok(x) => Ok(OneOf::First(x)),
            Err(e) => {
                if let ParserError::InvalidState(_) = e {
                    Err(e)
                } else {
                    state.pos = start;
                    match self.pb.evaluate(string, state) {
                        Ok(y) => Ok(OneOf::Second(y)),
                        Err(e2) => Err(e2),
                    }
                }
            },
        }
    }
}

/// Builds longer parsers out of shorter ones. Each method puts a new step in
/// front of `self`: the step runs first, then `self`.
pub trait Parser: Sized {
    /// Reads up to the first occurrence of `end_pattern`, then runs `self`.
    fn read_until<'cs>(self, end_pattern: &'cs [u8]) -> (r: Combine<ReaderUntil<'cs>, Self>)
        ensures
            r.pa == (ReaderUntil { end_pattern }),
            r.pb == self,
    {
        Combine::new(ReaderUntil { end_pattern }, self)
    }

    /// Reads the run of bytes that `predicate` marks, then runs `self`.
    fn consume_while_predicate<P: StepPredicate>(self, predicate: P) -> (r: Combine<Consumer<P>, Self>)
        ensures
            r.pa == (Consumer { predicate }),
            r.pb == self,
    {
        Combine::new(Consumer { predicate }, self)
    }

    /// Reads all the input that is left, then runs `self`.
    fn consume_to_end(self) -> (r: Combine<ConsumerToEnd, Self>)
        ensures
            r.pa == (ConsumerToEnd {}),
            r.pb == self,
    {
        Combine::new(ConsumerToEnd {}, self)
    }

    /// Reads `num` bytes, then runs `self`.
    fn peek(self, num: usize) -> (r: Combine<Peeker, Self>)
        ensures
            r.pa == (Peeker { peek_number: num }),
            r.pb == self,
    {
        Combine::new(Peeker { peek_number: num }, self)
    }
}

impl<A, B> Parser for Combine<A, B> {}

impl<A, B> Parser for TryOr<A, B> {}

impl<'cs> Parser for ReaderUntil<'cs> {}

impl Parser for Peeker {}

impl Parser for ConsumerToEnd {}

impl<P> Parser for Consumer<P> {}

impl<'cs> Parser for Match<'cs> {}

} // verus!
