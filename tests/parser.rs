use msgkit::parser::{
    Combine, Consumer, ConsumerToEnd, InvalidStateError, Match, OneOf, Parser, ParserError,
    ParserEvaluator, ParserState, Peeker, ReaderUntil, TryOr,
};
use msgkit::http::LineBreaks;

#[test]
fn reader_until_stops_before_pattern() {
    let input = b"abc\r\ndef";
    let mut st = ParserState::new();
    let r = ReaderUntil { end_pattern: b"\r\n" }.evaluate(input, &mut st).unwrap();
    assert_eq!(r, b"abc");
    assert_eq!(st.position(), 3);
}

#[test]
fn reader_until_returns_rest_at_end_of_input() {
    let input = b"abcdef";
    let mut st = ParserState::at(2);
    let r = ReaderUntil { end_pattern: b"xy" }.evaluate(input, &mut st).unwrap();
    assert_eq!(r, b"cdef");
    assert_eq!(st.position(), 6);
    // At the very end nothing is left to read.
    let r = ReaderUntil { end_pattern: b"xy" }.evaluate(input, &mut st).unwrap();
    assert_eq!(r, b"");
    assert_eq!(st.position(), 6);
}

#[test]
fn reader_until_then_pattern_gives_consumed_prefix() {
    let input = b"key: value\r\nnext";
    let p: &[u8] = b"\r\n";
    let mut st = ParserState::new();
    let both = Combine::new(ReaderUntil { end_pattern: p }, Peeker { peek_number: p.len() });
    let (before, pat) = both.evaluate(input, &mut st).unwrap();
    let mut joined = before.to_vec();
    joined.extend_from_slice(pat);
    assert_eq!(pat, p);
    assert_eq!(&joined[..], &input[..st.position()]);
    assert_eq!(st.position(), 12);
}

#[test]
fn peek_reads_and_advances() {
    let input = b"0123456789";
    let mut st = ParserState::at(3);
    assert_eq!(Peeker { peek_number: 4 }.evaluate(input, &mut st).unwrap(), b"3456");
    assert_eq!(st.position(), 7);
    assert_eq!(
        Peeker { peek_number: 4 }.evaluate(input, &mut st).err(),
        Some(ParserError::OutOfBoundsAccess)
    );
    assert_eq!(
        Peeker { peek_number: usize::MAX }.evaluate(input, &mut st).err(),
        Some(ParserError::Overflow)
    );
}

#[test]
fn peek_twice_equals_peek_sum() {
    let input = b"hello world";
    let mut a = ParserState::at(1);
    let (x, y) = Combine::new(Peeker { peek_number: 3 }, Peeker { peek_number: 4 })
        .evaluate(input, &mut a)
        .unwrap();
    let mut b = ParserState::at(1);
    let z = Peeker { peek_number: 7 }.evaluate(input, &mut b).unwrap();
    let mut xy = x.to_vec();
    xy.extend_from_slice(y);
    assert_eq!(&xy[..], z);
    assert_eq!(a.position(), b.position());
    assert_eq!(a.position(), 8);
    // When the whole does not fit, neither do the two parts.
    let mut c = ParserState::at(5);
    assert!(Combine::new(Peeker { peek_number: 3 }, Peeker { peek_number: 4 })
        .evaluate(input, &mut c)
        .is_err());
    let mut d = ParserState::at(5);
    assert!(Peeker { peek_number: 7 }.evaluate(input, &mut d).is_err());
}

#[test]
fn consume_to_end_takes_everything() {
    let input = b"abcdef";
    let mut st = ParserState::at(4);
    assert_eq!(ConsumerToEnd {}.evaluate(input, &mut st).unwrap(), b"ef");
    assert_eq!(st.position(), 6);
}

#[test]
fn consumer_follows_predicate() {
    let input = b"\r\n\n\rGET";
    let mut st = ParserState::new();
    let run = Consumer { predicate: LineBreaks {} }.evaluate(input, &mut st).unwrap();
    assert_eq!(run, b"\r\n\n\r");
    assert_eq!(st.position(), 4);
    let run = Consumer { predicate: LineBreaks {} }.evaluate(input, &mut st).unwrap();
    assert_eq!(run, b"");
    assert_eq!(st.position(), 4);
}

#[test]
fn match_does_not_move() {
    let input = b"HTTP/1.1";
    let mut st = ParserState::new();
    assert_eq!(Match { pattern: b"HTTP" }.evaluate(input, &mut st), Ok(true));
    assert_eq!(Match { pattern: b"HTTX" }.evaluate(input, &mut st), Ok(false));
    assert_eq!(st.position(), 0);
    assert_eq!(
        Match { pattern: b"HTTP/1.1 and more" }.evaluate(input, &mut st),
        Err(ParserError::InvalidState(InvalidStateError::EOF))
    );
}

#[test]
fn combine_aborts_on_second_error() {
    let input = b"abc";
    let mut st = ParserState::new();
    let r = Combine::new(Peeker { peek_number: 2 }, Peeker { peek_number: 2 }).evaluate(input, &mut st);
    assert_eq!(r.err(), Some(ParserError::OutOfBoundsAccess));
}

#[test]
fn try_or_rolls_back_on_data_error() {
    let input = b"abc";
    let mut st = ParserState::new();
    let alt = TryOr::new(
        Combine::new(Peeker { peek_number: 1 }, Peeker { peek_number: 10 }),
        ConsumerToEnd {},
    );
    match alt.evaluate(input, &mut st) {
        Ok(OneOf::Second(rest)) => assert_eq!(rest, b"abc"),
        _ => panic!("the second alternative should have run from the start"),
    }
    assert_eq!(st.position(), 3);
    let mut st = ParserState::new();
    let first = TryOr::new(Peeker { peek_number: 2 }, ConsumerToEnd {});
    match first.evaluate(input, &mut st) {
        Ok(OneOf::First(bytes)) => assert_eq!(bytes, b"ab"),
        _ => panic!("the first alternative should have succeeded"),
    }
}

#[test]
fn try_or_passes_invalid_state_on() {
    let input = b"abc";
    let mut st = ParserState::new();
    let alt = TryOr::new(Match { pattern: b"abcdef" }, ConsumerToEnd {});
    assert_eq!(
        alt.evaluate(input, &mut st).err(),
        Some(ParserError::InvalidState(InvalidStateError::EOF))
    );
}

#[test]
fn builder_runs_new_step_first() {
    let input = b"ab:cd";
    let mut st = ParserState::new();
    let p = ConsumerToEnd {}.read_until(b":");
    let (head, tail) = p.evaluate(input, &mut st).unwrap();
    assert_eq!(head, b"ab");
    assert_eq!(tail, b":cd");
    let mut st = ParserState::new();
    let (first, rest) = ConsumerToEnd {}.peek(1).evaluate(input, &mut st).unwrap();
    assert_eq!(first, b"a");
    assert_eq!(rest, b"b:cd");
    let mut st = ParserState::new();
    let (breaks, rest) = ConsumerToEnd {}
        .consume_while_predicate(LineBreaks {})
        .evaluate(b"\r\nx", &mut st)
        .unwrap();
    assert_eq!(breaks, b"\r\n");
    assert_eq!(rest, b"x");
    let mut st = ParserState::new();
    let (all, nothing) = ConsumerToEnd {}.consume_to_end().evaluate(b"xyz", &mut st).unwrap();
    assert_eq!(all, b"xyz");
    assert_eq!(nothing, b"");
}

#[test]
fn errors_leave_the_cursor_in_place() {
    let input = b"abc";
    let mut st = ParserState::at(1);
    assert!(Peeker { peek_number: 5 }.evaluate(input, &mut st).is_err());
    assert_eq!(st.position(), 1);
    assert!(Peeker { peek_number: usize::MAX }.evaluate(input, &mut st).is_err());
    assert_eq!(st.position(), 1);
    assert!(Match { pattern: b"bcde" }.evaluate(input, &mut st).is_err());
    assert_eq!(st.position(), 1);
    // The first step succeeds and moves, the second fails: the cursor goes back.
    let pair = Combine::new(Peeker { peek_number: 1 }, Peeker { peek_number: 5 });
    assert_eq!(pair.evaluate(input, &mut st).err(), Some(ParserError::OutOfBoundsAccess));
    assert_eq!(st.position(), 1);
}
