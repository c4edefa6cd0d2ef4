use vstd::prelude::*;
use crate::parser::{
    find_from, matches_at, Combine, ParserEvaluator, Peeker, ReaderUntil,
};

verus! {

/// Where `find_from` points, the pattern occurs, at or after the start.
pub proof fn lemma_find_from_matches(input: Seq<u8>, pos: int, pat: Seq<u8>)
    ensures
        find_from(input, pos, pat) matches Some(i) ==> pos <= i && matches_at(input, i, pat),
    decreases input.len() + 1 - pos,
{
    if !(pos < 0 || pos + pat.len() > input.len()) && !matches_at(input, pos, pat) {
        lemma_find_from_matches(input, pos + 1, pat);
    }
}

/// Reading up to a pattern and then reading the pattern itself: what both
/// steps returned, put together, is exactly the input they went over, and the
/// second step returned the pattern.
pub proof fn lemma_read_until_then_pattern<'cs>(reader: ReaderUntil<'cs>, input: Seq<u8>, pos: int)
    requires
        0 <= pos <= input.len(),
        input.len() <= usize::MAX,
        reader.end_pattern@.len() <= usize::MAX,
    ensures
        ({
            let both = Combine {
                pa: reader,
                pb: Peeker { peek_number: reader.end_pattern@.len() as usize },
            };
            both.spec_evaluate(input, pos) matches Ok(((before, pat), end)) ==> {
                &&& before + pat == input.subrange(pos, end)
                &&& pat == reader.end_pattern@
            }
        }),
{
    let pat = reader.end_pattern@;
    lemma_find_from_matches(input, pos, pat);
    let both = Combine {
        pa: reader,
        pb: Peeker { peek_number: pat.len() as usize },
    };
    if let Ok(((before, seen), end)) = both.spec_evaluate(input, pos) {
        let mid = pos + before.len();
        match find_from(input, pos, pat) {
            Some(i) => {
                assert(mid == i);
            },
            None => {
                assert(seen =~= pat);
            },
        }
        assert(before + seen =~= input.subrange(pos, end));
    }
}

/// Peeking `n` bytes and then `m` more sees the same bytes, and leaves the
/// cursor at the same place, as peeking `n + m` bytes at once; one succeeds
/// exactly when the other does.
pub proof fn lemma_peek_split(input: Seq<u8>, pos: int, n: usize, m: usize)
    requires
        0 <= pos <= input.len(),
        input.len() <= usize::MAX,
        n + m <= usize::MAX,
    ensures
        ({
            let two = Combine { pa: Peeker { peek_number: n }, pb: Peeker { peek_number: m } };
            let one = Peeker { peek_number: (n + m) as usize };
            &&& (two.spec_evaluate(input, pos) is Ok <==> one.spec_evaluate(input, pos) is Ok)
            &&& two.spec_evaluate(input, pos) matches Ok(((a, b), end)) ==> one.spec_evaluate(
                input,
                pos,
            ) == Ok::<_, crate::parser::ParserError>((a + b, end))
        }),
{
    if pos + n + m <= input.len() {
        assert(input.subrange(pos, pos + n) + input.subrange(pos + n, pos + n + m)
            =~= input.subrange(pos, pos + n + m));
    }
}

} // verus!
