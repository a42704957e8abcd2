//! The engine's laws, as proved statements over the parsers' mathematical
//! descriptions. Together with the `parse` contract — which pins every
//! executable outcome to `spec_parse` — they carry these guarantees over to
//! every run against a real stream.

use crate::parsec::atom::EndOfInput;
use crate::parsec::combinator::{many_out, Attempt, Either, Many, Many1};
use crate::parsec::{Parsec, SpecOut, Then, Token};
use vstd::prelude::*;

verus! {

/// A transactional retry restores the position exactly to its pre-attempt
/// value on any failure of its parser, however much was consumed before the
/// failure, and keeps the parser's own error; a success is passed through
/// unchanged, consumed input and all.
pub proof fn lemma_attempt_restores_on_failure<T: Token, X: Parsec<T>>(parsec: X, s: Seq<T>, i: int)
    ensures
        parsec.spec_parse(s, i).res is Err ==> (Attempt { parsec }).spec_parse(s, i) == (SpecOut {
            pos: i,
            res: parsec.spec_parse(s, i).res,
        }),
        parsec.spec_parse(s, i).res is Ok ==> (Attempt { parsec }).spec_parse(s, i)
            == parsec.spec_parse(s, i),
{
}

/// Ordered choice: when the first alternative fails having consumed nothing,
/// the outcome equals running the second alternative alone from the same
/// starting position; when it fails having consumed input, its own failure is
/// the outcome and the second alternative plays no part; a success is kept.
pub proof fn lemma_either_choice<T: Token, X: Parsec<T>, Y: Parsec<T, Output = X::Output>>(
    first: X,
    second: Y,
    s: Seq<T>,
    i: int,
)
    ensures
        ({
            let o = first.spec_parse(s, i);
            let both = (Either { first, second }).spec_parse(s, i);
            &&& (o.res is Err && o.pos == i ==> both == second.spec_parse(s, i))
            &&& (o.res is Err && o.pos != i ==> both == o)
            &&& (o.res is Ok ==> both == o)
        }),
{
}

/// Zero-or-more repetition always succeeds, whatever its parser does.
pub proof fn lemma_many_always_succeeds<T: Token, X: Parsec<T>>(parsec: X, s: Seq<T>, i: int)
    ensures
        (Many { parsec }).spec_parse(s, i).res is Ok,
    decreases s.len() - i,
{
    let o = parsec.spec_parse(s, i);
    if o.res is Ok && i < o.pos <= s.len() {
        lemma_many_always_succeeds(parsec, s, o.pos);
    }
}

/// Where zero-or-more repetition consumes the whole stream, following it with
/// the end-of-input parser succeeds, at the end of the input.
pub proof fn lemma_many_reaches_eof<T: Token, X: Parsec<T>>(parsec: X, s: Seq<T>, i: int)
    requires
        many_out(parsec, s, i).pos == s.len(),
    ensures
        ({
            let q = Then { first: Many { parsec }, second: EndOfInput };
            q.spec_parse(s, i).res is Ok && q.spec_parse(s, i).pos == s.len()
        }),
{
    lemma_many_always_succeeds(parsec, s, i);
}

/// One-or-more repetition fails with its parser's own error, position and all,
/// where the very first attempt fails.
pub proof fn lemma_many1_first_failure<T: Token, X: Parsec<T>>(parsec: X, s: Seq<T>, i: int)
    requires
        parsec.spec_parse(s, i).res is Err,
    ensures
        (Many1 { parsec }).spec_parse(s, i).pos == parsec.spec_parse(s, i).pos,
        (Many1 { parsec }).spec_parse(s, i).res == Err::<
            Seq<<X::Output as DeepView>::V>,
            crate::parsec::SpecErr,
        >(parsec.spec_parse(s, i).res->Err_0),
{
}

/// One-or-more repetition yields exactly one element where the first attempt
/// succeeds and the attempt after it fails (for instance at an exhausted
/// stream).
pub proof fn lemma_many1_single<T: Token, X: Parsec<T>>(parsec: X, s: Seq<T>, i: int)
    requires
        parsec.spec_parse(s, i).res is Ok,
        parsec.spec_parse(s, parsec.spec_parse(s, i).pos).res is Err,
    ensures
        ({
            let o = parsec.spec_parse(s, i);
            (Many1 { parsec }).spec_parse(s, i) == (SpecOut {
                pos: o.pos,
                res: Ok(seq![o.res->Ok_0]),
            })
        }),
{
    let o = parsec.spec_parse(s, i);
    assert(many_out(parsec, s, o.pos).pos == o.pos);
    assert(seq![o.res->Ok_0] + many_out(parsec, s, o.pos).res->Ok_0 =~= seq![o.res->Ok_0]);
}

/// Referential transparency: a parser's described outcome is a function of the
/// parser value, the tokens, and the position alone. Two parsers built from
/// identical combinator expressions are equal values, so they are described
/// identically over identical streams — and the `parse` contract pins every
/// run to that description, so the runs return identical outcomes.
pub proof fn lemma_referential_transparency<T: Token, X: Parsec<T>>(
    first: X,
    second: X,
    s1: Seq<T>,
    s2: Seq<T>,
    i1: int,
    i2: int,
)
    requires
        first == second,
        s1 == s2,
        i1 == i2,
    ensures
        first.spec_parse(s1, i1) == second.spec_parse(s2, i2),
{
}

} // verus!
