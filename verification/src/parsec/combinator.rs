//! The combinators: transactional retry, ordered choice, repetition,
//! bracketing, defaulting, and separated lists.
//!
//! Backtracking is cost-bounded: only [`Attempt`] unconditionally undoes
//! partial consumption; ordered choice falls through to its second alternative
//! only when the first one failed without consuming anything.

use crate::parsec::{mark_evolves, Parsec, SpecErr, SpecOut, State, Status, Token};
use vstd::prelude::*;

verus! {

/// Wraps a parser in a transaction: on success the consumed input is kept, on
/// any failure the position is restored to the pre-attempt value, however much
/// the parser consumed before failing.
pub struct Attempt<X> {
    pub parsec: X,
}

impl<T: Token, X: Parsec<T>> Parsec<T> for Attempt<X> {
    type Output = X::Output;

    open spec fn spec_parse(&self, s: Seq<T>, i: int) -> SpecOut<<X::Output as DeepView>::V> {
        let o = self.parsec.spec_parse(s, i);
        if o.res is Ok {
            o
        } else {
            SpecOut { pos: i, res: o.res }
        }
    }

    proof fn lemma_parse_bounds(&self, s: Seq<T>, i: int) {
        self.parsec.lemma_parse_bounds(s, i);
    }

    fn parse<S: State<T>>(&self, st: &mut S) -> (r: Status<X::Output>) {
        proof {
            st.lemma_wf();
        }
        let m = st.begin();
        let r = self.parsec.parse(st);
        if r.is_ok() {
            st.commit(m);
        } else {
            st.rollback(m);
        }
        r
    }
}

/// The transactional retry of `parsec`: its failures never leave partial
/// consumption behind.
pub fn attempt<T: Token, X: Parsec<T>>(parsec: X) -> (p: Attempt<X>)
    ensures
        p == (Attempt { parsec }),
{
    Attempt { parsec }
}

/// Ordered choice: try the first parser; fall through to the second only when
/// the first failed without consuming anything. A failure after partial
/// consumption propagates, and the second parser is never involved.
pub struct Either<X, Y> {
    pub first: X,
    pub second: Y,
}

impl<T: Token, X: Parsec<T>, Y: Parsec<T, Output = X::Output>> Parsec<T> for Either<X, Y> {
    type Output = X::Output;

    open spec fn spec_parse(&self, s: Seq<T>, i: int) -> SpecOut<<X::Output as DeepView>::V> {
        let o = self.first.spec_parse(s, i);
        if o.res is Ok {
            o
        } else if o.pos == i {
            self.second.spec_parse(s, i)
        } else {
            o
        }
    }

    proof fn lemma_parse_bounds(&self, s: Seq<T>, i: int) {
        self.first.lemma_parse_bounds(s, i);
        self.second.lemma_parse_bounds(s, i);
    }

    fn parse<S: State<T>>(&self, st: &mut S) -> (r: Status<X::Output>) {
        let before = st.pos();
        match self.first.parse(st) {
            Ok(v) => Ok(v),
            Err(e) => {
                if st.pos() == before {
                    self.second.parse(st)
                } else {
                    Err(e)
                }
            },
        }
    }
}

/// The ordered choice of `first`, then `second`.
pub fn either<T: Token, X: Parsec<T>, Y: Parsec<T, Output = X::Output>>(first: X, second: Y) -> (p:
    Either<X, Y>)
    ensures
        p == (Either { first, second }),
{
    Either { first, second }
}

/// Ordered choice as a method, so alternatives can be chained.
pub trait Or<T: Token>: Parsec<T> {
    fn or<Y: Parsec<T, Output = Self::Output>>(self, second: Y) -> (r: Either<Self, Y>)
        ensures
            r == (Either { first: self, second }),
    ;
}

impl<T: Token, X: Parsec<T>> Or<T> for X {
    fn or<Y: Parsec<T, Output = X::Output>>(self, second: Y) -> (r: Either<X, Y>) {
        Either { first: self, second }
    }
}

/// Runs `open`, then `body`, then `close`; returns `body`'s value only if all
/// three succeed. The first failing stage's error propagates and later stages
/// are not attempted.
pub struct Between<O, X, C> {
    pub open: O,
    pub body: X,
    pub close: C,
}

impl<T: Token, O: Parsec<T>, X: Parsec<T>, C: Parsec<T>> Parsec<T> for Between<O, X, C> {
    type Output = X::Output;

    open spec fn spec_parse(&self, s: Seq<T>, i: int) -> SpecOut<<X::Output as DeepView>::V> {
        let a = self.open.spec_parse(s, i);
        match a.res {
            Ok(_) => {
                let b = self.body.spec_parse(s, a.pos);
                match b.res {
                    Ok(v) => {
                        let c = self.close.spec_parse(s, b.pos);
                        match c.res {
                            Ok(_) => SpecOut { pos: c.pos, res: Ok(v) },
                            Err(e) => SpecOut { pos: c.pos, res: Err(e) },
                        }
                    },
                    Err(e) => SpecOut { pos: b.pos, res: Err(e) },
                }
            },
            Err(e) => SpecOut { pos: a.pos, res: Err(e) },
        }
    }

    proof fn lemma_parse_bounds(&self, s: Seq<T>, i: int) {
        self.open.lemma_parse_bounds(s, i);
        let a = self.open.spec_parse(s, i);
        if a.res is Ok {
            self.body.lemma_parse_bounds(s, a.pos);
            let b = self.body.spec_parse(s, a.pos);
            if b.res is Ok {
                self.close.lemma_parse_bounds(s, b.pos);
            }
        }
    }

    fn parse<S: State<T>>(&self, st: &mut S) -> (r: Status<X::Output>) {
        match self.open.parse(st) {
            Ok(_) => match self.body.parse(st) {
                Ok(v) => match self.close.parse(st) {
                    Ok(_) => Ok(v),
                    Err(e) => Err(e),
                },
                Err(e) => Err(e),
            },
            Err(e) => Err(e),
        }
    }
}

/// The bracketed parser: `open`, then `body`, then `close`, keeping `body`'s
/// value.
pub fn between<T: Token, O: Parsec<T>, X: Parsec<T>, C: Parsec<T>>(open: O, body: X, close: C) -> (
    p: Between<O, X, C>)
    ensures
        p == (Between { open, body, close }),
{
    Between { open, body, close }
}

/// Runs a parser; a failure that consumed nothing is replaced by a fixed,
/// grammar-specific message at the starting position. A failure after partial
/// consumption keeps the parser's own error, per the ordered-choice rule.
pub struct Otherwise<X> {
    pub parsec: X,
    pub message: String,
}

impl<T: Token, X: Parsec<T>> Parsec<T> for Otherwise<X> {
    type Output = X::Output;

    open spec fn spec_parse(&self, s: Seq<T>, i: int) -> SpecOut<<X::Output as DeepView>::V> {
        let o = self.parsec.spec_parse(s, i);
        if o.res is Ok {
            o
        } else if o.pos == i {
            SpecOut { pos: i, res: Err(SpecErr { pos: i, msg: self.message@ }) }
        } else {
            o
        }
    }

    proof fn lemma_parse_bounds(&self, s: Seq<T>, i: int) {
        self.parsec.lemma_parse_bounds(s, i);
    }

    fn parse<S: State<T>>(&self, st: &mut S) -> (r: Status<X::Output>) {
        let before = st.pos();
        match self.parsec.parse(st) {
            Ok(v) => Ok(v),
            Err(e) => {
                if st.pos() == before {
                    Err(st.err(self.message.clone()))
                } else {
                    Err(e)
                }
            },
        }
    }
}

/// The parser that substitutes `description` for a consumption-free failure of
/// `parsec`.
pub fn otherwise<T: Token, X: Parsec<T>>(parsec: X, description: String) -> (p: Otherwise<X>)
    ensures
        p.parsec == parsec,
        p.message == description,
{
    Otherwise { parsec, message: description }
}

/// The outcome of running `p` zero or more times from `i`, each attempt
/// transactional, collecting the values in encounter order until the first
/// failure, which is swallowed. It always succeeds. An attempt that succeeds
/// without making progress also stops the repetition (and its value is
/// dropped): without that progress rule a repetition over a zero-consuming
/// parser would never end.
pub open spec fn many_out<T: Token, X: Parsec<T>>(p: X, s: Seq<T>, i: int) -> SpecOut<
    Seq<<X::Output as DeepView>::V>,
>
    decreases s.len() - i,
{
    let o = p.spec_parse(s, i);
    if o.res is Ok && i < o.pos <= s.len() {
        let rest = many_out(p, s, o.pos);
        SpecOut { pos: rest.pos, res: Ok(seq![o.res->Ok_0] + rest.res->Ok_0) }
    } else {
        SpecOut { pos: i, res: Ok(Seq::empty()) }
    }
}

/// From an in-bounds position, a repetition ends in bounds and never before
/// where it started.
pub proof fn lemma_many_out_bounds<T: Token, X: Parsec<T>>(p: X, s: Seq<T>, i: int)
    requires
        0 <= i <= s.len(),
    ensures
        i <= many_out(p, s, i).pos <= s.len(),
    decreases s.len() - i,
{
    let o = p.spec_parse(s, i);
    if o.res is Ok && i < o.pos <= s.len() {
        lemma_many_out_bounds(p, s, o.pos);
    }
}

/// Runs `p` repeatedly, each attempt inside a transaction, appending every
/// produced value to `acc`, until the first failure, which is swallowed.
fn collect_many<T: Token, X: Parsec<T>, S: State<T>>(p: &X, st: &mut S, acc: &mut Vec<X::Output>)
    requires
        old(st).wf(),
    ensures
        final(st).wf(),
        final(st).tokens() == old(st).tokens(),
        mark_evolves(old(st).mark(), final(st).mark()),
        ({
            let rest = many_out(*p, old(st).tokens(), old(st).at());
            final(st).at() == rest.pos && final(acc).deep_view() == old(acc).deep_view()
                + rest.res->Ok_0
        }),
{
    let ghost s = st.tokens();
    let ghost i0 = st.at();
    let ghost m0 = st.mark();
    let ghost acc0 = acc.deep_view();
    proof {
        st.lemma_wf();
    }
    loop
        invariant
            st.wf(),
            st.tokens() == s,
            mark_evolves(m0, st.mark()),
            0 <= st.at() <= s.len(),
            ({
                let full = many_out(*p, s, i0);
                let rest = many_out(*p, s, st.at());
                full.pos == rest.pos && acc0 + full.res->Ok_0 == acc.deep_view() + rest.res->Ok_0
            }),
        ensures
            st.wf(),
            st.tokens() == s,
            mark_evolves(m0, st.mark()),
            ({
                let full = many_out(*p, s, i0);
                st.at() == full.pos && acc.deep_view() == acc0 + full.res->Ok_0
            }),
        decreases s.len() - st.at(),
    {
        let ghost cur = st.at();
        let before = st.pos();
        let m = st.begin();
        let r = p.parse(st);
        proof {
            let rest = many_out(*p, s, cur);
            assert(acc.deep_view() + Seq::<<X::Output as DeepView>::V>::empty() =~= acc.deep_view());
            if p.spec_parse(s, cur).res is Err || p.spec_parse(s, cur).pos == cur {
                assert(rest.pos == cur && rest.res->Ok_0 =~= Seq::empty());
            }
        }
        match r {
            Ok(v) => {
                st.commit(m);
                if st.pos() == before {
                    // the attempt made no progress: collecting stops here, or
                    // the repetition would never end
                    break ;
                }
                let ghost o = p.spec_parse(s, cur);
                let ghost prevdeep = acc.deep_view();
                acc.push(v);
                proof {
                    assert(acc.deep_view() =~= prevdeep.push(v.deep_view()));
                    p.lemma_parse_bounds(s, cur);
                    let restafter = many_out(*p, s, o.pos);
                    assert(many_out(*p, s, cur).res->Ok_0 == seq![o.res->Ok_0]
                        + restafter.res->Ok_0);
                    assert(prevdeep + (seq![v.deep_view()] + restafter.res->Ok_0) =~= prevdeep.push(
                        v.deep_view(),
                    ) + restafter.res->Ok_0);
                }
            },
            Err(_) => {
                st.rollback(m);
                break ;
            },
        }
    }
}

/// Zero-or-more repetition: repeatedly attempts its parser transactionally and
/// collects the successes, in encounter order, until the first failure, which
/// is swallowed. It always succeeds.
pub struct Many<X> {
    pub parsec: X,
}

impl<T: Token, X: Parsec<T>> Parsec<T> for Many<X> {
    type Output = Vec<X::Output>;

    open spec fn spec_parse(&self, s: Seq<T>, i: int) -> SpecOut<Seq<<X::Output as DeepView>::V>> {
        many_out(self.parsec, s, i)
    }

    proof fn lemma_parse_bounds(&self, s: Seq<T>, i: int) {
        lemma_many_out_bounds(self.parsec, s, i);
    }

    fn parse<S: State<T>>(&self, st: &mut S) -> (r: Status<Vec<X::Output>>) {
        let mut out: Vec<X::Output> = Vec::new();
        proof {
            assert(out.deep_view() =~= Seq::<<X::Output as DeepView>::V>::empty());
        }
        collect_many(&self.parsec, st, &mut out);
        proof {
            let full = many_out(self.parsec, st.tokens(), old(st).at());
            assert(Seq::<<X::Output as DeepView>::V>::empty() + full.res->Ok_0 =~= full.res->Ok_0);
        }
        Ok(out)
    }
}

/// The zero-or-more repetition of `parsec`.
pub fn many<T: Token, X: Parsec<T>>(parsec: X) -> (p: Many<X>)
    ensures
        p == (Many { parsec }),
{
    Many { parsec }
}

/// One-or-more repetition: requires at least one success of its parser,
/// propagating the error of a failing first attempt, then collects like
/// [`Many`].
pub struct Many1<X> {
    pub parsec: X,
}

impl<T: Token, X: Parsec<T>> Parsec<T> for Many1<X> {
    type Output = Vec<X::Output>;

    open spec fn spec_parse(&self, s: Seq<T>, i: int) -> SpecOut<Seq<<X::Output as DeepView>::V>> {
        let o = self.parsec.spec_parse(s, i);
        match o.res {
            Ok(v) => {
                let rest = many_out(self.parsec, s, o.pos);
                SpecOut { pos: rest.pos, res: Ok(seq![v] + rest.res->Ok_0) }
            },
            Err(e) => SpecOut { pos: o.pos, res: Err(e) },
        }
    }

    proof fn lemma_parse_bounds(&self, s: Seq<T>, i: int) {
        self.parsec.lemma_parse_bounds(s, i);
        let o = self.parsec.spec_parse(s, i);
        if o.res is Ok {
            lemma_many_out_bounds(self.parsec, s, o.pos);
        }
    }

    fn parse<S: State<T>>(&self, st: &mut S) -> (r: Status<Vec<X::Output>>) {
        match self.parsec.parse(st) {
            Ok(v) => {
                let ghost vd = v.deep_view();
                let mut out: Vec<X::Output> = Vec::new();
                out.push(v);
                proof {
                    assert(out.deep_view() =~= seq![vd]);
                }
                collect_many(&self.parsec, st, &mut out);
                proof {
                    let o = self.parsec.spec_parse(old(st).tokens(), old(st).at());
                    let rest = many_out(self.parsec, old(st).tokens(), o.pos);
                    assert(seq![vd] + rest.res->Ok_0 == out.deep_view());
                }
                Ok(out)
            },
            Err(e) => Err(e),
        }
    }
}

/// The one-or-more repetition of `parsec`.
pub fn many1<T: Token, X: Parsec<T>>(parsec: X) -> (p: Many1<X>)
    ensures
        p == (Many1 { parsec }),
{
    Many1 { parsec }
}

/// Runs `p` repeatedly, each attempt inside a transaction, discarding every
/// produced value, until the first failure, which is swallowed.
fn skip_many<T: Token, X: Parsec<T>, S: State<T>>(p: &X, st: &mut S)
    requires
        old(st).wf(),
    ensures
        final(st).wf(),
        final(st).tokens() == old(st).tokens(),
        mark_evolves(old(st).mark(), final(st).mark()),
        final(st).at() == many_out(*p, old(st).tokens(), old(st).at()).pos,
{
    let ghost s = st.tokens();
    let ghost i0 = st.at();
    let ghost m0 = st.mark();
    proof {
        st.lemma_wf();
    }
    loop
        invariant
            st.wf(),
            st.tokens() == s,
            mark_evolves(m0, st.mark()),
            0 <= st.at() <= s.len(),
            many_out(*p, s, i0).pos == many_out(*p, s, st.at()).pos,
        ensures
            st.wf(),
            st.tokens() == s,
            mark_evolves(m0, st.mark()),
            st.at() == many_out(*p, s, i0).pos,
        decreases s.len() - st.at(),
    {
        let ghost cur = st.at();
        let before = st.pos();
        let m = st.begin();
        let r = p.parse(st);
        match r {
            Ok(_) => {
                st.commit(m);
                proof {
                    p.lemma_parse_bounds(s, cur);
                }
                if st.pos() == before {
                    // the attempt made no progress: the repetition stops here
                    break ;
                }
            },
            Err(_) => {
                st.rollback(m);
                break ;
            },
        }
    }
}

/// Like [`Many`] but the values are discarded: only the consuming side effect
/// matters, and an empty sequence is returned.
pub struct Skip<X> {
    pub parsec: X,
}

impl<T: Token, X: Parsec<T>> Parsec<T> for Skip<X> {
    type Output = Vec<X::Output>;

    open spec fn spec_parse(&self, s: Seq<T>, i: int) -> SpecOut<Seq<<X::Output as DeepView>::V>> {
        SpecOut { pos: many_out(self.parsec, s, i).pos, res: Ok(Seq::empty()) }
    }

    proof fn lemma_parse_bounds(&self, s: Seq<T>, i: int) {
        lemma_many_out_bounds(self.parsec, s, i);
    }

    fn parse<S: State<T>>(&self, st: &mut S) -> (r: Status<Vec<X::Output>>) {
        skip_many(&self.parsec, st);
        let out: Vec<X::Output> = Vec::new();
        proof {
            assert(out.deep_view() =~= Seq::<<X::Output as DeepView>::V>::empty());
        }
        Ok(out)
    }
}

/// The value-discarding zero-or-more repetition of `parsec`.
pub fn skip<T: Token, X: Parsec<T>>(parsec: X) -> (p: Skip<X>)
    ensures
        p == (Skip { parsec }),
{
    Skip { parsec }
}

/// Like [`Skip`] but requires at least one success, propagating the error of a
/// failing first attempt.
pub struct Skip1<X> {
    pub parsec: X,
}

impl<T: Token, X: Parsec<T>> Parsec<T> for Skip1<X> {
    type Output = Vec<X::Output>;

    open spec fn spec_parse(&self, s: Seq<T>, i: int) -> SpecOut<Seq<<X::Output as DeepView>::V>> {
        let o = self.parsec.spec_parse(s, i);
        match o.res {
            Ok(_) => SpecOut { pos: many_out(self.parsec, s, o.pos).pos, res: Ok(Seq::empty()) },
            Err(e) => SpecOut { pos: o.pos, res: Err(e) },
        }
    }

    proof fn lemma_parse_bounds(&self, s: Seq<T>, i: int) {
        self.parsec.lemma_parse_bounds(s, i);
        let o = self.parsec.spec_parse(s, i);
        if o.res is Ok {
            lemma_many_out_bounds(self.parsec, s, o.pos);
        }
    }

    fn parse<S: State<T>>(&self, st: &mut S) -> (r: Status<Vec<X::Output>>) {
        match self.parsec.parse(st) {
            Ok(_) => {
                skip_many(&self.parsec, st);
                let out: Vec<X::Output> = Vec::new();
                proof {
                    assert(out.deep_view() =~= Seq::<<X::Output as DeepView>::V>::empty());
                }
                Ok(out)
            },
            Err(e) => Err(e),
        }
    }
}

/// The value-discarding one-or-more repetition of `parsec`.
pub fn skip1<T: Token, X: Parsec<T>>(parsec: X) -> (p: Skip1<X>)
    ensures
        p == (Skip1 { parsec }),
{
    Skip1 { parsec }
}

/// The outcome of running `p` from `i` until `till` succeeds. `till` is
/// checked transactionally before every element, so checking never consumes on
/// failure; once it fails, `p` must succeed and its failure propagates
/// uncaught. An element that succeeds without progress stops the collection,
/// per the progress rule.
pub open spec fn many_till_out<T: Token, X: Parsec<T>, Y: Parsec<T>>(
    p: X,
    till: Y,
    s: Seq<T>,
    i: int,
) -> SpecOut<Seq<<X::Output as DeepView>::V>>
    decreases s.len() - i,
{
    let t = till.spec_parse(s, i);
    if t.res is Ok {
        SpecOut { pos: t.pos, res: Ok(Seq::empty()) }
    } else {
        let o = p.spec_parse(s, i);
        match o.res {
            Err(e) => SpecOut { pos: o.pos, res: Err(e) },
            Ok(v) => if i < o.pos <= s.len() {
                let rest = many_till_out(p, till, s, o.pos);
                match rest.res {
                    Ok(vs) => SpecOut { pos: rest.pos, res: Ok(seq![v] + vs) },
                    Err(e) => SpecOut { pos: rest.pos, res: Err(e) },
                }
            } else {
                SpecOut { pos: i, res: Ok(Seq::empty()) }
            },
        }
    }
}

/// From an in-bounds position, a repeat-until ends in bounds and never before
/// where it started.
pub proof fn lemma_many_till_out_bounds<T: Token, X: Parsec<T>, Y: Parsec<T>>(
    p: X,
    till: Y,
    s: Seq<T>,
    i: int,
)
    requires
        0 <= i <= s.len(),
    ensures
        i <= many_till_out(p, till, s, i).pos <= s.len(),
    decreases s.len() - i,
{
    till.lemma_parse_bounds(s, i);
    let t = till.spec_parse(s, i);
    if t.res is Err {
        p.lemma_parse_bounds(s, i);
        let o = p.spec_parse(s, i);
        if o.res is Ok && i < o.pos <= s.len() {
            lemma_many_till_out_bounds(p, till, s, o.pos);
        }
    }
}

/// The loop view of `many_till_out`: what was already collected, together with
/// what remains from the current position, makes up the whole.
spec fn till_rel<T: Token, X: Parsec<T>, Y: Parsec<T>>(
    p: X,
    till: Y,
    s: Seq<T>,
    from: int,
    accv: Seq<<X::Output as DeepView>::V>,
    cur: int,
) -> bool {
    let full = many_till_out(p, till, s, from);
    let rest = many_till_out(p, till, s, cur);
    full.pos == rest.pos && match (full.res, rest.res) {
        (Ok(fv), Ok(rv)) => fv == accv + rv,
        (Err(fe), Err(re)) => fe == re,
        _ => false,
    }
}

/// Repeat-until: before each element, checks `till` transactionally; when it
/// succeeds (keeping whatever it consumed), the collected elements are
/// returned. Otherwise `p` must succeed, and its failure propagates uncaught.
pub struct ManyTill<X, Y> {
    pub parsec: X,
    pub till: Y,
}

impl<T: Token, X: Parsec<T>, Y: Parsec<T>> Parsec<T> for ManyTill<X, Y> {
    type Output = Vec<X::Output>;

    open spec fn spec_parse(&self, s: Seq<T>, i: int) -> SpecOut<Seq<<X::Output as DeepView>::V>> {
        many_till_out(self.parsec, self.till, s, i)
    }

    proof fn lemma_parse_bounds(&self, s: Seq<T>, i: int) {
        lemma_many_till_out_bounds(self.parsec, self.till, s, i);
    }

    fn parse<S: State<T>>(&self, st: &mut S) -> (r: Status<Vec<X::Output>>) {
        let ghost s = st.tokens();
        let ghost i0 = st.at();
        let ghost m0 = st.mark();
        proof {
            st.lemma_wf();
        }
        let mut acc: Vec<X::Output> = Vec::new();
        proof {
            assert(acc.deep_view() =~= Seq::<<X::Output as DeepView>::V>::empty());
        }
        loop
            invariant_except_break
                0 <= st.at() <= s.len(),
                till_rel(self.parsec, self.till, s, i0, acc.deep_view(), st.at()),
            invariant
                st.wf(),
                st.tokens() == s,
                mark_evolves(m0, st.mark()),
                s == old(st).tokens(),
                i0 == old(st).at(),
                m0 == old(st).mark(),
            ensures
                ({
                    let full = many_till_out(self.parsec, self.till, s, i0);
                    st.at() == full.pos && full.res is Ok && full.res->Ok_0 == acc.deep_view()
                }),
            decreases s.len() - st.at(),
        {
            let ghost cur = st.at();
            let ghost rest = many_till_out(self.parsec, self.till, s, cur);
            proof {
                assert(acc.deep_view() + Seq::<<X::Output as DeepView>::V>::empty() =~= acc.deep_view());
            }
            let before = st.pos();
            let m = st.begin();
            match self.till.parse(st) {
                Ok(_) => {
                    st.commit(m);
                    break ;
                },
                Err(_) => {
                    st.rollback(m);
                    match self.parsec.parse(st) {
                        Err(e) => {
                            return Err(e);
                        },
                        Ok(v) => {
                            proof {
                                self.parsec.lemma_parse_bounds(s, cur);
                            }
                            if st.pos() == before {
                                break ;
                            }
                            let ghost o = self.parsec.spec_parse(s, cur);
                            let ghost prevdeep = acc.deep_view();
                            acc.push(v);
                            proof {
                                assert(acc.deep_view() =~= prevdeep.push(v.deep_view()));
                                let restafter = many_till_out(self.parsec, self.till, s, o.pos);
                                if restafter.res is Ok {
                                    assert(rest.res->Ok_0 == seq![v.deep_view()]
                                        + restafter.res->Ok_0);
                                    assert(prevdeep + (seq![v.deep_view()] + restafter.res->Ok_0)
                                        =~= prevdeep.push(v.deep_view()) + restafter.res->Ok_0);
                                }
                            }
                        },
                    }
                },
            }
        }
        Ok(acc)
    }
}

/// The parser that collects `parsec` until `till` succeeds.
pub fn many_till<T: Token, X: Parsec<T>, Y: Parsec<T>>(parsec: X, till: Y) -> (p: ManyTill<X, Y>)
    ensures
        p == (ManyTill { parsec, till }),
{
    ManyTill { parsec, till }
}

/// The outcome of collecting the remainder of a separated list from `i`: each
/// further element is gated by a transactional success of `sep`, and once a
/// separator has been consumed the following element is required — its failure
/// propagates, position and all. A separator-and-element pair that makes no
/// net progress is undone and stops the list, per the progress rule.
pub open spec fn sep_tail_out<T: Token, X: Parsec<T>, Sp: Parsec<T>>(
    p: X,
    sep: Sp,
    s: Seq<T>,
    i: int,
) -> SpecOut<Seq<<X::Output as DeepView>::V>>
    decreases s.len() - i,
{
    let t = sep.spec_parse(s, i);
    if t.res is Err {
        SpecOut { pos: i, res: Ok(Seq::empty()) }
    } else {
        let o = p.spec_parse(s, t.pos);
        match o.res {
            Err(e) => SpecOut { pos: o.pos, res: Err(e) },
            Ok(v) => if i < o.pos <= s.len() {
                let rest = sep_tail_out(p, sep, s, o.pos);
                match rest.res {
                    Ok(vs) => SpecOut { pos: rest.pos, res: Ok(seq![v] + vs) },
                    Err(e) => SpecOut { pos: rest.pos, res: Err(e) },
                }
            } else {
                SpecOut { pos: i, res: Ok(Seq::empty()) }
            },
        }
    }
}

/// From an in-bounds position, a separated-list remainder ends in bounds and
/// never before where it started.
pub proof fn lemma_sep_tail_out_bounds<T: Token, X: Parsec<T>, Sp: Parsec<T>>(
    p: X,
    sep: Sp,
    s: Seq<T>,
    i: int,
)
    requires
        0 <= i <= s.len(),
    ensures
        i <= sep_tail_out(p, sep, s, i).pos <= s.len(),
    decreases s.len() - i,
{
    sep.lemma_parse_bounds(s, i);
    let t = sep.spec_parse(s, i);
    if t.res is Ok {
        p.lemma_parse_bounds(s, t.pos);
        let o = p.spec_parse(s, t.pos);
        if o.res is Ok && i < o.pos <= s.len() {
            lemma_sep_tail_out_bounds(p, sep, s, o.pos);
        }
    }
}

/// The loop view of `sep_tail_out`.
spec fn sep_rel<T: Token, X: Parsec<T>, Sp: Parsec<T>>(
    p: X,
    sep: Sp,
    s: Seq<T>,
    from: int,
    accv: Seq<<X::Output as DeepView>::V>,
    cur: int,
) -> bool {
    let full = sep_tail_out(p, sep, s, from);
    let rest = sep_tail_out(p, sep, s, cur);
    full.pos == rest.pos && match (full.res, rest.res) {
        (Ok(fv), Ok(rv)) => fv == accv + rv,
        (Err(fe), Err(re)) => fe == re,
        _ => false,
    }
}

/// Collects the remainder of a separated list, appending the elements to
/// `acc`. `Ok` means the list ended at a failing separator (or at a pair that
/// made no progress); an error is a required element's failure after its
/// separator had been consumed.
fn collect_sep_tail<T: Token, X: Parsec<T>, Sp: Parsec<T>, S: State<T>>(
    p: &X,
    sep: &Sp,
    st: &mut S,
    acc: &mut Vec<X::Output>,
) -> (r: Status<()>)
    requires
        old(st).wf(),
    ensures
        final(st).wf(),
        final(st).tokens() == old(st).tokens(),
        mark_evolves(old(st).mark(), final(st).mark()),
        ({
            let rest = sep_tail_out(*p, *sep, old(st).tokens(), old(st).at());
            final(st).at() == rest.pos && match (r, rest.res) {
                (Ok(u), Ok(vs)) => final(acc).deep_view() == old(acc).deep_view() + vs,
                (Err(e), Err(f)) => e@ == f,
                _ => false,
            }
        }),
{
    let ghost s = st.tokens();
    let ghost i0 = st.at();
    let ghost m0 = st.mark();
    let ghost acc0 = acc.deep_view();
    proof {
        st.lemma_wf();
    }
    loop
        invariant_except_break
            0 <= st.at() <= s.len(),
            sep_rel(*p, *sep, s, i0, acc.deep_view().skip(acc0.len() as int), st.at()),
            acc0.is_prefix_of(acc.deep_view()),
        invariant
            st.wf(),
            st.tokens() == s,
            mark_evolves(m0, st.mark()),
            s == old(st).tokens(),
            i0 == old(st).at(),
            m0 == old(st).mark(),
            acc0 == old(acc).deep_view(),
        ensures
            ({
                let full = sep_tail_out(*p, *sep, s, i0);
                st.at() == full.pos && full.res is Ok && acc.deep_view() == acc0 + full.res->Ok_0
            }),
        decreases s.len() - st.at(),
    {
        let ghost cur = st.at();
        let ghost rest = sep_tail_out(*p, *sep, s, cur);
        let ghost collected = acc.deep_view().skip(acc0.len() as int);
        proof {
            assert(collected + Seq::<<X::Output as DeepView>::V>::empty() =~= collected);
            assert(acc0 + collected =~= acc.deep_view());
        }
        let before = st.pos();
        let m = st.begin();
        match sep.parse(st) {
            Err(_) => {
                st.rollback(m);
                break ;
            },
            Ok(_) => {
                proof {
                    sep.lemma_parse_bounds(s, cur);
                }
                match p.parse(st) {
                    Err(e) => {
                        st.commit(m);
                        return Err(e);
                    },
                    Ok(v) => {
                        proof {
                            p.lemma_parse_bounds(s, sep.spec_parse(s, cur).pos);
                        }
                        if st.pos() == before {
                            st.rollback(m);
                            break ;
                        }
                        st.commit(m);
                        let ghost prevdeep = acc.deep_view();
                        acc.push(v);
                        proof {
                            assert(acc.deep_view() =~= prevdeep.push(v.deep_view()));
                            assert(acc.deep_view().skip(acc0.len() as int) =~= collected.push(
                                v.deep_view(),
                            ));
                            let o = p.spec_parse(s, sep.spec_parse(s, cur).pos);
                            let restafter = sep_tail_out(*p, *sep, s, o.pos);
                            if restafter.res is Ok {
                                assert(rest.res->Ok_0 == seq![v.deep_view()]
                                    + restafter.res->Ok_0);
                                assert(collected + (seq![v.deep_view()] + restafter.res->Ok_0)
                                    =~= collected.push(v.deep_view()) + restafter.res->Ok_0);
                            }
                        }
                    },
                }
            },
        }
    }
    proof {
        let full = sep_tail_out(*p, *sep, s, i0);
        assert(acc0 + acc.deep_view().skip(acc0.len() as int) =~= acc.deep_view());
    }
    Ok(())
}

/// The comma-list pattern, one element or more: requires one element, then
/// collects further elements, each gated by a transactionally retried
/// separator. Once a separator has succeeded the grammar is committed: the
/// failure of the following element propagates.
pub struct SepBy1<X, Sp> {
    pub parsec: X,
    pub sep: Sp,
}

impl<T: Token, X: Parsec<T>, Sp: Parsec<T>> Parsec<T> for SepBy1<X, Sp> {
    type Output = Vec<X::Output>;

    open spec fn spec_parse(&self, s: Seq<T>, i: int) -> SpecOut<Seq<<X::Output as DeepView>::V>> {
        let o = self.parsec.spec_parse(s, i);
        match o.res {
            Err(e) => SpecOut { pos: o.pos, res: Err(e) },
            Ok(v) => {
                let rest = sep_tail_out(self.parsec, self.sep, s, o.pos);
                match rest.res {
                    Ok(vs) => SpecOut { pos: rest.pos, res: Ok(seq![v] + vs) },
                    Err(e) => SpecOut { pos: rest.pos, res: Err(e) },
                }
            },
        }
    }

    proof fn lemma_parse_bounds(&self, s: Seq<T>, i: int) {
        self.parsec.lemma_parse_bounds(s, i);
        let o = self.parsec.spec_parse(s, i);
        if o.res is Ok {
            lemma_sep_tail_out_bounds(self.parsec, self.sep, s, o.pos);
        }
    }

    fn parse<S: State<T>>(&self, st: &mut S) -> (r: Status<Vec<X::Output>>) {
        match self.parsec.parse(st) {
            Err(e) => Err(e),
            Ok(v) => {
                let ghost vd = v.deep_view();
                let mut out: Vec<X::Output> = Vec::new();
                out.push(v);
                proof {
                    assert(out.deep_view() =~= seq![vd]);
                }
                match collect_sep_tail(&self.parsec, &self.sep, st, &mut out) {
                    Ok(_) => {
                        proof {
                            let o = self.parsec.spec_parse(old(st).tokens(), old(st).at());
                            let rest = sep_tail_out(
                                self.parsec,
                                self.sep,
                                old(st).tokens(),
                                o.pos,
                            );
                            assert(seq![vd] + rest.res->Ok_0 == out.deep_view());
                        }
                        Ok(out)
                    },
                    Err(e) => Err(e),
                }
            },
        }
    }
}

/// The separated list with at least one element.
pub fn sep_by1<T: Token, X: Parsec<T>, Sp: Parsec<T>>(parsec: X, sep: Sp) -> (p: SepBy1<X, Sp>)
    ensures
        p == (SepBy1 { parsec, sep }),
{
    SepBy1 { parsec, sep }
}

/// The comma-list pattern, zero elements or more: a non-empty separated list,
/// or-else the empty sequence, under the ordered-choice rule — a failure that
/// consumed input propagates.
pub struct SepBy<X, Sp> {
    pub parsec: X,
    pub sep: Sp,
}

impl<T: Token, X: Parsec<T>, Sp: Parsec<T>> Parsec<T> for SepBy<X, Sp> {
    type Output = Vec<X::Output>;

    open spec fn spec_parse(&self, s: Seq<T>, i: int) -> SpecOut<Seq<<X::Output as DeepView>::V>> {
        let o = (SepBy1 { parsec: self.parsec, sep: self.sep }).spec_parse(s, i);
        if o.res is Ok {
            o
        } else if o.pos == i {
            SpecOut { pos: i, res: Ok(Seq::empty()) }
        } else {
            o
        }
    }

    proof fn lemma_parse_bounds(&self, s: Seq<T>, i: int) {
        let ghost q = SepBy1 { parsec: self.parsec, sep: self.sep };
        q.lemma_parse_bounds(s, i);
    }

    fn parse<S: State<T>>(&self, st: &mut S) -> (r: Status<Vec<X::Output>>) {
        let before = st.pos();
        match self.parsec.parse(st) {
            Err(e) => {
                if st.pos() == before {
                    let out: Vec<X::Output> = Vec::new();
                    proof {
                        assert(out.deep_view() =~= Seq::<<X::Output as DeepView>::V>::empty());
                    }
                    Ok(out)
                } else {
                    Err(e)
                }
            },
            Ok(v) => {
                let ghost vd = v.deep_view();
                let mut out: Vec<X::Output> = Vec::new();
                out.push(v);
                proof {
                    assert(out.deep_view() =~= seq![vd]);
                }
                match collect_sep_tail(&self.parsec, &self.sep, st, &mut out) {
                    Ok(_) => {
                        proof {
                            let o = self.parsec.spec_parse(old(st).tokens(), old(st).at());
                            let rest = sep_tail_out(
                                self.parsec,
                                self.sep,
                                old(st).tokens(),
                                o.pos,
                            );
                            assert(seq![vd] + rest.res->Ok_0 == out.deep_view());
                        }
                        Ok(out)
                    },
                    Err(e) => {
                        if st.pos() == before {
                            let empty: Vec<X::Output> = Vec::new();
                            proof {
                                assert(empty.deep_view() =~= Seq::<
                                    <X::Output as DeepView>::V,
                                >::empty());
                            }
                            Ok(empty)
                        } else {
                            Err(e)
                        }
                    },
                }
            },
        }
    }
}

/// The separated list with zero or more elements.
pub fn sep_by<T: Token, X: Parsec<T>, Sp: Parsec<T>>(parsec: X, sep: Sp) -> (p: SepBy<X, Sp>)
    ensures
        p == (SepBy { parsec, sep }),
{
    SepBy { parsec, sep }
}

} // verus!
