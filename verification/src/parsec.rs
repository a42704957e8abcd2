//! The core of the engine: the token and stream abstractions, the error and
//! result model, and the `Parsec` contract that every parser satisfies.

pub mod atom;
pub mod combinator;
pub mod laws;
pub mod text;

use vstd::prelude::*;

verus! {

/// A unit of input. Tokens are plain copyable values with decidable equality;
/// `same` is the executable comparison and is proved to agree with
/// mathematical equality.
pub trait Token: Copy + DeepView + Sized {
    fn same(&self, other: &Self) -> (r: bool)
        ensures
            r == (*self == *other),
    ;
}

impl Token for char {
    fn same(&self, other: &Self) -> (r: bool)
        ensures
            r == (*self == *other),
    {
        *self == *other
    }
}

impl Token for u8 {
    fn same(&self, other: &Self) -> (r: bool)
        ensures
            r == (*self == *other),
    {
        *self == *other
    }
}

impl Token for usize {
    fn same(&self, other: &Self) -> (r: bool)
        ensures
            r == (*self == *other),
    {
        *self == *other
    }
}

impl Token for i64 {
    fn same(&self, other: &Self) -> (r: bool)
        ensures
            r == (*self == *other),
    {
        *self == *other
    }
}

/// The mathematical shape of a parse error: the position at which the failure
/// occurred and its message.
pub struct SpecErr {
    pub pos: int,
    pub msg: Seq<char>,
}

/// The mathematical outcome of driving a parser against a stream: the final
/// position and either the produced value (as its deep view) or the error.
pub struct SpecOut<V> {
    pub pos: int,
    pub res: Result<V, SpecErr>,
}

/// The message used when the stream is exhausted.
pub open spec fn msg_eof() -> Seq<char> {
    "eof"@
}

/// The message used when a predicate-gated advance rejects the token it consumed.
pub open spec fn msg_predicate() -> Seq<char> {
    "predicate failed"@
}

/// The message used when the consumed token differs from the expected one.
pub open spec fn msg_expect_eq() -> Seq<char> {
    "expect equal element"@
}

/// The message used when the consumed token equals the excluded one.
pub open spec fn msg_expect_ne() -> Seq<char> {
    "expect not equal element"@
}

/// The message used when a token remains where the end of the input was expected.
pub open spec fn msg_expect_eof() -> Seq<char> {
    "expect eof"@
}

/// The message used when the consumed token is outside the accepted set.
pub open spec fn msg_one_of() -> Seq<char> {
    "expect one of elements"@
}

/// The message used when the consumed token is inside the excluded set.
pub open spec fn msg_none_of() -> Seq<char> {
    "expect none of elements"@
}

/// A typed parse failure: the position at which it occurred and a
/// human-readable cause. Immutable once constructed.
#[derive(Debug)]
pub struct ParsecError {
    pos: usize,
    message: String,
}

impl View for ParsecError {
    type V = SpecErr;

    closed spec fn view(&self) -> SpecErr {
        SpecErr { pos: self.pos as int, msg: self.message@ }
    }
}

impl ParsecError {
    pub fn new(pos: usize, description: String) -> (e: ParsecError)
        ensures
            e@ == (SpecErr { pos: pos as int, msg: description@ }),
    {
        ParsecError { pos, message: description }
    }

    /// The cause of the failure.
    pub fn description(&self) -> (r: &str)
        ensures
            r@ == self@.msg,
    {
        self.message.as_str()
    }
}

/// A failure that carries the position at which it occurred.
pub trait Error: Sized {
    type Index;

    spec fn spec_pos(&self) -> Self::Index;

    fn pos(&self) -> (p: Self::Index)
        ensures
            p == self.spec_pos(),
    ;
}

impl Error for ParsecError {
    type Index = usize;

    closed spec fn spec_pos(&self) -> usize {
        self.pos
    }

    fn pos(&self) -> (p: usize)
        ensures
            p == self.spec_pos(),
    {
        self.pos
    }
}

/// Every parse operation returns a value or a [`ParsecError`].
pub type Status<R> = Result<R, ParsecError>;

/// An executable test on tokens, paired with the mathematical predicate it
/// decides. Implementations drive [`State::next_by`].
pub trait Predicate<T: Token>: Sized {
    spec fn spec_test(&self, t: T) -> bool;

    fn test(&self, t: &T) -> (r: bool)
        ensures
            r == self.spec_test(*t),
    ;
}

/// The outcome of a predicate-gated advance from position `i`: the consumed
/// token when the predicate accepts it, an error at the advanced position when
/// it rejects it (the token stays consumed), and an `eof` error when nothing
/// remains.
pub open spec fn next_by_out<T: Token, P: Predicate<T>>(pred: P, s: Seq<T>, i: int) -> SpecOut<
    T::V,
> {
    if i < s.len() {
        if pred.spec_test(s[i]) {
            SpecOut { pos: i + 1, res: Ok(s[i].deep_view()) }
        } else {
            SpecOut { pos: i + 1, res: Err(SpecErr { pos: i + 1, msg: msg_predicate() }) }
        }
    } else {
        SpecOut { pos: i, res: Err(SpecErr { pos: i, msg: msg_eof() }) }
    }
}

/// How an executable outcome realises a mathematical one: the stream ends at
/// the described position, a value agrees with the described value, an error
/// agrees with the described error.
pub open spec fn status_matches<R: DeepView>(r: Status<R>, o: SpecOut<R::V>, end: int) -> bool {
    &&& end == o.pos
    &&& match (r, o.res) {
        (Ok(v), Ok(w)) => v.deep_view() == w,
        (Err(e), Err(f)) => e@ == f,
        _ => false,
    }
}

/// What a parse call may do to the transaction bookkeeping: it either leaves
/// the pending mark alone or resolves it. It never installs a new pending mark
/// of its own.
pub open spec fn mark_evolves(before: Option<int>, after: Option<int>) -> bool {
    after == before || after is None
}

/// An addressable, rewindable sequence of tokens. `tokens` never changes;
/// `at` is the current position; `mark` is the earliest still-pending
/// transaction snapshot, if any.
pub trait State<T: Token>: Sized {
    spec fn wf(&self) -> bool;

    spec fn tokens(&self) -> Seq<T>;

    spec fn at(&self) -> int;

    spec fn mark(&self) -> Option<int>;

    /// A well-formed stream is positioned inside its tokens (or just past
    /// their end).
    proof fn lemma_wf(&self)
        requires
            self.wf(),
        ensures
            0 <= self.at() <= self.tokens().len(),
    ;

    /// The current position. Side-effect free.
    fn pos(&self) -> (p: usize)
        requires
            self.wf(),
        ensures
            p as int == self.at(),
    ;

    /// Jump to an in-bounds position; report failure and stay put otherwise.
    fn seek_to(&mut self, to: usize) -> (ok: bool)
        requires
            old(self).wf(),
        ensures
            final(self).wf(),
            final(self).tokens() == old(self).tokens(),
            final(self).mark() == old(self).mark(),
            ok == ((to as int) < old(self).tokens().len()),
            final(self).at() == if ok {
                to as int
            } else {
                old(self).at()
            },
    ;

    /// Yield the token at the current position and advance by one, or report
    /// exhaustion without moving.
    fn next(&mut self) -> (t: Option<T>)
        requires
            old(self).wf(),
        ensures
            final(self).wf(),
            final(self).tokens() == old(self).tokens(),
            final(self).mark() == old(self).mark(),
            if old(self).at() < old(self).tokens().len() {
                t == Some(old(self).tokens()[old(self).at()]) && final(self).at() == old(self).at()
                    + 1
            } else {
                t is None && final(self).at() == old(self).at()
            },
    ;

    /// Advance by one and keep the token only if it satisfies `pred`; on a
    /// rejected token the position has still advanced. Exhaustion is reported
    /// as an `eof` error without moving.
    fn next_by<P: Predicate<T>>(&mut self, pred: &P) -> (r: Status<T>)
        requires
            old(self).wf(),
        ensures
            final(self).wf(),
            final(self).tokens() == old(self).tokens(),
            final(self).mark() == old(self).mark(),
            status_matches(
                r,
                next_by_out(*pred, old(self).tokens(), old(self).at()),
                final(self).at(),
            ),
    ;

    /// An error at the current position.
    fn err(&self, description: String) -> (e: ParsecError)
        requires
            self.wf(),
        ensures
            e@ == (SpecErr { pos: self.at(), msg: description@ }),
    ;

    /// Open a transaction: remember the current position. The earliest
    /// still-pending mark is retained across nested calls.
    fn begin(&mut self) -> (m: usize)
        requires
            old(self).wf(),
        ensures
            final(self).wf(),
            final(self).tokens() == old(self).tokens(),
            final(self).at() == old(self).at(),
            m as int == old(self).at(),
            final(self).mark() == if old(self).mark() is None {
                Some(old(self).at())
            } else {
                old(self).mark()
            },
    ;

    /// Close a transaction, keeping the current position. A no-op unless the
    /// given mark is the pending one.
    fn commit(&mut self, m: usize)
        requires
            old(self).wf(),
        ensures
            final(self).wf(),
            final(self).tokens() == old(self).tokens(),
            final(self).at() == old(self).at(),
            final(self).mark() == if old(self).mark() == Some(m as int) {
                None::<int>
            } else {
                old(self).mark()
            },
    ;

    /// Restore the position to the given mark, whether or not that mark is
    /// still the pending one; clear the bookkeeping if it is.
    fn rollback(&mut self, m: usize)
        requires
            old(self).wf(),
            m as int <= old(self).tokens().len(),
        ensures
            final(self).wf(),
            final(self).tokens() == old(self).tokens(),
            final(self).at() == m as int,
            final(self).mark() == if old(self).mark() == Some(m as int) {
                None::<int>
            } else {
                old(self).mark()
            },
    ;
}

/// The reference in-memory stream: a fixed token buffer and an integer index.
pub struct VecState<T> {
    index: usize,
    tran: Option<usize>,
    buffer: Vec<T>,
}

impl<T: Token> VecState<T> {
    /// A stream over the given buffer, positioned at its start, with no
    /// pending transaction.
    pub fn new(buffer: Vec<T>) -> (s: VecState<T>)
        ensures
            s.wf(),
            s.tokens() == buffer@,
            s.at() == 0,
            s.mark() == None::<int>,
    {
        VecState { index: 0, tran: None, buffer }
    }
}

impl<T: Token> State<T> for VecState<T> {
    closed spec fn wf(&self) -> bool {
        self.index <= self.buffer@.len()
    }

    closed spec fn tokens(&self) -> Seq<T> {
        self.buffer@
    }

    closed spec fn at(&self) -> int {
        self.index as int
    }

    closed spec fn mark(&self) -> Option<int> {
        match self.tran {
            Some(j) => Some(j as int),
            None => None,
        }
    }

    proof fn lemma_wf(&self) {
    }

    fn pos(&self) -> (p: usize)
        ensures
            p as int == self.at(),
    {
        self.index
    }

    fn seek_to(&mut self, to: usize) -> (ok: bool) {
        if to < self.buffer.len() {
            self.index = to;
            true
        } else {
            false
        }
    }

    fn next(&mut self) -> (t: Option<T>) {
        if self.index < self.buffer.len() {
            let item = self.buffer[self.index];
            self.index = self.index + 1;
            Some(item)
        } else {
            None
        }
    }

    fn next_by<P: Predicate<T>>(&mut self, pred: &P) -> (r: Status<T>) {
        if self.index < self.buffer.len() {
            let item = self.buffer[self.index];
            self.index = self.index + 1;
            if pred.test(&item) {
                Ok(item)
            } else {
                Err(self.err("predicate failed".to_owned()))
            }
        } else {
            Err(self.err("eof".to_owned()))
        }
    }

    fn err(&self, description: String) -> (e: ParsecError) {
        ParsecError::new(self.pos(), description)
    }

    fn begin(&mut self) -> (m: usize) {
        if self.tran.is_none() {
            self.tran = Some(self.index);
        }
        self.index
    }

    fn commit(&mut self, m: usize) {
        match self.tran {
            Some(j) => {
                if j == m {
                    self.tran = None;
                }
            },
            None => {},
        }
    }

    fn rollback(&mut self, m: usize) {
        self.index = m;
        match self.tran {
            Some(j) => {
                if j == m {
                    self.tran = None;
                }
            },
            None => {},
        }
    }
}

/// The single operation every parser exposes: drive it against a stream.
///
/// `spec_parse` is the parser's mathematical description; `parse` is proved
/// to realise it. A parse call never changes the tokens, never installs a
/// pending transaction mark of its own, and never moves the position backward
/// past where it started (`lemma_parse_bounds`).
pub trait Parsec<T: Token>: Sized {
    type Output: DeepView;

    spec fn spec_parse(&self, s: Seq<T>, i: int) -> SpecOut<<Self::Output as DeepView>::V>;

    /// From an in-bounds position, a parser ends in bounds and never before
    /// where it started.
    proof fn lemma_parse_bounds(&self, s: Seq<T>, i: int)
        requires
            0 <= i <= s.len(),
        ensures
            i <= self.spec_parse(s, i).pos <= s.len(),
    ;

    fn parse<S: State<T>>(&self, st: &mut S) -> (r: Status<Self::Output>)
        requires
            old(st).wf(),
        ensures
            final(st).wf(),
            final(st).tokens() == old(st).tokens(),
            mark_evolves(old(st).mark(), final(st).mark()),
            status_matches(r, self.spec_parse(old(st).tokens(), old(st).at()), final(st).at()),
    ;
}

/// A continuation for [`Monad::bind`]: it is handed the value the previous
/// parser produced together with the live stream, and yields the next outcome.
/// `spec_bind` is its mathematical description, in terms of the produced
/// value's deep view; `apply` is proved to realise it under the same frame as
/// [`Parsec::parse`].
pub trait Binder<T: Token, A: DeepView>: Sized {
    type Output: DeepView;

    spec fn spec_bind(&self, v: A::V, s: Seq<T>, i: int) -> SpecOut<
        <Self::Output as DeepView>::V,
    >;

    /// From an in-bounds position, a continuation ends in bounds and never
    /// before where it started.
    proof fn lemma_bind_bounds(&self, v: A::V, s: Seq<T>, i: int)
        requires
            0 <= i <= s.len(),
        ensures
            i <= self.spec_bind(v, s, i).pos <= s.len(),
    ;

    fn apply<S: State<T>>(&self, v: A, st: &mut S) -> (r: Status<Self::Output>)
        requires
            old(st).wf(),
        ensures
            final(st).wf(),
            final(st).tokens() == old(st).tokens(),
            mark_evolves(old(st).mark(), final(st).mark()),
            status_matches(
                r,
                self.spec_bind(v.deep_view(), old(st).tokens(), old(st).at()),
                final(st).at(),
            ),
    ;
}

/// Runs a parser and, on success, feeds the produced value plus the same live
/// stream into a continuation; a failure propagates untouched and the
/// continuation is never involved.
pub struct Bind<X, B> {
    pub parsec: X,
    pub binder: B,
}

impl<T: Token, X: Parsec<T>, B: Binder<T, X::Output>> Parsec<T> for Bind<X, B> {
    type Output = B::Output;

    open spec fn spec_parse(&self, s: Seq<T>, i: int) -> SpecOut<<B::Output as DeepView>::V> {
        let a = self.parsec.spec_parse(s, i);
        match a.res {
            Ok(v) => self.binder.spec_bind(v, s, a.pos),
            Err(e) => SpecOut { pos: a.pos, res: Err(e) },
        }
    }

    proof fn lemma_parse_bounds(&self, s: Seq<T>, i: int) {
        self.parsec.lemma_parse_bounds(s, i);
        let a = self.parsec.spec_parse(s, i);
        if a.res is Ok {
            self.binder.lemma_bind_bounds(a.res->Ok_0, s, a.pos);
        }
    }

    fn parse<S: State<T>>(&self, st: &mut S) -> (r: Status<B::Output>) {
        match self.parsec.parse(st) {
            Ok(v) => self.binder.apply(v, st),
            Err(e) => Err(e),
        }
    }
}

/// Runs a parser, discards its value, then runs a second parser for its
/// value; the first failure propagates.
pub struct Then<X, Y> {
    pub first: X,
    pub second: Y,
}

impl<T: Token, X: Parsec<T>, Y: Parsec<T>> Parsec<T> for Then<X, Y> {
    type Output = Y::Output;

    open spec fn spec_parse(&self, s: Seq<T>, i: int) -> SpecOut<<Y::Output as DeepView>::V> {
        let a = self.first.spec_parse(s, i);
        match a.res {
            Ok(v) => self.second.spec_parse(s, a.pos),
            Err(e) => SpecOut { pos: a.pos, res: Err(e) },
        }
    }

    proof fn lemma_parse_bounds(&self, s: Seq<T>, i: int) {
        self.first.lemma_parse_bounds(s, i);
        let a = self.first.spec_parse(s, i);
        if a.res is Ok {
            self.second.lemma_parse_bounds(s, a.pos);
        }
    }

    fn parse<S: State<T>>(&self, st: &mut S) -> (r: Status<Y::Output>) {
        match self.first.parse(st) {
            Ok(_) => self.second.parse(st),
            Err(e) => Err(e),
        }
    }
}

/// Runs a parser and keeps its value; on success additionally runs a trailer
/// for its side effect and discards the trailer's value. A failure of either
/// stage propagates.
pub struct Over<X, Y> {
    pub first: X,
    pub second: Y,
}

impl<T: Token, X: Parsec<T>, Y: Parsec<T>> Parsec<T> for Over<X, Y> {
    type Output = X::Output;

    open spec fn spec_parse(&self, s: Seq<T>, i: int) -> SpecOut<<X::Output as DeepView>::V> {
        let a = self.first.spec_parse(s, i);
        match a.res {
            Ok(v) => {
                let b = self.second.spec_parse(s, a.pos);
                match b.res {
                    Ok(_) => SpecOut { pos: b.pos, res: Ok(v) },
                    Err(e) => SpecOut { pos: b.pos, res: Err(e) },
                }
            },
            Err(e) => SpecOut { pos: a.pos, res: Err(e) },
        }
    }

    proof fn lemma_parse_bounds(&self, s: Seq<T>, i: int) {
        self.first.lemma_parse_bounds(s, i);
        let a = self.first.spec_parse(s, i);
        if a.res is Ok {
            self.second.lemma_parse_bounds(s, a.pos);
        }
    }

    fn parse<S: State<T>>(&self, st: &mut S) -> (r: Status<X::Output>) {
        match self.first.parse(st) {
            Ok(v) => match self.second.parse(st) {
                Ok(_) => Ok(v),
                Err(e) => Err(e),
            },
            Err(e) => Err(e),
        }
    }
}

/// The sequencing operators, available on every parser.
pub trait Monad<T: Token>: Parsec<T> {
    /// Run self; on success, hand the produced value and the live stream to
    /// `binder`.
    fn bind<B: Binder<T, Self::Output>>(self, binder: B) -> (r: Bind<Self, B>)
        ensures
            r == (Bind { parsec: self, binder }),
    ;

    /// Run self, discard its value, then run `second`.
    fn and_then<Q: Parsec<T>>(self, second: Q) -> (r: Then<Self, Q>)
        ensures
            r == (Then { first: self, second }),
    ;

    /// Run self and keep its value; then run `second` and discard its value.
    fn over<Q: Parsec<T>>(self, second: Q) -> (r: Over<Self, Q>)
        ensures
            r == (Over { first: self, second }),
    ;
}

impl<T: Token, X: Parsec<T>> Monad<T> for X {
    fn bind<B: Binder<T, X::Output>>(self, binder: B) -> (r: Bind<X, B>) {
        Bind { parsec: self, binder }
    }

    fn and_then<Q: Parsec<T>>(self, second: Q) -> (r: Then<X, Q>) {
        Then { first: self, second }
    }

    fn over<Q: Parsec<T>>(self, second: Q) -> (r: Over<X, Q>) {
        Over { first: self, second }
    }
}

} // verus!
