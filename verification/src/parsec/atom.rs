//! The primitive, non-composed parsers.
//!
//! Every atom that consumes a token has, on failure, still advanced the
//! stream: "consumed then failed" is deliberately different from "failed
//! without consuming", and the ordered-choice combinator builds on that
//! distinction.

use crate::parsec::{
    msg_eof, msg_expect_eq, msg_expect_eof, msg_expect_ne, msg_none_of, msg_one_of, next_by_out,
    Parsec, Predicate, SpecErr, SpecOut, State, Status, Token,
};
use core::marker::PhantomData;
use vstd::prelude::*;
use vstd::slice::slice_to_vec;

verus! {

/// Consumes exactly one token unconditionally; fails with `eof` if none
/// remain.
pub struct One;

impl<T: Token> Parsec<T> for One {
    type Output = T;

    open spec fn spec_parse(&self, s: Seq<T>, i: int) -> SpecOut<T::V> {
        if i < s.len() {
            SpecOut { pos: i + 1, res: Ok(s[i].deep_view()) }
        } else {
            SpecOut { pos: i, res: Err(SpecErr { pos: i, msg: msg_eof() }) }
        }
    }

    proof fn lemma_parse_bounds(&self, s: Seq<T>, i: int) {
    }

    fn parse<S: State<T>>(&self, st: &mut S) -> (r: Status<T>) {
        match st.next() {
            Some(t) => Ok(t),
            None => Err(st.err("eof".to_owned())),
        }
    }
}

/// The parser that consumes one token, whatever it is.
pub fn one() -> (p: One)
    ensures
        p == One,
{
    One
}

/// Consumes one token; succeeds with it iff it equals `val`.
pub struct Equals<T> {
    pub val: T,
}

impl<T: Token> Parsec<T> for Equals<T> {
    type Output = T;

    open spec fn spec_parse(&self, s: Seq<T>, i: int) -> SpecOut<T::V> {
        if i < s.len() {
            if s[i] == self.val {
                SpecOut { pos: i + 1, res: Ok(s[i].deep_view()) }
            } else {
                SpecOut { pos: i + 1, res: Err(SpecErr { pos: i + 1, msg: msg_expect_eq() }) }
            }
        } else {
            SpecOut { pos: i, res: Err(SpecErr { pos: i, msg: msg_eof() }) }
        }
    }

    proof fn lemma_parse_bounds(&self, s: Seq<T>, i: int) {
    }

    fn parse<S: State<T>>(&self, st: &mut S) -> (r: Status<T>) {
        match st.next() {
            Some(x) => {
                if x.same(&self.val) {
                    Ok(x)
                } else {
                    Err(st.err("expect equal element".to_owned()))
                }
            },
            None => Err(st.err("eof".to_owned())),
        }
    }
}

/// The parser for one token equal to `val`.
pub fn eq<T: Token>(val: T) -> (p: Equals<T>)
    ensures
        p == (Equals { val }),
{
    Equals { val }
}

/// Consumes one token; succeeds with it iff it does not equal `val`.
pub struct NotEquals<T> {
    pub val: T,
}

impl<T: Token> Parsec<T> for NotEquals<T> {
    type Output = T;

    open spec fn spec_parse(&self, s: Seq<T>, i: int) -> SpecOut<T::V> {
        if i < s.len() {
            if s[i] == self.val {
                SpecOut { pos: i + 1, res: Err(SpecErr { pos: i + 1, msg: msg_expect_ne() }) }
            } else {
                SpecOut { pos: i + 1, res: Ok(s[i].deep_view()) }
            }
        } else {
            SpecOut { pos: i, res: Err(SpecErr { pos: i, msg: msg_eof() }) }
        }
    }

    proof fn lemma_parse_bounds(&self, s: Seq<T>, i: int) {
    }

    fn parse<S: State<T>>(&self, st: &mut S) -> (r: Status<T>) {
        match st.next() {
            Some(x) => {
                if x.same(&self.val) {
                    Err(st.err("expect not equal element".to_owned()))
                } else {
                    Ok(x)
                }
            },
            None => Err(st.err("eof".to_owned())),
        }
    }
}

/// The parser for one token different from `val`.
pub fn ne<T: Token>(val: T) -> (p: NotEquals<T>)
    ensures
        p == (NotEquals { val }),
{
    NotEquals { val }
}

/// Succeeds with no value iff no token remains; otherwise it has consumed the
/// unexpected token and fails.
pub struct EndOfInput;

impl<T: Token> Parsec<T> for EndOfInput {
    type Output = ();

    open spec fn spec_parse(&self, s: Seq<T>, i: int) -> SpecOut<()> {
        if i < s.len() {
            SpecOut { pos: i + 1, res: Err(SpecErr { pos: i + 1, msg: msg_expect_eof() }) }
        } else {
            SpecOut { pos: i, res: Ok(()) }
        }
    }

    proof fn lemma_parse_bounds(&self, s: Seq<T>, i: int) {
    }

    fn parse<S: State<T>>(&self, st: &mut S) -> (r: Status<()>) {
        match st.next() {
            Some(_) => Err(st.err("expect eof".to_owned())),
            None => Ok(()),
        }
    }
}

/// The parser that succeeds exactly at the end of the input.
pub fn eof() -> (p: EndOfInput)
    ensures
        p == EndOfInput,
{
    EndOfInput
}

/// Whether `x` is one of the tokens of `elems`.
fn contains_token<T: Token>(elems: &Vec<T>, x: &T) -> (r: bool)
    ensures
        r == elems@.contains(*x),
{
    let mut k: usize = 0;
    while k < elems.len()
        invariant
            k <= elems@.len(),
            forall|j: int| 0 <= j < k ==> elems@[j] != *x,
        decreases elems@.len() - k,
    {
        if elems[k].same(x) {
            return true;
        }
        k = k + 1;
    }
    false
}

/// Consumes one token; succeeds with it iff it is a member of `elements`.
pub struct OneOf<T> {
    pub elements: Vec<T>,
}

impl<T: Token> Parsec<T> for OneOf<T> {
    type Output = T;

    open spec fn spec_parse(&self, s: Seq<T>, i: int) -> SpecOut<T::V> {
        if i < s.len() {
            if self.elements@.contains(s[i]) {
                SpecOut { pos: i + 1, res: Ok(s[i].deep_view()) }
            } else {
                SpecOut { pos: i + 1, res: Err(SpecErr { pos: i + 1, msg: msg_one_of() }) }
            }
        } else {
            SpecOut { pos: i, res: Err(SpecErr { pos: i, msg: msg_eof() }) }
        }
    }

    proof fn lemma_parse_bounds(&self, s: Seq<T>, i: int) {
    }

    fn parse<S: State<T>>(&self, st: &mut S) -> (r: Status<T>) {
        match st.next() {
            Some(x) => {
                if contains_token(&self.elements, &x) {
                    Ok(x)
                } else {
                    Err(st.err("expect one of elements".to_owned()))
                }
            },
            None => Err(st.err("eof".to_owned())),
        }
    }
}

/// The parser for one token out of `elements` (membership by equality).
pub fn one_of<T: Token>(elements: &[T]) -> (p: OneOf<T>)
    ensures
        p.elements@ == elements@,
{
    OneOf { elements: slice_to_vec(elements) }
}

/// Consumes one token; succeeds with it iff it is not a member of `elements`.
pub struct NoneOf<T> {
    pub elements: Vec<T>,
}

impl<T: Token> Parsec<T> for NoneOf<T> {
    type Output = T;

    open spec fn spec_parse(&self, s: Seq<T>, i: int) -> SpecOut<T::V> {
        if i < s.len() {
            if self.elements@.contains(s[i]) {
                SpecOut { pos: i + 1, res: Err(SpecErr { pos: i + 1, msg: msg_none_of() }) }
            } else {
                SpecOut { pos: i + 1, res: Ok(s[i].deep_view()) }
            }
        } else {
            SpecOut { pos: i, res: Err(SpecErr { pos: i, msg: msg_eof() }) }
        }
    }

    proof fn lemma_parse_bounds(&self, s: Seq<T>, i: int) {
    }

    fn parse<S: State<T>>(&self, st: &mut S) -> (r: Status<T>) {
        match st.next() {
            Some(x) => {
                if contains_token(&self.elements, &x) {
                    Err(st.err("expect none of elements".to_owned()))
                } else {
                    Ok(x)
                }
            },
            None => Err(st.err("eof".to_owned())),
        }
    }
}

/// The parser for one token outside `elements`.
pub fn none_of<T: Token>(elements: &[T]) -> (p: NoneOf<T>)
    ensures
        p.elements@ == elements@,
{
    NoneOf { elements: slice_to_vec(elements) }
}

/// Never touches the stream; always succeeds with a copy of a constant.
pub struct Pack<R> {
    pub val: R,
}

impl<T: Token, R: Copy + DeepView> Parsec<T> for Pack<R> {
    type Output = R;

    open spec fn spec_parse(&self, s: Seq<T>, i: int) -> SpecOut<R::V> {
        SpecOut { pos: i, res: Ok(self.val.deep_view()) }
    }

    proof fn lemma_parse_bounds(&self, s: Seq<T>, i: int) {
    }

    fn parse<S: State<T>>(&self, st: &mut S) -> (r: Status<R>) {
        Ok(self.val)
    }
}

/// The parser that always succeeds with `val` and consumes nothing.
pub fn pack<R: Copy + DeepView>(val: R) -> (p: Pack<R>)
    ensures
        p == (Pack { val }),
{
    Pack { val }
}

/// Consumes one token iff it satisfies a predicate, via the stream's
/// predicate-gated advance: on a rejected token the stream has still advanced
/// (see [`State::next_by`]).
pub struct Satisfy<P> {
    pub pred: P,
}

impl<T: Token, P: Predicate<T>> Parsec<T> for Satisfy<P> {
    type Output = T;

    open spec fn spec_parse(&self, s: Seq<T>, i: int) -> SpecOut<T::V> {
        next_by_out(self.pred, s, i)
    }

    proof fn lemma_parse_bounds(&self, s: Seq<T>, i: int) {
    }

    fn parse<S: State<T>>(&self, st: &mut S) -> (r: Status<T>) {
        st.next_by(&self.pred)
    }
}

/// The parser for one token accepted by `pred`.
pub fn satisfy<T: Token, P: Predicate<T>>(pred: P) -> (p: Satisfy<P>)
    ensures
        p == (Satisfy { pred }),
{
    Satisfy { pred }
}

/// Never advances the stream; always fails with its message at the current
/// position.
pub struct FailWith<R> {
    pub message: String,
    pub marker: PhantomData<R>,
}

impl<T: Token, R: DeepView> Parsec<T> for FailWith<R> {
    type Output = R;

    open spec fn spec_parse(&self, s: Seq<T>, i: int) -> SpecOut<R::V> {
        SpecOut { pos: i, res: Err(SpecErr { pos: i, msg: self.message@ }) }
    }

    proof fn lemma_parse_bounds(&self, s: Seq<T>, i: int) {
    }

    fn parse<S: State<T>>(&self, st: &mut S) -> (r: Status<R>) {
        Err(st.err(self.message.clone()))
    }
}

/// The parser that always fails with `description` and consumes nothing.
pub fn fail<R: DeepView>(description: String) -> (p: FailWith<R>)
    ensures
        p.message == description,
{
    FailWith { message: description, marker: PhantomData }
}

} // verus!
