//! The engine driven end to end: atoms, combinators, transactions and the
//! ordered-choice backtracking rule, against in-memory streams.

use parsec::parsec::atom::{eof, eq, fail, ne, none_of, one, one_of, pack};
use parsec::parsec::combinator::{
    attempt, between, either, many, many1, many_till, otherwise, sep_by, sep_by1, skip, skip1, Or,
};
use parsec::parsec::{Error, Monad, Parsec, ParsecError, State, VecState};

fn chars(text: &str) -> VecState<char> {
    let v: Vec<char> = text.chars().collect();
    VecState::new(v)
}

#[test]
fn one_consumes_a_token() {
    let mut st = chars("ab");
    let r = one().parse(&mut st);
    assert_eq!(r.unwrap(), 'a');
    assert_eq!(st.pos(), 1);
}

#[test]
fn one_reports_eof() {
    let mut st = chars("");
    let r = one().parse(&mut st);
    let e = r.unwrap_err();
    assert_eq!(e.description(), "eof");
    assert_eq!(e.pos(), 0);
    assert_eq!(st.pos(), 0);
}

#[test]
fn eq_accepts_equal_token() {
    let mut st = chars("ab");
    let r = eq('a').parse(&mut st);
    assert_eq!(r.unwrap(), 'a');
    assert_eq!(st.pos(), 1);
}

#[test]
fn eq_consumes_then_fails_on_mismatch() {
    let mut st = chars("xb");
    let r = eq('a').parse(&mut st);
    let e = r.unwrap_err();
    assert_eq!(e.description(), "expect equal element");
    assert_eq!(e.pos(), 1);
    assert_eq!(st.pos(), 1);
}

#[test]
fn eq_reports_eof_without_consuming() {
    let mut st = chars("");
    let r = eq('a').parse(&mut st);
    assert_eq!(r.unwrap_err().description(), "eof");
    assert_eq!(st.pos(), 0);
}

#[test]
fn ne_accepts_different_token() {
    let mut st = chars("b");
    assert_eq!(ne('a').parse(&mut st).unwrap(), 'b');
}

#[test]
fn ne_rejects_equal_token() {
    let mut st = chars("a");
    let e = ne('a').parse(&mut st).unwrap_err();
    assert_eq!(e.description(), "expect not equal element");
    assert_eq!(st.pos(), 1);
}

#[test]
fn eof_succeeds_at_end() {
    let mut st = chars("");
    assert!(eof().parse(&mut st).is_ok());
    assert_eq!(st.pos(), 0);
}

#[test]
fn eof_consumes_the_unexpected_token() {
    let mut st = chars("a");
    let e = eof().parse(&mut st).unwrap_err();
    assert_eq!(e.description(), "expect eof");
    assert_eq!(e.pos(), 1);
    assert_eq!(st.pos(), 1);
}

#[test]
fn one_of_accepts_member() {
    let mut st = chars("b");
    assert_eq!(one_of(&['a', 'b']).parse(&mut st).unwrap(), 'b');
}

#[test]
fn one_of_rejects_non_member() {
    let mut st = chars("c");
    let e = one_of(&['a', 'b']).parse(&mut st).unwrap_err();
    assert_eq!(e.description(), "expect one of elements");
    assert_eq!(st.pos(), 1);
}

#[test]
fn none_of_accepts_outsider() {
    let mut st = chars("c");
    assert_eq!(none_of(&['a', 'b']).parse(&mut st).unwrap(), 'c');
}

#[test]
fn none_of_rejects_member() {
    let mut st = chars("a");
    let e = none_of(&['a', 'b']).parse(&mut st).unwrap_err();
    assert_eq!(e.description(), "expect none of elements");
}

#[test]
fn pack_returns_the_constant_without_consuming() {
    let mut st = chars("abc");
    let r: Result<i64, ParsecError> = pack(42i64).parse(&mut st);
    assert_eq!(r.unwrap(), 42);
    assert_eq!(st.pos(), 0);
}

#[test]
fn fail_reports_its_message_without_consuming() {
    let mut st = chars("abc");
    let r: Result<char, ParsecError> = fail("boom".to_string()).parse(&mut st);
    let e = r.unwrap_err();
    assert_eq!(e.description(), "boom");
    assert_eq!(e.pos(), 0);
    assert_eq!(st.pos(), 0);
}

#[test]
fn failure_without_consumption_keeps_position() {
    let mut st = chars("abc");
    assert!(st.seek_to(1));
    let r: Result<char, ParsecError> = fail("halt".to_string()).parse(&mut st);
    assert!(r.is_err());
    assert_eq!(st.pos(), 1);
}

#[test]
fn attempt_rolls_back_partial_consumption() {
    let mut st = chars("ax");
    let p = attempt(eq('a').and_then(eq('b')));
    let e = p.parse(&mut st).unwrap_err();
    // the inner failure is kept, with the position where it occurred...
    assert_eq!(e.description(), "expect equal element");
    assert_eq!(e.pos(), 2);
    // ...but the stream is back at the pre-attempt position
    assert_eq!(st.pos(), 0);
}

#[test]
fn attempt_keeps_consumed_input_on_success() {
    let mut st = chars("ab");
    assert_eq!(attempt(eq('a')).parse(&mut st).unwrap(), 'a');
    assert_eq!(st.pos(), 1);
}

#[test]
fn either_tries_second_after_clean_failure() {
    let mut st = chars("b");
    let r = either(attempt(eq('a')), eq('b')).parse(&mut st);
    // equal to running the second alternative alone from the same start
    let mut alone = chars("b");
    let r2 = eq('b').parse(&mut alone);
    assert_eq!(r.unwrap(), r2.unwrap());
    assert_eq!(st.pos(), alone.pos());
}

#[test]
fn either_propagates_consumed_failure() {
    // the first alternative consumes one token and fails; the second would
    // succeed but must never run
    let mut st = chars("c");
    let e = either(eq('a'), ne('z')).parse(&mut st).unwrap_err();
    assert_eq!(e.description(), "expect equal element");
    assert_eq!(st.pos(), 1);
}

#[test]
fn or_chains_alternatives() {
    let mut st = chars("b");
    assert_eq!(attempt(eq('a')).or(eq('b')).parse(&mut st).unwrap(), 'b');
}

#[test]
fn many_collects_in_order() {
    let mut st = chars("aab");
    assert_eq!(many(eq('a')).parse(&mut st).unwrap(), vec!['a', 'a']);
    assert_eq!(st.pos(), 2);
}

#[test]
fn many_succeeds_on_nothing() {
    let mut st = chars("b");
    assert_eq!(many(eq('a')).parse(&mut st).unwrap(), Vec::<char>::new());
    assert_eq!(st.pos(), 0);
}

#[test]
fn many_then_eof_reaches_end() {
    let mut st = chars("aaa");
    assert!(many(eq('a')).and_then(eof()).parse(&mut st).is_ok());
    assert_eq!(st.pos(), 3);
}

#[test]
fn many_stops_at_zero_progress() {
    // an attempt that succeeds without consuming stops the repetition
    let mut st = chars("ab");
    assert_eq!(many::<char, _>(pack('x')).parse(&mut st).unwrap(), Vec::<char>::new());
    assert_eq!(st.pos(), 0);
}

#[test]
fn many1_fails_with_the_parsers_own_error() {
    let mut st = chars("");
    let e = many1(eq('a')).parse(&mut st).unwrap_err();
    assert_eq!(e.description(), "eof");
    let mut st2 = chars("b");
    let e2 = many1(eq('a')).parse(&mut st2).unwrap_err();
    assert_eq!(e2.description(), "expect equal element");
    assert_eq!(st2.pos(), 1);
}

#[test]
fn many1_returns_a_single_element() {
    let mut st = chars("a");
    assert_eq!(many1(eq('a')).parse(&mut st).unwrap(), vec!['a']);
    assert_eq!(st.pos(), 1);
}

#[test]
fn otherwise_substitutes_a_clean_failure() {
    let mut st = chars("b");
    let e = otherwise(attempt(eq('a')), "wanted a".to_string())
        .parse(&mut st)
        .unwrap_err();
    assert_eq!(e.description(), "wanted a");
    assert_eq!(e.pos(), 0);
}

#[test]
fn otherwise_keeps_a_consumed_failure() {
    let mut st = chars("b");
    let e = otherwise(eq('a'), "wanted a".to_string())
        .parse(&mut st)
        .unwrap_err();
    assert_eq!(e.description(), "expect equal element");
}

#[test]
fn many_till_collects_until_the_end_marker() {
    let mut st = chars("ab;c");
    assert_eq!(many_till(one(), eq(';')).parse(&mut st).unwrap(), vec!['a', 'b']);
    // the end marker's consumption is kept
    assert_eq!(st.pos(), 3);
}

#[test]
fn many_till_requires_its_element() {
    let mut st = chars("ax;");
    let e = many_till(eq('a'), eq(';')).parse(&mut st).unwrap_err();
    assert_eq!(e.description(), "expect equal element");
    assert_eq!(st.pos(), 2);
}

#[test]
fn skip_discards_values() {
    let mut st = chars("aab");
    assert_eq!(skip(eq('a')).parse(&mut st).unwrap(), Vec::<char>::new());
    assert_eq!(st.pos(), 2);
}

#[test]
fn skip1_requires_one_success() {
    let mut st = chars("b");
    assert!(skip1(eq('a')).parse(&mut st).is_err());
    let mut st2 = chars("aab");
    assert_eq!(skip1(eq('a')).parse(&mut st2).unwrap(), Vec::<char>::new());
    assert_eq!(st2.pos(), 2);
}

#[test]
fn sep_by_parses_a_comma_list() {
    let mut st = chars("A,A,A");
    assert_eq!(
        sep_by(eq('A'), eq(',')).parse(&mut st).unwrap(),
        vec!['A', 'A', 'A']
    );
    assert_eq!(st.pos(), 5);
}

#[test]
fn sep_by_accepts_empty_input() {
    let mut st = chars("");
    assert_eq!(sep_by(eq('A'), eq(',')).parse(&mut st).unwrap(), Vec::<char>::new());
    assert_eq!(st.pos(), 0);
}

#[test]
fn sep_by_rejects_a_trailing_separator() {
    // the separator's success commits the grammar to another element
    let mut st = chars("A,");
    let e = sep_by(eq('A'), eq(',')).parse(&mut st).unwrap_err();
    assert_eq!(e.description(), "eof");
    assert_eq!(e.pos(), 2);
}

#[test]
fn sep_by1_requires_the_first_element() {
    let mut st = chars("");
    assert!(sep_by1(eq('A'), eq(',')).parse(&mut st).is_err());
    let mut st2 = chars("A,A");
    assert_eq!(sep_by1(eq('A'), eq(',')).parse(&mut st2).unwrap(), vec!['A', 'A']);
}

#[test]
fn over_keeps_the_first_value() {
    let mut st = chars("ab");
    assert_eq!(eq('a').over(eq('b')).parse(&mut st).unwrap(), 'a');
    assert_eq!(st.pos(), 2);
}

#[test]
fn over_propagates_the_trailers_failure() {
    let mut st = chars("ac");
    assert!(eq('a').over(eq('b')).parse(&mut st).is_err());
}

#[test]
fn and_then_keeps_the_second_value() {
    let mut st = chars("ab");
    assert_eq!(eq('a').and_then(eq('b')).parse(&mut st).unwrap(), 'b');
}

#[test]
fn byte_tokens_work_too() {
    let mut st = VecState::new(vec![1u8, 2u8]);
    assert_eq!(eq(1u8).parse(&mut st).unwrap(), 1u8);
    assert_eq!(ne(9u8).parse(&mut st).unwrap(), 2u8);
}

#[test]
fn vec_state_next_walks_the_buffer() {
    let mut st = chars("ab");
    let st2 = chars("ab");
    assert_eq!(st.next(), Some('a'));
    assert_eq!(st.next(), Some('b'));
    assert_eq!(st.next(), None);
    assert_eq!(st.pos(), 2);
    assert_eq!(st2.pos(), 0);
}

#[test]
fn vec_state_seek_is_bounds_checked() {
    let mut st = chars("abc");
    assert!(st.seek_to(2));
    assert_eq!(st.pos(), 2);
    assert!(!st.seek_to(3));
    assert_eq!(st.pos(), 2);
}

#[test]
fn nested_transactions_keep_the_earliest_mark() {
    let mut st = chars("abc");
    let outer = st.begin();
    assert_eq!(outer, 0);
    st.next();
    let inner = st.begin();
    assert_eq!(inner, 1);
    st.next();
    // rolling the inner mark back does not disturb the outer target
    st.rollback(inner);
    assert_eq!(st.pos(), 1);
    st.rollback(outer);
    assert_eq!(st.pos(), 0);
}

#[test]
fn commit_of_a_non_active_mark_is_a_no_op() {
    let mut st = chars("abc");
    let outer = st.begin();
    st.next();
    let later = st.begin();
    st.commit(later);
    // the outer mark is still pending: its rollback restores the origin
    st.rollback(outer);
    assert_eq!(st.pos(), 0);
}

#[test]
fn errors_carry_position_and_message() {
    let e = ParsecError::new(3, "untidy".to_string());
    assert_eq!(e.pos(), 3);
    assert_eq!(e.description(), "untidy");
}

#[test]
fn identical_expressions_give_identical_outcomes() {
    // referential transparency: built twice, run twice, same Status
    let mut st1 = chars("(7)");
    let mut st2 = chars("(7)");
    let p1 = between(eq('('), many1(eq('7')), eq(')'));
    let p2 = between(eq('('), many1(eq('7')), eq(')'));
    assert_eq!(p1.parse(&mut st1).unwrap(), p2.parse(&mut st2).unwrap());
    assert_eq!(st1.pos(), st2.pos());

    let mut e1 = chars("(x");
    let mut e2 = chars("(x");
    let q1 = between(eq('('), many1(eq('7')), eq(')'));
    let q2 = between(eq('('), many1(eq('7')), eq(')'));
    let f1 = q1.parse(&mut e1).unwrap_err();
    let f2 = q2.parse(&mut e2).unwrap_err();
    assert_eq!(f1.pos(), f2.pos());
    assert_eq!(f1.description(), f2.description());
    assert_eq!(e1.pos(), e2.pos());
}
