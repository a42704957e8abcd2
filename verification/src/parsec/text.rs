//! Text parsing: a stream over the characters of a `String`, character-class
//! scanners, and numeric-literal recognizers. These are ordinary clients of
//! the core: they are assembled from the atoms and combinators.

use crate::parsec::atom::{eq, Equals, OneOf, Satisfy};
use crate::parsec::combinator::{attempt, either, Attempt, Either, Many1};
use crate::parsec::{
    Bind, Binder, Monad, Parsec, ParsecError, Predicate, SpecOut, State, Status, Then,
};
use vstd::prelude::*;
use vstd::string::StrSliceExecFns;
use vstd::string::StringExecFns;

verus! {

/// A stream over the characters of a `String`, with an integer index as its
/// position.
pub struct StringState {
    buffer: String,
    index: usize,
    tran: Option<usize>,
}

impl StringState {
    /// A stream over the characters of `data`, positioned at the start, with
    /// no pending transaction.
    pub fn new(data: String) -> (s: StringState)
        ensures
            s.wf(),
            s.tokens() == data@,
            s.at() == 0,
            s.mark() == None::<int>,
    {
        StringState { buffer: data, index: 0, tran: None }
    }
}

impl State<char> for StringState {
    closed spec fn wf(&self) -> bool {
        self.index <= self.buffer@.len()
    }

    closed spec fn tokens(&self) -> Seq<char> {
        self.buffer@
    }

    closed spec fn at(&self) -> int {
        self.index as int
    }

    closed spec fn mark(&self) -> Option<int> {
        match self.tran {
            Some(j) => Some(j as int),
            None => None,
        }
    }

    proof fn lemma_wf(&self) {
    }

    fn pos(&self) -> (p: usize)
        ensures
            p as int == self.at(),
    {
        self.index
    }

    fn seek_to(&mut self, to: usize) -> (ok: bool) {
        if to < self.buffer.as_str().unicode_len() {
            self.index = to;
            true
        } else {
            false
        }
    }

    fn next(&mut self) -> (t: Option<char>) {
        if self.index < self.buffer.as_str().unicode_len() {
            let c = self.buffer.as_str().get_char(self.index);
            self.index = self.index + 1;
            Some(c)
        } else {
            None
        }
    }

    fn next_by<P: Predicate<char>>(&mut self, pred: &P) -> (r: Status<char>) {
        if self.index < self.buffer.as_str().unicode_len() {
            let c = self.buffer.as_str().get_char(self.index);
            self.index = self.index + 1;
            if pred.test(&c) {
                Ok(c)
            } else {
                Err(self.err("predicate failed".to_owned()))
            }
        } else {
            Err(self.err("eof".to_owned()))
        }
    }

    fn err(&self, description: String) -> (e: ParsecError) {
        ParsecError::new(self.pos(), description)
    }

    fn begin(&mut self) -> (m: usize) {
        if self.tran.is_none() {
            self.tran = Some(self.index);
        }
        self.index
    }

    fn commit(&mut self, m: usize) {
        match self.tran {
            Some(j) => {
                if j == m {
                    self.tran = None;
                }
            },
            None => {},
        }
    }

    fn rollback(&mut self, m: usize) {
        self.index = m;
        match self.tran {
            Some(j) => {
                if j == m {
                    self.tran = None;
                }
            },
            None => {},
        }
    }
}

/// Whether a character has the Unicode White_Space property.
pub uninterp spec fn is_whitespace_char(c: char) -> bool;

/// Relies on char::is_whitespace: the result depends on the character alone.
#[verifier::external_body]
fn check_whitespace(c: char) -> (r: bool)
    ensures
        r == is_whitespace_char(c),
{
    c.is_whitespace()
}

/// Whether a character is numeric (Unicode general categories Nd, Nl, No).
pub uninterp spec fn is_numeric_char(c: char) -> bool;

/// Relies on char::is_numeric: the result depends on the character alone.
#[verifier::external_body]
fn check_numeric(c: char) -> (r: bool)
    ensures
        r == is_numeric_char(c),
{
    c.is_numeric()
}

/// Whether a character is alphabetic.
pub uninterp spec fn is_alphabetic_char(c: char) -> bool;

/// Relies on char::is_alphabetic: the result depends on the character alone.
#[verifier::external_body]
fn check_alphabetic(c: char) -> (r: bool)
    ensures
        r == is_alphabetic_char(c),
{
    c.is_alphabetic()
}

/// Whether a character is alphabetic or numeric.
pub uninterp spec fn is_alphanumeric_char(c: char) -> bool;

/// Relies on char::is_alphanumeric: the result depends on the character alone.
#[verifier::external_body]
fn check_alphanumeric(c: char) -> (r: bool)
    ensures
        r == is_alphanumeric_char(c),
{
    c.is_alphanumeric()
}

/// Whether a character is a control character.
pub uninterp spec fn is_control_char(c: char) -> bool;

/// Relies on char::is_control: the result depends on the character alone.
#[verifier::external_body]
fn check_control(c: char) -> (r: bool)
    ensures
        r == is_control_char(c),
{
    c.is_control()
}

/// Accepts exactly the characters with the Unicode White_Space property.
pub struct IsWhiteSpace;

impl Predicate<char> for IsWhiteSpace {
    open spec fn spec_test(&self, t: char) -> bool {
        is_whitespace_char(t)
    }

    fn test(&self, t: &char) -> (r: bool) {
        check_whitespace(*t)
    }
}

/// Accepts exactly the numeric characters.
pub struct IsNumeric;

impl Predicate<char> for IsNumeric {
    open spec fn spec_test(&self, t: char) -> bool {
        is_numeric_char(t)
    }

    fn test(&self, t: &char) -> (r: bool) {
        check_numeric(*t)
    }
}

/// Accepts exactly the alphabetic characters.
pub struct IsAlphabetic;

impl Predicate<char> for IsAlphabetic {
    open spec fn spec_test(&self, t: char) -> bool {
        is_alphabetic_char(t)
    }

    fn test(&self, t: &char) -> (r: bool) {
        check_alphabetic(*t)
    }
}

/// Accepts exactly the alphanumeric characters.
pub struct IsAlphanumeric;

impl Predicate<char> for IsAlphanumeric {
    open spec fn spec_test(&self, t: char) -> bool {
        is_alphanumeric_char(t)
    }

    fn test(&self, t: &char) -> (r: bool) {
        check_alphanumeric(*t)
    }
}

/// Accepts exactly the control characters.
pub struct IsControl;

impl Predicate<char> for IsControl {
    open spec fn spec_test(&self, t: char) -> bool {
        is_control_char(t)
    }

    fn test(&self, t: &char) -> (r: bool) {
        check_control(*t)
    }
}

/// The parser for one space or tab character.
pub fn space() -> (p: OneOf<char>)
    ensures
        p.elements@ == seq![' ', '\t'],
{
    let mut elements: Vec<char> = Vec::new();
    elements.push(' ');
    elements.push('\t');
    proof {
        assert(elements@ =~= seq![' ', '\t']);
    }
    OneOf { elements }
}

/// The parser for one character with the Unicode White_Space property.
pub fn white_space() -> (p: Satisfy<IsWhiteSpace>)
    ensures
        p == (Satisfy { pred: IsWhiteSpace }),
{
    Satisfy { pred: IsWhiteSpace }
}

/// The parser for one numeric character.
pub fn digit() -> (p: Satisfy<IsNumeric>)
    ensures
        p == (Satisfy { pred: IsNumeric }),
{
    Satisfy { pred: IsNumeric }
}

/// The parser for one alphabetic character.
pub fn alpha() -> (p: Satisfy<IsAlphabetic>)
    ensures
        p == (Satisfy { pred: IsAlphabetic }),
{
    Satisfy { pred: IsAlphabetic }
}

/// The parser for one alphanumeric character.
pub fn alphanumeric() -> (p: Satisfy<IsAlphanumeric>)
    ensures
        p == (Satisfy { pred: IsAlphanumeric }),
{
    Satisfy { pred: IsAlphanumeric }
}

/// The parser for one control character.
pub fn control() -> (p: Satisfy<IsControl>)
    ensures
        p == (Satisfy { pred: IsControl }),
{
    Satisfy { pred: IsControl }
}

/// Never touches the stream; always succeeds with a copy of its text.
pub struct PackString {
    pub val: String,
}

impl Parsec<char> for PackString {
    type Output = String;

    open spec fn spec_parse(&self, s: Seq<char>, i: int) -> SpecOut<Seq<char>> {
        SpecOut { pos: i, res: Ok(self.val@) }
    }

    proof fn lemma_parse_bounds(&self, s: Seq<char>, i: int) {
    }

    fn parse<S: State<char>>(&self, st: &mut S) -> (r: Status<String>) {
        Ok(self.val.clone())
    }
}

/// The parser that always succeeds with the given text and consumes nothing.
pub fn pack_str(text: &str) -> (p: PackString)
    ensures
        p.val@ == text@,
{
    PackString { val: text.to_owned() }
}

/// Relies on String::push: appends exactly one character.
#[verifier::external_body]
fn push_char(s: &mut String, c: char)
    ensures
        final(s)@ == old(s)@.push(c),
{
    s.push(c);
}

/// The continuation that turns collected characters into their text, without
/// touching the stream.
pub struct CollectChars;

impl Binder<char, Vec<char>> for CollectChars {
    type Output = String;

    open spec fn spec_bind(&self, v: Seq<char>, s: Seq<char>, i: int) -> SpecOut<Seq<char>> {
        SpecOut { pos: i, res: Ok(v) }
    }

    proof fn lemma_bind_bounds(&self, v: Seq<char>, s: Seq<char>, i: int) {
    }

    fn apply<S: State<char>>(&self, v: Vec<char>, st: &mut S) -> (r: Status<String>) {
        let mut out = String::new();
        let mut k: usize = 0;
        while k < v.len()
            invariant
                k <= v@.len(),
                out@ == v@.subrange(0, k as int),
            decreases v@.len() - k,
        {
            push_char(&mut out, v[k]);
            k = k + 1;
            proof {
                assert(out@ =~= v@.subrange(0, k as int));
            }
        }
        proof {
            assert(out@ =~= v@);
            assert(v.deep_view() =~= v@);
        }
        Ok(out)
    }
}

/// The unsigned-integer recognizer: one or more numeric characters, collected
/// into their text.
pub fn uinteger() -> (p: Bind<Many1<Satisfy<IsNumeric>>, CollectChars>)
    ensures
        p == (Bind {
            parsec: Many1 { parsec: Satisfy { pred: IsNumeric } },
            binder: CollectChars,
        }),
{
    Bind { parsec: Many1 { parsec: Satisfy { pred: IsNumeric } }, binder: CollectChars }
}

/// What [`uinteger`] produces: the text of one or more numeric characters.
pub open spec fn digits_out(s: Seq<char>, i: int) -> SpecOut<Seq<char>> {
    (Bind {
        parsec: Many1 { parsec: Satisfy { pred: IsNumeric } },
        binder: CollectChars,
    }).spec_parse(s, i)
}

/// What [`integer`] produces: an optional minus sign, then [`uinteger`].
pub open spec fn integer_out(s: Seq<char>, i: int) -> SpecOut<Seq<char>> {
    if i < s.len() && s[i] == '-' {
        let o = digits_out(s, i + 1);
        match o.res {
            Ok(d) => SpecOut { pos: o.pos, res: Ok("-"@ + d) },
            Err(e) => SpecOut { pos: o.pos, res: Err(e) },
        }
    } else {
        digits_out(s, i)
    }
}

/// The signed-integer recognizer: a transactionally retried minus sign, then
/// the digits, as text.
pub struct SignedInteger;

impl Parsec<char> for SignedInteger {
    type Output = String;

    open spec fn spec_parse(&self, s: Seq<char>, i: int) -> SpecOut<Seq<char>> {
        integer_out(s, i)
    }

    proof fn lemma_parse_bounds(&self, s: Seq<char>, i: int) {
        let ghost u = Bind {
            parsec: Many1 { parsec: Satisfy { pred: IsNumeric } },
            binder: CollectChars,
        };
        if i < s.len() && s[i] == '-' {
            u.lemma_parse_bounds(s, i + 1);
        } else {
            u.lemma_parse_bounds(s, i);
        }
    }

    fn parse<S: State<char>>(&self, st: &mut S) -> (r: Status<String>) {
        let sign = Attempt { parsec: Equals { val: '-' } };
        match sign.parse(st) {
            Ok(_) => match uinteger().parse(st) {
                Ok(d) => {
                    let mut out = String::from_str("-");
                    out.append(d.as_str());
                    Ok(out)
                },
                Err(e) => Err(e),
            },
            Err(_) => uinteger().parse(st),
        }
    }
}

/// The signed-integer recognizer.
pub fn integer() -> (p: SignedInteger)
    ensures
        p == SignedInteger,
{
    SignedInteger
}

/// What [`ufloat`] produces: an integer part (or `0` when it is missing and
/// nothing was consumed looking for it), a required dot, then the fraction
/// digits.
pub open spec fn ufloat_out(s: Seq<char>, i: int) -> SpecOut<Seq<char>> {
    let a = digits_out(s, i);
    let ipart = if a.res is Ok {
        a
    } else if a.pos == i {
        SpecOut { pos: i, res: Ok("0"@) }
    } else {
        a
    };
    match ipart.res {
        Err(e) => SpecOut { pos: ipart.pos, res: Err(e) },
        Ok(d) => {
            let dot = (Equals { val: '.' }).spec_parse(s, ipart.pos);
            match dot.res {
                Err(e) => SpecOut { pos: dot.pos, res: Err(e) },
                Ok(_) => {
                    let f = digits_out(s, dot.pos);
                    match f.res {
                        Ok(fd) => SpecOut { pos: f.pos, res: Ok(d + "."@ + fd) },
                        Err(e) => SpecOut { pos: f.pos, res: Err(e) },
                    }
                },
            }
        },
    }
}

/// The unsigned-decimal recognizer: integer part or `0`, a dot, and the
/// fraction, as text.
pub struct UnsignedDecimal;

impl Parsec<char> for UnsignedDecimal {
    type Output = String;

    open spec fn spec_parse(&self, s: Seq<char>, i: int) -> SpecOut<Seq<char>> {
        ufloat_out(s, i)
    }

    proof fn lemma_parse_bounds(&self, s: Seq<char>, i: int) {
        let ghost u = Bind {
            parsec: Many1 { parsec: Satisfy { pred: IsNumeric } },
            binder: CollectChars,
        };
        u.lemma_parse_bounds(s, i);
        let a = digits_out(s, i);
        let ipart = if a.res is Ok {
            a
        } else if a.pos == i {
            SpecOut { pos: i, res: Ok("0"@) }
        } else {
            a
        };
        if ipart.res is Ok {
            let ghost dotp = Equals { val: '.' };
            dotp.lemma_parse_bounds(s, ipart.pos);
            let dot = dotp.spec_parse(s, ipart.pos);
            if dot.res is Ok {
                u.lemma_parse_bounds(s, dot.pos);
            }
        }
    }

    fn parse<S: State<char>>(&self, st: &mut S) -> (r: Status<String>) {
        let before = st.pos();
        let ipart: Status<String> = match uinteger().parse(st) {
            Ok(d) => Ok(d),
            Err(e) => {
                if st.pos() == before {
                    Ok(String::from_str("0"))
                } else {
                    Err(e)
                }
            },
        };
        match ipart {
            Err(e) => Err(e),
            Ok(d) => match eq('.').parse(st) {
                Err(e) => Err(e),
                Ok(_) => match uinteger().parse(st) {
                    Ok(f) => {
                        let mut out = d;
                        out.append(".");
                        out.append(f.as_str());
                        Ok(out)
                    },
                    Err(e) => Err(e),
                },
            },
        }
    }
}

/// The unsigned-decimal recognizer.
pub fn ufloat() -> (p: UnsignedDecimal)
    ensures
        p == UnsignedDecimal,
{
    UnsignedDecimal
}

/// What [`float`] produces: an optional minus sign, then [`ufloat`].
pub open spec fn float_out(s: Seq<char>, i: int) -> SpecOut<Seq<char>> {
    if i < s.len() && s[i] == '-' {
        let o = ufloat_out(s, i + 1);
        match o.res {
            Ok(d) => SpecOut { pos: o.pos, res: Ok("-"@ + d) },
            Err(e) => SpecOut { pos: o.pos, res: Err(e) },
        }
    } else {
        ufloat_out(s, i)
    }
}

/// The signed-decimal recognizer: a transactionally retried minus sign, then
/// the unsigned decimal, as text.
pub struct SignedDecimal;

impl Parsec<char> for SignedDecimal {
    type Output = String;

    open spec fn spec_parse(&self, s: Seq<char>, i: int) -> SpecOut<Seq<char>> {
        float_out(s, i)
    }

    proof fn lemma_parse_bounds(&self, s: Seq<char>, i: int) {
        let ghost u = UnsignedDecimal;
        if i < s.len() && s[i] == '-' {
            u.lemma_parse_bounds(s, i + 1);
        } else {
            u.lemma_parse_bounds(s, i);
        }
    }

    fn parse<S: State<char>>(&self, st: &mut S) -> (r: Status<String>) {
        let sign = Attempt { parsec: Equals { val: '-' } };
        match sign.parse(st) {
            Ok(_) => match (UnsignedDecimal).parse(st) {
                Ok(d) => {
                    let mut out = String::from_str("-");
                    out.append(d.as_str());
                    Ok(out)
                },
                Err(e) => Err(e),
            },
            Err(_) => (UnsignedDecimal).parse(st),
        }
    }
}

/// The signed-decimal recognizer.
pub fn float() -> (p: SignedDecimal)
    ensures
        p == SignedDecimal,
{
    SignedDecimal
}

/// The line-break recognizer: a carriage return optionally followed by a line
/// feed (producing the two-character text), or a bare line feed. Per the
/// ordered-choice rule, the first alternative commits as soon as it consumes a
/// token, so an input that starts with something other than a carriage return
/// fails rather than reaching the second alternative.
pub fn newline() -> (p: Either<
    Then<Equals<char>, Either<Then<Attempt<Equals<char>>, PackString>, PackString>>,
    Then<Equals<char>, PackString>,
>)
    ensures
        p.first.first == (Equals { val: '\r' }),
        p.first.second.first.first == (Attempt { parsec: Equals { val: '\n' } }),
        p.first.second.first.second.val@ == "\r\n"@,
        p.first.second.second.val@ == "\r"@,
        p.second.first == (Equals { val: '\n' }),
        p.second.second.val@ == "\n"@,
{
    either(
        eq('\r').and_then(either(attempt(eq('\n')).and_then(pack_str("\r\n")), pack_str("\r"))),
        eq('\n').and_then(pack_str("\n")),
    )
}

} // verus!
