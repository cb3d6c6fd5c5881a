//! Basic parser combinators.
use vstd::prelude::*;
use vstd::string::StrSliceExecFns;
use vstd::string::StringExecFns;

use crate::parser::{
    is_suffix_of, lemma_suffix_drop_first, lemma_suffix_refl, lemma_suffix_trans,
    split_first, CharPredicate, Input, Mapper, ParseError, ParseResult, Parser, SpecResult,
};
use crate::text::{
    char_is_whitespace, is_ascii_digit, push_char, Alphabetic, Alphanumeric, AsciiDigit, Whitespace,
};

verus! {

// ---------------------------------------------------------------------------
// Single characters and fixed strings
// ---------------------------------------------------------------------------
/// Parses one given character.
#[derive(Clone, Copy, Debug)]
pub struct Char {
    pub expected: char,
}

/// The message of `Char` at the end of the input.
pub open spec fn char_eof_message(expected: char) -> Seq<char> {
    "Expected '"@ + seq![expected] + "', found EOF"@
}

/// The message of `Char` on another character.
pub open spec fn char_mismatch_message(expected: char, found: char) -> Seq<char> {
    "Expected '"@ + seq![expected] + "', found '"@ + seq![found] + "'"@
}

impl Parser for Char {
    type Output = char;

    open spec fn wf(&self) -> bool {
        true
    }

    open spec fn productive(&self) -> bool {
        true
    }

    open spec fn spec_parse(&self, s: Seq<char>) -> SpecResult<char> {
        if s.len() == 0 {
            Err(char_eof_message(self.expected))
        } else if s[0] == self.expected {
            Ok((s[0], s.drop_first()))
        } else {
            Err(char_mismatch_message(self.expected, s[0]))
        }
    }

    proof fn lemma_parse_rest(&self, s: Seq<char>) {
        if s.len() > 0 {
            lemma_suffix_drop_first(s);
        }
    }

    fn parse<'a>(&self, input: Input<'a>) -> (r: ParseResult<'a, char>) {
        match split_first(input) {
            Some((first, remaining)) => {
                if first == self.expected {
                    Ok((first, remaining))
                } else {
                    let mut m = "Expected '".to_owned();
                    push_char(&mut m, self.expected);
                    m.append("', found '");
                    push_char(&mut m, first);
                    m.append("'");
                    assert(m@ =~= char_mismatch_message(self.expected, first));
                    Err(ParseError { message: m, position: 0 })
                }
            },
            None => {
                let mut m = "Expected '".to_owned();
                push_char(&mut m, self.expected);
                m.append("', found EOF");
                assert(m@ =~= char_eof_message(self.expected));
                Err(ParseError { message: m, position: 0 })
            },
        }
    }
}

/// Parse a specific character.
pub fn char(expected: char) -> (p: Char)
    ensures
        p.expected == expected,
{
    Char { expected }
}

/// Parses one given string.
#[derive(Clone, Copy, Debug)]
pub struct Str {
    pub expected: &'static str,
}

/// The message of `Str` when the input does not start with `expected`.
pub open spec fn string_message(expected: Seq<char>) -> Seq<char> {
    "Expected '"@ + expected + "'"@
}

/// `prefix` is where `s` starts.
pub open spec fn starts_with(s: Seq<char>, prefix: Seq<char>) -> bool {
    prefix.len() <= s.len() && s.subrange(0, prefix.len() as int) == prefix
}

impl Parser for Str {
    type Output = String;

    open spec fn wf(&self) -> bool {
        true
    }

    open spec fn productive(&self) -> bool {
        self.expected@.len() > 0
    }

    open spec fn spec_parse(&self, s: Seq<char>) -> SpecResult<Seq<char>> {
        let e = self.expected@;
        if starts_with(s, e) {
            Ok((e, s.subrange(e.len() as int, s.len() as int)))
        } else {
            Err(string_message(e))
        }
    }

    proof fn lemma_parse_rest(&self, s: Seq<char>) {
    }

    fn parse<'a>(&self, input: Input<'a>) -> (r: ParseResult<'a, String>) {
        let n = self.expected.unicode_len();
        let m = input.unicode_len();
        let mut matched = n <= m;
        let mut i: usize = 0;
        while matched && i < n
            invariant
                n == self.expected@.len(),
                m == input@.len(),
                i <= n,
                matched ==> n <= m,
                matched ==> forall|j: int| 0 <= j < i ==> input@[j] == self.expected@[j],
                !matched ==> !starts_with(input@, self.expected@),
            decreases (if matched { n - i + 1 } else { 0 }),
        {
            if input.get_char(i) != self.expected.get_char(i) {
                matched = false;
            } else {
                i = i + 1;
            }
        }
        if matched {
            assert(input@.subrange(0, n as int) =~= self.expected@);
            let remaining = input.substring_char(n, m);
            Ok((self.expected.to_owned(), remaining))
        } else {
            let mut msg = "Expected '".to_owned();
            msg.append(self.expected);
            msg.append("'");
            assert(msg@ =~= string_message(self.expected@));
            Err(ParseError { message: msg, position: 0 })
        }
    }
}

/// Parse a specific string.
pub fn string(expected: &'static str) -> (p: Str)
    ensures
        p.expected == expected,
{
    Str { expected }
}

/// Parses one character that passes a test.
#[derive(Clone, Copy, Debug)]
pub struct Satisfy<P> {
    pub predicate: P,
}

/// The message of `Satisfy` on a character that fails the test.
pub open spec fn unsatisfied_message() -> Seq<char> {
    "Character doesn't satisfy predicate"@
}

/// The message of `Satisfy` at the end of the input.
pub open spec fn eof_message() -> Seq<char> {
    "Unexpected EOF"@
}

impl<P: CharPredicate> Parser for Satisfy<P> {
    type Output = char;

    open spec fn wf(&self) -> bool {
        self.predicate.predicate_wf()
    }

    open spec fn productive(&self) -> bool {
        true
    }

    open spec fn spec_parse(&self, s: Seq<char>) -> SpecResult<char> {
        if s.len() == 0 {
            Err(eof_message())
        } else if self.predicate.spec_holds(s[0]) {
            Ok((s[0], s.drop_first()))
        } else {
            Err(unsatisfied_message())
        }
    }

    proof fn lemma_parse_rest(&self, s: Seq<char>) {
        if s.len() > 0 {
            lemma_suffix_drop_first(s);
        }
    }

    fn parse<'a>(&self, input: Input<'a>) -> (r: ParseResult<'a, char>) {
        match split_first(input) {
            Some((first, remaining)) => {
                if self.predicate.holds(first) {
                    Ok((first, remaining))
                } else {
                    Err(ParseError { message: "Character doesn't satisfy predicate".to_owned(), position: 0 })
                }
            },
            None => Err(ParseError { message: "Unexpected EOF".to_owned(), position: 0 }),
        }
    }
}

/// Parse any character that satisfies a predicate.
pub fn satisfy<P: CharPredicate>(predicate: P) -> (p: Satisfy<P>)
    ensures
        p.predicate == predicate,
{
    Satisfy { predicate }
}

/// Parses an ASCII digit.
pub type Digit = Satisfy<AsciiDigit>;

/// Parses an alphabetic character.
pub type Letter = Satisfy<Alphabetic>;

/// Parses an alphanumeric character.
pub type AlphanumericChar = Satisfy<Alphanumeric>;

/// Parses a white space character.
pub type WhitespaceChar = Satisfy<Whitespace>;

/// Parse a digit character.
pub fn digit() -> (p: Digit)
    ensures
        p == (Satisfy { predicate: AsciiDigit }),
{
    satisfy(AsciiDigit)
}

/// Parse a letter character.
pub fn letter() -> (p: Letter)
    ensures
        p == (Satisfy { predicate: Alphabetic }),
{
    satisfy(Alphabetic)
}

/// Parse an alphanumeric character.
pub fn alphanumeric() -> (p: AlphanumericChar)
    ensures
        p == (Satisfy { predicate: Alphanumeric }),
{
    satisfy(Alphanumeric)
}

/// Parse whitespace characters.
pub fn whitespace() -> (p: WhitespaceChar)
    ensures
        p == (Satisfy { predicate: Whitespace }),
{
    satisfy(Whitespace)
}

// ---------------------------------------------------------------------------
// Sequence, choice and mapping
// ---------------------------------------------------------------------------
/// Parses the first parser, then the second on what is left.
#[derive(Clone, Copy, Debug)]
pub struct Sequence<A, B>(pub A, pub B);

impl<A: Parser, B: Parser> Parser for Sequence<A, B> {
    type Output = (A::Output, B::Output);

    open spec fn wf(&self) -> bool {
        self.0.wf() && self.1.wf()
    }

    open spec fn productive(&self) -> bool {
        self.0.productive() || self.1.productive()
    }

    open spec fn spec_parse(&self, s: Seq<char>) -> SpecResult<
        (<A::Output as DeepView>::V, <B::Output as DeepView>::V),
    > {
        match self.0.spec_parse(s) {
            Err(e) => Err(e),
            Ok((x, r1)) => match self.1.spec_parse(r1) {
                Err(e) => Err(e),
                Ok((y, r2)) => Ok(((x, y), r2)),
            },
        }
    }

    proof fn lemma_parse_rest(&self, s: Seq<char>) {
        self.0.lemma_parse_rest(s);
        if let Ok((x, r1)) = self.0.spec_parse(s) {
            self.1.lemma_parse_rest(r1);
            if let Ok((y, r2)) = self.1.spec_parse(r1) {
                lemma_suffix_trans(r2, r1, s);
            }
        }
    }

    fn parse<'a>(&self, input: Input<'a>) -> (r: ParseResult<'a, (A::Output, B::Output)>) {
        let (result1, remaining1) = match self.0.parse(input) {
            Ok(x) => x,
            Err(e) => return Err(e),
        };
        let (result2, remaining2) = match self.1.parse(remaining1) {
            Ok(x) => x,
            Err(e) => return Err(e),
        };
        Ok(((result1, result2), remaining2))
    }
}

/// Sequence combinator - parse first, then second.
pub fn seq<A: Parser, B: Parser>(parser1: A, parser2: B) -> (p: Sequence<A, B>)
    ensures
        p == Sequence(parser1, parser2),
{
    Sequence(parser1, parser2)
}

/// Tries the first parser; where it fails, the second on the same input.
#[derive(Clone, Copy, Debug)]
pub struct Choice<A, B>(pub A, pub B);

impl<A: Parser, B: Parser<Output = A::Output>> Parser for Choice<A, B> {
    type Output = A::Output;

    open spec fn wf(&self) -> bool {
        self.0.wf() && self.1.wf()
    }

    open spec fn productive(&self) -> bool {
        self.0.productive() && self.1.productive()
    }

    open spec fn spec_parse(&self, s: Seq<char>) -> SpecResult<<A::Output as DeepView>::V> {
        match self.0.spec_parse(s) {
            Ok(x) => Ok(x),
            Err(_) => self.1.spec_parse(s),
        }
    }

    proof fn lemma_parse_rest(&self, s: Seq<char>) {
        self.0.lemma_parse_rest(s);
        self.1.lemma_parse_rest(s);
    }

    fn parse<'a>(&self, input: Input<'a>) -> (r: ParseResult<'a, A::Output>) {
        match self.0.parse(input) {
            Ok(result) => Ok(result),
            Err(_) => self.1.parse(input),
        }
    }
}

/// Choice combinator - try first parser, if it fails try second.
pub fn choice<A: Parser, B: Parser<Output = A::Output>>(parser1: A, parser2: B) -> (p: Choice<
    A,
    B,
>)
    ensures
        p == Choice(parser1, parser2),
{
    Choice(parser1, parser2)
}

/// Applies a mapping to what a parser produces.
#[derive(Clone, Copy, Debug)]
pub struct Mapped<P, M> {
    pub parser: P,
    pub mapper: M,
}

impl<P: Parser, M: Mapper<P::Output>> Parser for Mapped<P, M> {
    type Output = M::Out;

    open spec fn wf(&self) -> bool {
        self.parser.wf() && self.mapper.mapper_wf()
    }

    open spec fn productive(&self) -> bool {
        self.parser.productive()
    }

    open spec fn spec_parse(&self, s: Seq<char>) -> SpecResult<<M::Out as DeepView>::V> {
        match self.parser.spec_parse(s) {
            Err(e) => Err(e),
            Ok((v, rest)) => Ok((self.mapper.spec_apply(v), rest)),
        }
    }

    proof fn lemma_parse_rest(&self, s: Seq<char>) {
        self.parser.lemma_parse_rest(s);
    }

    fn parse<'a>(&self, input: Input<'a>) -> (r: ParseResult<'a, M::Out>) {
        let (result, remaining) = match self.parser.parse(input) {
            Ok(x) => x,
            Err(e) => return Err(e),
        };
        Ok((self.mapper.apply(result), remaining))
    }
}

/// Map combinator - transform the result of a parser.
pub fn map<P: Parser, M: Mapper<P::Output>>(parser: P, f: M) -> (p: Mapped<P, M>)
    ensures
        p == (Mapped { parser, mapper: f }),
{
    Mapped { parser, mapper: f }
}

/// The mapping that forgets a value.
#[derive(Clone, Copy, Debug)]
pub struct Discard;

impl<T: DeepView> Mapper<T> for Discard {
    type Out = ();

    open spec fn mapper_wf(&self) -> bool {
        true
    }

    open spec fn spec_apply(&self, v: T::V) -> () {
        ()
    }

    fn apply(&self, t: T) -> (u: ()) {
    }
}

// ---------------------------------------------------------------------------
// Repetition
// ---------------------------------------------------------------------------
/// The values that repeated runs of `p` from `s` produce until the first failure,
/// and the input left then.
pub open spec fn many_spec<P: Parser>(p: P, s: Seq<char>) -> (
    Seq<<P::Output as DeepView>::V>,
    Seq<char>,
)
    decreases s.len(),
{
    match p.spec_parse(s) {
        Ok((v, rest)) => if rest.len() < s.len() {
            let (vs, r) = many_spec(p, rest);
            (seq![v] + vs, r)
        } else {
            (seq![], s)
        },
        Err(_) => (seq![], s),
    }
}

/// What `many_spec` leaves is a suffix of its input.
pub proof fn lemma_many_rest<P: Parser>(p: P, s: Seq<char>)
    ensures
        is_suffix_of(many_spec(p, s).1, s),
    decreases s.len(),
{
    match p.spec_parse(s) {
        Ok((v, rest)) => if rest.len() < s.len() {
            p.lemma_parse_rest(s);
            lemma_many_rest(p, rest);
            lemma_suffix_trans(many_spec(p, rest).1, rest, s);
        } else {
            lemma_suffix_refl(s);
        },
        Err(_) => lemma_suffix_refl(s),
    }
}

/// Runs `p` repeatedly from `input` until it fails, appending each value to
/// `results`.
fn many_loop<'a, P: Parser>(p: &P, results: &mut Vec<P::Output>, input: Input<'a>) -> (rest: Input<
    'a,
>)
    requires
        p.wf(),
        p.productive(),
    ensures
        final(results).deep_view() == old(results).deep_view() + many_spec(*p, input@).0,
        rest@ == many_spec(*p, input@).1,
{
    let mut remaining = input;
    let ghost prev = old(results).deep_view();
    loop
        invariant
            p.wf(),
            p.productive(),
            prev == old(results).deep_view(),
            prev + many_spec(*p, input@).0 == results.deep_view() + many_spec(*p, remaining@).0,
            many_spec(*p, input@).1 == many_spec(*p, remaining@).1,
        decreases remaining@.len(),
    {
        match p.parse(remaining) {
            Ok((result, new_remaining)) => {
                proof {
                    p.lemma_parse_rest(remaining@);
                }
                let ghost before = results.deep_view();
                let ghost tail = many_spec(*p, new_remaining@).0;
                results.push(result);
                proof {
                    assert(results.deep_view() =~= before.push(result.deep_view()));
                    assert(before + many_spec(*p, remaining@).0 =~= results.deep_view() + tail);
                }
                remaining = new_remaining;
            },
            Err(_) => {
                assert(many_spec(*p, remaining@).0 =~= Seq::<<P::Output as DeepView>::V>::empty());
                assert(results.deep_view() + many_spec(*p, remaining@).0 =~= results.deep_view());
                return remaining;
            },
        }
    }
}

/// Parses `p` zero or more times.
#[derive(Clone, Copy, Debug)]
pub struct Many<P>(pub P);

impl<P: Parser> Parser for Many<P> {
    type Output = Vec<P::Output>;

    open spec fn wf(&self) -> bool {
        self.0.wf() && self.0.productive()
    }

    open spec fn productive(&self) -> bool {
        false
    }

    open spec fn spec_parse(&self, s: Seq<char>) -> SpecResult<Seq<<P::Output as DeepView>::V>> {
        Ok(many_spec(self.0, s))
    }

    proof fn lemma_parse_rest(&self, s: Seq<char>) {
        lemma_many_rest(self.0, s);
    }

    fn parse<'a>(&self, input: Input<'a>) -> (r: ParseResult<'a, Vec<P::Output>>) {
        let mut results = Vec::new();
        assert(results.deep_view() =~= Seq::<<P::Output as DeepView>::V>::empty());
        let remaining = many_loop(&self.0, &mut results, input);
        assert(results.deep_view() =~= many_spec(self.0, input@).0);
        Ok((results, remaining))
    }
}

/// Many combinator - parse zero or more occurrences.
pub fn many<P: Parser>(parser: P) -> (p: Many<P>)
    ensures
        p == Many(parser),
{
    Many(parser)
}

/// Parses `p` one or more times.
#[derive(Clone, Copy, Debug)]
pub struct Many1<P>(pub P);

impl<P: Parser> Parser for Many1<P> {
    type Output = Vec<P::Output>;

    open spec fn wf(&self) -> bool {
        self.0.wf() && self.0.productive()
    }

    open spec fn productive(&self) -> bool {
        self.0.productive()
    }

    open spec fn spec_parse(&self, s: Seq<char>) -> SpecResult<Seq<<P::Output as DeepView>::V>> {
        match self.0.spec_parse(s) {
            Err(e) => Err(e),
            Ok((v, rest)) => {
                let (vs, r) = many_spec(self.0, rest);
                Ok((seq![v] + vs, r))
            },
        }
    }

    proof fn lemma_parse_rest(&self, s: Seq<char>) {
        self.0.lemma_parse_rest(s);
        if let Ok((v, rest)) = self.0.spec_parse(s) {
            lemma_many_rest(self.0, rest);
            lemma_suffix_trans(many_spec(self.0, rest).1, rest, s);
        }
    }

    fn parse<'a>(&self, input: Input<'a>) -> (r: ParseResult<'a, Vec<P::Output>>) {
        let (first, remaining) = match self.0.parse(input) {
            Ok(x) => x,
            Err(e) => return Err(e),
        };
        let mut results = Vec::new();
        results.push(first);
        assert(results.deep_view() =~= seq![first.deep_view()]);
        let remaining = many_loop(&self.0, &mut results, remaining);
        Ok((results, remaining))
    }
}

/// Many1 combinator - parse one or more occurrences.
pub fn many1<P: Parser>(parser: P) -> (p: Many1<P>)
    ensures
        p == Many1(parser),
{
    Many1(parser)
}

/// Parses `p` or nothing.
#[derive(Clone, Copy, Debug)]
pub struct Optional<P>(pub P);

impl<P: Parser> Parser for Optional<P> {
    type Output = Option<P::Output>;

    open spec fn wf(&self) -> bool {
        self.0.wf()
    }

    open spec fn productive(&self) -> bool {
        false
    }

    open spec fn spec_parse(&self, s: Seq<char>) -> SpecResult<Option<<P::Output as DeepView>::V>> {
        match self.0.spec_parse(s) {
            Ok((v, rest)) => Ok((Some(v), rest)),
            Err(_) => Ok((None, s)),
        }
    }

    proof fn lemma_parse_rest(&self, s: Seq<char>) {
        self.0.lemma_parse_rest(s);
        lemma_suffix_refl(s);
    }

    fn parse<'a>(&self, input: Input<'a>) -> (r: ParseResult<'a, Option<P::Output>>) {
        match self.0.parse(input) {
            Ok((result, remaining)) => Ok((Some(result), remaining)),
            Err(_) => Ok((None, input)),
        }
    }
}

/// Optional combinator - parse zero or one occurrence.
pub fn optional<P: Parser>(parser: P) -> (p: Optional<P>)
    ensures
        p == Optional(parser),
{
    Optional(parser)
}

// ---------------------------------------------------------------------------
// Whitespace, numbers, delimiters
// ---------------------------------------------------------------------------
/// Skips white space.
pub type SkipWhitespace = Mapped<Many<WhitespaceChar>, Discard>;

/// The parser that `skip_whitespace` returns.
pub open spec fn skip_whitespace_parser() -> SkipWhitespace {
    Mapped { parser: Many(Satisfy { predicate: Whitespace }), mapper: Discard }
}

/// Skip whitespace.
pub fn skip_whitespace() -> (p: SkipWhitespace)
    ensures
        p == skip_whitespace_parser(),
{
    map(many(whitespace()), Discard)
}

/// The numeric value of a sequence of decimal digits.
pub open spec fn decimal_value(ds: Seq<char>) -> int
    decreases ds.len(),
{
    if ds.len() == 0 {
        0
    } else {
        decimal_value(ds.drop_last()) * 10 + (ds.last() as int - '0' as int)
    }
}

/// All characters are ASCII digits.
pub open spec fn all_digits(ds: Seq<char>) -> bool {
    forall|i: int| 0 <= i < ds.len() ==> is_ascii_digit(#[trigger] ds[i])
}

/// What reading digits as an `i32` gives: their value where they are a nonempty
/// run of digits whose value fits, otherwise 0.
pub open spec fn digits_to_i32(ds: Seq<char>) -> i32 {
    if ds.len() > 0 && all_digits(ds) && decimal_value(ds) <= i32::MAX {
        decimal_value(ds) as i32
    } else {
        0
    }
}

/// The value of digits is never below the value of a prefix of them.
pub proof fn lemma_decimal_value_prefix(ds: Seq<char>, k: int)
    requires
        all_digits(ds),
        0 <= k <= ds.len(),
    ensures
        0 <= decimal_value(ds.take(k)) <= decimal_value(ds),
    decreases ds.len(),
{
    if k == ds.len() {
        assert(ds.take(k) =~= ds);
        lemma_decimal_value_nonneg(ds);
    } else {
        assert(all_digits(ds.drop_last()));
        lemma_decimal_value_prefix(ds.drop_last(), k);
        assert(ds.drop_last().take(k) =~= ds.take(k));
        assert(is_ascii_digit(ds[ds.len() - 1]));
    }
}

/// Digits have a value of at least 0.
pub proof fn lemma_decimal_value_nonneg(ds: Seq<char>)
    requires
        all_digits(ds),
    ensures
        decimal_value(ds) >= 0,
    decreases ds.len(),
{
    if ds.len() > 0 {
        assert(all_digits(ds.drop_last()));
        lemma_decimal_value_nonneg(ds.drop_last());
        assert(is_ascii_digit(ds[ds.len() - 1]));
    }
}

/// Reads a run of digits as an `i32`, as `str::parse` does, with 0 where that
/// fails.
#[derive(Clone, Copy, Debug)]
pub struct DigitsToNumber;

impl Mapper<Vec<char>> for DigitsToNumber {
    type Out = i32;

    open spec fn mapper_wf(&self) -> bool {
        true
    }

    open spec fn spec_apply(&self, v: Seq<char>) -> i32 {
        digits_to_i32(v)
    }

    fn apply(&self, digits: Vec<char>) -> (n: i32) {
        let len = digits.len();
        let ghost ds = digits@;
        assert(digits.deep_view() =~= ds);
        if len == 0 {
            return 0;
        }
        let mut acc: i64 = 0;
        let mut i: usize = 0;
        while i < len
            invariant
                len == ds.len(),
                ds == digits@,
                digits.deep_view() == ds,
                i <= len,
                acc == decimal_value(ds.take(i as int)),
                0 <= acc <= i32::MAX,
                all_digits(ds.take(i as int)),
            decreases len - i,
        {
            let c = digits[i];
            if !('0' <= c && c <= '9') {
                assert(!is_ascii_digit(ds[i as int]));
                assert(!all_digits(ds));
                return 0;
            }
            let d = (c as u32 - '0' as u32) as i64;
            assert(d == ds[i as int] as int - '0' as int);
            assert(ds.take(i + 1).drop_last() =~= ds.take(i as int));
            assert(ds.take(i + 1).last() == ds[i as int]);
            acc = acc * 10 + d;
            assert(acc == decimal_value(ds.take(i + 1)));
            assert(all_digits(ds.take(i + 1)));
            if acc > i32::MAX as i64 {
                proof {
                    if all_digits(ds) {
                        lemma_decimal_value_prefix(ds, i + 1);
                    }
                }
                return 0;
            }
            i = i + 1;
        }
        assert(ds.take(len as int) =~= ds);
        acc as i32
    }
}

/// Parses a number: one or more digits, read as an `i32`.
pub type Number = Mapped<Many1<Digit>, DigitsToNumber>;

/// The parser that `number` returns.
pub open spec fn number_parser() -> Number {
    Mapped { parser: Many1(Satisfy { predicate: AsciiDigit }), mapper: DigitsToNumber }
}

/// Parse a number (integer).
pub fn number() -> (p: Number)
    ensures
        p == number_parser(),
{
    map(many1(digit()), DigitsToNumber)
}

/// Parses `left`, then `parser`, then `right`, and keeps what `parser` produced.
#[derive(Clone, Copy, Debug)]
pub struct Between<L, R, P> {
    pub left: L,
    pub right: R,
    pub parser: P,
}

impl<L: Parser, R: Parser, P: Parser> Parser for Between<L, R, P> {
    type Output = P::Output;

    open spec fn wf(&self) -> bool {
        self.left.wf() && self.right.wf() && self.parser.wf()
    }

    open spec fn productive(&self) -> bool {
        self.left.productive() || self.right.productive() || self.parser.productive()
    }

    open spec fn spec_parse(&self, s: Seq<char>) -> SpecResult<<P::Output as DeepView>::V> {
        match self.left.spec_parse(s) {
            Err(e) => Err(e),
            Ok((_, r1)) => match self.parser.spec_parse(r1) {
                Err(e) => Err(e),
                Ok((v, r2)) => match self.right.spec_parse(r2) {
                    Err(e) => Err(e),
                    Ok((_, r3)) => Ok((v, r3)),
                },
            },
        }
    }

    proof fn lemma_parse_rest(&self, s: Seq<char>) {
        self.left.lemma_parse_rest(s);
        if let Ok((_, r1)) = self.left.spec_parse(s) {
            self.parser.lemma_parse_rest(r1);
            if let Ok((v, r2)) = self.parser.spec_parse(r1) {
                self.right.lemma_parse_rest(r2);
                if let Ok((_, r3)) = self.right.spec_parse(r2) {
                    lemma_suffix_trans(r3, r2, r1);
                    lemma_suffix_trans(r3, r1, s);
                }
            }
        }
    }

    fn parse<'a>(&self, input: Input<'a>) -> (r: ParseResult<'a, P::Output>) {
        let (_, remaining1) = match self.left.parse(input) {
            Ok(x) => x,
            Err(e) => return Err(e),
        };
        let (result, remaining2) = match self.parser.parse(remaining1) {
            Ok(x) => x,
            Err(e) => return Err(e),
        };
        let (_, remaining3) = match self.right.parse(remaining2) {
            Ok(x) => x,
            Err(e) => return Err(e),
        };
        Ok((result, remaining3))
    }
}

/// Parse between delimiters.
pub fn between<L: Parser, R: Parser, P: Parser>(left: L, right: R, parser: P) -> (p: Between<
    L,
    R,
    P,
>)
    ensures
        p == (Between { left, right, parser }),
{
    Between { left, right, parser }
}

// ---------------------------------------------------------------------------
// Laws of the combinators
// ---------------------------------------------------------------------------
/// `many` never fails, and neither does `optional`.
pub proof fn lemma_many_and_optional_never_fail<P: Parser>(p: P, s: Seq<char>)
    ensures
        Many(p).spec_parse(s) is Ok,
        Optional(p).spec_parse(s) is Ok,
        Optional(p).spec_parse(s) matches Ok((None, r)) ==> r == s,
{
}

/// `many1(p)` succeeds exactly where `many(p)` produces at least one value, and
/// then gives the same values and leaves the same input.
pub proof fn lemma_many1_is_nonempty_many<P: Parser>(p: P, s: Seq<char>)
    requires
        p.productive(),
    ensures
        Many1(p).spec_parse(s) is Ok <==> many_spec(p, s).0.len() > 0,
        Many1(p).spec_parse(s) is Ok ==> Many1(p).spec_parse(s) == Many(p).spec_parse(s),
        Many1(p).spec_parse(s) matches Err(e) ==> p.spec_parse(s) == Err::<
            (<P::Output as DeepView>::V, Seq<char>),
            Seq<char>,
        >(e),
{
    p.lemma_parse_rest(s);
}

/// Choice is associative: trying `a`, then `b` or `c`, is trying `a` or `b`, then
/// `c`, with the same results and errors.
pub proof fn lemma_choice_associative<A: Parser, B: Parser<Output = A::Output>, C: Parser<
    Output = A::Output,
>>(a: A, b: B, c: C, s: Seq<char>)
    ensures
        Choice(a, Choice(b, c)).spec_parse(s) == Choice(Choice(a, b), c).spec_parse(s),
{
}

/// Sequencing is associative up to the grouping of values: both groupings
/// succeed together, with the same values and rest, or fail with the same error.
pub proof fn lemma_seq_associative<A: Parser, B: Parser, C: Parser>(
    a: A,
    b: B,
    c: C,
    s: Seq<char>,
)
    ensures
        match (Sequence(a, Sequence(b, c)).spec_parse(s), Sequence(Sequence(a, b), c).spec_parse(
            s,
        )) {
            (Ok(((x, (y, z)), r1)), Ok((((x2, y2), z2), r2))) => x == x2 && y == y2 && z == z2
                && r1 == r2,
            (Err(e1), Err(e2)) => e1 == e2,
            _ => false,
        },
{
}

/// `between(left, right, p)` is `p` preceded by `left` and followed by `right`:
/// it agrees with `seq(left, seq(p, right))`, keeping the value of `p`.
pub proof fn lemma_between_is_sequence<L: Parser, R: Parser, P: Parser>(
    left: L,
    right: R,
    p: P,
    s: Seq<char>,
)
    ensures
        match (Between { left, right, parser: p }.spec_parse(s), Sequence(
            left,
            Sequence(p, right),
        ).spec_parse(s)) {
            (Ok((v, r1)), Ok(((_, (v2, _)), r2))) => v == v2 && r1 == r2,
            (Err(e1), Err(e2)) => e1 == e2,
            _ => false,
        },
{
}

/// Repeating `satisfy(pred)` reads exactly the longest prefix of characters
/// that pass `pred`, and gives those characters.
pub proof fn lemma_many_satisfy<P: CharPredicate>(pred: P, s: Seq<char>)
    ensures
        ({
            let (vs, r) = many_spec(Satisfy { predicate: pred }, s);
            let k = s.len() - r.len();
            &&& is_suffix_of(r, s)
            &&& vs == s.take(k)
            &&& forall|i: int| 0 <= i < k ==> pred.spec_holds(#[trigger] s[i])
            &&& r.len() > 0 ==> !pred.spec_holds(r[0])
        }),
    decreases s.len(),
{
    let p = Satisfy { predicate: pred };
    lemma_many_rest(p, s);
    if s.len() > 0 && pred.spec_holds(s[0]) {
        let rest = s.drop_first();
        lemma_many_satisfy(pred, rest);
        let (vs1, r) = many_spec(p, rest);
        let k1 = rest.len() - r.len();
        assert(seq![s[0]] + rest.take(k1) =~= s.take(k1 + 1));
        assert forall|i: int| 0 <= i < k1 + 1 implies pred.spec_holds(#[trigger] s[i]) by {
            if i > 0 {
                assert(s[i] == rest[i - 1]);
            }
        }
    } else {
        assert(s.take(0) =~= Seq::<char>::empty());
    }
}

/// `skip_whitespace` never fails and skips exactly the leading white space.
pub proof fn lemma_skip_whitespace(s: Seq<char>)
    ensures
        skip_whitespace_parser().spec_parse(s) matches Ok((_, r)) && {
            let k = s.len() - r.len();
            &&& is_suffix_of(r, s)
            &&& forall|i: int| 0 <= i < k ==> char_is_whitespace(#[trigger] s[i])
            &&& r.len() > 0 ==> !char_is_whitespace(r[0])
        },
{
    lemma_many_satisfy(Whitespace, s);
}

/// `number` succeeds exactly on input that starts with a digit; it reads the
/// whole run of digits there and gives their value as an `i32` (0 where the
/// value does not fit).
pub proof fn lemma_number_reads_digits(s: Seq<char>)
    ensures
        number_parser().spec_parse(s) is Err <==> (s.len() == 0 || !is_ascii_digit(s[0])),
        number_parser().spec_parse(s) matches Ok((n, r)) ==> {
            let k = s.len() - r.len();
            &&& is_suffix_of(r, s)
            &&& k > 0
            &&& all_digits(s.take(k))
            &&& r.len() > 0 ==> !is_ascii_digit(r[0])
            &&& n == digits_to_i32(s.take(k))
        },
{
    if s.len() > 0 && is_ascii_digit(s[0]) {
        let rest = s.drop_first();
        lemma_many_satisfy(AsciiDigit, rest);
        let (vs, r) = many_spec(Satisfy { predicate: AsciiDigit }, rest);
        let k1 = rest.len() - r.len();
        lemma_suffix_drop_first(s);
        lemma_suffix_trans(r, rest, s);
        assert(seq![s[0]] + rest.take(k1) =~= s.take(k1 + 1));
        assert forall|i: int| 0 <= i < k1 + 1 implies is_ascii_digit(#[trigger] s.take(k1 + 1)[i]) by {
            if i > 0 {
                assert(s[i] == rest[i - 1]);
            }
        }
    }
}

/// `char(c)` succeeds exactly on input that starts with `c`; it gives `c` and
/// leaves everything after that first character. Otherwise it fails, naming
/// the character it found or the end of the input.
pub proof fn lemma_char_reads_that_character(c: char, s: Seq<char>)
    ensures
        (Char { expected: c }).spec_parse(s) is Ok <==> (s.len() > 0 && s[0] == c),
        (Char { expected: c }).spec_parse(s) matches Ok((v, r)) ==> v == c && r.len() + 1
            == s.len() && forall|j: int| 0 <= j < r.len() ==> #[trigger] r[j] == s[j + 1],
        (Char { expected: c }).spec_parse(s) matches Err(m) ==> (s.len() == 0 && m
            == char_eof_message(c)) || (s.len() > 0 && s[0] != c && m == char_mismatch_message(
            c,
            s[0],
        )),
{
}

/// `string(e)` succeeds exactly on input whose first characters are all of
/// `e`; it gives `e` and leaves the input after them.
pub proof fn lemma_string_reads_that_string(e: &'static str, s: Seq<char>)
    ensures
        (Str { expected: e }).spec_parse(s) is Ok <==> (e@.len() <= s.len() && forall|j: int|
            0 <= j < e@.len() ==> #[trigger] s[j] == e@[j]),
        (Str { expected: e }).spec_parse(s) matches Ok((v, r)) ==> v == e@ && r.len() + e@.len()
            == s.len() && forall|j: int| 0 <= j < r.len() ==> #[trigger] r[j] == s[j + e@.len()],
        (Str { expected: e }).spec_parse(s) matches Err(m) ==> m == string_message(e@),
{
    let n = e@.len();
    if n <= s.len() {
        if forall|j: int| 0 <= j < n ==> #[trigger] s[j] == e@[j] {
            assert(s.subrange(0, n as int) =~= e@);
        } else {
            let j = choose|j: int| 0 <= j < n && #[trigger] s[j] != e@[j];
            assert(s.subrange(0, n as int)[j] == s[j]);
        }
    }
}

/// `satisfy(pred)` succeeds exactly on input whose first character passes
/// `pred`; it gives that character and leaves the rest.
pub proof fn lemma_satisfy_reads_one_passing_character<P: CharPredicate>(pred: P, s: Seq<char>)
    ensures
        (Satisfy { predicate: pred }).spec_parse(s) is Ok <==> (s.len() > 0 && pred.spec_holds(
            s[0],
        )),
        (Satisfy { predicate: pred }).spec_parse(s) matches Ok((v, r)) ==> v == s[0] && r.len()
            + 1 == s.len() && forall|j: int| 0 <= j < r.len() ==> #[trigger] r[j] == s[j + 1],
{
}

/// `choice(a, b)` gives exactly what `a` gives wherever `a` succeeds; only
/// where `a` fails does it give what `b` gives on the same input.
pub proof fn lemma_choice_prefers_first<A: Parser, B: Parser<Output = A::Output>>(
    a: A,
    b: B,
    s: Seq<char>,
)
    ensures
        a.spec_parse(s) is Ok ==> Choice(a, b).spec_parse(s) == a.spec_parse(s),
        a.spec_parse(s) is Err ==> Choice(a, b).spec_parse(s) == b.spec_parse(s),
{
}

/// `seq(a, b)` succeeds exactly where `a` succeeds and `b` then succeeds on
/// what `a` left; it pairs their values and leaves what `b` left. It fails with
/// the error of `a`, or else with that of `b`.
pub proof fn lemma_seq_runs_one_after_the_other<A: Parser, B: Parser>(a: A, b: B, s: Seq<char>)
    ensures
        a.spec_parse(s) matches Err(e) ==> (Sequence(a, b).spec_parse(s) matches Err(e2) && e2
            == e),
        a.spec_parse(s) matches Ok((x, r1)) ==> match b.spec_parse(r1) {
            Ok((y, r2)) => Sequence(a, b).spec_parse(s) == Ok::<
                ((<A::Output as DeepView>::V, <B::Output as DeepView>::V), Seq<char>),
                Seq<char>,
            >(((x, y), r2)),
            Err(e) => Sequence(a, b).spec_parse(s) matches Err(e2) && e2 == e,
        },
{
}

/// `map(p, f)` succeeds exactly where `p` does, leaves what `p` leaves, and
/// gives `f` applied to the value of `p`; it fails with the error of `p`.
pub proof fn lemma_map_applies_mapping<P: Parser, M: Mapper<P::Output>>(
    p: P,
    m: M,
    s: Seq<char>,
)
    ensures
        (Mapped { parser: p, mapper: m }).spec_parse(s) is Ok <==> p.spec_parse(s) is Ok,
        p.spec_parse(s) matches Ok((v, r)) ==> (Mapped { parser: p, mapper: m }).spec_parse(s)
            == Ok::<(<M::Out as DeepView>::V, Seq<char>), Seq<char>>((m.spec_apply(v), r)),
        p.spec_parse(s) matches Err(e) ==> ((Mapped { parser: p, mapper: m }).spec_parse(s) matches Err(
            e2,
        ) && e2 == e),
{
}

/// `optional(p)` gives `Some` of what `p` gives where `p` succeeds, and
/// otherwise `None` without consuming anything.
pub proof fn lemma_optional_is_p_or_nothing<P: Parser>(p: P, s: Seq<char>)
    ensures
        p.spec_parse(s) matches Ok((v, r)) ==> Optional(p).spec_parse(s) == Ok::<
            (Option<<P::Output as DeepView>::V>, Seq<char>),
            Seq<char>,
        >((Some(v), r)),
        p.spec_parse(s) is Err ==> Optional(p).spec_parse(s) == Ok::<
            (Option<<P::Output as DeepView>::V>, Seq<char>),
            Seq<char>,
        >((None, s)),
{
}

/// `many(p)` stops without consuming anything where `p` fails; where `p`
/// succeeds, its values are that of `p` followed by those of `many(p)` on what
/// `p` left, and it leaves what that later run leaves.
pub proof fn lemma_many_unfolds<P: Parser>(p: P, s: Seq<char>)
    requires
        p.productive(),
    ensures
        p.spec_parse(s) is Err ==> many_spec(p, s) == (Seq::<<P::Output as DeepView>::V>::empty(), s),
        p.spec_parse(s) matches Ok((v, r)) ==> many_spec(p, s) == (
            seq![v] + many_spec(p, r).0,
            many_spec(p, r).1,
        ),
{
    p.lemma_parse_rest(s);
    if p.spec_parse(s) is Err {
        assert(many_spec(p, s).0 =~= Seq::<<P::Output as DeepView>::V>::empty());
    }
}

/// Reading digits is positional: one more digit at the end multiplies the value
/// so far by ten and adds that digit, while the result fits in `i32`.
pub proof fn lemma_digits_to_i32_appends_digit(ds: Seq<char>, d: char)
    requires
        ds.len() > 0,
        all_digits(ds),
        is_ascii_digit(d),
        10 * decimal_value(ds) + (d as int - '0' as int) <= i32::MAX,
    ensures
        0 <= d as int - '0' as int <= 9,
        digits_to_i32(ds.push(d)) == 10 * digits_to_i32(ds) + (d as int - '0' as int),
        digits_to_i32(seq![d]) == d as int - '0' as int,
{
    lemma_decimal_value_nonneg(ds);
    assert(ds.push(d).drop_last() =~= ds);
    assert(all_digits(ds.push(d))) by {
        assert forall|i: int| 0 <= i < ds.push(d).len() implies is_ascii_digit(
            #[trigger] ds.push(d)[i],
        ) by {
            if i < ds.len() {
                assert(ds.push(d)[i] == ds[i]);
            }
        }
    }
    assert(seq![d].drop_last() =~= Seq::<char>::empty());
    assert(decimal_value(Seq::<char>::empty()) == 0);
    assert(decimal_value(seq![d]) == d as int - '0' as int);
    assert(all_digits(seq![d]));
}

} // verus!
