//! Core parser types and traits.
//!
//! A parser reads a prefix of its input and answers either a value together with
//! the input that is left, or an error. Every parser of this crate carries a
//! mathematical meaning, `spec_parse`, from the characters of the input to that
//! answer; its executable `parse` is proved to compute exactly that meaning.
use vstd::prelude::*;
use vstd::string::StrSliceExecFns;

verus! {

/// The input to a parser: a string slice.
pub type Input<'a> = &'a str;

/// The result of running a parser: the value and the remaining input, or an error.
pub type ParseResult<'a, T> = Result<(T, Input<'a>), ParseError>;

/// What a parser means on a sequence of characters: the view of the value and the
/// characters that are left, or the message of the error.
pub type SpecResult<V> = Result<(V, Seq<char>), Seq<char>>;

/// Error type for parsing failures.
#[derive(Debug, Clone, PartialEq)]
pub struct ParseError {
    pub message: String,
    pub position: usize,
}

/// Builds a parse error with the given message; the position is always 0.
pub fn parse_error(message: &str, _input: Input) -> (e: ParseError)
    ensures
        e.message@ == message@,
        e.position == 0,
{
    ParseError { message: message.to_owned(), position: 0 }
}

impl ParseError {
    /// A readable description of this error:
    /// `Parse error at position {position}: {message}`.
    pub fn describe(&self) -> (s: String)
        ensures
            s@ == "Parse error at position "@ + usize_decimal(self.position as nat) + ": "@
                + self.message@,
    {
        let mut s = "Parse error at position ".to_owned();
        let digits = usize_to_string(self.position);
        s.append(digits.as_str());
        s.append(": ");
        s.append(self.message.as_str());
        s
    }
}

/// The decimal digits of a natural number, most significant first.
pub open spec fn usize_decimal(n: nat) -> Seq<char>
    decreases n,
{
    if n < 10 {
        seq![digit_char(n)]
    } else {
        usize_decimal(n / 10).push(digit_char(n % 10))
    }
}

/// The character of a decimal digit below ten.
pub open spec fn digit_char(d: nat) -> char {
    if d == 0 {
        '0'
    } else if d == 1 {
        '1'
    } else if d == 2 {
        '2'
    } else if d == 3 {
        '3'
    } else if d == 4 {
        '4'
    } else if d == 5 {
        '5'
    } else if d == 6 {
        '6'
    } else if d == 7 {
        '7'
    } else if d == 8 {
        '8'
    } else {
        '9'
    }
}

fn digit_to_char(d: usize) -> (c: char)
    requires
        d < 10,
    ensures
        c == digit_char(d as nat),
{
    if d == 0 {
        '0'
    } else if d == 1 {
        '1'
    } else if d == 2 {
        '2'
    } else if d == 3 {
        '3'
    } else if d == 4 {
        '4'
    } else if d == 5 {
        '5'
    } else if d == 6 {
        '6'
    } else if d == 7 {
        '7'
    } else if d == 8 {
        '8'
    } else {
        '9'
    }
}

/// Writes a number in decimal.
pub fn usize_to_string(n: usize) -> (s: String)
    ensures
        s@ == usize_decimal(n as nat),
    decreases n,
{
    if n < 10 {
        let mut s = String::new();
        crate::text::push_char(&mut s, digit_to_char(n));
        assert(s@ =~= seq![digit_char(n as nat)]);
        s
    } else {
        let mut s = usize_to_string(n / 10);
        crate::text::push_char(&mut s, digit_to_char(n % 10));
        s
    }
}

/// `rest` is what is left of `s` after some prefix of it has been read.
pub open spec fn is_suffix_of(rest: Seq<char>, s: Seq<char>) -> bool {
    &&& rest.len() <= s.len()
    &&& rest == s.subrange(s.len() - rest.len(), s.len() as int)
}

/// A run of a parser agrees with its meaning `spec`: the same value (by its deep
/// view) and remaining input, or an error with the same message at position 0.
pub open spec fn agrees<'a, T: DeepView>(
    r: Result<(T, &'a str), ParseError>,
    spec: SpecResult<T::V>,
) -> bool {
    match spec {
        Ok((v, rest)) => r matches Ok((t, rem)) && t.deep_view() == v && rem@ == rest,
        Err(msg) => r matches Err(e) && e.message@ == msg && e.position == 0,
    }
}

/// A composable parser.
pub trait Parser {
    /// The type of the values this parser produces.
    type Output: DeepView;

    /// Whether the parser can run: every part of it that its user supplied
    /// (a predicate, a mapping) answers each argument and always the same way,
    /// and each repetition repeats a parser that consumes input.
    spec fn wf(&self) -> bool;

    /// Every success of this parser consumes at least one character.
    spec fn productive(&self) -> bool;

    /// The meaning of the parser on a sequence of characters.
    spec fn spec_parse(&self, s: Seq<char>) -> SpecResult<<Self::Output as DeepView>::V>;

    /// What is left after a success is a suffix of the input, and a strict one
    /// for a productive parser.
    proof fn lemma_parse_rest(&self, s: Seq<char>)
        ensures
            self.spec_parse(s) matches Ok((_, rest)) ==> is_suffix_of(rest, s),
            self.productive() ==> (self.spec_parse(s) matches Ok((_, rest)) ==> rest.len()
                < s.len()),
    ;

    /// Runs the parser on `input`.
    fn parse<'a>(&self, input: Input<'a>) -> (r: ParseResult<'a, Self::Output>)
        requires
            self.wf(),
        ensures
            agrees(r, self.spec_parse(input@)),
    ;
}

/// A transformation of parsed values, as `map` applies it.
pub trait Mapper<T: DeepView> {
    /// The type of the transformed values.
    type Out: DeepView;

    /// Whether `apply` can be called on every value and answers by its view alone.
    spec fn mapper_wf(&self) -> bool;

    /// The transformation on views.
    spec fn spec_apply(&self, v: T::V) -> <Self::Out as DeepView>::V;

    fn apply(&self, t: T) -> (u: Self::Out)
        requires
            self.mapper_wf(),
        ensures
            u.deep_view() == self.spec_apply(t.deep_view()),
    ;
}

/// Any closure is a mapping; its meaning on a view is what it returns on values
/// with that view.
impl<T: DeepView, U: DeepView, F: Fn(T) -> U> Mapper<T> for F {
    type Out = U;

    open spec fn mapper_wf(&self) -> bool {
        &&& forall|t: T| call_requires(*self, (t,))
        &&& forall|t1: T, t2: T, u1: U, u2: U|
            #![trigger call_ensures(*self, (t1,), u1), call_ensures(*self, (t2,), u2)]
            t1.deep_view() == t2.deep_view() && call_ensures(*self, (t1,), u1) && call_ensures(
                *self,
                (t2,),
                u2,
            ) ==> u1.deep_view() == u2.deep_view()
    }

    open spec fn spec_apply(&self, v: T::V) -> U::V {
        let (t, u) = choose|t: T, u: U|
            #![trigger call_ensures(*self, (t,), u)]
            t.deep_view() == v && call_ensures(*self, (t,), u);
        u.deep_view()
    }

    fn apply(&self, t: T) -> (u: U) {
        let ghost tv = t.deep_view();
        let u = (*self)(t);
        proof {
            assert(call_ensures(*self, (t,), u));
            let (t2, u2) = choose|t2: T, u2: U|
                #![trigger call_ensures(*self, (t2,), u2)]
                t2.deep_view() == tv && call_ensures(*self, (t2,), u2);
        }
        u
    }
}

/// A test on single characters, as `satisfy` applies it.
pub trait CharPredicate {
    /// The meaning of the test.
    spec fn spec_holds(&self, c: char) -> bool;

    /// Whether `holds` can be called on every character and answers one way.
    spec fn predicate_wf(&self) -> bool;

    fn holds(&self, c: char) -> (b: bool)
        requires
            self.predicate_wf(),
        ensures
            b == self.spec_holds(c),
    ;
}

/// Any closure from characters to booleans is a test.
impl<F: Fn(char) -> bool> CharPredicate for F {
    open spec fn spec_holds(&self, c: char) -> bool {
        call_ensures(*self, (c,), true)
    }

    open spec fn predicate_wf(&self) -> bool {
        &&& forall|c: char| call_requires(*self, (c,))
        &&& forall|c: char|
            !(#[trigger] call_ensures(*self, (c,), true) && call_ensures(*self, (c,), false))
    }

    fn holds(&self, c: char) -> (b: bool) {
        (*self)(c)
    }
}

/// Splits the first character off a string slice.
pub fn split_first<'a>(input: Input<'a>) -> (r: Option<(char, Input<'a>)>)
    ensures
        input@.len() == 0 ==> r is None,
        input@.len() > 0 ==> (r matches Some((c, rest)) && c == input@[0] && rest@
            == input@.drop_first()),
{
    let n = input.unicode_len();
    if n == 0 {
        None
    } else {
        let c = input.get_char(0);
        let rest = input.substring_char(1, n);
        assert(rest@ =~= input@.drop_first());
        Some((c, rest))
    }
}

/// A suffix of a suffix is a suffix.
pub proof fn lemma_suffix_trans(r2: Seq<char>, r1: Seq<char>, s: Seq<char>)
    requires
        is_suffix_of(r2, r1),
        is_suffix_of(r1, s),
    ensures
        is_suffix_of(r2, s),
{
    assert(r2 =~= s.subrange(s.len() - r2.len(), s.len() as int));
}

/// A sequence is a suffix of itself.
pub proof fn lemma_suffix_refl(s: Seq<char>)
    ensures
        is_suffix_of(s, s),
{
    assert(s =~= s.subrange(0, s.len() as int));
}

/// Dropping the first character leaves a suffix.
pub proof fn lemma_suffix_drop_first(s: Seq<char>)
    requires
        s.len() > 0,
    ensures
        is_suffix_of(s.drop_first(), s),
{
    assert(s.drop_first() =~= s.subrange(1, s.len() as int));
}

} // verus!
