//! A simple toy language: arithmetic expressions over integers and variables,
//! with `+`, `-`, `*`, `/`, parentheses and assignments.
//!
//! Grammar (white space may surround every token):
//!
//! ```text
//! statement   := assignment | expression
//! assignment  := identifier '=' expression
//! expression  := term
//! term        := factor (('+' | '-') factor)*
//! factor      := primary (('*' | '/') primary)*
//! primary     := number | identifier | '(' term ')'
//! identifier  := (letter | '_') (alphanumeric | '_')*
//! number      := digit+
//! ```
use vstd::prelude::*;

use crate::combinators::{
    alphanumeric, char, choice, lemma_many_rest, lemma_skip_whitespace, letter, many, many_spec,
    number, number_parser,
    skip_whitespace,
    skip_whitespace_parser, AlphanumericChar, Char, Choice, Letter, Many, Mapped, Satisfy,
    Sequence, SkipWhitespace,
};
use crate::parser::{
    agrees, is_suffix_of, lemma_suffix_drop_first, lemma_suffix_trans, Input, Mapper, ParseResult,
    Parser, SpecResult,
};
use crate::text::{
    all_whitespace, char_is_alphabetic, char_is_alphanumeric, char_is_whitespace, push_char,
    Alphabetic, Alphanumeric, Whitespace,
};

verus! {

/// Abstract Syntax Tree for our toy language.
#[derive(Debug, PartialEq)]
pub enum Expr {
    Number(i32),
    Variable(String),
    BinaryOp { op: BinOp, left: Box<Expr>, right: Box<Expr> },
    Assignment { var: String, expr: Box<Expr> },
}

/// Binary operators.
#[derive(Debug, Clone, Copy, PartialEq, Eq)]
pub enum BinOp {
    Add,
    Subtract,
    Multiply,
    Divide,
}

/// The mathematical view of an `Expr`: names are character sequences.
pub enum SpecExpr {
    Number(i32),
    Variable(Seq<char>),
    BinaryOp { op: BinOp, left: Box<SpecExpr>, right: Box<SpecExpr> },
    Assignment { var: Seq<char>, expr: Box<SpecExpr> },
}

/// The view of an expression.
pub open spec fn expr_view(e: Expr) -> SpecExpr
    decreases e,
{
    match e {
        Expr::Number(n) => SpecExpr::Number(n),
        Expr::Variable(name) => SpecExpr::Variable(name@),
        Expr::BinaryOp { op, left, right } => SpecExpr::BinaryOp {
            op,
            left: Box::new(expr_view(*left)),
            right: Box::new(expr_view(*right)),
        },
        Expr::Assignment { var, expr } => SpecExpr::Assignment {
            var: var@,
            expr: Box::new(expr_view(*expr)),
        },
    }
}

impl Clone for Expr {
    fn clone(&self) -> (c: Self)
        ensures
            c.deep_view() == self.deep_view(),
        decreases self,
    {
        match self {
            Expr::Number(n) => Expr::Number(*n),
            Expr::Variable(name) => Expr::Variable(name.clone()),
            Expr::BinaryOp { op, left, right } => Expr::BinaryOp {
                op: *op,
                left: Box::new((**left).clone()),
                right: Box::new((**right).clone()),
            },
            Expr::Assignment { var, expr } => Expr::Assignment {
                var: var.clone(),
                expr: Box::new((**expr).clone()),
            },
        }
    }
}

impl DeepView for Expr {
    type V = SpecExpr;

    open spec fn deep_view(&self) -> SpecExpr {
        expr_view(*self)
    }
}

// ---------------------------------------------------------------------------
// Identifiers
// ---------------------------------------------------------------------------
/// Joins a first character and the characters after it into a string.
#[derive(Clone, Copy, Debug)]
pub struct JoinChars;

impl Mapper<(char, Vec<char>)> for JoinChars {
    type Out = String;

    open spec fn mapper_wf(&self) -> bool {
        true
    }

    open spec fn spec_apply(&self, v: (char, Seq<char>)) -> Seq<char> {
        seq![v.0] + v.1
    }

    fn apply(&self, t: (char, Vec<char>)) -> (u: String) {
        let (first, rest) = t;
        assert(rest.deep_view() =~= rest@);
        let mut name = String::new();
        push_char(&mut name, first);
        let n = rest.len();
        let mut i: usize = 0;
        while i < n
            invariant
                n == rest@.len(),
                i <= n,
                name@ == seq![first] + rest@.take(i as int),
            decreases n - i,
        {
            push_char(&mut name, rest[i]);
            assert(rest@.take(i + 1) =~= rest@.take(i as int).push(rest@[i as int]));
            i = i + 1;
        }
        assert(rest@.take(n as int) =~= rest@);
        name
    }
}

/// Parses an identifier: a letter or `_`, then letters, digits and `_`.
pub type Identifier = Mapped<
    Sequence<Choice<Letter, Char>, Many<Choice<AlphanumericChar, Char>>>,
    JoinChars,
>;

/// The parser that `identifier` returns.
pub open spec fn identifier_parser() -> Identifier {
    Mapped {
        parser: Sequence(
            Choice(Satisfy { predicate: Alphabetic }, Char { expected: '_' }),
            Many(Choice(Satisfy { predicate: Alphanumeric }, Char { expected: '_' })),
        ),
        mapper: JoinChars,
    }
}

/// Parse an identifier (variable name).
pub fn identifier() -> (p: Identifier)
    ensures
        p == identifier_parser(),
{
    crate::combinators::map(
        crate::combinators::seq(choice(letter(), char('_')), many(choice(alphanumeric(), char('_')))),
        JoinChars,
    )
}

/// A character that may follow the first one of an identifier.
pub open spec fn is_identifier_char(c: char) -> bool {
    char_is_alphanumeric(c) || c == '_'
}

/// The parser of the characters after the first one of an identifier.
pub open spec fn identifier_char_parser() -> Choice<AlphanumericChar, Char> {
    Choice(Satisfy { predicate: Alphanumeric }, Char { expected: '_' })
}

/// Repeating the identifier character parser reads the longest prefix of
/// identifier characters and gives those characters.
pub proof fn lemma_identifier_chars(s: Seq<char>)
    ensures
        ({
            let (vs, r) = many_spec(identifier_char_parser(), s);
            let k = s.len() - r.len();
            &&& is_suffix_of(r, s)
            &&& vs == s.take(k)
            &&& forall|i: int| 0 <= i < k ==> is_identifier_char(#[trigger] s[i])
            &&& r.len() > 0 ==> !is_identifier_char(r[0])
        }),
    decreases s.len(),
{
    let p = identifier_char_parser();
    lemma_many_rest(p, s);
    if s.len() > 0 && is_identifier_char(s[0]) {
        let rest = s.drop_first();
        lemma_identifier_chars(rest);
        let (vs1, r) = many_spec(p, rest);
        let k1 = rest.len() - r.len();
        assert(seq![s[0]] + rest.take(k1) =~= s.take(k1 + 1));
        assert forall|i: int| 0 <= i < k1 + 1 implies is_identifier_char(#[trigger] s[i]) by {
            if i > 0 {
                assert(s[i] == rest[i - 1]);
            }
        }
    } else {
        assert(s.take(0) =~= Seq::<char>::empty());
    }
}

/// `identifier` succeeds exactly on input that starts with an alphabetic
/// character or `_`; it reads that character and the longest run of
/// alphanumeric characters and `_` after it, and gives them as the name.
pub proof fn lemma_identifier_reads_name(s: Seq<char>)
    ensures
        identifier_parser().spec_parse(s) is Ok <==> (s.len() > 0 && (char_is_alphabetic(s[0])
            || s[0] == '_')),
        identifier_parser().spec_parse(s) matches Ok((name, r)) ==> {
            let k = s.len() - r.len();
            &&& is_suffix_of(r, s)
            &&& k > 0
            &&& name == s.take(k)
            &&& forall|i: int| 1 <= i < k ==> is_identifier_char(#[trigger] s[i])
            &&& r.len() > 0 ==> !is_identifier_char(r[0])
        },
{
    if s.len() > 0 && (char_is_alphabetic(s[0]) || s[0] == '_') {
        let rest = s.drop_first();
        lemma_identifier_chars(rest);
        let (vs, r) = many_spec(identifier_char_parser(), rest);
        let k1 = rest.len() - r.len();
        lemma_suffix_drop_first(s);
        lemma_suffix_trans(r, rest, s);
        assert(seq![s[0]] + rest.take(k1) =~= s.take(k1 + 1));
        assert forall|i: int| 1 <= i < k1 + 1 implies is_identifier_char(#[trigger] s[i]) by {
            assert(s[i] == rest[i - 1]);
        }
    }
}

// ---------------------------------------------------------------------------
// The grammar, as functions on character sequences
// ---------------------------------------------------------------------------
/// What is left of `s` after its leading white space.
pub open spec fn skip_ws_rest(s: Seq<char>) -> Seq<char> {
    match skip_whitespace_parser().spec_parse(s) {
        Ok((_, r)) => r,
        Err(_) => s,
    }
}

/// `(` followed by white space.
pub open spec fn open_paren_parser() -> Sequence<Char, SkipWhitespace> {
    Sequence(Char { expected: '(' }, skip_whitespace_parser())
}

/// White space followed by `)`.
pub open spec fn close_paren_parser() -> Sequence<SkipWhitespace, Char> {
    Sequence(skip_whitespace_parser(), Char { expected: ')' })
}

/// `*` or `/`.
pub open spec fn mul_op_parser() -> Choice<Char, Char> {
    Choice(Char { expected: '*' }, Char { expected: '/' })
}

/// `+` or `-`.
pub open spec fn add_op_parser() -> Choice<Char, Char> {
    Choice(Char { expected: '+' }, Char { expected: '-' })
}

/// The operator that a multiplicative operator character stands for.
pub open spec fn mul_op(c: char) -> BinOp {
    if c == '*' {
        BinOp::Multiply
    } else {
        BinOp::Divide
    }
}

/// The operator that an additive operator character stands for.
pub open spec fn add_op(c: char) -> BinOp {
    if c == '+' {
        BinOp::Add
    } else {
        BinOp::Subtract
    }
}

/// The binary expression `left op right`.
pub open spec fn binary(op: BinOp, left: SpecExpr, right: SpecExpr) -> SpecExpr {
    SpecExpr::BinaryOp { op, left: Box::new(left), right: Box::new(right) }
}

/// A primary expression: a number, a variable, or a parenthesized term.
pub open spec fn spec_primary(s: Seq<char>) -> SpecResult<SpecExpr>
    decreases s.len(), 0nat,
{
    match number_parser().spec_parse(s) {
        Ok((n, r)) => Ok((SpecExpr::Number(n), r)),
        Err(_) => match identifier_parser().spec_parse(s) {
            Ok((name, r)) => Ok((SpecExpr::Variable(name), r)),
            Err(_) => match open_paren_parser().spec_parse(s) {
                Err(e) => Err(e),
                Ok((_, r1)) => if r1.len() < s.len() {
                    match spec_term(r1) {
                        Err(e) => Err(e),
                        Ok((e, r2)) => match close_paren_parser().spec_parse(r2) {
                            Err(e) => Err(e),
                            Ok((_, r3)) => Ok((e, r3)),
                        },
                    }
                } else {
                    Err(seq![])
                },
            },
        },
    }
}

/// A factor: primaries joined by `*` and `/`, grouped to the left.
pub open spec fn spec_factor(s: Seq<char>) -> SpecResult<SpecExpr>
    decreases s.len(), 1nat,
{
    match spec_primary(s) {
        Err(e) => Err(e),
        Ok((left, r)) => if r.len() < s.len() {
            spec_factor_loop(left, r)
        } else {
            Err(seq![])
        },
    }
}

/// The rest of a factor after `left`: further `* primary` or `/ primary`.
pub open spec fn spec_factor_loop(left: SpecExpr, s: Seq<char>) -> SpecResult<SpecExpr>
    decreases s.len(), 1nat,
{
    let s1 = skip_ws_rest(s);
    match mul_op_parser().spec_parse(s1) {
        Err(_) => Ok((left, s1)),
        Ok((c, s2)) => {
            let s3 = skip_ws_rest(s2);
            if s3.len() < s.len() {
                match spec_primary(s3) {
                    Err(e) => Err(e),
                    Ok((right, r)) => if r.len() < s.len() {
                        spec_factor_loop(binary(mul_op(c), left, right), r)
                    } else {
                        Err(seq![])
                    },
                }
            } else {
                Err(seq![])
            }
        },
    }
}

/// A term: factors joined by `+` and `-`, grouped to the left.
pub open spec fn spec_term(s: Seq<char>) -> SpecResult<SpecExpr>
    decreases s.len(), 2nat,
{
    match spec_factor(s) {
        Err(e) => Err(e),
        Ok((left, r)) => if r.len() < s.len() {
            spec_term_loop(left, r)
        } else {
            Err(seq![])
        },
    }
}

/// The rest of a term after `left`: further `+ factor` or `- factor`.
pub open spec fn spec_term_loop(left: SpecExpr, s: Seq<char>) -> SpecResult<SpecExpr>
    decreases s.len(), 2nat,
{
    let s1 = skip_ws_rest(s);
    match add_op_parser().spec_parse(s1) {
        Err(_) => Ok((left, s1)),
        Ok((c, s2)) => {
            let s3 = skip_ws_rest(s2);
            if s3.len() < s.len() {
                match spec_factor(s3) {
                    Err(e) => Err(e),
                    Ok((right, r)) => if r.len() < s.len() {
                        spec_term_loop(binary(add_op(c), left, right), r)
                    } else {
                        Err(seq![])
                    },
                }
            } else {
                Err(seq![])
            }
        },
    }
}

/// An assignment: identifier, `=`, term.
pub open spec fn spec_assignment(s: Seq<char>) -> SpecResult<SpecExpr> {
    match identifier_parser().spec_parse(s) {
        Err(e) => Err(e),
        Ok((name, r1)) => {
            let r2 = skip_ws_rest(r1);
            match (Char { expected: '=' }).spec_parse(r2) {
                Err(e) => Err(e),
                Ok((_, r3)) => {
                    let r4 = skip_ws_rest(r3);
                    match spec_term(r4) {
                        Err(e) => Err(e),
                        Ok((e, r5)) => Ok((SpecExpr::Assignment { var: name, expr: Box::new(e) }, r5)),
                    }
                },
            }
        },
    }
}

/// A statement: leading white space, an assignment or else an expression,
/// trailing white space.
pub open spec fn spec_statement(s: Seq<char>) -> SpecResult<SpecExpr> {
    let r1 = skip_ws_rest(s);
    match spec_assignment(r1) {
        Ok((e, r)) => Ok((e, skip_ws_rest(r))),
        Err(_) => match spec_term(r1) {
            Err(e) => Err(e),
            Ok((e, r2)) => Ok((e, skip_ws_rest(r2))),
        },
    }
}

// ---------------------------------------------------------------------------
// What the grammar leaves of its input
// ---------------------------------------------------------------------------
/// Skipping white space leaves a suffix.
pub proof fn lemma_skip_ws_rest(s: Seq<char>)
    ensures
        is_suffix_of(skip_ws_rest(s), s),
{
    skip_whitespace_parser().lemma_parse_rest(s);
}

/// A primary consumes input and leaves a suffix.
pub proof fn lemma_primary_rest(s: Seq<char>)
    ensures
        spec_primary(s) matches Ok((_, r)) ==> is_suffix_of(r, s) && r.len() < s.len(),
    decreases s.len(), 0nat,
{
    number_parser().lemma_parse_rest(s);
    identifier_parser().lemma_parse_rest(s);
    open_paren_parser().lemma_parse_rest(s);
    if let Err(_) = number_parser().spec_parse(s) {
        if let Err(_) = identifier_parser().spec_parse(s) {
            if let Ok((_, r1)) = open_paren_parser().spec_parse(s) {
                lemma_term_rest(r1);
                if let Ok((e, r2)) = spec_term(r1) {
                    close_paren_parser().lemma_parse_rest(r2);
                    if let Ok((_, r3)) = close_paren_parser().spec_parse(r2) {
                        lemma_suffix_trans(r3, r2, r1);
                        lemma_suffix_trans(r3, r1, s);
                    }
                }
            }
        }
    }
}

/// A factor consumes input and leaves a suffix.
pub proof fn lemma_factor_rest(s: Seq<char>)
    ensures
        spec_factor(s) matches Ok((_, r)) ==> is_suffix_of(r, s) && r.len() < s.len(),
    decreases s.len(), 1nat,
{
    lemma_primary_rest(s);
    if let Ok((left, r)) = spec_primary(s) {
        lemma_factor_loop_rest(left, r);
        if let Ok((_, r2)) = spec_factor_loop(left, r) {
            lemma_suffix_trans(r2, r, s);
        }
    }
}

/// The rest of a factor leaves a suffix.
pub proof fn lemma_factor_loop_rest(left: SpecExpr, s: Seq<char>)
    ensures
        spec_factor_loop(left, s) matches Ok((_, r)) ==> is_suffix_of(r, s),
    decreases s.len(), 1nat,
{
    let s1 = skip_ws_rest(s);
    lemma_skip_ws_rest(s);
    mul_op_parser().lemma_parse_rest(s1);
    if let Ok((c, s2)) = mul_op_parser().spec_parse(s1) {
        let s3 = skip_ws_rest(s2);
        lemma_skip_ws_rest(s2);
        lemma_suffix_trans(s2, s1, s);
        lemma_suffix_trans(s3, s2, s);
        lemma_primary_rest(s3);
        if let Ok((right, r)) = spec_primary(s3) {
            lemma_suffix_trans(r, s3, s);
            lemma_factor_loop_rest(binary(mul_op(c), left, right), r);
            if let Ok((_, r2)) = spec_factor_loop(binary(mul_op(c), left, right), r) {
                lemma_suffix_trans(r2, r, s);
            }
        }
    }
}

/// A term consumes input and leaves a suffix.
pub proof fn lemma_term_rest(s: Seq<char>)
    ensures
        spec_term(s) matches Ok((_, r)) ==> is_suffix_of(r, s) && r.len() < s.len(),
    decreases s.len(), 2nat,
{
    lemma_factor_rest(s);
    if let Ok((left, r)) = spec_factor(s) {
        lemma_term_loop_rest(left, r);
        if let Ok((_, r2)) = spec_term_loop(left, r) {
            lemma_suffix_trans(r2, r, s);
        }
    }
}

/// The rest of a term leaves a suffix.
pub proof fn lemma_term_loop_rest(left: SpecExpr, s: Seq<char>)
    ensures
        spec_term_loop(left, s) matches Ok((_, r)) ==> is_suffix_of(r, s),
    decreases s.len(), 2nat,
{
    let s1 = skip_ws_rest(s);
    lemma_skip_ws_rest(s);
    add_op_parser().lemma_parse_rest(s1);
    if let Ok((c, s2)) = add_op_parser().spec_parse(s1) {
        let s3 = skip_ws_rest(s2);
        lemma_skip_ws_rest(s2);
        lemma_suffix_trans(s2, s1, s);
        lemma_suffix_trans(s3, s2, s);
        lemma_factor_rest(s3);
        if let Ok((right, r)) = spec_factor(s3) {
            lemma_suffix_trans(r, s3, s);
            lemma_term_loop_rest(binary(add_op(c), left, right), r);
            if let Ok((_, r2)) = spec_term_loop(binary(add_op(c), left, right), r) {
                lemma_suffix_trans(r2, r, s);
            }
        }
    }
}

/// An assignment consumes input and leaves a suffix.
pub proof fn lemma_assignment_rest(s: Seq<char>)
    ensures
        spec_assignment(s) matches Ok((_, r)) ==> is_suffix_of(r, s) && r.len() < s.len(),
{
    identifier_parser().lemma_parse_rest(s);
    if let Ok((name, r1)) = identifier_parser().spec_parse(s) {
        let r2 = skip_ws_rest(r1);
        lemma_skip_ws_rest(r1);
        (Char { expected: '=' }).lemma_parse_rest(r2);
        if let Ok((_, r3)) = (Char { expected: '=' }).spec_parse(r2) {
            let r4 = skip_ws_rest(r3);
            lemma_skip_ws_rest(r3);
            lemma_term_rest(r4);
            if let Ok((e, r5)) = spec_term(r4) {
                lemma_suffix_trans(r5, r4, r3);
                lemma_suffix_trans(r5, r3, r2);
                lemma_suffix_trans(r5, r2, r1);
                lemma_suffix_trans(r5, r1, s);
            }
        }
    }
}

/// A statement consumes input and leaves a suffix.
pub proof fn lemma_statement_rest(s: Seq<char>)
    ensures
        spec_statement(s) matches Ok((_, r)) ==> is_suffix_of(r, s) && r.len() < s.len(),
{
    let r1 = skip_ws_rest(s);
    lemma_skip_ws_rest(s);
    lemma_assignment_rest(r1);
    lemma_term_rest(r1);
    if let Ok((e, r)) = spec_assignment(r1) {
        lemma_skip_ws_rest(r);
        lemma_suffix_trans(skip_ws_rest(r), r, r1);
        lemma_suffix_trans(skip_ws_rest(r), r1, s);
    } else if let Ok((e, r2)) = spec_term(r1) {
        lemma_skip_ws_rest(r2);
        lemma_suffix_trans(skip_ws_rest(r2), r2, r1);
        lemma_suffix_trans(skip_ws_rest(r2), r1, s);
    }
}

// ---------------------------------------------------------------------------
// The parsers
// ---------------------------------------------------------------------------
/// Skips leading white space; where skipping fails, keeps the input.
fn skip_ws<'a>(input: Input<'a>) -> (r: Input<'a>)
    ensures
        r@ == skip_ws_rest(input@),
        is_suffix_of(r@, input@),
{
    proof {
        lemma_skip_ws_rest(input@);
    }
    match skip_whitespace().parse(input) {
        Ok((_, remaining)) => remaining,
        Err(_) => input,
    }
}

fn parse_primary<'a>(input: Input<'a>) -> (r: ParseResult<'a, Expr>)
    ensures
        agrees(r, spec_primary(input@)),
    decreases input@.len(), 0nat,
{
    match number().parse(input) {
        Ok((n, remaining)) => {
            return Ok((Expr::Number(n), remaining));
        },
        Err(_) => {},
    }
    match identifier().parse(input) {
        Ok((name, remaining)) => {
            return Ok((Expr::Variable(name), remaining));
        },
        Err(_) => {},
    }
    let (_, remaining1) = match crate::combinators::seq(char('('), skip_whitespace()).parse(input) {
        Ok(x) => x,
        Err(e) => return Err(e),
    };
    proof {
        open_paren_parser().lemma_parse_rest(input@);
    }
    let (expr, remaining2) = match parse_term(remaining1) {
        Ok(x) => x,
        Err(e) => return Err(e),
    };
    let (_, remaining3) = match crate::combinators::seq(skip_whitespace(), char(')')).parse(
        remaining2,
    ) {
        Ok(x) => x,
        Err(e) => return Err(e),
    };
    Ok((expr, remaining3))
}

fn parse_factor<'a>(input: Input<'a>) -> (r: ParseResult<'a, Expr>)
    ensures
        agrees(r, spec_factor(input@)),
    decreases input@.len(), 1nat,
{
    let (mut left, mut remaining) = match parse_primary(input) {
        Ok(x) => x,
        Err(e) => return Err(e),
    };
    proof {
        lemma_primary_rest(input@);
    }
    loop
        invariant
            remaining@.len() < input@.len(),
            spec_factor(input@) == spec_factor_loop(left.deep_view(), remaining@),
        decreases remaining@.len(),
    {
        let remaining_ws = skip_ws(remaining);
        match choice(char('*'), char('/')).parse(remaining_ws) {
            Ok((op_char, remaining_op)) => {
                proof {
                    mul_op_parser().lemma_parse_rest(remaining_ws@);
                    lemma_suffix_trans(remaining_op@, remaining_ws@, remaining@);
                }
                let after_ws = skip_ws(remaining_op);
                proof {
                    lemma_suffix_trans(after_ws@, remaining_op@, remaining@);
                    lemma_primary_rest(after_ws@);
                }
                let (right, remaining_right) = match parse_primary(after_ws) {
                    Ok(x) => x,
                    Err(e) => return Err(e),
                };
                let op = if op_char == '*' {
                    BinOp::Multiply
                } else {
                    BinOp::Divide
                };
                left = Expr::BinaryOp { op, left: Box::new(left), right: Box::new(right) };
                remaining = remaining_right;
            },
            Err(_) => {
                return Ok((left, remaining_ws));
            },
        }
    }
}

fn parse_term<'a>(input: Input<'a>) -> (r: ParseResult<'a, Expr>)
    ensures
        agrees(r, spec_term(input@)),
    decreases input@.len(), 2nat,
{
    let (mut left, mut remaining) = match parse_factor(input) {
        Ok(x) => x,
        Err(e) => return Err(e),
    };
    proof {
        lemma_factor_rest(input@);
    }
    loop
        invariant
            remaining@.len() < input@.len(),
            spec_term(input@) == spec_term_loop(left.deep_view(), remaining@),
        decreases remaining@.len(),
    {
        let remaining_ws = skip_ws(remaining);
        match choice(char('+'), char('-')).parse(remaining_ws) {
            Ok((op_char, remaining_op)) => {
                proof {
                    add_op_parser().lemma_parse_rest(remaining_ws@);
                    lemma_suffix_trans(remaining_op@, remaining_ws@, remaining@);
                }
                let after_ws = skip_ws(remaining_op);
                proof {
                    lemma_suffix_trans(after_ws@, remaining_op@, remaining@);
                    lemma_factor_rest(after_ws@);
                }
                let (right, remaining_right) = match parse_factor(after_ws) {
                    Ok(x) => x,
                    Err(e) => return Err(e),
                };
                let op = if op_char == '+' {
                    BinOp::Add
                } else {
                    BinOp::Subtract
                };
                left = Expr::BinaryOp { op, left: Box::new(left), right: Box::new(right) };
                remaining = remaining_right;
            },
            Err(_) => {
                return Ok((left, remaining_ws));
            },
        }
    }
}

fn parse_assignment<'a>(input: Input<'a>) -> (r: ParseResult<'a, Expr>)
    ensures
        agrees(r, spec_assignment(input@)),
{
    let (var_name, remaining1) = match identifier().parse(input) {
        Ok(x) => x,
        Err(e) => return Err(e),
    };
    let remaining2 = skip_ws(remaining1);
    let (_, remaining3) = match char('=').parse(remaining2) {
        Ok(x) => x,
        Err(e) => return Err(e),
    };
    let remaining4 = skip_ws(remaining3);
    let (expr, remaining5) = match parse_term(remaining4) {
        Ok(x) => x,
        Err(e) => return Err(e),
    };
    Ok((Expr::Assignment { var: var_name, expr: Box::new(expr) }, remaining5))
}

fn parse_statement<'a>(input: Input<'a>) -> (r: ParseResult<'a, Expr>)
    ensures
        agrees(r, spec_statement(input@)),
{
    let remaining1 = skip_ws(input);
    match parse_assignment(remaining1) {
        Ok((result, remaining)) => {
            let remaining3 = skip_ws(remaining);
            return Ok((result, remaining3));
        },
        Err(_) => {},
    }
    let (expr, remaining2) = match parse_term(remaining1) {
        Ok(x) => x,
        Err(e) => return Err(e),
    };
    let remaining3 = skip_ws(remaining2);
    Ok((expr, remaining3))
}

/// Parses a primary expression: a number, a variable, or a parenthesized term.
#[derive(Clone, Copy, Debug)]
pub struct Primary;

/// Parses primaries joined by `*` and `/`.
#[derive(Clone, Copy, Debug)]
pub struct Factor;

/// Parses factors joined by `+` and `-`.
#[derive(Clone, Copy, Debug)]
pub struct Term;

/// Parses an assignment `identifier = term`.
#[derive(Clone, Copy, Debug)]
pub struct Assignment;

/// Parses a statement: an assignment or an expression, with white space around.
#[derive(Clone, Copy, Debug)]
pub struct Statement;

impl Parser for Primary {
    type Output = Expr;

    open spec fn wf(&self) -> bool {
        true
    }

    open spec fn productive(&self) -> bool {
        true
    }

    open spec fn spec_parse(&self, s: Seq<char>) -> SpecResult<SpecExpr> {
        spec_primary(s)
    }

    proof fn lemma_parse_rest(&self, s: Seq<char>) {
        lemma_primary_rest(s);
    }

    fn parse<'a>(&self, input: Input<'a>) -> (r: ParseResult<'a, Expr>) {
        parse_primary(input)
    }
}

impl Parser for Factor {
    type Output = Expr;

    open spec fn wf(&self) -> bool {
        true
    }

    open spec fn productive(&self) -> bool {
        true
    }

    open spec fn spec_parse(&self, s: Seq<char>) -> SpecResult<SpecExpr> {
        spec_factor(s)
    }

    proof fn lemma_parse_rest(&self, s: Seq<char>) {
        lemma_factor_rest(s);
    }

    fn parse<'a>(&self, input: Input<'a>) -> (r: ParseResult<'a, Expr>) {
        parse_factor(input)
    }
}

impl Parser for Term {
    type Output = Expr;

    open spec fn wf(&self) -> bool {
        true
    }

    open spec fn productive(&self) -> bool {
        true
    }

    open spec fn spec_parse(&self, s: Seq<char>) -> SpecResult<SpecExpr> {
        spec_term(s)
    }

    proof fn lemma_parse_rest(&self, s: Seq<char>) {
        lemma_term_rest(s);
    }

    fn parse<'a>(&self, input: Input<'a>) -> (r: ParseResult<'a, Expr>) {
        parse_term(input)
    }
}

impl Parser for Assignment {
    type Output = Expr;

    open spec fn wf(&self) -> bool {
        true
    }

    open spec fn productive(&self) -> bool {
        true
    }

    open spec fn spec_parse(&self, s: Seq<char>) -> SpecResult<SpecExpr> {
        spec_assignment(s)
    }

    proof fn lemma_parse_rest(&self, s: Seq<char>) {
        lemma_assignment_rest(s);
    }

    fn parse<'a>(&self, input: Input<'a>) -> (r: ParseResult<'a, Expr>) {
        parse_assignment(input)
    }
}

impl Parser for Statement {
    type Output = Expr;

    open spec fn wf(&self) -> bool {
        true
    }

    open spec fn productive(&self) -> bool {
        true
    }

    open spec fn spec_parse(&self, s: Seq<char>) -> SpecResult<SpecExpr> {
        spec_statement(s)
    }

    proof fn lemma_parse_rest(&self, s: Seq<char>) {
        lemma_statement_rest(s);
    }

    fn parse<'a>(&self, input: Input<'a>) -> (r: ParseResult<'a, Expr>) {
        parse_statement(input)
    }
}

/// Parse a primary expression (number, variable, or parenthesized expression).
pub fn primary() -> Primary {
    Primary
}

/// Parse a factor (primary with potential multiplication/division).
pub fn factor() -> Factor {
    Factor
}

/// Parse a term (factor with potential addition/subtraction).
pub fn term() -> Term {
    Term
}

/// Parse an expression (just term for now).
pub fn expression() -> Term {
    term()
}

/// Parse an assignment.
pub fn assignment() -> Assignment {
    Assignment
}

/// Parse a complete statement (assignment or expression).
pub fn statement() -> Statement {
    Statement
}

// ---------------------------------------------------------------------------
// Laws of the grammar
// ---------------------------------------------------------------------------
/// Skipping white space after more white space ends where skipping it alone
/// does.
pub proof fn lemma_skip_ws_after_whitespace(w: Seq<char>, s: Seq<char>)
    requires
        all_whitespace(w),
    ensures
        skip_ws_rest(w + s) == skip_ws_rest(s),
    decreases w.len(),
{
    if w.len() > 0 {
        let ws = w + s;
        assert(ws[0] == w[0]);
        assert(char_is_whitespace(w[0]));
        assert(ws.drop_first() =~= w.drop_first() + s);
        assert(all_whitespace(w.drop_first())) by {
            assert forall|i: int| 0 <= i < w.drop_first().len() implies char_is_whitespace(
                #[trigger] w.drop_first()[i],
            ) by {
                assert(w.drop_first()[i] == w[i + 1]);
            }
        }
        lemma_skip_ws_after_whitespace(w.drop_first(), s);
        let p = Satisfy { predicate: Whitespace };
        p.lemma_parse_rest(ws);
    } else {
        assert(w + s =~= s);
    }
}

/// White space before a statement does not change how it parses.
pub proof fn lemma_statement_ignores_leading_whitespace(w: Seq<char>, s: Seq<char>)
    requires
        all_whitespace(w),
    ensures
        spec_statement(w + s) == spec_statement(s),
{
    lemma_skip_ws_after_whitespace(w, s);
}

/// A statement takes all white space after it: what it leaves is empty or
/// starts with a character that is not white space.
pub proof fn lemma_statement_takes_trailing_whitespace(s: Seq<char>)
    ensures
        spec_statement(s) matches Ok((_, r)) ==> (r.len() > 0 ==> !char_is_whitespace(r[0])),
{
    let r1 = skip_ws_rest(s);
    if let Ok((e, r)) = spec_assignment(r1) {
        lemma_skip_whitespace(r);
    } else if let Ok((e, r2)) = spec_term(r1) {
        lemma_skip_whitespace(r2);
    }
}

/// No `(` in the input.
pub open spec fn no_parens(s: Seq<char>) -> bool {
    forall|i: int| 0 <= i < s.len() ==> #[trigger] s[i] != '('
}

/// A number or a variable.
pub open spec fn is_operand(e: SpecExpr) -> bool {
    e is Number || e is Variable
}

/// Operands joined by `*` and `/`, grouped to the left.
pub open spec fn is_product(e: SpecExpr) -> bool
    decreases e,
{
    match e {
        SpecExpr::BinaryOp { op, left, right } => (op == BinOp::Multiply || op == BinOp::Divide)
            && is_product(*left) && is_operand(*right),
        _ => is_operand(e),
    }
}

/// Products joined by `+` and `-`, grouped to the left.
pub open spec fn is_sum(e: SpecExpr) -> bool
    decreases e,
{
    match e {
        SpecExpr::BinaryOp { op, left, right } => if op == BinOp::Add || op == BinOp::Subtract {
            is_sum(*left) && is_product(*right)
        } else {
            is_product(e)
        },
        _ => is_product(e),
    }
}

/// A suffix of input without `(` has none either.
proof fn lemma_no_parens_suffix(r: Seq<char>, s: Seq<char>)
    requires
        no_parens(s),
        is_suffix_of(r, s),
    ensures
        no_parens(r),
{
    assert forall|i: int| 0 <= i < r.len() implies #[trigger] r[i] != '(' by {
        assert(r[i] == s[s.len() - r.len() + i]);
    }
}

proof fn lemma_primary_shape(s: Seq<char>)
    requires
        no_parens(s),
    ensures
        spec_primary(s) matches Ok((e, _)) ==> is_operand(e),
{
    if s.len() > 0 {
        assert(s[0] != '(');
    }
}

proof fn lemma_factor_loop_shape(left: SpecExpr, s: Seq<char>)
    requires
        no_parens(s),
        is_product(left),
    ensures
        spec_factor_loop(left, s) matches Ok((e, _)) ==> is_product(e),
    decreases s.len(),
{
    let s1 = skip_ws_rest(s);
    lemma_skip_ws_rest(s);
    mul_op_parser().lemma_parse_rest(s1);
    if let Ok((c, s2)) = mul_op_parser().spec_parse(s1) {
        let s3 = skip_ws_rest(s2);
        lemma_skip_ws_rest(s2);
        lemma_suffix_trans(s2, s1, s);
        lemma_suffix_trans(s3, s2, s);
        lemma_no_parens_suffix(s3, s);
        lemma_primary_rest(s3);
        lemma_primary_shape(s3);
        if let Ok((right, r)) = spec_primary(s3) {
            lemma_suffix_trans(r, s3, s);
            lemma_no_parens_suffix(r, s);
            lemma_factor_loop_shape(binary(mul_op(c), left, right), r);
        }
    }
}

proof fn lemma_factor_shape(s: Seq<char>)
    requires
        no_parens(s),
    ensures
        spec_factor(s) matches Ok((e, _)) ==> is_product(e),
{
    lemma_primary_rest(s);
    lemma_primary_shape(s);
    if let Ok((left, r)) = spec_primary(s) {
        lemma_no_parens_suffix(r, s);
        lemma_factor_loop_shape(left, r);
    }
}

proof fn lemma_term_loop_shape(left: SpecExpr, s: Seq<char>)
    requires
        no_parens(s),
        is_sum(left),
    ensures
        spec_term_loop(left, s) matches Ok((e, _)) ==> is_sum(e),
    decreases s.len(),
{
    let s1 = skip_ws_rest(s);
    lemma_skip_ws_rest(s);
    add_op_parser().lemma_parse_rest(s1);
    if let Ok((c, s2)) = add_op_parser().spec_parse(s1) {
        let s3 = skip_ws_rest(s2);
        lemma_skip_ws_rest(s2);
        lemma_suffix_trans(s2, s1, s);
        lemma_suffix_trans(s3, s2, s);
        lemma_no_parens_suffix(s3, s);
        lemma_factor_rest(s3);
        lemma_factor_shape(s3);
        if let Ok((right, r)) = spec_factor(s3) {
            lemma_suffix_trans(r, s3, s);
            lemma_no_parens_suffix(r, s);
            lemma_term_loop_shape(binary(add_op(c), left, right), r);
        }
    }
}

proof fn lemma_term_shape(s: Seq<char>)
    requires
        no_parens(s),
    ensures
        spec_term(s) matches Ok((e, _)) ==> is_sum(e),
{
    lemma_factor_rest(s);
    lemma_factor_shape(s);
    if let Ok((left, r)) = spec_factor(s) {
        lemma_no_parens_suffix(r, s);
        lemma_term_loop_shape(left, r);
    }
}

/// Precedence and grouping: without parentheses, a statement's expression (or
/// the expression it assigns) is a left-grouped chain of `+` and `-` over
/// left-grouped chains of `*` and `/` over numbers and variables.
pub proof fn lemma_precedence_and_left_grouping(s: Seq<char>)
    requires
        no_parens(s),
    ensures
        spec_statement(s) matches Ok((e, _)) ==> match e {
            SpecExpr::Assignment { var, expr } => is_sum(*expr),
            _ => is_sum(e),
        },
{
    let r1 = skip_ws_rest(s);
    lemma_skip_ws_rest(s);
    lemma_no_parens_suffix(r1, s);
    lemma_term_shape(r1);
    if let Ok((name, q1)) = identifier_parser().spec_parse(r1) {
        identifier_parser().lemma_parse_rest(r1);
        let q2 = skip_ws_rest(q1);
        lemma_skip_ws_rest(q1);
        (Char { expected: '=' }).lemma_parse_rest(q2);
        if let Ok((_, q3)) = (Char { expected: '=' }).spec_parse(q2) {
            let q4 = skip_ws_rest(q3);
            lemma_skip_ws_rest(q3);
            lemma_suffix_trans(q4, q3, q2);
            lemma_suffix_trans(q4, q2, q1);
            lemma_suffix_trans(q4, q1, r1);
            lemma_no_parens_suffix(q4, r1);
            lemma_term_shape(q4);
        }
    }
}

/// Skipping white space leaves input that does not start with white space as
/// it is.
proof fn lemma_skip_ws_none(s: Seq<char>)
    requires
        s.len() > 0,
        !char_is_whitespace(s[0]),
    ensures
        skip_ws_rest(s) == s,
{
}

/// White space between the left operand and a `*` or `/` does not matter: the
/// rest of a factor parses the same with or without it.
pub proof fn lemma_factor_whitespace_before_operator(left: SpecExpr, w: Seq<char>, s: Seq<char>)
    requires
        all_whitespace(w),
    ensures
        spec_factor_loop(left, w + s) == spec_factor_loop(left, s),
{
    lemma_skip_ws_after_whitespace(w, s);
    let s1 = skip_ws_rest(s);
    lemma_skip_ws_rest(s);
    mul_op_parser().lemma_parse_rest(s1);
    if let Ok((c, s2)) = mul_op_parser().spec_parse(s1) {
        let s3 = skip_ws_rest(s2);
        lemma_skip_ws_rest(s2);
        lemma_suffix_trans(s2, s1, s);
        lemma_suffix_trans(s3, s2, s);
        lemma_primary_rest(s3);
    }
}

/// White space between a `*` or `/` and the right operand does not matter:
/// the rest of a factor parses the same with or without it.
pub proof fn lemma_factor_whitespace_after_operator(
    left: SpecExpr,
    c: char,
    w: Seq<char>,
    s: Seq<char>,
)
    requires
        c == '*' || c == '/',
        !char_is_whitespace(c),
        all_whitespace(w),
    ensures
        spec_factor_loop(left, seq![c] + w + s) == spec_factor_loop(left, seq![c] + s),
{
    let x = seq![c] + w + s;
    let y = seq![c] + s;
    lemma_skip_ws_none(x);
    lemma_skip_ws_none(y);
    assert(x.drop_first() =~= w + s);
    assert(y.drop_first() =~= s);
    lemma_skip_ws_after_whitespace(w, s);
    lemma_skip_ws_rest(s);
    lemma_primary_rest(skip_ws_rest(s));
}

/// White space between the left operand and a `+` or `-` does not matter: the
/// rest of a term parses the same with or without it.
pub proof fn lemma_term_whitespace_before_operator(left: SpecExpr, w: Seq<char>, s: Seq<char>)
    requires
        all_whitespace(w),
    ensures
        spec_term_loop(left, w + s) == spec_term_loop(left, s),
{
    lemma_skip_ws_after_whitespace(w, s);
    let s1 = skip_ws_rest(s);
    lemma_skip_ws_rest(s);
    add_op_parser().lemma_parse_rest(s1);
    if let Ok((c, s2)) = add_op_parser().spec_parse(s1) {
        let s3 = skip_ws_rest(s2);
        lemma_skip_ws_rest(s2);
        lemma_suffix_trans(s2, s1, s);
        lemma_suffix_trans(s3, s2, s);
        lemma_factor_rest(s3);
    }
}

/// White space between a `+` or `-` and the right operand does not matter:
/// the rest of a term parses the same with or without it.
pub proof fn lemma_term_whitespace_after_operator(
    left: SpecExpr,
    c: char,
    w: Seq<char>,
    s: Seq<char>,
)
    requires
        c == '+' || c == '-',
        !char_is_whitespace(c),
        all_whitespace(w),
    ensures
        spec_term_loop(left, seq![c] + w + s) == spec_term_loop(left, seq![c] + s),
{
    let x = seq![c] + w + s;
    let y = seq![c] + s;
    lemma_skip_ws_none(x);
    lemma_skip_ws_none(y);
    assert(x.drop_first() =~= w + s);
    assert(y.drop_first() =~= s);
    lemma_skip_ws_after_whitespace(w, s);
    lemma_skip_ws_rest(s);
    lemma_factor_rest(skip_ws_rest(s));
}

/// A factor is a primary followed by the rest of a factor; with the primary
/// `p` read from the front, what follows is read as `*` or `/` operands.
pub proof fn lemma_factor_is_primary_then_operands(s: Seq<char>)
    ensures
        spec_primary(s) matches Err(e) ==> spec_factor(s) == Err::<(SpecExpr, Seq<char>), Seq<char>>(e),
        spec_primary(s) matches Ok((p, r)) ==> spec_factor(s) == spec_factor_loop(p, r),
{
    lemma_primary_rest(s);
}

/// The rest of a factor: where no `*` or `/` follows (after white space), the
/// factor ends there; where one does, the left operand becomes the left side
/// of that operator, with the next primary as its right side.
pub proof fn lemma_factor_operator_grouping(left: SpecExpr, s: Seq<char>)
    ensures
        ({
            let s1 = skip_ws_rest(s);
            if s1.len() > 0 && (s1[0] == '*' || s1[0] == '/') {
                let s3 = skip_ws_rest(s1.drop_first());
                match spec_primary(s3) {
                    Err(e) => spec_factor_loop(left, s) == Err::<(SpecExpr, Seq<char>), Seq<char>>(e),
                    Ok((right, r)) => spec_factor_loop(left, s) == spec_factor_loop(
                        binary(if s1[0] == '*' { BinOp::Multiply } else { BinOp::Divide }, left, right),
                        r,
                    ),
                }
            } else {
                spec_factor_loop(left, s) == Ok::<(SpecExpr, Seq<char>), Seq<char>>((left, s1))
            }
        }),
{
    let s1 = skip_ws_rest(s);
    lemma_skip_ws_rest(s);
    mul_op_parser().lemma_parse_rest(s1);
    if let Ok((c, s2)) = mul_op_parser().spec_parse(s1) {
        let s3 = skip_ws_rest(s2);
        lemma_skip_ws_rest(s2);
        lemma_suffix_trans(s2, s1, s);
        lemma_suffix_trans(s3, s2, s);
        lemma_primary_rest(s3);
    }
}

} // verus!
