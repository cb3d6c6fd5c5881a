//! Evaluation of toy language expressions, and parsing together with evaluation.
use vstd::prelude::*;
use vstd::string::StrSliceExecFns;
use vstd::string::StringExecFns;

use crate::parser::Parser;
use crate::text::{all_whitespace, char_is_whitespace, is_whitespace};
use crate::toy_language::{
    lemma_statement_ignores_leading_whitespace, spec_statement, statement, BinOp, Expr, SpecExpr,
};

verus! {

// ---------------------------------------------------------------------------
// Variable context
// ---------------------------------------------------------------------------
/// The values of variables during evaluation.
pub struct Context {
    entries: Vec<(String, i32)>,
}

/// The variables that a list of bindings defines; a later binding of a name
/// replaces an earlier one.
pub open spec fn bindings_map(entries: Seq<(String, i32)>) -> Map<Seq<char>, i32>
    decreases entries.len(),
{
    if entries.len() == 0 {
        Map::empty()
    } else {
        bindings_map(entries.drop_last()).insert(entries.last().0@, entries.last().1)
    }
}

impl View for Context {
    type V = Map<Seq<char>, i32>;

    closed spec fn view(&self) -> Map<Seq<char>, i32> {
        bindings_map(self.entries@)
    }
}

impl Context {
    /// A context with no variables.
    pub fn new() -> (c: Context)
        ensures
            c@ == Map::<Seq<char>, i32>::empty(),
    {
        Context { entries: Vec::new() }
    }

    /// Sets `name` to `value`.
    pub fn insert(&mut self, name: String, value: i32)
        ensures
            final(self)@ == old(self)@.insert(name@, value),
    {
        let ghost k = name@;
        self.entries.push((name, value));
        assert(self.entries@.drop_last() =~= old(self).entries@);
    }

    /// The value of `name`, if it is set.
    pub fn get(&self, name: &str) -> (v: Option<i32>)
        ensures
            v == (if self@.contains_key(name@) {
                Some(self@[name@])
            } else {
                None::<i32>
            }),
    {
        let mut i = self.entries.len();
        assert(self.entries@.take(i as int) =~= self.entries@);
        while i > 0
            invariant
                i <= self.entries@.len(),
                bindings_map(self.entries@.take(i as int)).contains_key(name@) == self@.contains_key(
                    name@,
                ),
                self@.contains_key(name@) ==> bindings_map(self.entries@.take(i as int))[name@]
                    == self@[name@],
            decreases i,
        {
            let ghost prefix = self.entries@.take(i as int);
            assert(prefix.drop_last() =~= self.entries@.take(i - 1));
            if str_eq(self.entries[i - 1].0.as_str(), name) {
                return Some(self.entries[i - 1].1);
            }
            i = i - 1;
        }
        assert(self.entries@.take(0) =~= Seq::<(String, i32)>::empty());
        None
    }
}

/// Whether two string slices hold the same characters.
fn str_eq(a: &str, b: &str) -> (r: bool)
    ensures
        r == (a@ == b@),
{
    let n = a.unicode_len();
    if n != b.unicode_len() {
        return false;
    }
    let mut i: usize = 0;
    while i < n
        invariant
            n == a@.len(),
            n == b@.len(),
            i <= n,
            forall|j: int| 0 <= j < i ==> a@[j] == b@[j],
        decreases n - i,
    {
        if a.get_char(i) != b.get_char(i) {
            return false;
        }
        i = i + 1;
    }
    assert(a@ =~= b@);
    true
}

// ---------------------------------------------------------------------------
// Evaluation
// ---------------------------------------------------------------------------
/// How evaluating an expression ends: with a value, with an error message, or
/// with an arithmetic overflow (where `i32` arithmetic would panic).
pub enum Outcome {
    Value(i32),
    Error(Seq<char>),
    Overflow,
}

/// An integer as an outcome: its value where it fits in `i32`.
pub open spec fn in_range(v: int) -> Outcome {
    if i32::MIN <= v <= i32::MAX {
        Outcome::Value(v as i32)
    } else {
        Outcome::Overflow
    }
}

/// Integer division rounded toward zero, as Rust's `/` divides.
pub open spec fn trunc_div(a: int, b: int) -> int {
    if a == 0 {
        0
    } else if a > 0 && b > 0 {
        a / b
    } else if a < 0 && b < 0 {
        (-a) / (-b)
    } else if a < 0 {
        -((-a) / b)
    } else {
        -(a / (-b))
    }
}

/// The message of a division by zero.
pub open spec fn division_by_zero_message() -> Seq<char> {
    "Division by zero"@
}

/// The message of a variable that is not set.
pub open spec fn undefined_variable_message(name: Seq<char>) -> Seq<char> {
    "Undefined variable: "@ + name
}

/// What a binary operator gives on two values.
pub open spec fn apply_op(op: BinOp, a: i32, b: i32) -> Outcome {
    match op {
        BinOp::Add => in_range(a + b),
        BinOp::Subtract => in_range(a - b),
        BinOp::Multiply => in_range(a * b),
        BinOp::Divide => if b == 0 {
            Outcome::Error(division_by_zero_message())
        } else {
            in_range(trunc_div(a as int, b as int))
        },
    }
}

/// Evaluating an expression in a context: the outcome and the context after it.
/// Operands are evaluated left to right; an assignment sets its variable after
/// evaluating its expression; the first error or overflow ends the evaluation.
pub open spec fn spec_evaluate(e: SpecExpr, ctx: Map<Seq<char>, i32>) -> (
    Outcome,
    Map<Seq<char>, i32>,
)
    decreases e,
{
    match e {
        SpecExpr::Number(n) => (Outcome::Value(n), ctx),
        SpecExpr::Variable(name) => if ctx.contains_key(name) {
            (Outcome::Value(ctx[name]), ctx)
        } else {
            (Outcome::Error(undefined_variable_message(name)), ctx)
        },
        SpecExpr::BinaryOp { op, left, right } => {
            let (l, c1) = spec_evaluate(*left, ctx);
            match l {
                Outcome::Value(a) => {
                    let (r, c2) = spec_evaluate(*right, c1);
                    match r {
                        Outcome::Value(b) => (apply_op(op, a, b), c2),
                        _ => (r, c2),
                    }
                },
                _ => (l, c1),
            }
        },
        SpecExpr::Assignment { var, expr } => {
            let (v, c1) = spec_evaluate(*expr, ctx);
            match v {
                Outcome::Value(x) => (Outcome::Value(x), c1.insert(var, x)),
                _ => (v, c1),
            }
        },
    }
}

/// A result agrees with an outcome that is not an overflow.
pub open spec fn result_agrees(r: Result<i32, String>, o: Outcome) -> bool {
    match o {
        Outcome::Value(v) => r == Ok::<i32, String>(v),
        Outcome::Error(m) => r matches Err(s) && s@ == m,
        Outcome::Overflow => false,
    }
}

/// The result of evaluation, with overflow kept apart.
enum Evaluated {
    Value(i32),
    Error(String),
    Overflow,
}

spec fn evaluated_agrees(r: Evaluated, o: Outcome) -> bool {
    match o {
        Outcome::Value(v) => r == Evaluated::Value(v),
        Outcome::Error(m) => r matches Evaluated::Error(s) && s@ == m,
        Outcome::Overflow => r is Overflow,
    }
}

fn eval_op(op: BinOp, a: i32, b: i32) -> (r: Evaluated)
    ensures
        evaluated_agrees(r, apply_op(op, a, b)),
{
    let checked = match op {
        BinOp::Add => a.checked_add(b),
        BinOp::Subtract => a.checked_sub(b),
        BinOp::Multiply => a.checked_mul(b),
        BinOp::Divide => {
            if b == 0 {
                return Evaluated::Error("Division by zero".to_owned());
            }
            a.checked_div(b)
        },
    };
    match checked {
        Some(v) => Evaluated::Value(v),
        None => Evaluated::Overflow,
    }
}

fn eval_expr(expr: &Expr, context: &mut Context) -> (r: Evaluated)
    ensures
        evaluated_agrees(r, spec_evaluate(expr.deep_view(), old(context)@).0),
        final(context)@ == spec_evaluate(expr.deep_view(), old(context)@).1,
    decreases expr,
{
    match expr {
        Expr::Number(n) => Evaluated::Value(*n),
        Expr::Variable(name) => match context.get(name.as_str()) {
            Some(v) => Evaluated::Value(v),
            None => {
                let mut m = "Undefined variable: ".to_owned();
                m.append(name.as_str());
                Evaluated::Error(m)
            },
        },
        Expr::BinaryOp { op, left, right } => {
            let left_val = match eval_expr(left, context) {
                Evaluated::Value(v) => v,
                other => return other,
            };
            let right_val = match eval_expr(right, context) {
                Evaluated::Value(v) => v,
                other => return other,
            };
            eval_op(*op, left_val, right_val)
        },
        Expr::Assignment { var, expr } => {
            let value = match eval_expr(expr, context) {
                Evaluated::Value(v) => v,
                other => return other,
            };
            context.insert(var.clone(), value);
            Evaluated::Value(value)
        },
    }
}

/// Evaluate an expression with a given variable context.
pub fn evaluate(expr: &Expr, context: &mut Context) -> (r: Result<i32, String>)
    requires
        !(spec_evaluate(expr.deep_view(), old(context)@).0 is Overflow),
    ensures
        result_agrees(r, spec_evaluate(expr.deep_view(), old(context)@).0),
        final(context)@ == spec_evaluate(expr.deep_view(), old(context)@).1,
{
    match eval_expr(expr, context) {
        Evaluated::Value(v) => Ok(v),
        Evaluated::Error(m) => Err(m),
        Evaluated::Overflow => Err(String::new()),
    }
}

/// Evaluates an expression as `evaluate` does, and answers `None` where
/// `evaluate` would overflow `i32` arithmetic.
pub fn evaluate_checked(expr: &Expr, context: &mut Context) -> (r: Option<Result<i32, String>>)
    ensures
        r is None <==> spec_evaluate(expr.deep_view(), old(context)@).0 is Overflow,
        r matches Some(res) ==> result_agrees(res, spec_evaluate(expr.deep_view(), old(context)@).0),
        final(context)@ == spec_evaluate(expr.deep_view(), old(context)@).1,
{
    match eval_expr(expr, context) {
        Evaluated::Value(v) => Some(Ok(v)),
        Evaluated::Error(m) => Some(Err(m)),
        Evaluated::Overflow => None,
    }
}

// ---------------------------------------------------------------------------
// Parsing and evaluating a statement
// ---------------------------------------------------------------------------
/// The message for input left after a statement.
pub open spec fn trailing_input_message(rest: Seq<char>) -> Seq<char> {
    "Unexpected input after expression: '"@ + rest + "'"@
}

/// Parsing a statement from `s` and evaluating it in an empty context: the
/// expression and the outcome of its evaluation, or an error message.
pub open spec fn spec_parse_and_evaluate(s: Seq<char>) -> Result<(SpecExpr, Outcome), Seq<char>> {
    match spec_statement(s) {
        Err(m) => Err(m),
        Ok((e, rest)) => if !all_whitespace(rest) {
            Err(trailing_input_message(rest))
        } else {
            Ok((e, spec_evaluate(e, Map::empty()).0))
        },
    }
}

/// Evaluating the statement in `s` would overflow `i32` arithmetic.
pub open spec fn evaluation_overflows(s: Seq<char>) -> bool {
    spec_parse_and_evaluate(s) matches Ok((_, Outcome::Overflow))
}

/// A result of `parse_and_evaluate` agrees with what it means on `s`.
pub open spec fn run_agrees(r: Result<(Expr, i32), String>, s: Seq<char>) -> bool {
    match spec_parse_and_evaluate(s) {
        Err(m) => r matches Err(x) && x@ == m,
        Ok((e, o)) => match o {
            Outcome::Value(v) => r matches Ok((ex, w)) && ex.deep_view() == e && w == v,
            Outcome::Error(m) => r matches Err(x) && x@ == m,
            Outcome::Overflow => false,
        },
    }
}

/// Whether every character of `s` is white space.
fn is_all_whitespace(s: &str) -> (b: bool)
    ensures
        b == all_whitespace(s@),
{
    let n = s.unicode_len();
    let mut i: usize = 0;
    while i < n
        invariant
            n == s@.len(),
            i <= n,
            forall|j: int| 0 <= j < i ==> char_is_whitespace(#[trigger] s@[j]),
        decreases n - i,
    {
        if !is_whitespace(s.get_char(i)) {
            return false;
        }
        i = i + 1;
    }
    true
}

/// Parse and evaluate a string.
pub fn parse_and_evaluate(input: &str) -> (r: Result<(Expr, i32), String>)
    requires
        !evaluation_overflows(input@),
    ensures
        run_agrees(r, input@),
{
    let mut context = Context::new();
    match statement().parse(input) {
        Ok((expr, remaining)) => {
            if !is_all_whitespace(remaining) {
                let mut m = "Unexpected input after expression: '".to_owned();
                m.append(remaining);
                m.append("'");
                return Err(m);
            }
            let value = match evaluate(&expr, &mut context) {
                Ok(v) => v,
                Err(e) => return Err(e),
            };
            Ok((expr, value))
        },
        Err(e) => Err(e.message),
    }
}

/// Parses and evaluates a string as `parse_and_evaluate` does, and answers
/// `None` where its evaluation would overflow `i32` arithmetic.
pub fn parse_and_evaluate_checked(input: &str) -> (r: Option<Result<(Expr, i32), String>>)
    ensures
        r is None <==> evaluation_overflows(input@),
        r matches Some(res) ==> run_agrees(res, input@),
{
    let overflows = match statement().parse(input) {
        Ok((expr, remaining)) => {
            if is_all_whitespace(remaining) {
                let mut context = Context::new();
                evaluate_checked(&expr, &mut context).is_none()
            } else {
                false
            }
        },
        Err(_) => false,
    };
    if overflows {
        None
    } else {
        Some(parse_and_evaluate(input))
    }
}

// ---------------------------------------------------------------------------
// Laws of evaluation
// ---------------------------------------------------------------------------
/// A context read after a write gives back what was written, and leaves other
/// names as they were.
pub proof fn lemma_context_read_after_write(
    m: Map<Seq<char>, i32>,
    name: Seq<char>,
    value: i32,
    other: Seq<char>,
)
    requires
        other != name,
    ensures
        m.insert(name, value).contains_key(name),
        m.insert(name, value)[name] == value,
        m.insert(name, value).contains_key(other) == m.contains_key(other),
        m.contains_key(other) ==> m.insert(name, value)[other] == m[other],
{
}

/// Reading a variable right after assigning it gives the assigned value.
pub proof fn lemma_read_after_assignment(var: Seq<char>, e: SpecExpr, ctx: Map<Seq<char>, i32>)
    ensures
        ({
            let (o, c1) = spec_evaluate(SpecExpr::Assignment { var, expr: Box::new(e) }, ctx);
            o matches Outcome::Value(v) ==> spec_evaluate(SpecExpr::Variable(var), c1) == (
                Outcome::Value(v),
                c1,
            )
        }),
{
}

/// Whether an expression holds an assignment.
pub open spec fn has_assignment(e: SpecExpr) -> bool
    decreases e,
{
    match e {
        SpecExpr::Number(_) => false,
        SpecExpr::Variable(_) => false,
        SpecExpr::BinaryOp { op, left, right } => has_assignment(*left) || has_assignment(*right),
        SpecExpr::Assignment { .. } => true,
    }
}

/// Evaluating an expression without assignments leaves the context as it was.
pub proof fn lemma_evaluation_without_assignment_keeps_context(
    e: SpecExpr,
    ctx: Map<Seq<char>, i32>,
)
    requires
        !has_assignment(e),
    ensures
        spec_evaluate(e, ctx).1 == ctx,
    decreases e,
{
    if let SpecExpr::BinaryOp { op, left, right } = e {
        lemma_evaluation_without_assignment_keeps_context(*left, ctx);
        lemma_evaluation_without_assignment_keeps_context(*right, spec_evaluate(*left, ctx).1);
    }
}

/// White space before a statement does not change what parsing and evaluating
/// it gives.
pub proof fn lemma_parse_and_evaluate_ignores_leading_whitespace(w: Seq<char>, s: Seq<char>)
    requires
        all_whitespace(w),
    ensures
        spec_parse_and_evaluate(w + s) == spec_parse_and_evaluate(s),
{
    lemma_statement_ignores_leading_whitespace(w, s);
}

/// Dividing a non-negative number by a positive one: the quotient lies between
/// 0 and the number, and the remainder between 0 and the divisor.
proof fn lemma_nonneg_division(x: int, d: int)
    requires
        x >= 0,
        d > 0,
    ensures
        0 <= x / d <= x,
        0 <= x - d * (x / d) < d,
{
    vstd::arithmetic::div_mod::lemma_fundamental_div_mod(x, d);
    vstd::arithmetic::div_mod::lemma_mod_pos_bound(x, d);
    vstd::arithmetic::div_mod::lemma_div_basics_5(x, d);
}

/// `q` is `a / b` rounded toward zero: the remainder `a - b * q` is smaller than
/// `b` in size and is 0 or has the sign of `a`.
pub open spec fn rounds_toward_zero(a: int, b: int, q: int) -> bool {
    let r = a - b * q;
    &&& (if r >= 0 {
        r
    } else {
        -r
    }) < (if b >= 0 {
        b
    } else {
        -b
    })
    &&& (r == 0 || (r > 0) == (a > 0))
}

/// Division rounds toward zero: where `a / b` has a value, it is `a / b`
/// rounded toward zero. It overflows only on `i32::MIN / -1`, and fails only on
/// division by zero.
pub proof fn lemma_division_rounds_toward_zero(a: i32, b: i32)
    ensures
        b == 0 ==> apply_op(BinOp::Divide, a, b) == Outcome::Error(division_by_zero_message()),
        b != 0 ==> (apply_op(BinOp::Divide, a, b) is Overflow <==> (a == i32::MIN && b == -1)),
        apply_op(BinOp::Divide, a, b) matches Outcome::Value(q) ==> rounds_toward_zero(
            a as int,
            b as int,
            q as int,
        ),
{
    if b != 0 {
        let ai = a as int;
        let bi = b as int;
        let q = trunc_div(ai, bi);
        if ai == 0 {
            assert(rounds_toward_zero(ai, bi, q));
        } else if ai > 0 && bi > 0 {
            lemma_nonneg_division(ai, bi);
            assert(rounds_toward_zero(ai, bi, q));
        } else if ai < 0 && bi < 0 {
            lemma_nonneg_division(-ai, -bi);
            assert(ai - bi * q == -((-ai) - (-bi) * q)) by (nonlinear_arith);
            assert(rounds_toward_zero(ai, bi, q));
            if q > i32::MAX {
                assert(q == -ai);
                assert((-bi) * q <= -ai);
                assert(-bi <= 1) by (nonlinear_arith)
                    requires
                        (-bi) * q <= -ai,
                        q == -ai,
                        q > 0,
                ;
            }
            if ai == i32::MIN && bi == -1 {
                assert(-bi == 1);
                vstd::arithmetic::div_mod::lemma_div_basics(-ai);
                assert((-ai) / (-bi) == -ai);
            }
        } else if ai < 0 {
            lemma_nonneg_division(-ai, bi);
            assert(ai - bi * q == -((-ai) - bi * ((-ai) / bi))) by (nonlinear_arith)
                requires
                    q == -((-ai) / bi),
            ;
            assert(rounds_toward_zero(ai, bi, q));
        } else {
            lemma_nonneg_division(ai, -bi);
            assert(ai - bi * q == ai - (-bi) * (ai / (-bi))) by (nonlinear_arith)
                requires
                    q == -(ai / (-bi)),
            ;
            assert(rounds_toward_zero(ai, bi, q));
        }
    }
}

/// `+`, `-` and `*` give the integer sum, difference and product of their
/// operands where it fits in `i32`, and overflow where it does not.
pub proof fn lemma_arithmetic_is_exact(a: i32, b: i32)
    ensures
        apply_op(BinOp::Add, a, b) matches Outcome::Value(v) ==> v == a + b,
        apply_op(BinOp::Subtract, a, b) matches Outcome::Value(v) ==> v == a - b,
        apply_op(BinOp::Multiply, a, b) matches Outcome::Value(v) ==> v == a * b,
        apply_op(BinOp::Add, a, b) is Overflow <==> !(i32::MIN <= a + b <= i32::MAX),
        apply_op(BinOp::Subtract, a, b) is Overflow <==> !(i32::MIN <= a - b <= i32::MAX),
        apply_op(BinOp::Multiply, a, b) is Overflow <==> !(i32::MIN <= a * b <= i32::MAX),
        !(apply_op(BinOp::Add, a, b) is Error),
        !(apply_op(BinOp::Subtract, a, b) is Error),
        !(apply_op(BinOp::Multiply, a, b) is Error),
{
}

/// A binary expression evaluates its left operand, then its right one, and
/// combines the two values by its operator.
pub proof fn lemma_binary_evaluates_operands_in_order(
    op: BinOp,
    left: SpecExpr,
    right: SpecExpr,
    ctx: Map<Seq<char>, i32>,
)
    ensures
        ({
            let (l, c1) = spec_evaluate(left, ctx);
            let (r, c2) = spec_evaluate(right, c1);
            let e = SpecExpr::BinaryOp { op, left: Box::new(left), right: Box::new(right) };
            match (l, r) {
                (Outcome::Value(a), Outcome::Value(b)) => spec_evaluate(e, ctx) == (
                    apply_op(op, a, b),
                    c2,
                ),
                (Outcome::Value(_), _) => spec_evaluate(e, ctx) == (r, c2),
                _ => spec_evaluate(e, ctx) == (l, c1),
            }
        }),
{
}

/// A variable evaluates to its value in the context, and to the undefined
/// variable error where the context has none; either way the context stays.
pub proof fn lemma_variable_reads_context(name: Seq<char>, ctx: Map<Seq<char>, i32>)
    ensures
        ctx.contains_key(name) ==> spec_evaluate(SpecExpr::Variable(name), ctx) == (
            Outcome::Value(ctx[name]),
            ctx,
        ),
        !ctx.contains_key(name) ==> spec_evaluate(SpecExpr::Variable(name), ctx) == (
            Outcome::Error("Undefined variable: "@ + name),
            ctx,
        ),
{
}

} // verus!
