//! The evaluator: from an expression tree to a runtime value or a runtime
//! error. `eval` says what a tree evaluates to; `evaluate` computes it.

use crate::number::{
    difference_of, ieee_difference, ieee_product, ieee_sum, negated, number_equal, number_less,
    number_less_equal, number_negate, numbers_equal, numbers_less, numbers_less_equal,
    product_of, quotient, quotient_of, sum_of,
};
use vstd::pervasive::arbitrary;
use crate::number::{infinity, is_literal_number, is_nan, is_zero, SIGN_BIT};
use crate::parser::{layered, level_of, literal_kind, Expression, LiteralType, Tree, Value};
use crate::token::{Token, TokenType, TokenView};
use vstd::pervasive::unreached;
use vstd::prelude::*;
use vstd::string::*;

verus! {

/// A runtime error: the operator at which it was raised and a message.
#[derive(Debug)]
pub struct InterpreterError {
    pub tok: Token,
    pub msg: String,
}

/// The mathematical content of an `InterpreterError`.
pub struct RuntimeFault {
    pub tok: TokenView,
    pub msg: Seq<char>,
}

impl View for InterpreterError {
    type V = RuntimeFault;

    open spec fn view(&self) -> RuntimeFault {
        RuntimeFault { tok: self.tok@, msg: self.msg@ }
    }
}

impl InterpreterError {
    /// The message.
    pub fn to_string(&self) -> (s: String)
        ensures
            s@ == self.msg@,
    {
        self.msg.clone()
    }
}

/// The value or the error that `result` holds.
pub open spec fn outcome_view(result: Result<LiteralType, InterpreterError>) -> Result<
    Value,
    RuntimeFault,
> {
    match result {
        Ok(v) => Ok(v@),
        Err(e) => Err(e@),
    }
}

/// Nil and false are falsy; every other value is truthy.
pub open spec fn truthy(v: Value) -> bool {
    match v {
        Value::Nil => false,
        Value::Bool(b) => b,
        Value::Float(_) => true,
        Value::String(_) => true,
    }
}

/// Two values are equal when they are of the same variant and hold equal
/// contents; numbers are compared as IEEE-754 compares them.
pub open spec fn values_equal(a: Value, b: Value) -> bool {
    match a {
        Value::Nil => b is Nil,
        Value::Bool(x) => b == Value::Bool(x),
        Value::Float(x) => match b {
            Value::Float(y) => numbers_equal(x, y),
            _ => false,
        },
        Value::String(x) => b == Value::String(x),
    }
}

/// The value that a literal token stands for. Of a token of another kind it
/// says nothing.
pub open spec fn literal_value(token: TokenView) -> Value
    recommends
        literal_kind(token.tok_type),
{
    match token.tok_type {
        TokenType::False | TokenType::True => Value::Bool(token.bool_literal),
        TokenType::String => Value::String(token.string_literal),
        TokenType::Number => Value::Float(token.float_literal),
        TokenType::Nil => Value::Nil,
        _ => arbitrary(),
    }
}

/// The tree can be evaluated: its literals are literal tokens and its binary
/// nodes hold binary operators.
pub open spec fn evaluable(tree: Tree) -> bool
    decreases tree,
{
    match tree {
        Tree::Binary { left, operator, right } => level_of(operator.tok_type).is_some()
            && evaluable(*left) && evaluable(*right),
        Tree::Unary { operator, right } => evaluable(*right),
        Tree::Literal { lit } => literal_kind(lit.tok_type),
        Tree::Grouping { group } => evaluable(*group),
    }
}

/// The number of nodes of the tree.
pub open spec fn size(tree: Tree) -> nat
    decreases tree,
{
    match tree {
        Tree::Binary { left, operator, right } => 1 + size(*left) + size(*right),
        Tree::Unary { operator, right } => 1 + size(*right),
        Tree::Literal { lit } => 1,
        Tree::Grouping { group } => 1 + size(*group),
    }
}

/// The runtime error raised at `operator` with the message `msg`.
pub open spec fn fault(operator: TokenView, msg: Seq<char>) -> RuntimeFault {
    RuntimeFault { tok: operator, msg }
}

/// What a unary operator makes of a value.
pub open spec fn apply_unary(operator: TokenView, v: Value) -> Result<Value, RuntimeFault> {
    match operator.tok_type {
        TokenType::Bang => Ok(Value::Bool(!truthy(v))),
        TokenType::Minus => match v {
            Value::Float(x) => Ok(Value::Float(negated(x))),
            _ => Err(fault(operator, "Operand must be a number."@)),
        },
        _ => Err(
            fault(operator, "interpreter - Got TokenType other than Minus or Bang for unary"@),
        ),
    }
}

/// The operators that want two numbers.
pub open spec fn numeric_operator(kind: TokenType) -> bool {
    kind == TokenType::Greater || kind == TokenType::GreaterEqual || kind == TokenType::Less
        || kind == TokenType::LessEqual || kind == TokenType::Slash || kind == TokenType::Minus
        || kind == TokenType::Star
}

/// What an operator that wants two numbers makes of them. Of another kind of
/// token it says nothing.
pub open spec fn apply_numeric(kind: TokenType, x: u64, y: u64) -> Value
    recommends
        numeric_operator(kind),
{
    match kind {
        TokenType::Greater => Value::Bool(numbers_less(y, x)),
        TokenType::GreaterEqual => Value::Bool(numbers_less_equal(y, x)),
        TokenType::Less => Value::Bool(numbers_less(x, y)),
        TokenType::LessEqual => Value::Bool(numbers_less_equal(x, y)),
        TokenType::Slash => Value::Float(quotient(x, y)),
        TokenType::Minus => Value::Float(ieee_difference(x, y)),
        TokenType::Star => Value::Float(ieee_product(x, y)),
        _ => arbitrary(),
    }
}

/// What a binary operator makes of two values. Of a token that is no binary
/// operator it says nothing.
pub open spec fn apply_binary(operator: TokenView, a: Value, b: Value) -> Result<
    Value,
    RuntimeFault,
>
    recommends
        level_of(operator.tok_type).is_some(),
{
    match operator.tok_type {
        TokenType::EqualEqual => Ok(Value::Bool(values_equal(a, b))),
        TokenType::BangEqual => Ok(Value::Bool(!values_equal(a, b))),
        TokenType::Plus => match (a, b) {
            (Value::Float(x), Value::Float(y)) => Ok(Value::Float(ieee_sum(x, y))),
            (Value::String(x), Value::String(y)) => Ok(Value::String(x + y)),
            _ => Err(fault(operator, "Operands must be two numbers or two strings."@)),
        },
        TokenType::Greater
        | TokenType::GreaterEqual
        | TokenType::Less
        | TokenType::LessEqual
        | TokenType::Slash
        | TokenType::Minus
        | TokenType::Star => match (a, b) {
            (Value::Float(x), Value::Float(y)) => Ok(apply_numeric(operator.tok_type, x, y)),
            _ => Err(fault(operator, "Operands must be numbers."@)),
        },
        _ => arbitrary(),
    }
}

/// What a tree evaluates to. The left operand comes first, and the first
/// error ends the evaluation. Of a tree that is not evaluable it says
/// nothing.
pub open spec fn eval(tree: Tree) -> Result<Value, RuntimeFault>
    recommends
        evaluable(tree),
    decreases tree,
{
    match tree {
        Tree::Literal { lit } => Ok(literal_value(lit)),
        Tree::Grouping { group } => eval(*group),
        Tree::Unary { operator, right } => match eval(*right) {
            Ok(v) => apply_unary(operator, v),
            Err(e) => Err(e),
        },
        Tree::Binary { left, operator, right } => match eval(*left) {
            Ok(a) => match eval(*right) {
                Ok(b) => apply_binary(operator, a, b),
                Err(e) => Err(e),
            },
            Err(e) => Err(e),
        },
    }
}

/// Whether `lit` counts as true.
pub fn is_truthy(lit: &LiteralType) -> (b: bool)
    ensures
        b == truthy(lit@),
{
    match lit {
        LiteralType::Nil => false,
        LiteralType::Bool { lit } => *lit,
        LiteralType::Float { lit } => true,
        LiteralType::String { lit } => true,
    }
}

/// Whether `a` and `b` are equal values.
pub fn is_equal(a: LiteralType, b: LiteralType) -> (r: bool)
    ensures
        r == values_equal(a@, b@),
{
    match a {
        LiteralType::Nil => match b {
            LiteralType::Nil => true,
            _ => false,
        },
        LiteralType::Bool { lit: al } => match b {
            LiteralType::Bool { lit: bl } => (al == bl),
            _ => false,
        },
        LiteralType::Float { lit: al } => match b {
            LiteralType::Float { lit: bl } => number_equal(al, bl),
            _ => false,
        },
        LiteralType::String { lit: al } => match b {
            LiteralType::String { lit: bl } => (al == bl),
            _ => false,
        },
    }
}

/// `Ok(true)` where both operands are numbers, else the error at `operator`.
pub fn check_number_operands(left: &LiteralType, right: &LiteralType, operator: &Token) -> (r:
    Result<bool, InterpreterError>)
    ensures
        match r {
            Ok(b) => b && left@ is Float && right@ is Float,
            Err(e) => !(left@ is Float && right@ is Float) && e@ == fault(
                operator@,
                "Operands must be numbers."@,
            ),
        },
{
    let mut rv = true;
    match left {
        LiteralType::Float { lit } => {},
        _ => {
            rv = false;
        },
    }
    match right {
        LiteralType::Float { lit } => {},
        _ => {
            rv = false;
        },
    }
    if rv {
        Ok(rv)
    } else {
        Err(
            InterpreterError {
                tok: operator.clone(),
                msg: String::from_str("Operands must be numbers."),
            },
        )
    }
}

/// `Ok(true)` where the operands are two numbers or two strings, else the
/// error at `operator`.
pub fn check_same_literal_type(left: &LiteralType, right: &LiteralType, operator: &Token) -> (r:
    Result<bool, InterpreterError>)
    ensures
        match r {
            Ok(b) => b && ((left@ is Float && right@ is Float) || (left@ is String
                && right@ is String)),
            Err(e) => !((left@ is Float && right@ is Float) || (left@ is String
                && right@ is String)) && e@ == fault(
                operator@,
                "Operands must be two numbers or two strings."@,
            ),
        },
{
    let rv = match left {
        LiteralType::Float { lit } => match right {
            LiteralType::Float { lit } => true,
            _ => false,
        },
        LiteralType::String { lit } => match right {
            LiteralType::String { lit } => true,
            _ => false,
        },
        _ => false,
    };
    if rv {
        Ok(rv)
    } else {
        Err(
            InterpreterError {
                tok: operator.clone(),
                msg: String::from_str("Operands must be two numbers or two strings."),
            },
        )
    }
}

fn evaluate_binary(left: Box<Expression>, right: Box<Expression>, operator: Token) -> (r: Result<
    LiteralType,
    InterpreterError,
>)
    requires
        evaluable(left@),
        evaluable(right@),
        level_of(operator.tok_type).is_some(),
    ensures
        outcome_view(r) == eval(
            Tree::Binary { left: Box::new(left@), operator: operator@, right: Box::new(right@) },
        ),
    decreases size(left@) + size(right@) + 1, 0nat,
{
    let left_lit = match evaluate(*left) {
        Ok(v) => v,
        Err(e) => {
            return Err(e);
        },
    };
    let right_lit = match evaluate(*right) {
        Ok(v) => v,
        Err(e) => {
            return Err(e);
        },
    };
    let kind = operator.tok_type;
    if kind == TokenType::EqualEqual {
        return Ok(LiteralType::Bool { lit: is_equal(left_lit, right_lit) });
    }
    if kind == TokenType::BangEqual {
        return Ok(LiteralType::Bool { lit: !is_equal(left_lit, right_lit) });
    }
    if kind == TokenType::Plus {
        match check_same_literal_type(&left_lit, &right_lit, &operator) {
            Ok(_) => {},
            Err(e) => {
                return Err(e);
            },
        }
    } else {
        match check_number_operands(&left_lit, &right_lit, &operator) {
            Ok(_) => {},
            Err(e) => {
                return Err(e);
            },
        }
    }
    let lt = match left_lit {
        LiteralType::Float { lit: l } => match right_lit {
            LiteralType::Float { lit: r } => match kind {
                TokenType::Plus => LiteralType::Float { lit: sum_of(l, r) },
                TokenType::Minus => LiteralType::Float { lit: difference_of(l, r) },
                TokenType::Slash => LiteralType::Float { lit: quotient_of(l, r) },
                TokenType::Star => LiteralType::Float { lit: product_of(l, r) },
                TokenType::Greater => LiteralType::Bool { lit: number_less(r, l) },
                TokenType::GreaterEqual => LiteralType::Bool { lit: number_less_equal(r, l) },
                TokenType::Less => LiteralType::Bool { lit: number_less(l, r) },
                TokenType::LessEqual => LiteralType::Bool { lit: number_less_equal(l, r) },
                _ => unreached(),
            },
            _ => unreached(),
        },
        LiteralType::String { lit: l } => match right_lit {
            LiteralType::String { lit: r } => LiteralType::String { lit: l.concat(r.as_str()) },
            _ => unreached(),
        },
        _ => unreached(),
    };
    Ok(lt)
}

fn evaluate_unary(operator: &Token, right: Box<Expression>) -> (r: Result<
    LiteralType,
    InterpreterError,
>)
    requires
        evaluable(right@),
    ensures
        outcome_view(r) == eval(Tree::Unary { operator: operator@, right: Box::new(right@) }),
    decreases size(right@) + 1, 0nat,
{
    let right = match evaluate(*right) {
        Ok(v) => v,
        Err(e) => {
            return Err(e);
        },
    };
    match operator.tok_type {
        TokenType::Bang => {
            let truthy = is_truthy(&right);
            Ok(LiteralType::Bool { lit: !truthy })
        },
        TokenType::Minus => match right {
            LiteralType::Float { lit } => Ok(LiteralType::Float { lit: number_negate(lit) }),
            _ => Err(
                InterpreterError {
                    tok: operator.clone(),
                    msg: String::from_str("Operand must be a number."),
                },
            ),
        },
        _ => Err(
            InterpreterError {
                tok: operator.clone(),
                msg: String::from_str(
                    "interpreter - Got TokenType other than Minus or Bang for unary",
                ),
            },
        ),
    }
}

/// Evaluates `expr`: the value of the tree, or the first runtime error met
/// when the operands are taken from left to right.
pub fn evaluate(expr: Expression) -> (r: Result<LiteralType, InterpreterError>)
    requires
        evaluable(expr@),
    ensures
        outcome_view(r) == eval(expr@),
    decreases size(expr@), 1nat,
{
    match expr {
        Expression::Binary { left, operator, right } => evaluate_binary(left, right, operator),
        Expression::Unary { operator, right } => evaluate_unary(&operator, right),
        Expression::Grouping { group } => {
            return evaluate(*group);
        },
        Expression::Literal { lit } => {
            if lit.tok_type == TokenType::False || lit.tok_type == TokenType::True {
                return Ok(LiteralType::Bool { lit: lit.bool_literal });
            }
            if lit.tok_type == TokenType::String {
                return Ok(LiteralType::String { lit: lit.string_literal });
            }
            if lit.tok_type == TokenType::Number {
                return Ok(LiteralType::Float { lit: lit.float_literal });
            }
            Ok(LiteralType::Nil)
        },
    }
}


/// Whether `expr` can be evaluated.
pub fn is_evaluable(expr: &Expression) -> (b: bool)
    ensures
        b == evaluable(expr@),
    decreases expr,
{
    match expr {
        Expression::Binary { left, operator, right } => {
            let kind = operator.tok_type;
            let binary = kind == TokenType::Slash || kind == TokenType::Star || kind
                == TokenType::Minus || kind == TokenType::Plus || kind == TokenType::Greater
                || kind == TokenType::GreaterEqual || kind == TokenType::Less || kind
                == TokenType::LessEqual || kind == TokenType::BangEqual || kind
                == TokenType::EqualEqual;
            binary && is_evaluable(&**left) && is_evaluable(&**right)
        },
        Expression::Unary { operator, right } => is_evaluable(&**right),
        Expression::Literal { lit } => {
            let kind = lit.tok_type;
            kind == TokenType::False || kind == TokenType::True || kind == TokenType::Nil || kind
                == TokenType::Number || kind == TokenType::String
        },
        Expression::Grouping { group } => is_evaluable(&**group),
    }
}

/// Every tree that follows the grammar can be evaluated.
pub proof fn lemma_layered_is_evaluable(tree: Tree)
    requires
        layered(tree),
    ensures
        evaluable(tree),
    decreases tree,
{
    match tree {
        Tree::Binary { left, operator, right } => {
            lemma_layered_is_evaluable(*left);
            lemma_layered_is_evaluable(*right);
        },
        Tree::Unary { operator, right } => {
            lemma_layered_is_evaluable(*right);
        },
        Tree::Literal { lit } => {},
        Tree::Grouping { group } => {
            lemma_layered_is_evaluable(*group);
        },
    }
}

/// `==` and `!=` never fail: on any two values they give a boolean, and `!=`
/// gives the negation of `==`.
pub proof fn lemma_equality_never_fails(equal: TokenView, unequal: TokenView, a: Value, b: Value)
    requires
        equal.tok_type == TokenType::EqualEqual,
        unequal.tok_type == TokenType::BangEqual,
    ensures
        apply_binary(equal, a, b) == Ok::<Value, RuntimeFault>(Value::Bool(values_equal(a, b))),
        apply_binary(unequal, a, b) == Ok::<Value, RuntimeFault>(
            Value::Bool(!values_equal(a, b)),
        ),
{
}

/// Equality is reflexive on every value but a number that is not a number
/// (which IEEE-754 makes unequal to itself), and it is symmetric.
pub proof fn lemma_equality_is_reflexive(a: Value, b: Value)
    ensures
        !(a matches Value::Float(x) && is_nan(x)) ==> values_equal(a, a),
        values_equal(a, b) == values_equal(b, a),
{
}

/// A number literal is equal to itself: whatever number the literal writes,
/// comparing the literal with itself gives true.
pub proof fn lemma_number_literal_equals_itself(number: TokenView, equal: TokenView)
    requires
        number.tok_type == TokenType::Number,
        is_literal_number(number.float_literal),
        equal.tok_type == TokenType::EqualEqual,
    ensures
        eval(
            Tree::Binary {
                left: Box::new(Tree::Literal { lit: number }),
                operator: equal,
                right: Box::new(Tree::Literal { lit: number }),
            },
        ) == Ok::<Value, RuntimeFault>(Value::Bool(true)),
{
    reveal_with_fuel(eval, 2);
}

/// Division by zero does not fail: a number other than zero divided by a
/// zero gives an infinity, negative exactly when the signs of the two
/// differ.
pub proof fn lemma_division_by_zero(slash: TokenView, a: u64, b: u64)
    requires
        slash.tok_type == TokenType::Slash,
        is_zero(b),
        !is_nan(a),
        !is_zero(a),
    ensures
        apply_binary(slash, Value::Float(a), Value::Float(b)) == Ok::<Value, RuntimeFault>(
            Value::Float(infinity((a >= SIGN_BIT) != (b >= SIGN_BIT))),
        ),
{
}

/// Equality tells the types apart: values of different variants are unequal.
pub proof fn lemma_equality_discriminates(a: Value, b: Value)
    requires
        values_equal(a, b),
    ensures
        a is Nil <==> b is Nil,
        a is Bool <==> b is Bool,
        a is Float <==> b is Float,
        a is String <==> b is String,
{
}

/// Only nil and false are falsy: every number, zero too, and every string,
/// the empty one too, is truthy.
pub proof fn lemma_truthiness(v: Value)
    ensures
        truthy(v) <==> !(v is Nil || v == Value::Bool(false)),
{
}

/// The contract of `evaluate` leaves it no freedom: any two results that
/// meet it for equal trees hold the same value or the same error, so that
/// evaluating a tree twice gives the same both times.
pub proof fn lemma_evaluation_repeats(
    first: Expression,
    second: Expression,
    r1: Result<LiteralType, InterpreterError>,
    r2: Result<LiteralType, InterpreterError>,
)
    requires
        first@ == second@,
        outcome_view(r1) == eval(first@),
        outcome_view(r2) == eval(second@),
    ensures
        outcome_view(r1) == outcome_view(r2),
{
}

} // verus!
