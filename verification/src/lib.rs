//! A scanner, a recursive-descent parser and a tree-walking evaluator for
//! single expressions of a small dynamically typed language.

use crate::interpreter::{
    eval, evaluate, lemma_layered_is_evaluable, InterpreterError, RuntimeFault,
};
use crate::number::{decimal_literal_with, decimal_value, is_decimal_literal};
use crate::parser::{
    chain, chain_tail, expression, lemma_expression_is_layered, parse_result, primary, unary,
    Fault, LiteralType, ParseError, Parser, Tree, Value,
};
use crate::scanner::{
    lemma_run_ends_at, lemma_scan_from, new_scanner, number_end, payloads_are_numbers, scan,
    scan_from, scan_one, texts, CharClass,
};
use crate::token::TokenType;
use vstd::prelude::*;

pub mod interpreter;
pub mod number;
pub mod parser;
pub mod scanner;
pub mod text;
pub mod token;

verus! {

/// `c` is an ASCII letter or `_`.
pub open spec fn alpha(c: char) -> bool {
    ('a' <= c && c <= 'z') || ('A' <= c && c <= 'Z') || c == '_'
}

/// `c` is an ASCII decimal digit.
pub open spec fn digit(c: char) -> bool {
    '0' <= c && c <= '9'
}

/// `c` may continue an identifier.
pub open spec fn alphanumeric(c: char) -> bool {
    alpha(c) || digit(c)
}

/// Whether `c` is an ASCII letter or `_`.
pub fn is_alpha(c: char) -> (b: bool)
    ensures
        b == alpha(c),
{
    let b = (c >= 'a' && c <= 'z') || (c >= 'A' && c <= 'Z') || (c == '_');
    b
}

/// Whether `c` is an ASCII decimal digit.
pub fn is_digit(c: char) -> (b: bool)
    ensures
        b == digit(c),
{
    c >= '0' && c <= '9'
}

/// Whether `c` is an ASCII letter, an ASCII decimal digit or `_`.
pub fn is_alphanumeric(c: char) -> (b: bool)
    ensures
        b == alphanumeric(c),
{
    let an = is_alpha(c) || is_digit(c);
    an
}

/// The line that reports the lexical error `message` found on `line`.
pub fn error(line: i64, message: String) -> (s: String)
    ensures
        s@ == crate::text::report_text(line as int, Seq::<char>::empty(), message@),
{
    let s = String::new();
    crate::text::report(line, s, message)
}


/// How the run of one source text ends.
#[derive(Debug)]
pub enum Outcome {
    /// The text holds no expression.
    Nothing,
    /// The value of the expression.
    Value(LiteralType),
    /// The runtime error that ended the evaluation.
    RuntimeError(InterpreterError),
    /// The syntax error that ended the parse; nothing was evaluated.
    SyntaxError(ParseError),
}

/// The mathematical content of an `Outcome`.
pub enum OutcomeView {
    Nothing,
    Value(Value),
    RuntimeError(RuntimeFault),
    SyntaxError(Fault),
}

impl View for Outcome {
    type V = OutcomeView;

    open spec fn view(&self) -> OutcomeView {
        match self {
            Outcome::Nothing => OutcomeView::Nothing,
            Outcome::Value(v) => OutcomeView::Value(v@),
            Outcome::RuntimeError(e) => OutcomeView::RuntimeError(e@),
            Outcome::SyntaxError(e) => OutcomeView::SyntaxError(e@),
        }
    }
}

/// The run of one source text: the reports of its lexical errors, and how it
/// ended.
#[derive(Debug)]
pub struct Run {
    pub diagnostics: Vec<String>,
    pub outcome: Outcome,
}

/// How the run of `chars` ends: scan, then parse, then evaluate, where the
/// stage before gave something to go on with.
pub open spec fn run_outcome(chars: Seq<char>) -> OutcomeView {
    match parse_result(scan(chars).tokens) {
        Err(e) => OutcomeView::SyntaxError(e),
        Ok(None) => OutcomeView::Nothing,
        Ok(Some(tree)) => match eval(tree) {
            Ok(v) => OutcomeView::Value(v),
            Err(e) => OutcomeView::RuntimeError(e),
        },
    }
}

/// Runs `source`: scans it, parses the tokens and evaluates the tree.
pub fn run(source: String) -> (r: Run)
    requires
        source@.len() < i64::MAX,
    ensures
        texts(r.diagnostics@) == scan(source@).diagnostics,
        r.outcome@ == run_outcome(source@),
        payloads_are_numbers(scan(source@).tokens),
{
    let ghost chars = source@;
    let mut scanner = new_scanner(source);
    let tokens = scanner.scan_tokens();
    proof {
        lemma_scan_from(chars, 0, 1);
        let ts = scan(chars).tokens;
        assert(ts[ts.len() - 1].tok_type == TokenType::EOF);
        lemma_expression_is_layered(ts);
        assert(Seq::<Seq<char>>::empty() + scan(chars).diagnostics =~= scan(chars).diagnostics);
    }
    let diagnostics = scanner.into_diagnostics();
    let mut parser = Parser::new(tokens);
    let outcome = match parser.parse() {
        Ok(Some(tree)) => {
            proof {
                lemma_layered_is_evaluable(tree@);
            }
            match evaluate(tree) {
                Ok(v) => Outcome::Value(v),
                Err(e) => Outcome::RuntimeError(e),
            }
        },
        Ok(None) => Outcome::Nothing,
        Err(e) => Outcome::SyntaxError(e),
    };
    Run { diagnostics, outcome }
}

/// A number literal runs to the number it writes: the text scans to one
/// number token, parses to that literal, and evaluates to the value read
/// from the text, without a report.
pub proof fn lemma_number_runs_to_itself(text: Seq<char>)
    requires
        is_decimal_literal(text),
    ensures
        run_outcome(text) == OutcomeView::Value(Value::Float(decimal_value(text))),
        scan(text).diagnostics == Seq::<Seq<char>>::empty(),
{
    let k = choose|k: int| decimal_literal_with(text, k);
    let n = text.len() as int;
    assert(digit(text.take(k)[0]));
    assert forall|i: int| 1 <= i < k implies CharClass::Digit.holds(#[trigger] text[i]) by {
        assert(digit(text.take(k)[i]));
    }
    lemma_run_ends_at(text, 1, k, CharClass::Digit);
    if k < n {
        assert forall|i: int| k + 1 <= i < n implies CharClass::Digit.holds(#[trigger] text[i]) by {
            assert(digit(text.skip(k + 1)[i - k - 1]));
        }
        lemma_run_ends_at(text, k + 1, n, CharClass::Digit);
    }
    assert(number_end(text, 0) == n);
    assert(text.subrange(0, n) =~= text);
    let step = scan_one(text, 0, 1);
    let number = step.token.unwrap();
    assert(step.end == n);
    let rest = scan_from(text, n, 1);
    let ts = scan(text).tokens;
    assert(ts =~= seq![number, rest.tokens[0]]);
    assert(ts.skip(1) =~= rest.tokens);
    assert(scan(text).diagnostics =~= Seq::<Seq<char>>::empty());
    let leaf = Tree::Literal { lit: number };
    assert(primary(ts).result == Ok::<Tree, Fault>(leaf));
    assert(unary(ts) == primary(ts));
    assert(chain_tail(0, leaf, ts.skip(1)).result == Ok::<Tree, Fault>(leaf));
    assert(chain(0, ts).result == Ok::<Tree, Fault>(leaf));
    assert(chain_tail(1, leaf, ts.skip(1)).result == Ok::<Tree, Fault>(leaf));
    assert(chain(1, ts).result == Ok::<Tree, Fault>(leaf));
    assert(chain_tail(2, leaf, ts.skip(1)).result == Ok::<Tree, Fault>(leaf));
    assert(chain(2, ts).result == Ok::<Tree, Fault>(leaf));
    assert(chain_tail(3, leaf, ts.skip(1)).result == Ok::<Tree, Fault>(leaf));
    assert(chain(3, ts).result == Ok::<Tree, Fault>(leaf));
}

} // verus!
