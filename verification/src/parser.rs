//! The parser: from a token sequence to one expression tree, by recursive
//! descent over a fixed table of operator levels.
//!
//! The grammar is stated as functions on token sequences (`primary`, `unary`,
//! `chain`); the methods of `Parser` compute exactly what they say.

use crate::text::push_integer;
use crate::token::{token_views, Token, TokenType, TokenView};
use std::collections::VecDeque;
use vstd::prelude::*;
use vstd::string::*;

verus! {

/// A runtime value. `Float` holds an IEEE-754 binary64 bit pattern.
#[derive(Debug)]
#[allow(inconsistent_fields)]
pub enum LiteralType {
    Bool { lit: bool },
    Float { lit: u64 },
    String { lit: String },
    Nil,
}

/// The mathematical content of a `LiteralType`.
pub enum Value {
    Bool(bool),
    Float(u64),
    String(Seq<char>),
    Nil,
}

impl View for LiteralType {
    type V = Value;

    open spec fn view(&self) -> Value {
        match self {
            LiteralType::Bool { lit } => Value::Bool(*lit),
            LiteralType::Float { lit } => Value::Float(*lit),
            LiteralType::String { lit } => Value::String(lit@),
            LiteralType::Nil => Value::Nil,
        }
    }
}

impl Clone for LiteralType {
    fn clone(&self) -> (v: LiteralType)
        ensures
            v@ == self@,
    {
        match self {
            LiteralType::Bool { lit } => LiteralType::Bool { lit: *lit },
            LiteralType::Float { lit } => LiteralType::Float { lit: *lit },
            LiteralType::String { lit } => LiteralType::String { lit: lit.clone() },
            LiteralType::Nil => LiteralType::Nil,
        }
    }
}

/// An expression tree. Each node owns its subtrees.
#[derive(Debug)]
pub enum Expression {
    Binary { left: Box<Expression>, operator: Token, right: Box<Expression> },
    Unary { operator: Token, right: Box<Expression> },
    Literal { lit: Token },
    Grouping { group: Box<Expression> },
}

/// The mathematical content of an `Expression`.
pub enum Tree {
    Binary { left: Box<Tree>, operator: TokenView, right: Box<Tree> },
    Unary { operator: TokenView, right: Box<Tree> },
    Literal { lit: TokenView },
    Grouping { group: Box<Tree> },
}

impl View for Expression {
    type V = Tree;

    open spec fn view(&self) -> Tree
        decreases self,
    {
        match self {
            Expression::Binary { left, operator, right } => Tree::Binary {
                left: Box::new((**left).view()),
                operator: operator@,
                right: Box::new((**right).view()),
            },
            Expression::Unary { operator, right } => Tree::Unary {
                operator: operator@,
                right: Box::new((**right).view()),
            },
            Expression::Literal { lit } => Tree::Literal { lit: lit@ },
            Expression::Grouping { group } => Tree::Grouping {
                group: Box::new((**group).view()),
            },
        }
    }
}

impl Clone for Expression {
    fn clone(&self) -> (e: Expression)
        ensures
            e@ == self@,
        decreases self,
    {
        match self {
            Expression::Binary { left, operator, right } => Expression::Binary {
                left: Box::new((&**left).clone()),
                operator: operator.clone(),
                right: Box::new((&**right).clone()),
            },
            Expression::Unary { operator, right } => Expression::Unary {
                operator: operator.clone(),
                right: Box::new((&**right).clone()),
            },
            Expression::Literal { lit } => Expression::Literal { lit: lit.clone() },
            Expression::Grouping { group } => Expression::Grouping {
                group: Box::new((&**group).clone()),
            },
        }
    }
}

/// A syntax error: the line of the offending token and a message.
#[derive(Debug)]
pub struct ParseError {
    pub line: i64,
    pub msg: String,
}

/// The mathematical content of a `ParseError`.
pub struct Fault {
    pub line: int,
    pub msg: Seq<char>,
}

impl View for ParseError {
    type V = Fault;

    open spec fn view(&self) -> Fault {
        Fault { line: self.line as int, msg: self.msg@ }
    }
}

impl ParseError {
    /// The line number, a space and the message.
    pub fn to_string(&self) -> (s: String)
        ensures
            s@ == crate::text::integer_text(self.line as int) + " "@ + self.msg@,
    {
        let mut s = String::new();
        push_integer(&mut s, self.line);
        s.append(" ");
        s.append(self.msg.as_str());
        s
    }
}

/// The error raised at `token` with the message `m`.
pub open spec fn error_at(token: TokenView, m: Seq<char>) -> Fault {
    Fault {
        line: token.line,
        msg: if token.tok_type == TokenType::EOF {
            "at end "@ + m
        } else {
            "at '"@ + token.lexeme + "' "@ + m
        },
    }
}

/// The first token is the end token.
pub open spec fn at_end(ts: Seq<TokenView>) -> bool {
    ts.len() > 0 && ts[0].tok_type == TokenType::EOF
}

/// The first token is of kind `kind`, and is not the end token.
pub open spec fn check(ts: Seq<TokenView>, kind: TokenType) -> bool {
    ts.len() > 0 && ts[0].tok_type != TokenType::EOF && ts[0].tok_type == kind
}

/// The sequence holds an end token.
pub open spec fn terminated(ts: Seq<TokenView>) -> bool {
    exists|i: int| 0 <= i < ts.len() && (#[trigger] ts[i]).tok_type == TokenType::EOF
}

/// The kinds of token that are expressions by themselves.
pub open spec fn literal_kind(kind: TokenType) -> bool {
    kind == TokenType::False || kind == TokenType::True || kind == TokenType::Nil || kind
        == TokenType::Number || kind == TokenType::String
}

/// The level of a binary operator, from the one that binds tightest:
/// 0 for `/ *`, 1 for `- +`, 2 for `> >= < <=`, 3 for `!= ==`.
pub open spec fn level_of(kind: TokenType) -> Option<nat> {
    match kind {
        TokenType::Slash | TokenType::Star => Some(0),
        TokenType::Minus | TokenType::Plus => Some(1),
        TokenType::Greater | TokenType::GreaterEqual | TokenType::Less | TokenType::LessEqual => Some(
            2,
        ),
        TokenType::BangEqual | TokenType::EqualEqual => Some(3),
        _ => None,
    }
}

/// The level of the operators that bind loosest.
pub open spec fn top_level() -> nat {
    3
}

/// The first token is a binary operator of level `level`.
pub open spec fn operator_ahead(level: nat, ts: Seq<TokenView>) -> bool {
    ts.len() > 0 && level_of(ts[0].tok_type) == Some(level)
}

/// What a rule of the grammar makes of a token sequence: the tree or the
/// error, and the tokens it has not consumed.
pub struct Parsed {
    pub result: Result<Tree, Fault>,
    pub rest: Seq<TokenView>,
}

/// primary → NUMBER | STRING | "true" | "false" | "nil" | "(" expression ")"
pub open spec fn primary(ts: Seq<TokenView>) -> Parsed
    decreases ts.len(), 0nat,
{
    if ts.len() > 0 && literal_kind(ts[0].tok_type) {
        Parsed { result: Ok(Tree::Literal { lit: ts[0] }), rest: ts.skip(1) }
    } else if check(ts, TokenType::LeftParen) {
        let inner = chain(top_level(), ts.skip(1));
        match inner.result {
            Err(_) => inner,
            Ok(e) => if check(inner.rest, TokenType::RightParen) {
                Parsed {
                    result: Ok(Tree::Grouping { group: Box::new(e) }),
                    rest: inner.rest.skip(1),
                }
            } else {
                Parsed {
                    result: Err(error_at(inner.rest[0], "Expect ')' after expression."@)),
                    rest: inner.rest,
                }
            },
        }
    } else {
        Parsed { result: Err(error_at(ts[0], "Expect expression."@)), rest: ts }
    }
}

/// unary → ("!" | "-") unary | primary
pub open spec fn unary(ts: Seq<TokenView>) -> Parsed
    decreases ts.len(), 1nat,
{
    if check(ts, TokenType::Bang) || check(ts, TokenType::Minus) {
        let operand = unary(ts.skip(1));
        match operand.result {
            Err(_) => operand,
            Ok(e) => Parsed {
                result: Ok(Tree::Unary { operator: ts[0], right: Box::new(e) }),
                rest: operand.rest,
            },
        }
    } else {
        primary(ts)
    }
}

/// level → operand ( operator operand )*, where the operators are those of
/// `level` and an operand is a `unary` at level 0, else a chain of the level
/// below. The operands fold into a tree that leans left.
pub open spec fn chain(level: nat, ts: Seq<TokenView>) -> Parsed
    decreases ts.len(), 2 * level + 3,
{
    let first = if level == 0 {
        unary(ts)
    } else {
        chain((level - 1) as nat, ts)
    };
    match first.result {
        Err(_) => first,
        Ok(e) => if first.rest.len() <= ts.len() {
            chain_tail(level, e, first.rest)
        } else {
            first
        },
    }
}

/// ( operator operand )* of `level`, with `left` the tree made so far. No
/// operand leaves more tokens than it was given, so the rule always goes on
/// after an operand.
pub open spec fn chain_tail(level: nat, left: Tree, ts: Seq<TokenView>) -> Parsed
    decreases ts.len(), 2 * level + 2,
{
    if operator_ahead(level, ts) {
        let operand = if level == 0 {
            unary(ts.skip(1))
        } else {
            chain((level - 1) as nat, ts.skip(1))
        };
        match operand.result {
            Err(_) => operand,
            Ok(e) => {
                let node = Tree::Binary {
                    left: Box::new(left),
                    operator: ts[0],
                    right: Box::new(e),
                };
                if operand.rest.len() < ts.len() {
                    chain_tail(level, node, operand.rest)
                } else {
                    Parsed { result: Ok(node), rest: operand.rest }
                }
            },
        }
    } else {
        Parsed { result: Ok(left), rest: ts }
    }
}

/// expression → the chain of the loosest level
pub open spec fn expression(ts: Seq<TokenView>) -> Parsed {
    chain(top_level(), ts)
}

/// The tokens that remain after skipping to the next statement boundary:
/// behind a semicolon, or in front of a word that begins a statement.
pub open spec fn synchronized(ts: Seq<TokenView>) -> Seq<TokenView>
    decreases ts.len(),
{
    if ts.len() == 0 || at_end(ts) {
        ts
    } else if ts[0].tok_type == TokenType::Semicolon {
        ts.skip(1)
    } else if ts.len() > 1 && begins_statement(ts[1].tok_type) {
        ts.skip(1)
    } else {
        synchronized(ts.skip(1))
    }
}

/// The words that begin a statement.
pub open spec fn begins_statement(kind: TokenType) -> bool {
    kind == TokenType::Class || kind == TokenType::Fun || kind == TokenType::Var || kind
        == TokenType::For || kind == TokenType::If || kind == TokenType::While || kind
        == TokenType::Print || kind == TokenType::Return
}

/// What parsing a whole token sequence gives: nothing for the end token
/// alone, else the one expression that the tokens up to the end token make.
/// A token that is left behind the expression is a syntax error, raised at
/// that token.
pub open spec fn parse_result(ts: Seq<TokenView>) -> Result<Option<Tree>, Fault> {
    if ts.len() == 1 && at_end(ts) {
        Ok(None)
    } else {
        match expression(ts).result {
            Ok(e) => if at_end(expression(ts).rest) {
                Ok(Some(e))
            } else {
                Err(error_at(expression(ts).rest[0], "Expect end of expression."@))
            },
            Err(e) => Err(e),
        }
    }
}

/// The tokens that parsing a whole token sequence leaves.
pub open spec fn parse_rest(ts: Seq<TokenView>) -> Seq<TokenView> {
    if ts.len() == 1 && at_end(ts) {
        ts
    } else {
        expression(ts).rest
    }
}


/// One of `candidates` is the kind of the first token, which is not the end
/// token.
pub open spec fn any_check(ts: Seq<TokenView>, candidates: Seq<TokenType>) -> bool {
    exists|i: int| 0 <= i < candidates.len() && check(ts, #[trigger] candidates[i])
}

/// A parser over a queue of tokens.
pub struct Parser {
    tokens: VecDeque<Token>,
    had_error: bool,
}

/// What a `Parser` stands for.
pub struct ParserView {
    /// The tokens not yet consumed.
    pub tokens: Seq<TokenView>,
    /// Whether a syntax error was raised.
    pub had_error: bool,
}

impl View for Parser {
    type V = ParserView;

    closed spec fn view(&self) -> ParserView {
        ParserView { tokens: token_views(self.tokens@), had_error: self.had_error }
    }
}

/// The tree or the error that `result` holds.
pub open spec fn result_view(result: Result<Expression, ParseError>) -> Result<Tree, Fault> {
    match result {
        Ok(e) => Ok(e@),
        Err(e) => Err(e@),
    }
}

impl Parser {
    /// A parser in front of the first of `tokens`.
    pub fn new(tokens: Vec<Token>) -> (p: Parser)
        ensures
            p@ == (ParserView { tokens: token_views(tokens@), had_error: false }),
    {
        let ghost all = tokens@;
        let mut queue: VecDeque<Token> = VecDeque::new();
        for t in it: tokens
            invariant
                it.seq() == all,
                queue@ == all.take(it.index() as int),
        {
            queue.push_back(t);
        }
        assert(queue@ == all);
        Parser { tokens: queue, had_error: false }
    }

    /// The tokens hold an end token: the condition under which the parser
    /// never runs out of tokens.
    pub open spec fn terminated(&self) -> bool {
        terminated(self@.tokens)
    }

    /// Whether the tokens hold an end token.
    pub fn is_terminated(&self) -> (b: bool)
        ensures
            b == self.terminated(),
    {
        let mut i: usize = 0;
        while i < self.tokens.len()
            invariant
                i <= self.tokens@.len(),
                forall|j: int| 0 <= j < i ==> (#[trigger] self@.tokens[j]).tok_type != TokenType::EOF,
            decreases self.tokens@.len() - i,
        {
            if self.tokens[i].tok_type == TokenType::EOF {
                assert(self@.tokens[i as int].tok_type == TokenType::EOF);
                return true;
            }
            i += 1;
        }
        false
    }

    /// The number of tokens not yet consumed, the end token among them.
    pub fn remaining(&self) -> (n: usize)
        ensures
            n == self@.tokens.len(),
    {
        self.tokens.len()
    }

    /// Whether a syntax error was raised.
    pub fn had_error(&self) -> (b: bool)
        ensures
            b == self@.had_error,
    {
        self.had_error
    }

    /// `self` is what `before` becomes when a rule that makes `parsed` of its
    /// tokens has run and returned `result`.
    spec fn follows(&self, before: &Parser, parsed: Parsed, result: Result<Expression, ParseError>) -> bool {
        &&& self@.tokens == parsed.rest
        &&& terminated(self@.tokens)
        &&& self@.tokens.len() <= before@.tokens.len()
        &&& self@.had_error == (before@.had_error || result is Err)
        &&& result_view(result) == parsed.result
    }

    fn is_at_end(&self) -> (b: bool)
        ensures
            b == at_end(self@.tokens),
    {
        if self.tokens.len() > 0 {
            return self.tokens[0].tok_type == TokenType::EOF;
        } else {
            return false;
        }
    }

    fn check(&self, tt: TokenType) -> (b: bool)
        ensures
            b == check(self@.tokens, tt),
    {
        if self.is_at_end() {
            return false;
        }
        if self.tokens.len() > 0 {
            return self.tokens[0].tok_type == tt;
        } else {
            return false;
        }
    }

    fn tok_match(&mut self, candidates: Vec<TokenType>) -> (r: (bool, Option<Token>))
        requires
            old(self)@.tokens.len() > 0,
        ensures
            r.0 == any_check(old(self)@.tokens, candidates@),
            r.0 == r.1.is_some(),
            r.0 ==> r.1.unwrap()@ == old(self)@.tokens[0] && final(self)@.tokens == old(
                self,
            )@.tokens.skip(1),
            !r.0 ==> final(self)@.tokens == old(self)@.tokens,
            final(self)@.had_error == old(self)@.had_error,
    {
        let mut m = false;
        let mut i: usize = 0;
        while i < candidates.len()
            invariant_except_break
                !m,
                forall|j: int| 0 <= j < i ==> !check(self@.tokens, #[trigger] candidates@[j]),
            invariant
                i <= candidates@.len(),
                *self == *old(self),
            ensures
                m == any_check(self@.tokens, candidates@),
                *self == *old(self),
            decreases candidates@.len() - i,
        {
            m = self.check(candidates[i]);
            if m {
                break ;
            }
            i += 1;
        }
        if m {
            return (m, self.advance());
        } else {
            return (m, None);
        }
    }

    /// Parses the tokens: nothing where they are the end token alone, else
    /// the one expression they make, or the syntax error that stopped it. A
    /// token behind the expression is such an error, and stays in the parser
    /// with what follows it.
    pub fn parse(&mut self) -> (r: Result<Option<Expression>, ParseError>)
        requires
            old(self).terminated(),
        ensures
            match r {
                Ok(Some(e)) => parse_result(old(self)@.tokens) == Ok::<Option<Tree>, Fault>(
                    Some(e@),
                ),
                Ok(None) => parse_result(old(self)@.tokens) == Ok::<Option<Tree>, Fault>(None),
                Err(e) => parse_result(old(self)@.tokens) == Err::<Option<Tree>, Fault>(e@),
            },
            final(self)@.tokens == parse_rest(old(self)@.tokens),
            final(self)@.had_error == (old(self)@.had_error || r is Err),
            final(self).terminated(),
    {
        if self.tokens.len() == 1 && self.tokens[0].tok_type == TokenType::EOF {
            return Ok(None);
        }
        let expr = self.expression();
        match expr {
            Ok(expr) => {
                if self.is_at_end() {
                    Ok(Some(expr))
                } else {
                    proof {
                        lemma_skip_terminated(self@.tokens);
                    }
                    let front = self.tokens[0].clone();
                    Err(self.error(front, String::from_str("Expect end of expression.")))
                }
            },
            Err(e) => Err(e),
        }
    }

    fn expression(&mut self) -> (r: Result<Expression, ParseError>)
        requires
            old(self).terminated(),
        ensures
            final(self).follows(old(self), expression(old(self)@.tokens), r),
        decreases old(self)@.tokens.len(), 10nat,
    {
        let expr = self.equality();
        expr
    }

    fn equality(&mut self) -> (r: Result<Expression, ParseError>)
        requires
            old(self).terminated(),
        ensures
            final(self).follows(old(self), chain(3, old(self)@.tokens), r),
        decreases old(self)@.tokens.len(), 9nat,
    {
        let ghost whole = chain(3, self@.tokens);
        let mut expr = match self.comparison() {
            Ok(e) => e,
            Err(e) => {
                return Err(e);
            },
        };
        loop
            invariant
                terminated(self@.tokens),
                self@.tokens.len() <= old(self)@.tokens.len(),
                self@.had_error == old(self)@.had_error,
                whole == chain(3, old(self)@.tokens),
                whole == chain_tail(3, expr@, self@.tokens),
            ensures
                self.follows(old(self), whole, Ok(expr)),
            decreases self@.tokens.len(),
        {
            let ghost ts = self@.tokens;
            let (_, t) = self.tok_match(vec![TokenType::BangEqual, TokenType::EqualEqual]);
            proof {
                let c = seq![TokenType::BangEqual, TokenType::EqualEqual];
                assert(c[0] == TokenType::BangEqual && c[1] == TokenType::EqualEqual);
                assert(operator_ahead(3, ts) == any_check(ts, c));
            }
            match t {
                Some(operator) => {
                    proof {
                        lemma_skip_terminated(ts);
                    }
                    let right = match self.comparison() {
                        Ok(e) => e,
                        Err(e) => {
                            return Err(e);
                        },
                    };
                    expr = Expression::Binary {
                        left: Box::new(expr),
                        operator,
                        right: Box::new(right),
                    };
                },
                None => {
                    break ;
                },
            }
        }
        Ok(expr)
    }

    fn advance(&mut self) -> (t: Option<Token>)
        requires
            old(self)@.tokens.len() > 0,
        ensures
            final(self)@.had_error == old(self)@.had_error,
            t.is_some() == !at_end(old(self)@.tokens),
            t.is_some() ==> t.unwrap()@ == old(self)@.tokens[0] && final(self)@.tokens == old(
                self,
            )@.tokens.skip(1),
            t.is_none() ==> final(self)@.tokens == old(self)@.tokens,
    {
        let t = &self.tokens[0];
        if t.tok_type != TokenType::EOF {
            let front = self.tokens.pop_front();
            proof {
                assert(token_views(self.tokens@) =~= token_views(old(self).tokens@).skip(1));
            }
            return front;
        } else {
            return None;
        }
    }

    fn error(&mut self, t: Token, m: String) -> (e: ParseError)
        ensures
            e@ == error_at(t@, m@),
            final(self)@ == (ParserView { tokens: old(self)@.tokens, had_error: true }),
    {
        self.had_error = true;
        let mut msg: String;
        if t.tok_type == TokenType::EOF {
            msg = String::from_str("at end ");
            msg.append(m.as_str());
        } else {
            msg = String::from_str("at '");
            msg.append(t.lexeme.as_str());
            msg.append("' ");
            msg.append(m.as_str());
        }
        ParseError { line: t.line, msg }
    }

    /// Skips tokens up to the next statement boundary.
    pub fn synchronize(&mut self)
        requires
            old(self).terminated(),
        ensures
            final(self)@ == (ParserView {
                tokens: synchronized(old(self)@.tokens),
                had_error: old(self)@.had_error,
            }),
            final(self).terminated(),
    {
        while !self.is_at_end()
            invariant
                terminated(self@.tokens),
                self@.had_error == old(self)@.had_error,
                synchronized(self@.tokens) == synchronized(old(self)@.tokens),
            decreases self@.tokens.len(),
        {
            let ghost ts = self@.tokens;
            proof {
                lemma_skip_terminated(ts);
            }
            let previous = self.advance();
            let previous = match previous {
                Some(previous) => previous,
                None => {
                    return ;
                },
            };
            if previous.tok_type == TokenType::Semicolon {
                return ;
            }
            if self.tokens.len() > 0 {
                let kind = self.tokens[0].tok_type;
                if kind == TokenType::Class || kind == TokenType::Fun || kind == TokenType::Var
                    || kind == TokenType::For || kind == TokenType::If || kind
                    == TokenType::While || kind == TokenType::Print || kind == TokenType::Return {
                    return ;
                }
            } else {
                return ;
            }
        }
    }

    fn consume(&mut self, tt: TokenType, msg: String) -> (r: Result<Option<Token>, ParseError>)
        requires
            old(self)@.tokens.len() > 0,
        ensures
            match r {
                Ok(t) => t.is_some() && t.unwrap()@ == old(self)@.tokens[0] && check(
                    old(self)@.tokens,
                    tt,
                ) && final(self)@ == (ParserView {
                    tokens: old(self)@.tokens.skip(1),
                    had_error: old(self)@.had_error,
                }),
                Err(e) => !check(old(self)@.tokens, tt) && e@ == error_at(
                    old(self)@.tokens[0],
                    msg@,
                ) && final(self)@ == (ParserView {
                    tokens: old(self)@.tokens,
                    had_error: true,
                }),
            },
    {
        if self.check(tt) {
            return Ok(self.advance());
        } else {
            let r = self.tokens[0].clone();
            let err = self.error(r, msg);
            return Err(err);
        }
    }

    fn primary(&mut self) -> (r: Result<Expression, ParseError>)
        requires
            old(self).terminated(),
        ensures
            final(self).follows(old(self), primary(old(self)@.tokens), r),
        decreases old(self)@.tokens.len(), 0nat,
    {
        let ghost ts = self@.tokens;
        proof {
            lemma_skip_terminated(ts);
        }
        let (_, t) = self.tok_match(
            vec![
                TokenType::False,
                TokenType::True,
                TokenType::Nil,
                TokenType::Number,
                TokenType::String,
            ],
        );
        proof {
            let c = seq![
                TokenType::False,
                TokenType::True,
                TokenType::Nil,
                TokenType::Number,
                TokenType::String,
            ];
            assert(c[0] == TokenType::False && c[1] == TokenType::True && c[2] == TokenType::Nil
                && c[3] == TokenType::Number && c[4] == TokenType::String);
            assert(any_check(ts, c) == literal_kind(ts[0].tok_type));
        }
        if let Some(t) = t {
            return Ok(Expression::Literal { lit: t });
        }
        let (m, _) = self.tok_match(vec![TokenType::LeftParen]);
        proof {
            let c = seq![TokenType::LeftParen];
            assert(c[0] == TokenType::LeftParen);
            assert(any_check(ts, c) == check(ts, TokenType::LeftParen));
        }
        if m {
            let expr = match self.expression() {
                Ok(e) => e,
                Err(e) => {
                    return Err(e);
                },
            };
            proof {
                lemma_skip_terminated(self@.tokens);
            }
            match self.consume(
                TokenType::RightParen,
                String::from_str("Expect ')' after expression."),
            ) {
                Ok(_) => {},
                Err(e) => {
                    return Err(e);
                },
            }
            return Ok(Expression::Grouping { group: Box::new(expr) });
        }
        let front = self.tokens[0].clone();
        Err(self.error(front, String::from_str("Expect expression.")))
    }

    fn unary(&mut self) -> (r: Result<Expression, ParseError>)
        requires
            old(self).terminated(),
        ensures
            final(self).follows(old(self), unary(old(self)@.tokens), r),
        decreases old(self)@.tokens.len(), 1nat,
    {
        let ghost ts = self@.tokens;
        proof {
            lemma_skip_terminated(ts);
        }
        let (_, t) = self.tok_match(vec![TokenType::Bang, TokenType::Minus]);
        proof {
            let c = seq![TokenType::Bang, TokenType::Minus];
            assert(c[0] == TokenType::Bang && c[1] == TokenType::Minus);
            assert(any_check(ts, c) == (check(ts, TokenType::Bang) || check(ts, TokenType::Minus)));
        }
        match t {
            Some(operator) => {
                let right = match self.unary() {
                    Ok(e) => e,
                    Err(e) => {
                        return Err(e);
                    },
                };
                return Ok(Expression::Unary { operator, right: Box::new(right) });
            },
            None => {
                return self.primary();
            },
        }
    }

    fn factor(&mut self) -> (r: Result<Expression, ParseError>)
        requires
            old(self).terminated(),
        ensures
            final(self).follows(old(self), chain(0, old(self)@.tokens), r),
        decreases old(self)@.tokens.len(), 3nat,
    {
        let ghost whole = chain(0, self@.tokens);
        let mut expr = match self.unary() {
            Ok(e) => e,
            Err(e) => {
                return Err(e);
            },
        };
        loop
            invariant
                terminated(self@.tokens),
                self@.tokens.len() <= old(self)@.tokens.len(),
                self@.had_error == old(self)@.had_error,
                whole == chain(0, old(self)@.tokens),
                whole == chain_tail(0, expr@, self@.tokens),
            ensures
                self.follows(old(self), whole, Ok(expr)),
            decreases self@.tokens.len(),
        {
            let ghost ts = self@.tokens;
            let (_, t) = self.tok_match(vec![TokenType::Slash, TokenType::Star]);
            proof {
                let c = seq![TokenType::Slash, TokenType::Star];
                assert(c[0] == TokenType::Slash && c[1] == TokenType::Star);
                assert(operator_ahead(0, ts) == any_check(ts, c));
            }
            match t {
                Some(operator) => {
                    proof {
                        lemma_skip_terminated(ts);
                    }
                    let right = match self.unary() {
                        Ok(e) => e,
                        Err(e) => {
                            return Err(e);
                        },
                    };
                    expr = Expression::Binary {
                        left: Box::new(expr),
                        operator,
                        right: Box::new(right),
                    };
                },
                None => {
                    break ;
                },
            }
        }
        Ok(expr)
    }

    fn term(&mut self) -> (r: Result<Expression, ParseError>)
        requires
            old(self).terminated(),
        ensures
            final(self).follows(old(self), chain(1, old(self)@.tokens), r),
        decreases old(self)@.tokens.len(), 5nat,
    {
        let ghost whole = chain(1, self@.tokens);
        let mut expr = match self.factor() {
            Ok(e) => e,
            Err(e) => {
                return Err(e);
            },
        };
        loop
            invariant
                terminated(self@.tokens),
                self@.tokens.len() <= old(self)@.tokens.len(),
                self@.had_error == old(self)@.had_error,
                whole == chain(1, old(self)@.tokens),
                whole == chain_tail(1, expr@, self@.tokens),
            ensures
                self.follows(old(self), whole, Ok(expr)),
            decreases self@.tokens.len(),
        {
            let ghost ts = self@.tokens;
            let (_, t) = self.tok_match(vec![TokenType::Minus, TokenType::Plus]);
            proof {
                let c = seq![TokenType::Minus, TokenType::Plus];
                assert(c[0] == TokenType::Minus && c[1] == TokenType::Plus);
                assert(operator_ahead(1, ts) == any_check(ts, c));
            }
            match t {
                Some(operator) => {
                    proof {
                        lemma_skip_terminated(ts);
                    }
                    let right = match self.factor() {
                        Ok(e) => e,
                        Err(e) => {
                            return Err(e);
                        },
                    };
                    expr = Expression::Binary {
                        left: Box::new(expr),
                        operator,
                        right: Box::new(right),
                    };
                },
                None => {
                    break ;
                },
            }
        }
        Ok(expr)
    }

    fn comparison(&mut self) -> (r: Result<Expression, ParseError>)
        requires
            old(self).terminated(),
        ensures
            final(self).follows(old(self), chain(2, old(self)@.tokens), r),
        decreases old(self)@.tokens.len(), 7nat,
    {
        let ghost whole = chain(2, self@.tokens);
        let mut expr = match self.term() {
            Ok(e) => e,
            Err(e) => {
                return Err(e);
            },
        };
        loop
            invariant
                terminated(self@.tokens),
                self@.tokens.len() <= old(self)@.tokens.len(),
                self@.had_error == old(self)@.had_error,
                whole == chain(2, old(self)@.tokens),
                whole == chain_tail(2, expr@, self@.tokens),
            ensures
                self.follows(old(self), whole, Ok(expr)),
            decreases self@.tokens.len(),
        {
            let ghost ts = self@.tokens;
            let (_, t) = self.tok_match(
                vec![
                    TokenType::Greater,
                    TokenType::GreaterEqual,
                    TokenType::Less,
                    TokenType::LessEqual,
                ],
            );
            proof {
                let c = seq![
                    TokenType::Greater,
                    TokenType::GreaterEqual,
                    TokenType::Less,
                    TokenType::LessEqual,
                ];
                assert(c[0] == TokenType::Greater && c[1] == TokenType::GreaterEqual && c[2]
                    == TokenType::Less && c[3] == TokenType::LessEqual);
                assert(operator_ahead(2, ts) == any_check(ts, c));
            }
            match t {
                Some(operator) => {
                    proof {
                        lemma_skip_terminated(ts);
                    }
                    let right = match self.term() {
                        Ok(e) => e,
                        Err(e) => {
                            return Err(e);
                        },
                    };
                    expr = Expression::Binary {
                        left: Box::new(expr),
                        operator,
                        right: Box::new(right),
                    };
                },
                None => {
                    break ;
                },
            }
        }
        Ok(expr)
    }
}

/// A sequence that holds an end token is not empty, and where its first token
/// is not the end token, the rest holds one.
pub proof fn lemma_skip_terminated(ts: Seq<TokenView>)
    requires
        terminated(ts),
    ensures
        ts.len() > 0,
        !at_end(ts) ==> terminated(ts.skip(1)),
{
    let i = choose|i: int| 0 <= i < ts.len() && (#[trigger] ts[i]).tok_type == TokenType::EOF;
    if !at_end(ts) {
        assert(ts.skip(1)[i - 1].tok_type == TokenType::EOF);
    }
}


/// Position `i` of `ts` is a statement boundary: the end of the tokens, the
/// end token, the place behind a semicolon, or a word that begins a
/// statement.
pub open spec fn boundary(ts: Seq<TokenView>, i: int) -> bool {
    i >= ts.len() || ts[i].tok_type == TokenType::EOF || ts[i - 1].tok_type
        == TokenType::Semicolon || begins_statement(ts[i].tok_type)
}

/// The tokens skipped up to a statement boundary, for `ts` that do not start
/// with the end token: at least one, and then as few as reach a boundary.
pub open spec fn skipped(ts: Seq<TokenView>) -> int
    decreases ts.len(),
{
    if ts.len() <= 1 || boundary(ts, 1) {
        1
    } else {
        1 + skipped(ts.skip(1))
    }
}

/// Before the end token nothing is skipped. Anywhere else `synchronized`
/// skips at least one token and stops at the first statement boundary behind
/// it, so that no end token is ever skipped.
pub proof fn lemma_synchronized(ts: Seq<TokenView>)
    ensures
        ts.len() == 0 || at_end(ts) ==> synchronized(ts) == ts,
        ts.len() > 0 && !at_end(ts) ==> {
            &&& 1 <= skipped(ts) <= ts.len()
            &&& synchronized(ts) == ts.skip(skipped(ts))
            &&& boundary(ts, skipped(ts))
            &&& forall|j: int| 1 <= j < skipped(ts) ==> !boundary(ts, j)
            &&& forall|j: int|
                0 <= j < skipped(ts) ==> (#[trigger] ts[j]).tok_type != TokenType::EOF
        },
    decreases ts.len(),
{
    if ts.len() > 0 && !at_end(ts) {
        if ts.len() <= 1 || boundary(ts, 1) {
            if ts[0].tok_type != TokenType::Semicolon && !(ts.len() > 1 && begins_statement(
                ts[1].tok_type,
            )) {
                assert(synchronized(ts) == synchronized(ts.skip(1)));
            }
        } else {
            let rest = ts.skip(1);
            lemma_synchronized(rest);
            let k = skipped(rest);
            assert(rest.skip(k) =~= ts.skip(k + 1));
            assert forall|j: int| 1 <= j < k + 1 implies !boundary(ts, j) by {
                if j > 1 {
                    assert(!boundary(rest, j - 1));
                    assert(rest[j - 1] == ts[j]);
                    assert(rest[j - 2] == ts[j - 1]);
                }
            }
            assert(boundary(rest, k));
            if k < rest.len() {
                assert(rest[k] == ts[k + 1]);
                assert(rest[k - 1] == ts[k]);
            }
            assert forall|j: int| 0 <= j < k + 1 implies (#[trigger] ts[j]).tok_type
                != TokenType::EOF by {
                if j > 0 {
                    assert(rest[j - 1] == ts[j]);
                }
            }
        }
    }
}

/// How loosely the root of a tree binds: 0 for a literal or a group, 1 for a
/// unary node, and two more than its operator's level for a binary node.
pub open spec fn looseness(tree: Tree) -> nat {
    match tree {
        Tree::Binary { left, operator, right } => match level_of(operator.tok_type) {
            Some(level) => level + 2,
            None => 0,
        },
        Tree::Unary { operator, right } => 1,
        Tree::Literal { lit } => 0,
        Tree::Grouping { group } => 0,
    }
}

/// The tree follows the precedence of the grammar. The left operand of a
/// binary operator binds no looser than the operator, the right operand binds
/// tighter, the operand of a unary operator is unary or primary, and a
/// literal is a literal token. Inside a group any such tree may stand.
pub open spec fn layered(tree: Tree) -> bool
    decreases tree,
{
    match tree {
        Tree::Binary { left, operator, right } => {
            &&& level_of(operator.tok_type).is_some()
            &&& looseness(*left) <= looseness(tree)
            &&& looseness(*right) < looseness(tree)
            &&& layered(*left)
            &&& layered(*right)
        },
        Tree::Unary { operator, right } => {
            &&& operator.tok_type == TokenType::Bang || operator.tok_type == TokenType::Minus
            &&& looseness(*right) <= 1
            &&& layered(*right)
        },
        Tree::Literal { lit } => literal_kind(lit.tok_type),
        Tree::Grouping { group } => layered(*group),
    }
}

/// What holds of every outcome of a rule given `ts`: it leaves no more tokens
/// than it was given, fewer where it succeeds, an end token where there was
/// one, and a tree, if any, that is layered and binds no looser than `bound`.
pub open spec fn sound(parsed: Parsed, ts: Seq<TokenView>, bound: nat) -> bool {
    &&& parsed.rest.len() <= ts.len()
    &&& terminated(ts) ==> terminated(parsed.rest)
    &&& parsed.result matches Ok(e) ==> {
        &&& parsed.rest.len() < ts.len()
        &&& layered(e)
        &&& looseness(e) <= bound
    }
}

/// Every outcome of `primary` is sound, and its tree a literal or a group.
pub proof fn lemma_primary(ts: Seq<TokenView>)
    ensures
        sound(primary(ts), ts, 0),
    decreases ts.len(), 0nat,
{
    if ts.len() > 0 && literal_kind(ts[0].tok_type) {
        if terminated(ts) {
            lemma_skip_terminated(ts);
        }
    } else if check(ts, TokenType::LeftParen) {
        if terminated(ts) {
            lemma_skip_terminated(ts);
        }
        lemma_chain(top_level(), ts.skip(1));
        let inner = chain(top_level(), ts.skip(1));
        if inner.result is Ok && terminated(inner.rest) {
            lemma_skip_terminated(inner.rest);
        }
    }
}

/// Every outcome of `unary` is sound, and its tree unary or primary.
pub proof fn lemma_unary(ts: Seq<TokenView>)
    ensures
        sound(unary(ts), ts, 1),
    decreases ts.len(), 1nat,
{
    if check(ts, TokenType::Bang) || check(ts, TokenType::Minus) {
        if terminated(ts) {
            lemma_skip_terminated(ts);
        }
        lemma_unary(ts.skip(1));
    } else {
        lemma_primary(ts);
    }
}

/// Every outcome of `chain` is sound, and its tree binds no looser than the
/// operators of `level`.
pub proof fn lemma_chain(level: nat, ts: Seq<TokenView>)
    ensures
        sound(chain(level, ts), ts, level + 2),
    decreases ts.len(), 2 * level + 3,
{
    let first = if level == 0 {
        unary(ts)
    } else {
        chain((level - 1) as nat, ts)
    };
    if level == 0 {
        lemma_unary(ts);
    } else {
        lemma_chain((level - 1) as nat, ts);
    }
    match first.result {
        Err(_) => {},
        Ok(e) => {
            lemma_chain_tail(level, e, first.rest);
        },
    }
}

/// Every outcome of `chain_tail` is sound where the tree made so far is
/// layered and binds no looser than the operators of `level`. Where it
/// succeeds it leaves no more tokens than it was given.
pub proof fn lemma_chain_tail(level: nat, left: Tree, ts: Seq<TokenView>)
    requires
        layered(left),
        looseness(left) <= level + 2,
    ensures
        chain_tail(level, left, ts).rest.len() <= ts.len(),
        terminated(ts) ==> terminated(chain_tail(level, left, ts).rest),
        chain_tail(level, left, ts).result matches Ok(e) ==> layered(e) && looseness(e) <= level
            + 2,
    decreases ts.len(), 2 * level + 2,
{
    if operator_ahead(level, ts) {
        if terminated(ts) {
            lemma_skip_terminated(ts);
        }
        let operand = if level == 0 {
            unary(ts.skip(1))
        } else {
            chain((level - 1) as nat, ts.skip(1))
        };
        if level == 0 {
            lemma_unary(ts.skip(1));
        } else {
            lemma_chain((level - 1) as nat, ts.skip(1));
        }
        match operand.result {
            Err(_) => {},
            Ok(e) => {
                let node = Tree::Binary {
                    left: Box::new(left),
                    operator: ts[0],
                    right: Box::new(e),
                };
                lemma_chain_tail(level, node, operand.rest);
            },
        }
    }
}

/// The parser follows the precedence of the grammar: every tree that
/// `expression` makes is layered, so that operators of a tighter level bind
/// first and operators of one level group from the left. It consumes at least
/// one token, and leaves the end token in place.
pub proof fn lemma_expression_is_layered(ts: Seq<TokenView>)
    ensures
        expression(ts).result matches Ok(e) ==> layered(e),
        expression(ts).result is Ok ==> expression(ts).rest.len() < ts.len(),
        expression(ts).rest.len() <= ts.len(),
        terminated(ts) ==> terminated(expression(ts).rest),
{
    lemma_chain(top_level(), ts);
}


/// The tokens that a tree holds, from left to right: its literals and its
/// operators. A group adds none, since its parentheses are not kept.
pub open spec fn tokens_in_order(tree: Tree) -> Seq<TokenView>
    decreases tree,
{
    match tree {
        Tree::Binary { left, operator, right } => tokens_in_order(*left) + seq![operator]
            + tokens_in_order(*right),
        Tree::Unary { operator, right } => seq![operator] + tokens_in_order(*right),
        Tree::Literal { lit } => seq![lit],
        Tree::Grouping { group } => tokens_in_order(*group),
    }
}

/// `ts` without its parentheses.
pub open spec fn without_parentheses(ts: Seq<TokenView>) -> Seq<TokenView>
    decreases ts.len(),
{
    if ts.len() == 0 {
        ts
    } else if ts[0].tok_type == TokenType::LeftParen || ts[0].tok_type == TokenType::RightParen {
        without_parentheses(ts.skip(1))
    } else {
        seq![ts[0]] + without_parentheses(ts.skip(1))
    }
}

/// The number of tokens that a rule has consumed of `ts`.
pub open spec fn used(parsed: Parsed, ts: Seq<TokenView>) -> int {
    ts.len() - parsed.rest.len()
}

/// What a rule has consumed of `ts` stands at the front of `ts`, in the order
/// of `ts`: the rest is what follows it, and the tokens of the tree, if any,
/// are the tokens consumed, but for the parentheses.
pub open spec fn in_order(parsed: Parsed, ts: Seq<TokenView>) -> bool {
    &&& 0 <= used(parsed, ts) <= ts.len()
    &&& parsed.rest == ts.skip(used(parsed, ts))
    &&& parsed.result matches Ok(e) ==> tokens_in_order(e) == without_parentheses(
        ts.take(used(parsed, ts)),
    )
}

/// Leaving out the parentheses goes through a concatenation.
pub proof fn lemma_without_parentheses_add(a: Seq<TokenView>, b: Seq<TokenView>)
    ensures
        without_parentheses(a + b) == without_parentheses(a) + without_parentheses(b),
    decreases a.len(),
{
    if a.len() == 0 {
        assert(a + b =~= b);
        assert(without_parentheses(a) + without_parentheses(b) =~= without_parentheses(b));
    } else {
        assert((a + b).skip(1) =~= a.skip(1) + b);
        lemma_without_parentheses_add(a.skip(1), b);
        assert((a + b)[0] == a[0]);
        if !(a[0].tok_type == TokenType::LeftParen || a[0].tok_type == TokenType::RightParen) {
            assert(seq![a[0]] + (without_parentheses(a.skip(1)) + without_parentheses(b))
                =~= (seq![a[0]] + without_parentheses(a.skip(1))) + without_parentheses(b));
        }
    }
}

/// One token without parentheses is itself, or nothing where it is one.
pub proof fn lemma_without_parentheses_one(t: TokenView)
    ensures
        without_parentheses(seq![t]) == if t.tok_type == TokenType::LeftParen || t.tok_type
            == TokenType::RightParen {
            Seq::<TokenView>::empty()
        } else {
            seq![t]
        },
{
    let s = seq![t];
    assert(s.skip(1) =~= Seq::<TokenView>::empty());
    assert(without_parentheses(s.skip(1)) =~= Seq::<TokenView>::empty());
    assert(seq![s[0]] + Seq::<TokenView>::empty() =~= seq![t]);
}

/// A first token, then what a rule consumed of the tokens behind it, are
/// together the front of the whole.
proof fn lemma_front(ts: Seq<TokenView>, n: int)
    requires
        ts.len() > 0,
        0 <= n <= ts.len() - 1,
    ensures
        ts.take(n + 1) == seq![ts[0]] + ts.skip(1).take(n),
        ts.skip(1).skip(n) == ts.skip(n + 1),
{
    assert(ts.take(n + 1) =~= seq![ts[0]] + ts.skip(1).take(n));
    assert(ts.skip(1).skip(n) =~= ts.skip(n + 1));
}

/// What one rule consumed, then what the next consumed of the rest, are
/// together the front of the whole.
proof fn lemma_fronts(ts: Seq<TokenView>, n: int, m: int)
    requires
        0 <= n,
        0 <= m,
        n + m <= ts.len(),
    ensures
        ts.take(n + m) == ts.take(n) + ts.skip(n).take(m),
        ts.skip(n).skip(m) == ts.skip(n + m),
{
    assert(ts.take(n + m) =~= ts.take(n) + ts.skip(n).take(m));
    assert(ts.skip(n).skip(m) =~= ts.skip(n + m));
}

/// `primary` consumes a front of its tokens, in order.
pub proof fn lemma_primary_in_order(ts: Seq<TokenView>)
    ensures
        in_order(primary(ts), ts),
    decreases ts.len(), 0nat,
{
    if ts.len() > 0 && literal_kind(ts[0].tok_type) {
        assert(ts.take(1) =~= seq![ts[0]]);
        lemma_without_parentheses_one(ts[0]);
    } else if check(ts, TokenType::LeftParen) {
        let tail = ts.skip(1);
        let inner = chain(top_level(), tail);
        lemma_chain_in_order(top_level(), tail);
        let n = used(inner, tail);
        lemma_front(ts, n);
        match inner.result {
            Err(_) => {},
            Ok(e) => {
                if check(inner.rest, TokenType::RightParen) {
                    lemma_fronts(ts, n + 1, 1);
                    assert(ts.skip(n + 1).take(1) =~= seq![inner.rest[0]]);
                    lemma_without_parentheses_one(ts[0]);
                    lemma_without_parentheses_one(inner.rest[0]);
                    lemma_without_parentheses_add(seq![ts[0]], tail.take(n));
                    lemma_without_parentheses_add(ts.take(n + 1), seq![inner.rest[0]]);
                    assert(Seq::<TokenView>::empty() + tokens_in_order(e) + Seq::<
                        TokenView,
                    >::empty() =~= tokens_in_order(e));
                }
            },
        }
    } else {
        assert(ts.skip(0) =~= ts);
    }
}

/// `unary` consumes a front of its tokens, in order.
pub proof fn lemma_unary_in_order(ts: Seq<TokenView>)
    ensures
        in_order(unary(ts), ts),
    decreases ts.len(), 1nat,
{
    if check(ts, TokenType::Bang) || check(ts, TokenType::Minus) {
        let tail = ts.skip(1);
        let operand = unary(tail);
        lemma_unary_in_order(tail);
        let n = used(operand, tail);
        lemma_front(ts, n);
        lemma_without_parentheses_one(ts[0]);
        lemma_without_parentheses_add(seq![ts[0]], tail.take(n));
    } else {
        lemma_primary_in_order(ts);
    }
}

/// `chain` consumes a front of its tokens, in order.
pub proof fn lemma_chain_in_order(level: nat, ts: Seq<TokenView>)
    ensures
        in_order(chain(level, ts), ts),
    decreases ts.len(), 2 * level + 3,
{
    let first = if level == 0 {
        unary(ts)
    } else {
        chain((level - 1) as nat, ts)
    };
    if level == 0 {
        lemma_unary_in_order(ts);
    } else {
        lemma_chain_in_order((level - 1) as nat, ts);
    }
    match first.result {
        Err(_) => {},
        Ok(e) => {
            let n = used(first, ts);
            lemma_chain_tail_in_order(level, e, first.rest);
            let whole = chain_tail(level, e, first.rest);
            let m = used(whole, first.rest);
            lemma_fronts(ts, n, m);
            lemma_without_parentheses_add(ts.take(n), first.rest.take(m));
        },
    }
}

/// `chain_tail` consumes a front of its tokens, in order, behind the tokens
/// of the tree made so far.
pub proof fn lemma_chain_tail_in_order(level: nat, left: Tree, ts: Seq<TokenView>)
    ensures
        0 <= used(chain_tail(level, left, ts), ts) <= ts.len(),
        chain_tail(level, left, ts).rest == ts.skip(used(chain_tail(level, left, ts), ts)),
        chain_tail(level, left, ts).result matches Ok(e) ==> tokens_in_order(e)
            == tokens_in_order(left) + without_parentheses(
            ts.take(used(chain_tail(level, left, ts), ts)),
        ),
    decreases ts.len(), 2 * level + 2,
{
    if operator_ahead(level, ts) {
        let tail = ts.skip(1);
        let operand = if level == 0 {
            unary(tail)
        } else {
            chain((level - 1) as nat, tail)
        };
        if level == 0 {
            lemma_unary_in_order(tail);
        } else {
            lemma_chain_in_order((level - 1) as nat, tail);
        }
        let n = used(operand, tail);
        lemma_front(ts, n);
        match operand.result {
            Err(_) => {},
            Ok(e) => {
                let node = Tree::Binary {
                    left: Box::new(left),
                    operator: ts[0],
                    right: Box::new(e),
                };
                lemma_without_parentheses_one(ts[0]);
                lemma_without_parentheses_add(seq![ts[0]], tail.take(n));
                if operand.rest.len() < ts.len() {
                    lemma_chain_tail_in_order(level, node, operand.rest);
                    let whole = chain_tail(level, node, operand.rest);
                    let m = used(whole, operand.rest);
                    lemma_fronts(ts, n + 1, m);
                    lemma_without_parentheses_add(ts.take(n + 1), operand.rest.take(m));
                    assert(tokens_in_order(left) + seq![ts[0]] + tokens_in_order(e)
                        + without_parentheses(operand.rest.take(m)) =~= tokens_in_order(left) + (
                    seq![ts[0]] + tokens_in_order(e) + without_parentheses(
                        operand.rest.take(m),
                    )));
                } else {
                    assert(tokens_in_order(left) + seq![ts[0]] + tokens_in_order(e)
                        =~= tokens_in_order(left) + (seq![ts[0]] + tokens_in_order(e)));
                }
            },
        }
    } else {
        assert(ts.skip(0) =~= ts);
        assert(ts.take(0) =~= Seq::<TokenView>::empty());
        assert(tokens_in_order(left) + Seq::<TokenView>::empty() =~= tokens_in_order(left));
    }
}

/// The tree that `expression` makes holds the tokens it consumed, in their
/// order and without the parentheses, and what it leaves is what follows
/// them.
pub proof fn lemma_expression_in_order(ts: Seq<TokenView>)
    ensures
        in_order(expression(ts), ts),
{
    lemma_chain_in_order(top_level(), ts);
}

} // verus!
