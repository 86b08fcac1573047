//! The scanner: from source text to the sequence of its tokens.
//!
//! `scan_from` says, over the characters alone, which tokens a text holds and
//! which lexical errors it reports; `Scanner::scan_tokens` computes exactly
//! that.

use crate::number::{
    decimal_literal_with, decimal_value, is_decimal_literal, is_literal_number, value_of_decimal,
};
use crate::text::report_text;
use crate::token::{
    get_double_token_type_with_possible_equals, operator_kind, token_views, Token, TokenType,
    TokenView,
};
use crate::{alpha, alphanumeric, digit, error, is_alpha, is_alphanumeric, is_digit};
use vstd::prelude::*;
use vstd::string::*;

verus! {

/// The kinds of character that a run is made of.
pub enum CharClass {
    /// A decimal digit.
    Digit,
    /// A letter, a digit or `_`.
    Word,
    /// Any character but `"`.
    Quoted,
    /// Any character but a line feed.
    Comment,
}

impl CharClass {
    /// `c` belongs to the class.
    pub open spec fn holds(self, c: char) -> bool {
        match self {
            CharClass::Digit => digit(c),
            CharClass::Word => alphanumeric(c),
            CharClass::Quoted => c != '"',
            CharClass::Comment => c != '\n',
        }
    }
}

/// The first position at or after `from` whose character is not in `class`,
/// or the end of `chars`.
pub open spec fn run_end(chars: Seq<char>, from: int, class: CharClass) -> int
    decreases chars.len() - from,
{
    if 0 <= from < chars.len() && class.holds(chars[from]) {
        run_end(chars, from + 1, class)
    } else {
        from
    }
}

/// The number of line feeds in `chars` between `from` and `to`.
pub open spec fn line_feeds(chars: Seq<char>, from: int, to: int) -> int
    decreases to - from,
{
    if from >= to {
        0
    } else {
        line_feeds(chars, from, to - 1) + if chars[to - 1] == '\n' {
            1int
        } else {
            0int
        }
    }
}

/// The reserved words with their kinds.
pub open spec fn reserved_words() -> Seq<(Seq<char>, TokenType)> {
    seq![
        ("and"@, TokenType::And),
        ("class"@, TokenType::Class),
        ("else"@, TokenType::Else),
        ("false"@, TokenType::False),
        ("for"@, TokenType::For),
        ("fun"@, TokenType::Fun),
        ("if"@, TokenType::If),
        ("nil"@, TokenType::Nil),
        ("or"@, TokenType::Or),
        ("print"@, TokenType::Print),
        ("return"@, TokenType::Return),
        ("super"@, TokenType::Super),
        ("this"@, TokenType::This),
        ("true"@, TokenType::True),
        ("var"@, TokenType::Var),
        ("while"@, TokenType::While),
    ]
}

/// The kind of the first entry of `table` at or after `from` whose word is
/// `text`.
pub open spec fn lookup(table: Seq<(Seq<char>, TokenType)>, text: Seq<char>, from: int) -> Option<
    TokenType,
>
    decreases table.len() - from,
{
    if from < 0 || from >= table.len() {
        None
    } else if table[from].0 == text {
        Some(table[from].1)
    } else {
        lookup(table, text, from + 1)
    }
}

/// The kind of a word: that of the reserved word it is, else `Identifier`.
pub open spec fn word_kind(text: Seq<char>) -> TokenType {
    match lookup(reserved_words(), text, 0) {
        Some(kind) => kind,
        None => TokenType::Identifier,
    }
}

/// A token without a number or a string in it.
pub open spec fn plain_token(kind: TokenType, lexeme: Seq<char>, line: int) -> TokenView {
    TokenView {
        tok_type: kind,
        lexeme,
        line,
        bool_literal: kind == TokenType::True,
        float_literal: 0,
        string_literal: Seq::empty(),
    }
}

/// The token that ends every scan.
pub open spec fn end_token(line: int) -> TokenView {
    plain_token(TokenType::EOF, Seq::empty(), line)
}

/// What one step of the scanner finds.
pub struct Lexeme {
    /// The token, if the characters make one.
    pub token: Option<TokenView>,
    /// The report of a lexical error, if there is one.
    pub diagnostic: Option<Seq<char>>,
    /// The position after the characters consumed.
    pub end: int,
    /// The line number after them.
    pub line: int,
}

/// The kind of the one-character token `c`, where `c` alone decides it.
pub open spec fn punctuation(c: char) -> Option<TokenType> {
    if c == '(' {
        Some(TokenType::LeftParen)
    } else if c == ')' {
        Some(TokenType::RightParen)
    } else if c == '{' {
        Some(TokenType::LeftBrace)
    } else if c == '}' {
        Some(TokenType::RightBrace)
    } else if c == ',' {
        Some(TokenType::Comma)
    } else if c == '.' {
        Some(TokenType::Dot)
    } else if c == '-' {
        Some(TokenType::Minus)
    } else if c == '+' {
        Some(TokenType::Plus)
    } else if c == ';' {
        Some(TokenType::Semicolon)
    } else if c == '*' {
        Some(TokenType::Star)
    } else {
        None
    }
}

/// The character at `pos`, or `None` past the end.
pub open spec fn char_at(chars: Seq<char>, pos: int) -> Option<char> {
    if 0 <= pos < chars.len() {
        Some(chars[pos])
    } else {
        None
    }
}

/// The end of the number literal that starts at `pos`: the digits, and a dot
/// with the digits after it where at least one digit follows the dot.
pub open spec fn number_end(chars: Seq<char>, pos: int) -> int {
    let whole = run_end(chars, pos + 1, CharClass::Digit);
    if char_at(chars, whole) == Some('.') && char_at(chars, whole + 1).is_some() && digit(
        chars[whole + 1],
    ) {
        run_end(chars, whole + 1, CharClass::Digit)
    } else {
        whole
    }
}

/// The lexeme that starts at `pos`, for `0 <= pos < chars.len()`, with `line`
/// the line number there.
pub open spec fn scan_one(chars: Seq<char>, pos: int, line: int) -> Lexeme {
    let c = chars[pos];
    if punctuation(c).is_some() {
        Lexeme {
            token: Some(plain_token(punctuation(c).unwrap(), chars.subrange(pos, pos + 1), line)),
            diagnostic: None,
            end: pos + 1,
            line,
        }
    } else if c == ' ' || c == '\r' || c == '\t' {
        Lexeme { token: None, diagnostic: None, end: pos + 1, line }
    } else if c == '\n' {
        Lexeme { token: None, diagnostic: None, end: pos + 1, line: line + 1 }
    } else if c == '!' || c == '=' || c == '<' || c == '>' {
        let next = char_at(chars, pos + 1);
        let end = if next == Some('=') {
            pos + 2
        } else {
            pos + 1
        };
        Lexeme {
            token: Some(
                plain_token(operator_kind(c, next).unwrap(), chars.subrange(pos, end), line),
            ),
            diagnostic: None,
            end,
            line,
        }
    } else if c == '/' {
        if char_at(chars, pos + 1) == Some('/') {
            Lexeme {
                token: None,
                diagnostic: None,
                end: run_end(chars, pos + 2, CharClass::Comment),
                line,
            }
        } else {
            Lexeme {
                token: Some(plain_token(TokenType::Slash, chars.subrange(pos, pos + 1), line)),
                diagnostic: None,
                end: pos + 1,
                line,
            }
        }
    } else if c == '"' {
        let close = run_end(chars, pos + 1, CharClass::Quoted);
        let closed = close < chars.len();
        let end = if closed {
            close + 1
        } else {
            close
        };
        let last_line = line + line_feeds(chars, pos + 1, close);
        Lexeme {
            token: Some(
                TokenView {
                    tok_type: TokenType::String,
                    lexeme: chars.subrange(pos, end),
                    line: last_line,
                    bool_literal: false,
                    float_literal: 0,
                    string_literal: chars.subrange(pos + 1, close),
                },
            ),
            diagnostic: if closed {
                None
            } else {
                Some(report_text(last_line, Seq::empty(), "Unterminated string."@))
            },
            end,
            line: last_line,
        }
    } else if digit(c) {
        let end = number_end(chars, pos);
        let lexeme = chars.subrange(pos, end);
        Lexeme {
            token: Some(
                TokenView {
                    tok_type: TokenType::Number,
                    lexeme,
                    line,
                    bool_literal: false,
                    float_literal: decimal_value(lexeme),
                    string_literal: Seq::empty(),
                },
            ),
            diagnostic: None,
            end,
            line,
        }
    } else if alpha(c) {
        let end = run_end(chars, pos + 1, CharClass::Word);
        let lexeme = chars.subrange(pos, end);
        Lexeme {
            token: Some(plain_token(word_kind(lexeme), lexeme, line)),
            diagnostic: None,
            end,
            line,
        }
    } else {
        Lexeme {
            token: None,
            diagnostic: Some(
                report_text(line, Seq::empty(), "Unexpected character: "@.push(c)),
            ),
            end: pos + 1,
            line,
        }
    }
}

/// The outcome of a scan.
pub struct Scan {
    /// The tokens, the last of them the end token.
    pub tokens: Seq<TokenView>,
    /// The reports of the lexical errors, in the order they were met.
    pub diagnostics: Seq<Seq<char>>,
    /// The line number at the end of the text.
    pub line: int,
}

/// `s` with `x` in front where there is one.
pub open spec fn with_front<T>(x: Option<T>, s: Seq<T>) -> Seq<T> {
    match x {
        Some(v) => seq![v] + s,
        None => s,
    }
}

/// The scan of `chars` from position `pos`, where the line number is `line`.
pub open spec fn scan_from(chars: Seq<char>, pos: int, line: int) -> Scan
    decreases chars.len() - pos,
{
    if 0 <= pos < chars.len() {
        let step = scan_one(chars, pos, line);
        proof {
            lemma_scan_one_advances(chars, pos, line);
        }
        let rest = scan_from(chars, step.end, step.line);
        Scan {
            tokens: with_front(step.token, rest.tokens),
            diagnostics: with_front(step.diagnostic, rest.diagnostics),
            line: rest.line,
        }
    } else {
        Scan { tokens: seq![end_token(line)], diagnostics: Seq::empty(), line }
    }
}

/// The scan of a whole text.
pub open spec fn scan(chars: Seq<char>) -> Scan {
    scan_from(chars, 0, 1)
}

/// A run ends at or after its start and within the text, holds only
/// characters that satisfy `p`, and stops before one that does not.
pub proof fn lemma_run_end(chars: Seq<char>, from: int, class: CharClass)
    requires
        0 <= from <= chars.len(),
    ensures
        from <= run_end(chars, from, class) <= chars.len(),
        forall|i: int|
            from <= i < run_end(chars, from, class) ==> class.holds(#[trigger] chars[i]),
        run_end(chars, from, class) < chars.len() ==> !class.holds(
            chars[run_end(chars, from, class)],
        ),
    decreases chars.len() - from,
{
    if from < chars.len() && class.holds(chars[from]) {
        lemma_run_end(chars, from + 1, class);
    }
}

/// A run ends at the first position from which no character of the class
/// follows.
pub proof fn lemma_run_ends_at(chars: Seq<char>, from: int, end: int, class: CharClass)
    requires
        0 <= from <= end <= chars.len(),
        forall|i: int| from <= i < end ==> class.holds(#[trigger] chars[i]),
        end < chars.len() ==> !class.holds(chars[end]),
    ensures
        run_end(chars, from, class) == end,
    decreases end - from,
{
    if from < end {
        lemma_run_ends_at(chars, from + 1, end, class);
    }
}

/// Every step of the scanner consumes at least one character and stays
/// within the text.
pub proof fn lemma_scan_one_advances(chars: Seq<char>, pos: int, line: int)
    requires
        0 <= pos < chars.len(),
    ensures
        pos < scan_one(chars, pos, line).end <= chars.len(),
        line <= scan_one(chars, pos, line).line,
        scan_one(chars, pos, line).line - line <= scan_one(chars, pos, line).end - pos,
{
    let c = chars[pos];
    if c == '/' && pos + 1 < chars.len() {
        lemma_run_end(chars, pos + 2, CharClass::Comment);
    }
    if c == '"' {
        lemma_run_end(chars, pos + 1, CharClass::Quoted);
        lemma_line_feeds_bound(chars, pos + 1, run_end(chars, pos + 1, CharClass::Quoted));
    }
    if digit(c) {
        lemma_run_end(chars, pos + 1, CharClass::Digit);
        let whole = run_end(chars, pos + 1, CharClass::Digit);
        if whole + 1 < chars.len() {
            lemma_run_end(chars, whole + 1, CharClass::Digit);
        }
    }
    if alpha(c) {
        lemma_run_end(chars, pos + 1, CharClass::Word);
    }
}

/// There are no more line feeds than characters.
pub proof fn lemma_line_feeds_bound(chars: Seq<char>, from: int, to: int)
    ensures
        0 <= line_feeds(chars, from, to),
        from <= to ==> line_feeds(chars, from, to) <= to - from,
        from > to ==> line_feeds(chars, from, to) == 0,
    decreases to - from,
{
    if from < to {
        lemma_line_feeds_bound(chars, from, to - 1);
    }
}


/// A word that `lookup` finds stands in the table with the kind returned.
pub proof fn lemma_lookup_finds(table: Seq<(Seq<char>, TokenType)>, text: Seq<char>, from: int)
    requires
        0 <= from,
    ensures
        lookup(table, text, from) matches Some(kind) ==> exists|i: int|
            from <= i < table.len() && #[trigger] table[i] == (text, kind),
    decreases table.len() - from,
{
    if from < table.len() && table[from].0 != text {
        lemma_lookup_finds(table, text, from + 1);
    }
}

/// The kind of a word is never that of the end token, of a number or of a
/// string.
pub proof fn lemma_word_kind(text: Seq<char>)
    ensures
        word_kind(text) != TokenType::EOF,
        word_kind(text) != TokenType::Number,
        word_kind(text) != TokenType::String,
{
    lemma_lookup_finds(reserved_words(), text, 0);
}

/// The token of a step, if any, is not the end token, and its payload is the
/// one that its kind calls for.
pub proof fn lemma_scan_one_token(chars: Seq<char>, pos: int, line: int)
    requires
        0 <= pos < chars.len(),
    ensures
        scan_one(chars, pos, line).token matches Some(t) ==> t.tok_type != TokenType::EOF
            && t.payload_matches_kind(),
{
    let c = chars[pos];
    if alpha(c) {
        let end = run_end(chars, pos + 1, CharClass::Word);
        lemma_word_kind(chars.subrange(pos, end));
    }
}

/// The payload of a literal token is read from its lexeme: a number token
/// holds the value of its lexeme, which has the form of a number literal,
/// and a string token holds its lexeme without the quotes, and no quote.
pub open spec fn payload_from_lexeme(t: TokenView) -> bool {
    &&& t.tok_type == TokenType::Number ==> is_decimal_literal(t.lexeme) && t.float_literal
        == decimal_value(t.lexeme)
    &&& t.tok_type == TokenType::String ==> {
        &&& t.lexeme == seq!['"'] + t.string_literal + seq!['"'] || t.lexeme == seq!['"']
            + t.string_literal
        &&& forall|i: int| 0 <= i < t.string_literal.len() ==> t.string_literal[i] != '"'
    }
}

/// The token of a step, if any, has the characters consumed as its lexeme and
/// a payload read from them.
pub proof fn lemma_scan_one_payload(chars: Seq<char>, pos: int, line: int)
    requires
        0 <= pos < chars.len(),
    ensures
        scan_one(chars, pos, line).token matches Some(t) ==> t.lexeme == chars.subrange(
            pos,
            scan_one(chars, pos, line).end,
        ) && payload_from_lexeme(t),
{
    let c = chars[pos];
    if c == '"' {
        let close = run_end(chars, pos + 1, CharClass::Quoted);
        lemma_run_end(chars, pos + 1, CharClass::Quoted);
        let t = scan_one(chars, pos, line).token.unwrap();
        if close < chars.len() {
            assert(t.lexeme =~= seq!['"'] + t.string_literal + seq!['"']);
        } else {
            assert(t.lexeme =~= seq!['"'] + t.string_literal);
        }
        assert forall|i: int| 0 <= i < t.string_literal.len() implies t.string_literal[i]
            != '"' by {
            assert(CharClass::Quoted.holds(chars[pos + 1 + i]));
        }
    } else if digit(c) {
        let whole = run_end(chars, pos + 1, CharClass::Digit);
        lemma_run_end(chars, pos + 1, CharClass::Digit);
        if whole + 1 < chars.len() {
            lemma_run_end(chars, whole + 1, CharClass::Digit);
        }
        let text = scan_one(chars, pos, line).token.unwrap().lexeme;
        let k = whole - pos;
        assert forall|i: int| 0 <= i < text.take(k).len() implies digit(
            #[trigger] text.take(k)[i],
        ) by {
            assert(text.take(k)[i] == chars[pos + i]);
            if i > 0 {
                assert(CharClass::Digit.holds(chars[pos + i]));
            }
        }
        if k < text.len() {
            assert(text[k] == chars[whole]);
            assert forall|i: int| 0 <= i < text.skip(k + 1).len() implies digit(
                #[trigger] text.skip(k + 1)[i],
            ) by {
                assert(text.skip(k + 1)[i] == chars[whole + 1 + i]);
                assert(CharClass::Digit.holds(chars[whole + 1 + i]));
            }
        }
        assert(decimal_literal_with(text, k));
    } else if alpha(c) {
        let end = run_end(chars, pos + 1, CharClass::Word);
        lemma_word_kind(chars.subrange(pos, end));
    }
}

/// Every scan ends with the end token, on the line where the text ends. No
/// token before it is an end token, and every token carries the payload
/// that its kind calls for, read from its lexeme.
pub proof fn lemma_scan_from(chars: Seq<char>, pos: int, line: int)
    ensures
        scan_from(chars, pos, line).tokens.len() > 0,
        scan_from(chars, pos, line).tokens.last() == end_token(scan_from(chars, pos, line).line),
        forall|i: int|
            0 <= i < scan_from(chars, pos, line).tokens.len() - 1 ==> (#[trigger] scan_from(
                chars,
                pos,
                line,
            ).tokens[i]).tok_type != TokenType::EOF,
        forall|i: int|
            0 <= i < scan_from(chars, pos, line).tokens.len() ==> (#[trigger] scan_from(
                chars,
                pos,
                line,
            ).tokens[i]).payload_matches_kind(),
        forall|i: int|
            0 <= i < scan_from(chars, pos, line).tokens.len() ==> payload_from_lexeme(
                #[trigger] scan_from(chars, pos, line).tokens[i],
            ),
        line <= scan_from(chars, pos, line).line,
    decreases chars.len() - pos,
{
    if 0 <= pos < chars.len() {
        let step = scan_one(chars, pos, line);
        lemma_scan_one_advances(chars, pos, line);
        lemma_scan_one_token(chars, pos, line);
        lemma_scan_one_payload(chars, pos, line);
        lemma_scan_from(chars, step.end, step.line);
        let rest = scan_from(chars, step.end, step.line);
        let all = scan_from(chars, pos, line).tokens;
        if step.token.is_some() {
            assert forall|i: int| 0 < i < all.len() implies #[trigger] all[i] == rest.tokens[i
                - 1] by {}
        }
    }
}

/// Line feeds add up over adjoining ranges.
pub proof fn lemma_line_feeds_split(chars: Seq<char>, from: int, mid: int, to: int)
    requires
        from <= mid <= to,
    ensures
        line_feeds(chars, from, to) == line_feeds(chars, from, mid) + line_feeds(chars, mid, to),
    decreases to - mid,
{
    if mid < to {
        lemma_line_feeds_split(chars, from, mid, to - 1);
    }
}

/// A range without a line feed counts none.
pub proof fn lemma_line_feeds_none(chars: Seq<char>, from: int, to: int)
    requires
        forall|i: int| from <= i < to ==> #[trigger] chars[i] != '\n',
    ensures
        line_feeds(chars, from, to) == 0,
    decreases to - from,
{
    if from < to {
        lemma_line_feeds_none(chars, from, to - 1);
    }
}

/// A step raises the line number by the line feeds among the characters it
/// consumes.
pub proof fn lemma_scan_one_line(chars: Seq<char>, pos: int, line: int)
    requires
        0 <= pos < chars.len(),
    ensures
        scan_one(chars, pos, line).line == line + line_feeds(
            chars,
            pos,
            scan_one(chars, pos, line).end,
        ),
{
    let c = chars[pos];
    let step = scan_one(chars, pos, line);
    lemma_scan_one_advances(chars, pos, line);
    if c == '\n' {
        assert(line_feeds(chars, pos, pos) == 0);
    } else if c == '"' {
        let close = run_end(chars, pos + 1, CharClass::Quoted);
        lemma_run_end(chars, pos + 1, CharClass::Quoted);
        lemma_line_feeds_none(chars, pos, pos + 1);
        lemma_line_feeds_split(chars, pos, pos + 1, close);
        if close < chars.len() {
            lemma_line_feeds_none(chars, close, close + 1);
            lemma_line_feeds_split(chars, pos, close, close + 1);
        }
    } else {
        if c == '/' && char_at(chars, pos + 1) == Some('/') {
            lemma_run_end(chars, pos + 2, CharClass::Comment);
        } else if digit(c) {
            let whole = run_end(chars, pos + 1, CharClass::Digit);
            lemma_run_end(chars, pos + 1, CharClass::Digit);
            if whole + 1 < chars.len() {
                lemma_run_end(chars, whole + 1, CharClass::Digit);
            }
        } else if alpha(c) {
            lemma_run_end(chars, pos + 1, CharClass::Word);
        }
        assert forall|i: int| pos <= i < step.end implies #[trigger] chars[i] != '\n' by {}
        lemma_line_feeds_none(chars, pos, step.end);
    }
}

/// The line number at the end of a scan is the one at its start, raised by
/// the line feeds of the text scanned: the end token of a whole text stands
/// on the line that is one more than the number of its line feeds.
pub proof fn lemma_scan_line(chars: Seq<char>, pos: int, line: int)
    requires
        0 <= pos <= chars.len(),
    ensures
        scan_from(chars, pos, line).line == line + line_feeds(chars, pos, chars.len() as int),
    decreases chars.len() - pos,
{
    if pos < chars.len() {
        let step = scan_one(chars, pos, line);
        lemma_scan_one_advances(chars, pos, line);
        lemma_scan_one_line(chars, pos, line);
        lemma_scan_line(chars, step.end, step.line);
        lemma_line_feeds_split(chars, pos, step.end, chars.len() as int);
    }
}

/// The positions at which the tokens of a scan start; the end token starts
/// at the end of the text.
pub open spec fn token_starts(chars: Seq<char>, pos: int, line: int) -> Seq<int>
    decreases chars.len() - pos,
{
    if 0 <= pos < chars.len() {
        let step = scan_one(chars, pos, line);
        proof {
            lemma_scan_one_advances(chars, pos, line);
        }
        let rest = token_starts(chars, step.end, step.line);
        if step.token.is_some() {
            seq![pos] + rest
        } else {
            rest
        }
    } else {
        seq![pos]
    }
}

/// The tokens of a scan stand in the text from left to right: each lexeme is
/// the piece of the text at the token's start, and no token starts before
/// the one in front of it has ended.
pub proof fn lemma_tokens_left_to_right(chars: Seq<char>, pos: int, line: int)
    requires
        0 <= pos <= chars.len(),
    ensures
        token_starts(chars, pos, line).len() == scan_from(chars, pos, line).tokens.len(),
        forall|i: int|
            0 <= i < scan_from(chars, pos, line).tokens.len() ==> {
                let start = #[trigger] token_starts(chars, pos, line)[i];
                let lexeme = scan_from(chars, pos, line).tokens[i].lexeme;
                &&& pos <= start
                &&& start + lexeme.len() <= chars.len()
                &&& lexeme == chars.subrange(start, start + lexeme.len())
            },
        forall|i: int|
            0 <= i < scan_from(chars, pos, line).tokens.len() - 1 ==> (#[trigger] token_starts(
                chars,
                pos,
                line,
            )[i]) + scan_from(chars, pos, line).tokens[i].lexeme.len() <= token_starts(
                chars,
                pos,
                line,
            )[i + 1],
    decreases chars.len() - pos,
{
    let starts = token_starts(chars, pos, line);
    let tokens = scan_from(chars, pos, line).tokens;
    if pos < chars.len() {
        let step = scan_one(chars, pos, line);
        lemma_scan_one_advances(chars, pos, line);
        lemma_scan_one_payload(chars, pos, line);
        lemma_tokens_left_to_right(chars, step.end, step.line);
        let rest_starts = token_starts(chars, step.end, step.line);
        let rest_tokens = scan_from(chars, step.end, step.line).tokens;
        lemma_scan_from(chars, step.end, step.line);
        if step.token.is_some() {
            assert forall|i: int| 0 < i < tokens.len() implies #[trigger] starts[i]
                == rest_starts[i - 1] && tokens[i] == rest_tokens[i - 1] by {}
            assert(starts[0] == pos && tokens[0] == step.token.unwrap());
            assert forall|i: int| 0 <= i < tokens.len() - 1 implies (#[trigger] starts[i])
                + tokens[i].lexeme.len() <= starts[i + 1] by {
                if i > 0 {
                    assert(starts[i] == rest_starts[i - 1]);
                }
                assert(starts[i + 1] == rest_starts[i]);
            }
        }
    } else {
        assert(tokens[0].lexeme =~= chars.subrange(pos, pos + 0));
    }
}

/// The number payload of every token is what a number literal can write: a
/// zero, a positive number or positive infinity.
pub open spec fn payloads_are_numbers(ts: Seq<TokenView>) -> bool {
    forall|i: int| 0 <= i < ts.len() ==> is_literal_number((#[trigger] ts[i]).float_literal)
}

/// The texts of `v`.
pub open spec fn texts(v: Seq<String>) -> Seq<Seq<char>> {
    Seq::new(v.len(), |i: int| v[i]@)
}

/// The words and kinds of `table`.
pub open spec fn table_view(table: Seq<(String, TokenType)>) -> Seq<(Seq<char>, TokenType)> {
    Seq::new(table.len(), |i: int| (table[i].0@, table[i].1))
}

/// A scanner over one source text.
pub struct Scanner {
    source: String,
    chars: Vec<char>,
    text_buffer: String,
    start: usize,
    current: usize,
    line: i64,
    reserved: Vec<(String, TokenType)>,
    diagnostics: Vec<String>,
}

/// What a `Scanner` stands for.
pub struct ScannerView {
    /// The characters of the source text.
    pub chars: Seq<char>,
    /// The position of the next character to read.
    pub current: int,
    /// The line number at that position.
    pub line: int,
    /// The reports of the lexical errors met so far.
    pub diagnostics: Seq<Seq<char>>,
}

impl View for Scanner {
    type V = ScannerView;

    closed spec fn view(&self) -> ScannerView {
        ScannerView {
            chars: self.chars@,
            current: self.current as int,
            line: self.line as int,
            diagnostics: texts(self.diagnostics@),
        }
    }
}

fn chars_of(text: &str) -> (chars: Vec<char>)
    ensures
        chars@ == text@,
{
    let mut chars: Vec<char> = Vec::new();
    for c in it: text.chars()
        invariant
            chars@ == it.seq().take(it.index() as int),
    {
        chars.push(c);
    }
    chars
}

/// A scanner at the start of `source`, on line 1.
pub fn new_scanner(source: String) -> (s: Scanner)
    requires
        source@.len() < i64::MAX,
    ensures
        s.well_formed(),
        s@ == (ScannerView {
            chars: source@,
            current: 0,
            line: 1,
            diagnostics: Seq::empty(),
        }),
{
    let chars = chars_of(source.as_str());
    let mut reserved: Vec<(String, TokenType)> = Vec::new();
    reserved.push((String::from_str("and"), TokenType::And));
    reserved.push((String::from_str("class"), TokenType::Class));
    reserved.push((String::from_str("else"), TokenType::Else));
    reserved.push((String::from_str("false"), TokenType::False));
    reserved.push((String::from_str("for"), TokenType::For));
    reserved.push((String::from_str("fun"), TokenType::Fun));
    reserved.push((String::from_str("if"), TokenType::If));
    reserved.push((String::from_str("nil"), TokenType::Nil));
    reserved.push((String::from_str("or"), TokenType::Or));
    reserved.push((String::from_str("print"), TokenType::Print));
    reserved.push((String::from_str("return"), TokenType::Return));
    reserved.push((String::from_str("super"), TokenType::Super));
    reserved.push((String::from_str("this"), TokenType::This));
    reserved.push((String::from_str("true"), TokenType::True));
    reserved.push((String::from_str("var"), TokenType::Var));
    reserved.push((String::from_str("while"), TokenType::While));
    let s = Scanner {
        source,
        chars,
        text_buffer: String::new(),
        start: 0,
        current: 0,
        line: 1,
        reserved,
        diagnostics: Vec::new(),
    };
    assert(table_view(s.reserved@) =~= reserved_words());
    assert(texts(s.diagnostics@) =~= Seq::empty());
    s
}

impl Scanner {
    /// The scanner holds the characters of its source, a position within
    /// them, a line number that the position bounds, and the reserved words.
    pub closed spec fn well_formed(&self) -> bool {
        &&& self.consistent()
        &&& self.text_buffer@ == Seq::<char>::empty()
    }

    spec fn consistent(&self) -> bool {
        &&& self.chars@ == self.source@
        &&& self.chars@.len() < i64::MAX
        &&& self.current <= self.chars@.len()
        &&& 1 <= self.line <= 1 + self.current
        &&& table_view(self.reserved@) == reserved_words()
    }

    /// The scanner is inside a lexeme that starts at `start`, and the buffer
    /// holds the characters read of it.
    spec fn lexing(&self) -> bool {
        &&& self.consistent()
        &&& self.start <= self.current
        &&& self.text_buffer@ == self.chars@.subrange(self.start as int, self.current as int)
    }

    /// `self` differs from `before` at most in position and buffer.
    spec fn same_lexeme(&self, before: &Scanner) -> bool {
        &&& self.source == before.source
        &&& self.chars == before.chars
        &&& self.start == before.start
        &&& self.line == before.line
        &&& self.reserved == before.reserved
        &&& self.diagnostics == before.diagnostics
    }

    /// `self` has finished the lexeme that `before` was at the start of, and
    /// `token` is what it found.
    spec fn finished(&self, before: &Scanner, token: Option<Token>) -> bool {
        let step = scan_one(before.chars@, before.start as int, before.line as int);
        &&& self.consistent()
        &&& self.source == before.source
        &&& self.chars == before.chars
        &&& self.reserved == before.reserved
        &&& self.current == step.end
        &&& self.line == step.line
        &&& texts(self.diagnostics@) == texts(before.diagnostics@) + with_front(
            step.diagnostic,
            Seq::empty(),
        )
        &&& match token {
            Some(t) => step.token == Some(t@) && is_literal_number(t.float_literal),
            None => step.token.is_none(),
        }
    }

    /// The reports of the lexical errors met so far.
    pub fn diagnostics(&self) -> (d: &Vec<String>)
        ensures
            texts(d@) == self@.diagnostics,
    {
        &self.diagnostics
    }

    /// Gives up the scanner for the reports of the lexical errors it met.
    pub fn into_diagnostics(self) -> (d: Vec<String>)
        ensures
            texts(d@) == self@.diagnostics,
    {
        self.diagnostics
    }

    fn find_reserved(&self) -> (kind: Option<TokenType>)
        requires
            self.consistent(),
        ensures
            kind == lookup(reserved_words(), self.text_buffer@, 0),
    {
        let mut i: usize = 0;
        while i < self.reserved.len()
            invariant
                i <= self.reserved.len(),
                table_view(self.reserved@) == reserved_words(),
                lookup(reserved_words(), self.text_buffer@, 0) == lookup(
                    reserved_words(),
                    self.text_buffer@,
                    i as int,
                ),
            decreases self.reserved.len() - i,
        {
            assert(table_view(self.reserved@)[i as int] == (
                self.reserved@[i as int].0@,
                self.reserved@[i as int].1,
            ));
            if self.reserved[i].0 == self.text_buffer {
                return Some(self.reserved[i].1);
            }
            i += 1;
        }
        None
    }

    fn parse_identifier(&mut self) -> (token: Option<Token>)
        requires
            old(self).lexing(),
            old(self).current == old(self).start + 1,
            alpha(old(self).chars@[old(self).start as int]),
        ensures
            final(self).finished(old(self), token),
    {
        while is_alphanumeric(self.peek())
            invariant
                self.lexing(),
                self.same_lexeme(old(self)),
                self.start < self.current,
                run_end(self.chars@, self.current as int, CharClass::Word) == run_end(
                    self.chars@,
                    self.start + 1,
                    CharClass::Word,
                ),
            decreases self.chars@.len() - self.current,
        {
            self.advance();
        }
        let kind = match self.find_reserved() {
            Some(t) => t,
            None => TokenType::Identifier,
        };
        self.add_token(kind)
    }

    fn parse_number(&mut self) -> (token: Option<Token>)
        requires
            old(self).lexing(),
            old(self).current == old(self).start + 1,
            digit(old(self).chars@[old(self).start as int]),
        ensures
            final(self).finished(old(self), token),
    {
        let ghost chars = self.chars@;
        let ghost start = self.start as int;
        let ghost whole = run_end(chars, start + 1, CharClass::Digit);
        proof {
            lemma_run_end(chars, start + 1, CharClass::Digit);
        }
        while is_digit(self.peek())
            invariant
                self.lexing(),
                self.same_lexeme(old(self)),
                self.start < self.current,
                chars == self.chars@,
                run_end(chars, self.current as int, CharClass::Digit) == whole,
            decreases self.chars@.len() - self.current,
        {
            self.advance();
        }
        if self.peek() == '.' && is_digit(self.peek_next()) {
            proof {
                lemma_run_end(chars, whole + 1, CharClass::Digit);
            }
            self.advance();
            while is_digit(self.peek())
                invariant
                    self.lexing(),
                    self.same_lexeme(old(self)),
                    whole < self.current,
                    chars == self.chars@,
                    run_end(chars, self.current as int, CharClass::Digit) == run_end(
                        chars,
                        whole + 1,
                        CharClass::Digit,
                    ),
                decreases self.chars@.len() - self.current,
            {
                self.advance();
            }
        }
        proof {
            let text = self.text_buffer@;
            let k = whole - start;
            assert forall|i: int| 0 <= i < text.take(k).len() implies digit(
                #[trigger] text.take(k)[i],
            ) by {
                assert(text.take(k)[i] == chars[start + i]);
            }
            if k < text.len() {
                assert(text[k] == chars[whole]);
                assert forall|i: int| 0 <= i < text.skip(k + 1).len() implies digit(
                    #[trigger] text.skip(k + 1)[i],
                ) by {
                    assert(text.skip(k + 1)[i] == chars[whole + 1 + i]);
                }
            }
            assert(decimal_literal_with(text, k));
        }
        let num = value_of_decimal(self.text_buffer.as_str());
        Some(self.add_token_float_literal(TokenType::Number, num))
    }

    fn parse_string(&mut self) -> (token: Option<Token>)
        requires
            old(self).lexing(),
            old(self).current == old(self).start + 1,
            old(self).chars@[old(self).start as int] == '"',
        ensures
            final(self).finished(old(self), token),
    {
        let ghost chars = self.chars@;
        let ghost start = self.start as int;
        let ghost close = run_end(chars, start + 1, CharClass::Quoted);
        while self.peek() != '"' && !self.is_at_end()
            invariant
                self.lexing(),
                self.source == old(self).source,
                self.chars == old(self).chars,
                self.start == old(self).start,
                self.reserved == old(self).reserved,
                self.diagnostics == old(self).diagnostics,
                self.start < self.current,
                chars == self.chars@,
                start == self.start,
                run_end(chars, self.current as int, CharClass::Quoted) == close,
                self.line == old(self).line + line_feeds(chars, start + 1, self.current as int),
                self.line <= self.current - start + old(self).line - 1,
            decreases self.chars@.len() - self.current,
        {
            let c = self.advance();
            if c == '\n' {
                self.line += 1
            }
        }
        let closed = !self.is_at_end();
        if !closed {
            self.diagnostics.push(error(self.line, String::from_str("Unterminated string.")));
        } else {
            // For the closing "
            let _ = self.advance();
        }
        let mut s: String = String::new();
        let mut i: usize = self.start + 1;
        let stop: usize = if closed {
            self.current - 1
        } else {
            self.current
        };
        while i < stop
            invariant
                stop == close,
                self.start + 1 <= i <= close <= self.current <= self.chars@.len(),
                self.current == close + if closed {
                    1int
                } else {
                    0int
                },
                chars == self.chars@,
                start == self.start,
                s@ == chars.subrange(start + 1, i as int),
            decreases close - i,
        {
            s.push(self.chars[i]);
            i += 1;
        }
        proof {
            assert(texts(self.diagnostics@) =~= texts(old(self).diagnostics@) + with_front(
                scan_one(chars, start, old(self).line as int).diagnostic,
                Seq::empty(),
            ));
        }
        Some(self.add_token_string_literal(TokenType::String, s))
    }

    fn is_at_end(&self) -> (b: bool)
        ensures
            b == (self.current >= self.chars@.len()),
    {
        self.current >= self.chars.len()
    }

    fn add_token(&self, t: TokenType) -> (token: Option<Token>)
        ensures
            token.is_some(),
            token.unwrap()@ == plain_token(t, self.text_buffer@, self.line as int),
    {
        match t {
            TokenType::False => Some(self.add_token_bool_literal(t, false)),
            TokenType::True => Some(self.add_token_bool_literal(t, true)),
            _ => Some(self.add_token_base(t)),
        }
    }

    fn add_token_base(&self, t: TokenType) -> (token: Token)
        ensures
            token@ == (TokenView {
                tok_type: t,
                lexeme: self.text_buffer@,
                line: self.line as int,
                bool_literal: false,
                float_literal: 0,
                string_literal: Seq::empty(),
            }),
    {
        Token {
            tok_type: t,
            lexeme: self.text_buffer.clone(),
            line: self.line,
            bool_literal: false,
            float_literal: 0,
            string_literal: String::new(),
        }
    }

    fn add_token_string_literal(&self, t: TokenType, literal: String) -> (token: Token)
        ensures
            token@ == (TokenView {
                tok_type: t,
                lexeme: self.text_buffer@,
                line: self.line as int,
                bool_literal: false,
                float_literal: 0,
                string_literal: literal@,
            }),
    {
        let mut t = self.add_token_base(t);
        t.string_literal = literal;
        t
    }

    fn add_token_float_literal(&self, t: TokenType, literal: u64) -> (token: Token)
        ensures
            token@ == (TokenView {
                tok_type: t,
                lexeme: self.text_buffer@,
                line: self.line as int,
                bool_literal: false,
                float_literal: literal,
                string_literal: Seq::empty(),
            }),
    {
        let mut t = self.add_token_base(t);
        t.float_literal = literal;
        t
    }

    fn add_token_bool_literal(&self, t: TokenType, literal: bool) -> (token: Token)
        ensures
            token@ == (TokenView {
                tok_type: t,
                lexeme: self.text_buffer@,
                line: self.line as int,
                bool_literal: literal,
                float_literal: 0,
                string_literal: Seq::empty(),
            }),
    {
        let mut t = self.add_token_base(t);
        t.bool_literal = literal;
        t
    }

    fn advance(&mut self) -> (c: char)
        requires
            old(self).lexing(),
            old(self).current < old(self).chars@.len(),
        ensures
            final(self).lexing(),
            final(self).same_lexeme(old(self)),
            final(self).current == old(self).current + 1,
            c == old(self).chars@[old(self).current as int],
    {
        let c = self.chars[self.current];
        self.text_buffer.push(c);
        assert(self.current < self.chars.len());
        self.current += 1;
        assert(self.text_buffer@ =~= self.chars@.subrange(
            self.start as int,
            self.current as int,
        ));
        c
    }

    fn peek_next(&self) -> (c: char)
        requires
            self.consistent(),
        ensures
            c == match char_at(self.chars@, self.current + 1) {
                Some(x) => x,
                None => '\0',
            },
    {
        if self.chars.len() - self.current <= 1 {
            return '\0';
        }
        return self.chars[self.current + 1];
    }

    fn peek(&self) -> (c: char)
        requires
            self.consistent(),
        ensures
            c == match char_at(self.chars@, self.current as int) {
                Some(x) => x,
                None => '\0',
            },
    {
        if self.is_at_end() {
            return '\0';
        }
        return self.chars[self.current];
    }

    fn tok_match(&mut self, expected: char) -> (b: bool)
        requires
            old(self).lexing(),
        ensures
            b == (char_at(old(self).chars@, old(self).current as int) == Some(expected)),
            final(self).lexing(),
            final(self).same_lexeme(old(self)),
            final(self).current == old(self).current + if b {
                1int
            } else {
                0int
            },
    {
        if self.is_at_end() {
            return false;
        }
        if self.chars[self.current] != expected {
            return false;
        }
        self.text_buffer.push(expected);
        assert(self.current < self.chars.len());
        self.current += 1;
        assert(self.text_buffer@ =~= self.chars@.subrange(
            self.start as int,
            self.current as int,
        ));
        return true;
    }

    /// Scans the text from the current position to its end. The tokens, the
    /// reports and the final line number are those of `scan_from`.
    pub fn scan_tokens(&mut self) -> (tokens: Vec<Token>)
        requires
            old(self).well_formed(),
        ensures
            final(self).well_formed(),
            token_views(tokens@) == scan_from(
                old(self)@.chars,
                old(self)@.current,
                old(self)@.line,
            ).tokens,
            payloads_are_numbers(token_views(tokens@)),
            final(self)@ == (ScannerView {
                chars: old(self)@.chars,
                current: old(self)@.chars.len() as int,
                line: scan_from(old(self)@.chars, old(self)@.current, old(self)@.line).line,
                diagnostics: old(self)@.diagnostics + scan_from(
                    old(self)@.chars,
                    old(self)@.current,
                    old(self)@.line,
                ).diagnostics,
            }),
    {
        let ghost chars = self.chars@;
        let ghost whole = scan_from(chars, self.current as int, self.line as int);
        let ghost reported = texts(self.diagnostics@);
        let mut new_tokens: Vec<Token> = Vec::new();
        while !self.is_at_end()
            invariant
                self.well_formed(),
                self.chars@ == chars,
                payloads_are_numbers(token_views(new_tokens@)),
                whole.tokens == token_views(new_tokens@) + scan_from(
                    chars,
                    self.current as int,
                    self.line as int,
                ).tokens,
                reported + whole.diagnostics == texts(self.diagnostics@) + scan_from(
                    chars,
                    self.current as int,
                    self.line as int,
                ).diagnostics,
                whole.line == scan_from(chars, self.current as int, self.line as int).line,
            decreases self.chars@.len() - self.current,
        {
            self.start = self.current;
            let ghost before = *self;
            let ghost step = scan_one(chars, before.start as int, before.line as int);
            proof {
                lemma_scan_one_advances(chars, before.start as int, before.line as int);
                assert(self.text_buffer@ =~= self.chars@.subrange(
                    self.start as int,
                    self.current as int,
                ));
            }
            let c = self.advance();
            let t = if c == '(' {
                self.add_token(TokenType::LeftParen)
            } else if c == ')' {
                self.add_token(TokenType::RightParen)
            } else if c == '{' {
                self.add_token(TokenType::LeftBrace)
            } else if c == '}' {
                self.add_token(TokenType::RightBrace)
            } else if c == ',' {
                self.add_token(TokenType::Comma)
            } else if c == '.' {
                self.add_token(TokenType::Dot)
            } else if c == '-' {
                self.add_token(TokenType::Minus)
            } else if c == '+' {
                self.add_token(TokenType::Plus)
            } else if c == ';' {
                self.add_token(TokenType::Semicolon)
            } else if c == '*' {
                self.add_token(TokenType::Star)
            } else if c == ' ' || c == '\r' || c == '\t' {
                None
            } else if c == '\n' {
                self.line += 1;
                None
            } else if c == '!' || c == '=' || c == '<' || c == '>' {
                let kind = if self.tok_match('=') {
                    get_double_token_type_with_possible_equals(&c, Some(&'='))
                } else {
                    get_double_token_type_with_possible_equals(&c, None)
                };
                match kind {
                    Some(k) => self.add_token(k),
                    None => None,
                }
            } else if c == '/' {
                if self.tok_match('/') {
                    while self.peek() != '\n' && !self.is_at_end()
                        invariant
                            self.lexing(),
                            self.same_lexeme(&before),
                            self.chars@ == chars,
                            before.start + 2 <= self.current,
                            run_end(chars, self.current as int, CharClass::Comment) == run_end(
                                chars,
                                before.start + 2,
                                CharClass::Comment,
                            ),
                        decreases self.chars@.len() - self.current,
                    {
                        self.advance();
                    }
                    None
                } else {
                    self.add_token(TokenType::Slash)
                }
            } else if c == '"' {
                self.parse_string()
            } else if is_digit(c) {
                self.parse_number()
            } else if is_alpha(c) {
                self.parse_identifier()
            } else {
                let mut msg = String::from_str("Unexpected character: ");
                msg.push(c);
                self.diagnostics.push(error(self.line, msg));
                proof {
                    assert(texts(self.diagnostics@) =~= texts(before.diagnostics@) + with_front(
                        step.diagnostic,
                        Seq::empty(),
                    ));
                }
                None
            };
            assert(self.finished(&before, t));
            let ghost found = token_views(new_tokens@);
            if let Some(tok) = t {
                new_tokens.push(tok)
            }
            self.text_buffer = String::new();
            proof {
                let rest = scan_from(chars, step.end, step.line);
                assert(token_views(new_tokens@) + rest.tokens =~= found + with_front(
                    step.token,
                    rest.tokens,
                ));
                let views = token_views(new_tokens@);
                assert forall|i: int| 0 <= i < views.len() implies is_literal_number(
                    (#[trigger] views[i]).float_literal,
                ) by {
                    if i < found.len() {
                        assert(views[i] == found[i]);
                    }
                }
            }
        }
        let ghost found = token_views(new_tokens@);
        new_tokens.push(self.add_token_base(TokenType::EOF));
        proof {
            let views = token_views(new_tokens@);
            assert forall|i: int| 0 <= i < views.len() implies is_literal_number(
                (#[trigger] views[i]).float_literal,
            ) by {
                if i < found.len() {
                    assert(views[i] == found[i]);
                }
            }
        }
        new_tokens
    }
}

} // verus!
