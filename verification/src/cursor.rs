//! The cursor over the decoded source: one lexeme per step, with the
//! sub-scanners for strings, numbers and words.

use vstd::prelude::*;
use crate::error::LexError;
use crate::grammar::{
    is_digit, is_word_start, lemma_lexeme_end_advances, lemma_newlines_bounded,
    lemma_newlines_unchanged, lemma_run_end, lexeme_at, lexeme_end, newlines_before, operator_of,
    run_end, takes_next, CharClass, Lexeme,
};
use crate::text::text_of;
use crate::token::{reserved_word, Token};

verus! {

/// What one lexeme gave to the pass.
pub(crate) enum Yield {
    /// Nothing: a blank or a comment.
    Skipped,
    /// A token.
    Token(Token),
    /// A failure.
    Failure(LexError),
}

impl Yield {
    /// The value of what the lexeme gave.
    pub(crate) open spec fn value(&self) -> Lexeme {
        match self {
            Yield::Skipped => Lexeme::Skipped,
            Yield::Token(token) => Lexeme::Token(token@),
            Yield::Failure(error) => Lexeme::Failure(error@),
        }
    }
}

/// The state of the cursor after one lexeme: where the next one begins,
/// the line counter there, and what the lexeme gave.
pub(crate) struct Step {
    pub(crate) end: usize,
    pub(crate) line: usize,
    pub(crate) yielded: Yield,
}

/// Consumes characters of `class` from `from` on and returns where the run
/// ends.
pub(crate) fn skip_run(chars: &[char], from: usize, class: CharClass) -> (end: usize)
    requires
        from <= chars@.len(),
    ensures
        end == run_end(chars@, from as int, class),
        from <= end <= chars@.len(),
{
    let mut end: usize = from;
    while end < chars.len() && class.accepts(chars[end])
        invariant
            from <= end <= chars@.len(),
            run_end(chars@, end as int, class) == run_end(chars@, from as int, class),
        decreases chars@.len() - end,
    {
        end += 1;
    }
    end
}

/// Scans the string literal whose opening quote is at `start`: consumes up
/// to and including the closing quote, counting the newlines inside. Where
/// the input ends first, the failure is recorded at the opening quote, on
/// the line that the end of input is on.
pub(crate) fn scan_string(chars: &[char], start: usize, line: usize) -> (step: Step)
    requires
        start < chars@.len(),
        chars@[start as int] == '"',
        line == newlines_before(chars@, start as int),
    ensures
        step.end == lexeme_end(chars@, start as int),
        step.line == newlines_before(chars@, step.end as int),
        step.yielded.value() == lexeme_at(chars@, start as int),
{
    let length = chars.len();
    let mut literal = String::new();
    let mut position: usize = start + 1;
    let mut line: usize = line;
    while position < length && chars[position] != '"'
        invariant
            start < position <= chars@.len() == length,
            run_end(chars@, position as int, CharClass::StringBody) == run_end(
                chars@,
                start + 1,
                CharClass::StringBody,
            ),
            literal@ == chars@.subrange(start + 1, position as int),
            line == newlines_before(chars@, position as int),
        decreases chars@.len() - position,
    {
        let c = chars[position];
        proof {
            lemma_newlines_bounded(chars@, position as int);
        }
        if c == '\n' {
            line += 1;
        }
        literal.push(c);
        position += 1;
        assert(chars@.subrange(start + 1, position as int) == chars@.subrange(
            start + 1,
            position - 1,
        ).push(c));
    }
    if position < length {
        Step { end: position + 1, line, yielded: Yield::Token(Token::String { literal }) }
    } else {
        let error = LexError::from((line, start, "unterminated string"));
        Step { end: position, line, yielded: Yield::Failure(error) }
    }
}

/// Scans the number literal whose first digit is at `start`: a run of
/// digits and, only where a dot with a digit behind it follows, the dot
/// and the digits after it. A dot with no digit behind it is left for the
/// next lexeme.
pub(crate) fn scan_number(chars: &[char], start: usize, line: usize) -> (step: Step)
    requires
        start < chars@.len(),
        is_digit(chars@[start as int]),
        line == newlines_before(chars@, start as int),
    ensures
        step.end == lexeme_end(chars@, start as int),
        step.line == newlines_before(chars@, step.end as int),
        step.yielded.value() == lexeme_at(chars@, start as int),
{
    let whole = skip_run(chars, start, CharClass::Digit);
    let end = if whole < chars.len() && chars[whole] == '.' && whole + 1 < chars.len()
        && CharClass::Digit.accepts(chars[whole + 1]) {
        skip_run(chars, whole + 2, CharClass::Digit)
    } else {
        whole
    };
    proof {
        lemma_run_end(chars@, start as int, CharClass::Digit);
        if end != whole {
            lemma_run_end(chars@, whole + 2, CharClass::Digit);
        }
        lemma_newlines_unchanged(chars@, start as int, end as int);
    }
    let literal = text_of(chars, start, end);
    Step { end, line, yielded: Yield::Token(Token::Number { literal }) }
}

/// Scans the word whose first character is at `start`: a run of letters,
/// digits and underscores, which is a reserved word where the table holds
/// its exact spelling and an identifier otherwise.
pub(crate) fn scan_word(chars: &[char], start: usize, line: usize) -> (step: Step)
    requires
        start < chars@.len(),
        is_word_start(chars@[start as int]),
        line == newlines_before(chars@, start as int),
    ensures
        step.end == lexeme_end(chars@, start as int),
        step.line == newlines_before(chars@, step.end as int),
        step.yielded.value() == lexeme_at(chars@, start as int),
{
    let end = skip_run(chars, start, CharClass::WordPart);
    proof {
        lemma_run_end(chars@, start as int, CharClass::WordPart);
        lemma_newlines_unchanged(chars@, start as int, end as int);
    }
    let token = match reserved_word(chars, start, end) {
        Some(keyword) => keyword,
        None => Token::Identifier { name: text_of(chars, start, end) },
    };
    Step { end, line, yielded: Yield::Token(token) }
}

/// The token of a one-character operator, or of a two-character one where
/// the character after it, `next`, completes the pair; `None` for a
/// character that begins no operator, and for the first slash of a
/// comment.
pub fn operator(c: char, next: Option<char>) -> (token: Option<Token>)
    ensures
        match token {
            Some(token) => operator_of(c, next) == Some(token@),
            None => operator_of(c, next) is None,
        },
{
    let paired = match next {
        Some(next) => next == '=',
        None => false,
    };
    let slashed = match next {
        Some(next) => next == '/',
        None => false,
    };
    match c {
        '(' => Some(Token::LeftParen),
        ')' => Some(Token::RightParen),
        '{' => Some(Token::LeftBrace),
        '}' => Some(Token::RightBrace),
        ',' => Some(Token::Comma),
        '.' => Some(Token::Dot),
        '-' => Some(Token::Minus),
        '+' => Some(Token::Plus),
        ';' => Some(Token::Semicolon),
        '*' => Some(Token::Star),
        '!' => Some(if paired { Token::BangEqual } else { Token::Bang }),
        '=' => Some(if paired { Token::EqualEqual } else { Token::Equal }),
        '<' => Some(if paired { Token::LessEqual } else { Token::Less }),
        '>' => Some(if paired { Token::GreaterEqual } else { Token::Greater }),
        '/' => if slashed { None } else { Some(Token::Slash) },
        _ => None,
    }
}

/// Whether the character after `c` is to be consumed together with `c`:
/// only where the two form `!=`, `==`, `<=`, `>=` or `//`.
pub fn pairs_with(c: char, next: Option<char>) -> (taken: bool)
    ensures
        taken == takes_next(c, next),
{
    match next {
        Some(next) => (next == '=' && (c == '!' || c == '=' || c == '<' || c == '>')) || (next
            == '/' && c == '/'),
        None => false,
    }
}

/// Scans the one lexeme that begins at `start`, where the line counter
/// stands at `line`: reads the character there, takes the next one with it
/// where the two form `!=`, `==`, `<=`, `>=` or `//`, and classifies.
pub(crate) fn scan_lexeme(chars: &[char], start: usize, line: usize) -> (step: Step)
    requires
        start < chars@.len(),
        line == newlines_before(chars@, start as int),
    ensures
        step.end == lexeme_end(chars@, start as int),
        start < step.end <= chars@.len(),
        step.line == newlines_before(chars@, step.end as int),
        step.yielded.value() == lexeme_at(chars@, start as int),
{
    let length = chars.len();
    let c = chars[start];
    let next = if start + 1 < length {
        Some(chars[start + 1])
    } else {
        None
    };
    let after = if pairs_with(c, next) {
        start + 2
    } else {
        start + 1
    };
    proof {
        lemma_newlines_bounded(chars@, start as int);
        lemma_lexeme_end_advances(chars@, start as int);
    }
    if c == '\n' {
        Step { end: after, line: line + 1, yielded: Yield::Skipped }
    } else if c == ' ' || c == '\r' || c == '\t' {
        Step { end: after, line, yielded: Yield::Skipped }
    } else if let Some(token) = operator(c, next) {
        proof {
            lemma_newlines_unchanged(chars@, start as int, after as int);
        }
        Step { end: after, line, yielded: Yield::Token(token) }
    } else if c == '/' {
        let end = skip_run(chars, after, CharClass::CommentBody);
        proof {
            lemma_run_end(chars@, after as int, CharClass::CommentBody);
            lemma_newlines_unchanged(chars@, start as int, end as int);
        }
        Step { end, line, yielded: Yield::Skipped }
    } else if c == '"' {
        scan_string(chars, start, line)
    } else if CharClass::Digit.accepts(c) {
        scan_number(chars, start, line)
    } else if CharClass::WordStart.accepts(c) {
        scan_word(chars, start, line)
    } else {
        let error = LexError::from((line, start, "unexpected character"));
        Step { end: after, line, yielded: Yield::Failure(error) }
    }
}

} // verus!
