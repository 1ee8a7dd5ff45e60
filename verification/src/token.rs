//! Tokens, the reserved-word table, and the scan pass that produces them.

use vstd::prelude::*;
use crate::cursor::{scan_lexeme, Yield};
use crate::error::{ErrorRecord, LexError};
use crate::grammar::{errors_from, newlines_before, scanned, tokens_from};
use crate::text::to_chars;

verus! {

/// One classified lexeme. Only identifiers, literals and the terminal
/// marker carry a payload.
#[derive(Debug, PartialEq, Eq)]
pub enum Token {
    LeftParen,
    RightParen,
    LeftBrace,
    RightBrace,
    Comma,
    Dot,
    Minus,
    Plus,
    Semicolon,
    Slash,
    Star,
    Bang,
    BangEqual,
    Equal,
    EqualEqual,
    Greater,
    GreaterEqual,
    Less,
    LessEqual,
    /// An identifier, with its spelling.
    Identifier { name: String },
    /// A string literal: the text between the quotes, newlines included.
    String { literal: String },
    /// A number literal, kept as its decimal spelling: a run of digits,
    /// optionally followed by a dot and another run of digits.
    Number { literal: String },
    And,
    Class,
    Else,
    False,
    Fun,
    For,
    If,
    Nil,
    Or,
    Print,
    Return,
    Super,
    This,
    True,
    Var,
    While,
    /// The terminal marker, with the number of newlines in the source.
    Eof { line: usize },
}

/// The mathematical value of a [`Token`].
pub enum TokenView {
    LeftParen,
    RightParen,
    LeftBrace,
    RightBrace,
    Comma,
    Dot,
    Minus,
    Plus,
    Semicolon,
    Slash,
    Star,
    Bang,
    BangEqual,
    Equal,
    EqualEqual,
    Greater,
    GreaterEqual,
    Less,
    LessEqual,
    Identifier { name: Seq<char> },
    String { literal: Seq<char> },
    Number { literal: Seq<char> },
    And,
    Class,
    Else,
    False,
    Fun,
    For,
    If,
    Nil,
    Or,
    Print,
    Return,
    Super,
    This,
    True,
    Var,
    While,
    Eof { line: nat },
}

impl View for Token {
    type V = TokenView;

    open spec fn view(&self) -> TokenView {
        match self {
            Token::LeftParen => TokenView::LeftParen,
            Token::RightParen => TokenView::RightParen,
            Token::LeftBrace => TokenView::LeftBrace,
            Token::RightBrace => TokenView::RightBrace,
            Token::Comma => TokenView::Comma,
            Token::Dot => TokenView::Dot,
            Token::Minus => TokenView::Minus,
            Token::Plus => TokenView::Plus,
            Token::Semicolon => TokenView::Semicolon,
            Token::Slash => TokenView::Slash,
            Token::Star => TokenView::Star,
            Token::Bang => TokenView::Bang,
            Token::BangEqual => TokenView::BangEqual,
            Token::Equal => TokenView::Equal,
            Token::EqualEqual => TokenView::EqualEqual,
            Token::Greater => TokenView::Greater,
            Token::GreaterEqual => TokenView::GreaterEqual,
            Token::Less => TokenView::Less,
            Token::LessEqual => TokenView::LessEqual,
            Token::Identifier { name } => TokenView::Identifier { name: name@ },
            Token::String { literal } => TokenView::String { literal: literal@ },
            Token::Number { literal } => TokenView::Number { literal: literal@ },
            Token::And => TokenView::And,
            Token::Class => TokenView::Class,
            Token::Else => TokenView::Else,
            Token::False => TokenView::False,
            Token::Fun => TokenView::Fun,
            Token::For => TokenView::For,
            Token::If => TokenView::If,
            Token::Nil => TokenView::Nil,
            Token::Or => TokenView::Or,
            Token::Print => TokenView::Print,
            Token::Return => TokenView::Return,
            Token::Super => TokenView::Super,
            Token::This => TokenView::This,
            Token::True => TokenView::True,
            Token::Var => TokenView::Var,
            Token::While => TokenView::While,
            Token::Eof { line } => TokenView::Eof { line: *line as nat },
        }
    }
}

impl Clone for Token {
    /// A token of the same value.
    fn clone(&self) -> (copy: Self)
        ensures
            copy@ == self@,
    {
        match self {
            Token::LeftParen => Token::LeftParen,
            Token::RightParen => Token::RightParen,
            Token::LeftBrace => Token::LeftBrace,
            Token::RightBrace => Token::RightBrace,
            Token::Comma => Token::Comma,
            Token::Dot => Token::Dot,
            Token::Minus => Token::Minus,
            Token::Plus => Token::Plus,
            Token::Semicolon => Token::Semicolon,
            Token::Slash => Token::Slash,
            Token::Star => Token::Star,
            Token::Bang => Token::Bang,
            Token::BangEqual => Token::BangEqual,
            Token::Equal => Token::Equal,
            Token::EqualEqual => Token::EqualEqual,
            Token::Greater => Token::Greater,
            Token::GreaterEqual => Token::GreaterEqual,
            Token::Less => Token::Less,
            Token::LessEqual => Token::LessEqual,
            Token::Identifier { name } => Token::Identifier { name: name.clone() },
            Token::String { literal } => Token::String { literal: literal.clone() },
            Token::Number { literal } => Token::Number { literal: literal.clone() },
            Token::And => Token::And,
            Token::Class => Token::Class,
            Token::Else => Token::Else,
            Token::False => Token::False,
            Token::Fun => Token::Fun,
            Token::For => Token::For,
            Token::If => Token::If,
            Token::Nil => Token::Nil,
            Token::Or => Token::Or,
            Token::Print => Token::Print,
            Token::Return => Token::Return,
            Token::Super => Token::Super,
            Token::This => Token::This,
            Token::True => Token::True,
            Token::Var => Token::Var,
            Token::While => Token::While,
            Token::Eof { line } => Token::Eof { line: *line },
        }
    }
}

/// The reserved word that `word` spells, if it spells one. A word that only
/// begins with a reserved word, or differs in case, spells none.
pub open spec fn keyword_token(word: Seq<char>) -> Option<TokenView> {
    if word == "and"@ {
        Some(TokenView::And)
    } else if word == "class"@ {
        Some(TokenView::Class)
    } else if word == "else"@ {
        Some(TokenView::Else)
    } else if word == "false"@ {
        Some(TokenView::False)
    } else if word == "for"@ {
        Some(TokenView::For)
    } else if word == "fun"@ {
        Some(TokenView::Fun)
    } else if word == "if"@ {
        Some(TokenView::If)
    } else if word == "nil"@ {
        Some(TokenView::Nil)
    } else if word == "or"@ {
        Some(TokenView::Or)
    } else if word == "print"@ {
        Some(TokenView::Print)
    } else if word == "return"@ {
        Some(TokenView::Return)
    } else if word == "super"@ {
        Some(TokenView::Super)
    } else if word == "this"@ {
        Some(TokenView::This)
    } else if word == "true"@ {
        Some(TokenView::True)
    } else if word == "var"@ {
        Some(TokenView::Var)
    } else if word == "while"@ {
        Some(TokenView::While)
    } else {
        None
    }
}

/// Whether the characters of `chars` from `from` up to `to` spell `word`.
fn spells(chars: &[char], from: usize, to: usize, word: &str) -> (same: bool)
    requires
        from <= to <= chars@.len(),
    ensures
        same == (chars@.subrange(from as int, to as int) == word@),
{
    let length = word.unicode_len();
    if to - from != length {
        return false;
    }
    let mut at: usize = 0;
    while at < length
        invariant
            from <= to <= chars@.len(),
            to - from == length == word@.len(),
            0 <= at <= length,
            forall|k: int| 0 <= k < at ==> chars@[from + k] == word@[k],
        decreases length - at,
    {
        if chars[from + at] != word.get_char(at) {
            assert(chars@.subrange(from as int, to as int)[at as int] != word@[at as int]);
            return false;
        }
        at += 1;
    }
    assert(chars@.subrange(from as int, to as int) =~= word@);
    true
}

/// Looks the characters of `chars` from `from` up to `to` up in the table
/// of reserved words.
pub(crate) fn reserved_word(chars: &[char], from: usize, to: usize) -> (token: Option<Token>)
    requires
        from <= to <= chars@.len(),
    ensures
        match token {
            Some(token) => keyword_token(chars@.subrange(from as int, to as int)) == Some(token@),
            None => keyword_token(chars@.subrange(from as int, to as int)) is None,
        },
{
    if spells(chars, from, to, "and") {
        Some(Token::And)
    } else if spells(chars, from, to, "class") {
        Some(Token::Class)
    } else if spells(chars, from, to, "else") {
        Some(Token::Else)
    } else if spells(chars, from, to, "false") {
        Some(Token::False)
    } else if spells(chars, from, to, "for") {
        Some(Token::For)
    } else if spells(chars, from, to, "fun") {
        Some(Token::Fun)
    } else if spells(chars, from, to, "if") {
        Some(Token::If)
    } else if spells(chars, from, to, "nil") {
        Some(Token::Nil)
    } else if spells(chars, from, to, "or") {
        Some(Token::Or)
    } else if spells(chars, from, to, "print") {
        Some(Token::Print)
    } else if spells(chars, from, to, "return") {
        Some(Token::Return)
    } else if spells(chars, from, to, "super") {
        Some(Token::Super)
    } else if spells(chars, from, to, "this") {
        Some(Token::This)
    } else if spells(chars, from, to, "true") {
        Some(Token::True)
    } else if spells(chars, from, to, "var") {
        Some(Token::Var)
    } else if spells(chars, from, to, "while") {
        Some(Token::While)
    } else {
        None
    }
}

impl Token {
    /// The reserved-word token that `keyword` spells exactly, or `None`
    /// where it spells no reserved word.
    pub fn try_from_keyword(keyword: &str) -> (token: Option<Token>)
        ensures
            match token {
                Some(token) => keyword_token(keyword@) == Some(token@),
                None => keyword_token(keyword@) is None,
            },
    {
        let chars = to_chars(keyword);
        assert(chars@.subrange(0, chars@.len() as int) == chars@);
        reserved_word(chars.as_slice(), 0, chars.len())
    }
}

/// The values of a list of tokens, in order.
pub open spec fn token_views(tokens: Seq<Token>) -> Seq<TokenView> {
    tokens.map_values(|token: Token| token@)
}

/// The values of a list of error records, in order.
pub open spec fn error_records(errors: Seq<LexError>) -> Seq<ErrorRecord> {
    errors.map_values(|error: LexError| error@)
}

/// The value of the outcome of a scan pass.
pub open spec fn outcome_view(outcome: Result<Vec<Token>, Vec<LexError>>) -> Result<
    Seq<TokenView>,
    Seq<ErrorRecord>,
> {
    match outcome {
        Ok(tokens) => Ok(token_views(tokens@)),
        Err(errors) => Err(error_records(errors@)),
    }
}

/// Scans `source` in one pass from left to right. A failure does not stop
/// the pass: every failure is recorded and scanning resumes behind the
/// lexeme that failed.
///
/// The outcome is `Err` with every failure, in source order, if there is
/// at least one; the tokens are then dropped. Otherwise it is `Ok` with
/// every token, in source order, closed by the terminal `Eof` that holds
/// the number of newlines in `source`.
pub fn scan(source: &str) -> (outcome: Result<Vec<Token>, Vec<LexError>>)
    ensures
        outcome_view(outcome) == scanned(source@),
        outcome is Err <==> errors_from(source@, 0).len() > 0,
        outcome matches Ok(tokens) ==> tokens@.len() > 0 && tokens@.last()@ == (TokenView::Eof {
            line: newlines_before(source@, source@.len() as int),
        }),
{
    let chars = to_chars(source);
    let text = chars.as_slice();
    let mut tokens: Vec<Token> = Vec::new();
    let mut errors: Vec<LexError> = Vec::new();
    let mut position: usize = 0;
    let mut line: usize = 0;
    while position < text.len()
        invariant
            text@ == source@,
            position <= text@.len(),
            line == newlines_before(text@, position as int),
            token_views(tokens@) + tokens_from(text@, position as int) =~= tokens_from(text@, 0),
            error_records(errors@) + errors_from(text@, position as int) =~= errors_from(text@, 0),
        decreases text@.len() - position,
    {
        let step = scan_lexeme(text, position, line);
        match step.yielded {
            Yield::Token(token) => tokens.push(token),
            Yield::Failure(error) => errors.push(error),
            Yield::Skipped => {},
        }
        position = step.end;
        line = step.line;
    }
    tokens.push(Token::Eof { line });
    proof {
        assert(error_records(errors@) =~= errors_from(source@, 0));
        assert(token_views(tokens@) =~= tokens_from(source@, 0).push(
            TokenView::Eof { line: line as nat },
        ));
    }
    if errors.is_empty() {
        Ok(tokens)
    } else {
        Err(errors)
    }
}

} // verus!
