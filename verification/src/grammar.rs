//! The lexical grammar, stated over sequences of characters.
//!
//! A source text is cut into lexemes from left to right. Each lexeme is
//! classified on its own: it yields a token, a failure, or nothing
//! (blanks and comments). The functions here say where each lexeme ends
//! and what it yields; the scan pass is proved to compute exactly this.

use vstd::prelude::*;
use crate::error::ErrorRecord;
use crate::token::{keyword_token, TokenView};

verus! {

/// An ASCII decimal digit.
pub open spec fn is_digit(c: char) -> bool {
    '0' <= c && c <= '9'
}

/// An ASCII letter, of either case.
pub open spec fn is_letter(c: char) -> bool {
    ('a' <= c && c <= 'z') || ('A' <= c && c <= 'Z')
}

/// A character that may begin an identifier or a reserved word.
pub open spec fn is_word_start(c: char) -> bool {
    is_letter(c) || c == '_'
}

/// A character that may continue an identifier or a reserved word.
pub open spec fn is_word_part(c: char) -> bool {
    is_word_start(c) || is_digit(c)
}

/// A character that separates lexemes and yields nothing.
pub open spec fn is_blank(c: char) -> bool {
    c == ' ' || c == '\r' || c == '\t' || c == '\n'
}

/// The classes of characters that the scan tells apart.
#[derive(Clone, Copy, Debug)]
pub enum CharClass {
    /// ASCII digits.
    Digit,
    /// ASCII letters and the underscore.
    WordStart,
    /// ASCII letters, digits and the underscore.
    WordPart,
    /// Everything but the newline that ends a comment.
    CommentBody,
    /// Everything but the quote that closes a string.
    StringBody,
}

impl CharClass {
    /// Whether `c` belongs to the class.
    pub open spec fn holds(self, c: char) -> bool {
        match self {
            CharClass::Digit => is_digit(c),
            CharClass::WordStart => is_word_start(c),
            CharClass::WordPart => is_word_part(c),
            CharClass::CommentBody => c != '\n',
            CharClass::StringBody => c != '"',
        }
    }

    /// Whether `c` belongs to the class.
    pub fn accepts(&self, c: char) -> (accepted: bool)
        ensures
            accepted == self.holds(c),
    {
        match self {
            CharClass::Digit => '0' <= c && c <= '9',
            CharClass::WordStart => ('a' <= c && c <= 'z') || ('A' <= c && c <= 'Z') || c == '_',
            CharClass::WordPart => ('a' <= c && c <= 'z') || ('A' <= c && c <= 'Z') || c == '_' || (
            '0' <= c && c <= '9'),
            CharClass::CommentBody => c != '\n',
            CharClass::StringBody => c != '"',
        }
    }
}

/// The end of the longest run of characters of `class` that starts at
/// `from`: the first position at or after `from` that holds a character
/// outside the class, or the length of `s` if there is none.
pub open spec fn run_end(s: Seq<char>, from: int, class: CharClass) -> int
    decreases s.len() - from,
{
    if 0 <= from < s.len() && class.holds(s[from]) {
        run_end(s, from + 1, class)
    } else {
        from
    }
}

/// The number of newline characters among the first `upto` characters of
/// `s`: the value of the line counter once they have been consumed.
pub open spec fn newlines_before(s: Seq<char>, upto: int) -> nat
    decreases upto,
{
    if upto <= 0 {
        0
    } else if upto <= s.len() && s[upto - 1] == '\n' {
        newlines_before(s, upto - 1) + 1
    } else {
        newlines_before(s, upto - 1)
    }
}

/// The character after position `at`, if there is one: the one character
/// of lookahead that the scan takes.
pub open spec fn next_char(s: Seq<char>, at: int) -> Option<char> {
    if at + 1 < s.len() {
        Some(s[at + 1])
    } else {
        None
    }
}

/// Whether `c` and the character after it form a comparison operator:
/// `!=`, `==`, `<=` or `>=`.
pub open spec fn is_operator_pair(c: char, next: Option<char>) -> bool {
    (c == '!' || c == '=' || c == '<' || c == '>') && next == Some('=')
}

/// Whether `c` and the character after it open a comment: `//`.
pub open spec fn is_comment_start(c: char, next: Option<char>) -> bool {
    c == '/' && next == Some('/')
}

/// Whether the character after `c` is consumed together with `c`, before
/// the lexeme is classified: only where the two form `!=`, `==`, `<=`,
/// `>=` or `//`.
pub open spec fn takes_next(c: char, next: Option<char>) -> bool {
    is_operator_pair(c, next) || is_comment_start(c, next)
}

/// Where the number lexeme that begins with the digit at `start` ends.
/// A dot belongs to the number only when a digit follows it; otherwise the
/// number ends before the dot, which is then a lexeme of its own.
pub open spec fn number_end(s: Seq<char>, start: int) -> int {
    let whole = run_end(s, start, CharClass::Digit);
    if whole + 1 < s.len() && s[whole] == '.' && is_digit(s[whole + 1]) {
        run_end(s, whole + 2, CharClass::Digit)
    } else {
        whole
    }
}

/// Where the lexeme that begins at `start` ends (exclusive), for
/// `0 <= start < s.len()`.
pub open spec fn lexeme_end(s: Seq<char>, start: int) -> int {
    let c = s[start];
    let next = next_char(s, start);
    if is_comment_start(c, next) {
        run_end(s, start + 2, CharClass::CommentBody)
    } else if is_operator_pair(c, next) {
        start + 2
    } else if c == '"' {
        let close = run_end(s, start + 1, CharClass::StringBody);
        if close < s.len() {
            close + 1
        } else {
            close
        }
    } else if is_digit(c) {
        number_end(s, start)
    } else if is_word_start(c) {
        run_end(s, start, CharClass::WordPart)
    } else {
        start + 1
    }
}

/// The message of a string literal that the end of input cuts short.
pub open spec fn unterminated_string() -> Seq<char> {
    "unterminated string"@
}

/// The message of a character that begins no lexeme.
pub open spec fn unexpected_character() -> Seq<char> {
    "unexpected character"@
}

/// What one lexeme yields.
pub enum Lexeme {
    /// Nothing: a blank or a comment.
    Skipped,
    /// A token.
    Token(TokenView),
    /// A failure, recorded while the pass goes on.
    Failure(ErrorRecord),
}

/// The token of the operator that `c` begins, given the character after
/// it: one of the one-character operators, or a comparison operator of two
/// characters where `next` completes it. The first slash of a comment
/// begins no operator.
pub open spec fn operator_of(c: char, next: Option<char>) -> Option<TokenView> {
    let paired = next == Some('=');
    if c == '(' {
        Some(TokenView::LeftParen)
    } else if c == ')' {
        Some(TokenView::RightParen)
    } else if c == '{' {
        Some(TokenView::LeftBrace)
    } else if c == '}' {
        Some(TokenView::RightBrace)
    } else if c == ',' {
        Some(TokenView::Comma)
    } else if c == '.' {
        Some(TokenView::Dot)
    } else if c == '-' {
        Some(TokenView::Minus)
    } else if c == '+' {
        Some(TokenView::Plus)
    } else if c == ';' {
        Some(TokenView::Semicolon)
    } else if c == '*' {
        Some(TokenView::Star)
    } else if c == '!' {
        Some(if paired { TokenView::BangEqual } else { TokenView::Bang })
    } else if c == '=' {
        Some(if paired { TokenView::EqualEqual } else { TokenView::Equal })
    } else if c == '<' {
        Some(if paired { TokenView::LessEqual } else { TokenView::Less })
    } else if c == '>' {
        Some(if paired { TokenView::GreaterEqual } else { TokenView::Greater })
    } else if c == '/' && !is_comment_start(c, next) {
        Some(TokenView::Slash)
    } else {
        None
    }
}

/// What the lexeme that begins at `start` yields, for
/// `0 <= start < s.len()`.
pub open spec fn lexeme_at(s: Seq<char>, start: int) -> Lexeme {
    let c = s[start];
    let next = next_char(s, start);
    let end = lexeme_end(s, start);
    if is_blank(c) || is_comment_start(c, next) {
        Lexeme::Skipped
    } else if let Some(operator) = operator_of(c, next) {
        Lexeme::Token(operator)
    } else if c == '"' {
        let close = run_end(s, start + 1, CharClass::StringBody);
        if close < s.len() {
            Lexeme::Token(TokenView::String { literal: s.subrange(start + 1, close) })
        } else {
            Lexeme::Failure(
                ErrorRecord {
                    line: newlines_before(s, s.len() as int),
                    offset: start as nat,
                    message: unterminated_string(),
                },
            )
        }
    } else if is_digit(c) {
        Lexeme::Token(TokenView::Number { literal: s.subrange(start, end) })
    } else if is_word_start(c) {
        let word = s.subrange(start, end);
        match keyword_token(word) {
            Some(keyword) => Lexeme::Token(keyword),
            None => Lexeme::Token(TokenView::Identifier { name: word }),
        }
    } else {
        Lexeme::Failure(
            ErrorRecord {
                line: newlines_before(s, start),
                offset: start as nat,
                message: unexpected_character(),
            },
        )
    }
}

/// The tokens of the lexemes of `s` from `start` on, in order, where
/// `start` is the beginning of a lexeme.
pub open spec fn tokens_from(s: Seq<char>, start: int) -> Seq<TokenView>
    decreases s.len() - start,
    when 0 <= start
    via tokens_from_decreases
{
    if start >= s.len() {
        Seq::empty()
    } else {
        let rest = tokens_from(s, lexeme_end(s, start));
        match lexeme_at(s, start) {
            Lexeme::Token(token) => seq![token] + rest,
            _ => rest,
        }
    }
}

/// The failures of the lexemes of `s` from `start` on, in order, where
/// `start` is the beginning of a lexeme.
pub open spec fn errors_from(s: Seq<char>, start: int) -> Seq<ErrorRecord>
    decreases s.len() - start,
    when 0 <= start
    via errors_from_decreases
{
    if start >= s.len() {
        Seq::empty()
    } else {
        let rest = errors_from(s, lexeme_end(s, start));
        match lexeme_at(s, start) {
            Lexeme::Failure(error) => seq![error] + rest,
            _ => rest,
        }
    }
}

#[via_fn]
proof fn tokens_from_decreases(s: Seq<char>, start: int) {
    if start < s.len() {
        lemma_lexeme_end_advances(s, start);
    }
}

#[via_fn]
proof fn errors_from_decreases(s: Seq<char>, start: int) {
    if start < s.len() {
        lemma_lexeme_end_advances(s, start);
    }
}

/// The outcome of scanning `s`: every failure, in order, if there is one;
/// otherwise every token, in order, closed by the terminal marker that
/// holds the number of newlines in `s`.
pub open spec fn scanned(s: Seq<char>) -> Result<Seq<TokenView>, Seq<ErrorRecord>> {
    if errors_from(s, 0).len() > 0 {
        Err(errors_from(s, 0))
    } else {
        Ok(tokens_from(s, 0).push(TokenView::Eof { line: newlines_before(s, s.len() as int) }))
    }
}

/// Whether a lexeme begins at `at` when `s` is cut into lexemes from
/// `from` on, where `from` is the beginning of a lexeme.
pub open spec fn cut_at(s: Seq<char>, from: int, at: int) -> bool
    decreases s.len() - from,
    when 0 <= from
    via cut_at_decreases
{
    if from >= at || from >= s.len() {
        from == at
    } else {
        cut_at(s, lexeme_end(s, from), at)
    }
}

#[via_fn]
proof fn cut_at_decreases(s: Seq<char>, from: int, at: int) {
    if from < s.len() {
        lemma_lexeme_end_advances(s, from);
    }
}

/// Whether a lexeme of `s` begins at `at`.
pub open spec fn begins_lexeme(s: Seq<char>, at: int) -> bool {
    cut_at(s, 0, at)
}

/// Whether every character of `text` is a digit.
pub open spec fn all_digits(text: Seq<char>) -> bool {
    forall|i: int| 0 <= i < text.len() ==> is_digit(#[trigger] text[i])
}

/// Whether `text` is a decimal numeral: at least one digit, optionally
/// followed by one dot and at least one more digit.
pub open spec fn is_decimal(text: Seq<char>) -> bool {
    ||| text.len() > 0 && all_digits(text)
    ||| exists|dot: int|
        0 < dot < text.len() - 1 && text[dot] == '.' && all_digits(#[trigger] text.take(dot))
            && all_digits(text.skip(dot + 1))
}

/// A run ends at or after its start, within the text, and holds only
/// characters of its class; the character at its end, if any, is outside
/// the class.
pub proof fn lemma_run_end(s: Seq<char>, from: int, class: CharClass)
    requires
        0 <= from <= s.len(),
    ensures
        from <= run_end(s, from, class) <= s.len(),
        forall|k: int| from <= k < run_end(s, from, class) ==> class.holds(#[trigger] s[k]),
        run_end(s, from, class) < s.len() ==> !class.holds(s[run_end(s, from, class)]),
    decreases s.len() - from,
{
    if from < s.len() && class.holds(s[from]) {
        lemma_run_end(s, from + 1, class);
    }
}

/// A stretch of characters of one class that no character of the class
/// follows is the whole run from its first position.
pub proof fn lemma_run_end_is(s: Seq<char>, from: int, to: int, class: CharClass)
    requires
        0 <= from <= to <= s.len(),
        forall|k: int| from <= k < to ==> class.holds(#[trigger] s[k]),
        to < s.len() ==> !class.holds(s[to]),
    ensures
        run_end(s, from, class) == to,
    decreases to - from,
{
    if from < to {
        lemma_run_end_is(s, from + 1, to, class);
    }
}

/// Every lexeme holds at least one character and ends within the text.
pub proof fn lemma_lexeme_end_advances(s: Seq<char>, start: int)
    requires
        0 <= start < s.len(),
    ensures
        start < lexeme_end(s, start) <= s.len(),
{
    lemma_run_end(s, start + 1, CharClass::StringBody);
    lemma_run_end(s, start + 1, CharClass::WordPart);
    lemma_run_end(s, start + 1, CharClass::Digit);
    if is_comment_start(s[start], next_char(s, start)) {
        lemma_run_end(s, start + 2, CharClass::CommentBody);
    }
    if is_digit(s[start]) {
        let whole = run_end(s, start, CharClass::Digit);
        if whole + 1 < s.len() {
            lemma_run_end(s, whole + 2, CharClass::Digit);
        }
    }
}

/// Between two positions with no newline in between the line counter does
/// not move.
pub proof fn lemma_newlines_unchanged(s: Seq<char>, from: int, to: int)
    requires
        0 <= from <= to <= s.len(),
        forall|k: int| from <= k < to ==> s[k] != '\n',
    ensures
        newlines_before(s, to) == newlines_before(s, from),
    decreases to - from,
{
    if from < to {
        lemma_newlines_unchanged(s, from, to - 1);
    }
}

/// No more newlines can have been consumed than characters.
pub proof fn lemma_newlines_bounded(s: Seq<char>, upto: int)
    requires
        0 <= upto,
    ensures
        newlines_before(s, upto) <= upto,
    decreases upto,
{
    if upto > 0 {
        lemma_newlines_bounded(s, upto - 1);
    }
}

/// The line counter counts newlines: its value after `upto` characters is
/// the number of newlines among them.
pub proof fn lemma_newlines_are_counted(s: Seq<char>, upto: int)
    requires
        0 <= upto <= s.len(),
    ensures
        newlines_before(s, upto) == s.take(upto).filter(|c: char| c == '\n').len(),
    decreases upto,
{
    reveal(Seq::filter);
    if upto > 0 {
        lemma_newlines_are_counted(s, upto - 1);
        assert(s.take(upto).drop_last() =~= s.take(upto - 1));
        assert(s.take(upto).last() == s[upto - 1]);
    } else {
        assert(s.take(upto).len() == 0);
    }
}

/// The line counter never moves back.
pub proof fn lemma_newlines_grow(s: Seq<char>, from: int, to: int)
    requires
        from <= to,
    ensures
        newlines_before(s, from) <= newlines_before(s, to),
    decreases to - from,
{
    if from < to {
        lemma_newlines_grow(s, from, to - 1);
    }
}

} // verus!
