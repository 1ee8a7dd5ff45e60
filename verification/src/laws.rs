//! Laws of the scan pass, proved from the lexical grammar.

use vstd::prelude::*;
use crate::error::{ErrorRecord, LexError};
use crate::grammar::{
    all_digits, begins_lexeme, cut_at, errors_from, is_comment_start, is_decimal, is_digit,
    is_operator_pair, is_word_part, is_word_start, lemma_lexeme_end_advances,
    lemma_newlines_grow, lemma_run_end, lemma_run_end_is, lexeme_at, lexeme_end,
    newlines_before, next_char, run_end, scanned, tokens_from, unexpected_character,
    unterminated_string, CharClass, Lexeme,
};
use crate::token::{keyword_token, outcome_view, Token, TokenView};

verus! {

/// Among the tokens of the lexemes of a text there is no terminal marker.
pub proof fn lemma_lexemes_give_no_terminal(s: Seq<char>, start: int)
    requires
        0 <= start,
    ensures
        forall|k: int|
            0 <= k < tokens_from(s, start).len() ==> !(#[trigger] tokens_from(s, start)[k] is Eof),
    decreases s.len() - start,
{
    if start < s.len() {
        lemma_lexeme_end_advances(s, start);
        lemma_lexemes_give_no_terminal(s, lexeme_end(s, start));
    }
}

/// A successful scan gives at least one token; its last token, and no
/// other, is the terminal marker, and that marker holds the number of
/// newlines in the whole text.
pub proof fn lemma_success_ends_with_terminal(s: Seq<char>)
    ensures
        scanned(s) matches Ok(tokens) ==> {
            &&& tokens.len() > 0
            &&& tokens.last() == (TokenView::Eof { line: newlines_before(s, s.len() as int) })
            &&& forall|k: int| 0 <= k < tokens.len() - 1 ==> !(#[trigger] tokens[k] is Eof)
        },
{
    lemma_lexemes_give_no_terminal(s, 0);
}

/// A scan fails exactly when some lexeme fails. It then gives every
/// failure, in source order, and no token; otherwise it gives every token
/// and no failure.
pub proof fn lemma_outcome_is_all_or_nothing(s: Seq<char>)
    ensures
        scanned(s) is Err <==> errors_from(s, 0).len() > 0,
        scanned(s) matches Err(errors) ==> errors == errors_from(s, 0),
        scanned(s) matches Ok(tokens) ==> tokens.drop_last() == tokens_from(s, 0),
{
    if scanned(s) is Ok {
        assert(scanned(s)->Ok_0.drop_last() =~= tokens_from(s, 0));
    }
}

/// Two outcomes that the scan pass may give for the same text have the
/// same value: the pass keeps no state between calls.
pub proof fn lemma_scan_is_repeatable(
    s: Seq<char>,
    first: Result<Vec<Token>, Vec<LexError>>,
    second: Result<Vec<Token>, Vec<LexError>>,
)
    requires
        outcome_view(first) == scanned(s),
        outcome_view(second) == scanned(s),
    ensures
        outcome_view(first) == outcome_view(second),
        first is Ok <==> second is Ok,
{
}

/// Where `!`, `=`, `<` or `>` is directly followed by `=`, the two
/// characters are one lexeme and give one token, the comparison operator;
/// the `=` is never scanned again.
pub proof fn lemma_pair_is_one_token(s: Seq<char>, start: int)
    requires
        0 <= start < s.len(),
        is_operator_pair(s[start], next_char(s, start)),
    ensures
        lexeme_end(s, start) == start + 2,
        lexeme_at(s, start) == Lexeme::Token(
            if s[start] == '!' {
                TokenView::BangEqual
            } else if s[start] == '=' {
                TokenView::EqualEqual
            } else if s[start] == '<' {
                TokenView::LessEqual
            } else {
                TokenView::GreaterEqual
            },
        ),
        tokens_from(s, start).len() > 0,
        tokens_from(s, start).drop_first() == tokens_from(s, start + 2),
        errors_from(s, start) == errors_from(s, start + 2),
{
    assert(tokens_from(s, start).drop_first() =~= tokens_from(s, start + 2));
}

/// A comment gives no token and no failure, whatever it holds. It ends
/// before the next newline, which is scanned after it, or at the end of
/// the text.
pub proof fn lemma_comment_is_skipped(s: Seq<char>, start: int)
    requires
        0 <= start < s.len(),
        is_comment_start(s[start], next_char(s, start)),
    ensures
        lexeme_at(s, start) == Lexeme::Skipped,
        start + 2 <= lexeme_end(s, start) <= s.len(),
        forall|k: int| start <= k < lexeme_end(s, start) ==> s[k] != '\n',
        lexeme_end(s, start) < s.len() ==> s[lexeme_end(s, start)] == '\n',
        tokens_from(s, start) == tokens_from(s, lexeme_end(s, start)),
        errors_from(s, start) == errors_from(s, lexeme_end(s, start)),
{
    lemma_run_end(s, start + 2, CharClass::CommentBody);
}

/// A string literal runs from its opening quote to the next quote. Its
/// token holds what stands between the two, newlines included and the
/// quotes left out.
pub proof fn lemma_closed_string(s: Seq<char>, start: int, close: int)
    requires
        0 <= start < close < s.len(),
        s[start] == '"',
        s[close] == '"',
        forall|k: int| start < k < close ==> s[k] != '"',
    ensures
        lexeme_end(s, start) == close + 1,
        lexeme_at(s, start) == Lexeme::Token(
            TokenView::String { literal: s.subrange(start + 1, close) },
        ),
        newlines_before(s, close + 1) - newlines_before(s, start) == newlines_before(
            s.subrange(start + 1, close),
            close - start - 1,
        ),
{
    lemma_run_end_is(s, start + 1, close, CharClass::StringBody);
    lemma_newlines_of_part(s, start + 1, close, close);
}

/// The newlines of a part of a text are those that the line counter
/// gains over the part.
pub proof fn lemma_newlines_of_part(s: Seq<char>, from: int, to: int, upto: int)
    requires
        0 <= from <= upto <= to <= s.len(),
    ensures
        newlines_before(s.subrange(from, to), upto - from) == newlines_before(s, upto)
            - newlines_before(s, from),
    decreases upto - from,
{
    if from < upto {
        lemma_newlines_of_part(s, from, to, upto - 1);
        assert(s.subrange(from, to)[upto - 1 - from] == s[upto - 1]);
    }
}

/// Where a lexeme begins with a quote and no quote follows it, the scan
/// fails. Its last failure is the unterminated string, recorded at the
/// opening quote and on the line that the end of the text is on; it is the
/// only failure of that kind, and no token is returned.
pub proof fn lemma_unterminated_string(s: Seq<char>, at: int)
    requires
        0 <= at < s.len(),
        begins_lexeme(s, at),
        s[at] == '"',
        forall|k: int| at < k < s.len() ==> s[k] != '"',
    ensures
        scanned(s) matches Err(errors) && {
            &&& errors.len() > 0
            &&& errors.last() == (ErrorRecord {
                line: newlines_before(s, s.len() as int),
                offset: at as nat,
                message: unterminated_string(),
            })
            &&& forall|k: int|
                0 <= k < errors.len() - 1 ==> (#[trigger] errors[k]).message
                    != unterminated_string()
        },
{
    lemma_unterminated_string_from(s, 0, at);
}

proof fn lemma_unterminated_string_from(s: Seq<char>, from: int, at: int)
    requires
        0 <= from <= at < s.len(),
        cut_at(s, from, at),
        s[at] == '"',
        forall|k: int| at < k < s.len() ==> s[k] != '"',
    ensures
        errors_from(s, from).len() > 0,
        errors_from(s, from).last() == (ErrorRecord {
            line: newlines_before(s, s.len() as int),
            offset: at as nat,
            message: unterminated_string(),
        }),
        forall|k: int|
            0 <= k < errors_from(s, from).len() - 1 ==> (#[trigger] errors_from(
                s,
                from,
            )[k]).message != unterminated_string(),
    decreases s.len() - from,
{
    lemma_lexeme_end_advances(s, from);
    lemma_messages_differ();
    let end = lexeme_end(s, from);
    if from == at {
        lemma_run_end(s, at + 1, CharClass::StringBody);
        assert(end == s.len());
        assert(errors_from(s, end) =~= Seq::empty());
    } else {
        lemma_run_end(s, from + 1, CharClass::StringBody);
        assert(cut_at(s, end, at));
        assert(end <= at);
        lemma_unterminated_string_from(s, end, at);
        let rest = errors_from(s, end);
        if lexeme_at(s, from) is Failure {
            let first = lexeme_at(s, from)->Failure_0;
            assert(first.message == unexpected_character());
            assert(errors_from(s, from) =~= seq![first] + rest);
            assert forall|k: int| 0 <= k < errors_from(s, from).len() - 1 implies (
            #[trigger] errors_from(s, from)[k]).message != unterminated_string() by {
                if k > 0 {
                    assert(errors_from(s, from)[k] == rest[k - 1]);
                }
            }
        } else {
            assert(errors_from(s, from) == rest);
        }
    }
}

/// A lexeme that begins with a digit is a number, and its literal is a
/// decimal numeral: its conversion to a number cannot fail.
pub proof fn lemma_number_literal_is_decimal(s: Seq<char>, start: int)
    requires
        0 <= start < s.len(),
        is_digit(s[start]),
    ensures
        lexeme_at(s, start) == Lexeme::Token(
            TokenView::Number { literal: s.subrange(start, lexeme_end(s, start)) },
        ),
        is_decimal(s.subrange(start, lexeme_end(s, start))),
{
    let whole = run_end(s, start, CharClass::Digit);
    let end = lexeme_end(s, start);
    let literal = s.subrange(start, end);
    lemma_run_end(s, start, CharClass::Digit);
    if end != whole {
        lemma_run_end(s, whole + 2, CharClass::Digit);
        let dot = whole - start;
        assert(literal[dot] == '.');
        assert(all_digits(literal.take(dot)));
        assert forall|i: int| 0 <= i < literal.skip(dot + 1).len() implies is_digit(
            #[trigger] literal.skip(dot + 1)[i],
        ) by {
            assert(literal.skip(dot + 1)[i] == s[whole + 1 + i]);
        }
    } else {
        assert(all_digits(literal));
    }
}

/// Every number token of a text holds a decimal numeral.
pub proof fn lemma_numbers_are_decimal(s: Seq<char>, start: int)
    requires
        0 <= start,
    ensures
        forall|k: int|
            0 <= k < tokens_from(s, start).len() ==> (#[trigger] tokens_from(
                s,
                start,
            )[k] matches TokenView::Number { literal } ==> is_decimal(literal)),
    decreases s.len() - start,
{
    if start < s.len() {
        lemma_lexeme_end_advances(s, start);
        lemma_numbers_are_decimal(s, lexeme_end(s, start));
        if is_digit(s[start]) {
            lemma_number_literal_is_decimal(s, start);
        }
    }
}

/// A run of digits with a dot behind it that no digit follows is a number
/// of its own, and the dot is the next lexeme: the number is kept, then
/// the dot is scanned as the operator.
pub proof fn lemma_number_before_lone_dot(s: Seq<char>, start: int, dot: int)
    requires
        0 <= start < dot < s.len(),
        forall|k: int| start <= k < dot ==> is_digit(#[trigger] s[k]),
        s[dot] == '.',
        !(next_char(s, dot) matches Some(c) && is_digit(c)),
    ensures
        lexeme_end(s, start) == dot,
        lexeme_end(s, dot) == dot + 1,
        tokens_from(s, start) == seq![
            TokenView::Number { literal: s.subrange(start, dot) },
            TokenView::Dot,
        ] + tokens_from(s, dot + 1),
        errors_from(s, start) == errors_from(s, dot + 1),
{
    lemma_run_end_is(s, start, dot, CharClass::Digit);
    assert(lexeme_end(s, start) == dot);
    assert(lexeme_end(s, dot) == dot + 1);
    assert(lexeme_at(s, dot) == Lexeme::Token(TokenView::Dot));
    assert(errors_from(s, dot) == errors_from(s, dot + 1));
    assert(errors_from(s, start) == errors_from(s, dot));
    assert(tokens_from(s, dot) =~= seq![TokenView::Dot] + tokens_from(s, dot + 1));
    assert(tokens_from(s, start) =~= seq![
        TokenView::Number { literal: s.subrange(start, dot) },
        TokenView::Dot,
    ] + tokens_from(s, dot + 1));
}

/// A lexeme that begins with a letter or an underscore is a word: the
/// reserved word that it spells exactly, or else an identifier that keeps
/// the spelling. The word is made of letters, digits and underscores, and
/// none of them follows it.
pub proof fn lemma_word_is_reserved_or_identifier(s: Seq<char>, start: int)
    requires
        0 <= start < s.len(),
        is_word_start(s[start]),
    ensures
        ({
            let end = lexeme_end(s, start);
            let word = s.subrange(start, end);
            &&& start < end <= s.len()
            &&& forall|k: int| start <= k < end ==> is_word_part(#[trigger] s[k])
            &&& end < s.len() ==> !is_word_part(s[end])
            &&& lexeme_at(s, start) == Lexeme::Token(
                match keyword_token(word) {
                    Some(keyword) => keyword,
                    None => TokenView::Identifier { name: word },
                },
            )
        }),
{
    lemma_run_end(s, start, CharClass::WordPart);
    lemma_lexeme_end_advances(s, start);
}

/// A character outside ASCII begins no lexeme, letter or not: it is an
/// unexpected character, and the scan resumes behind it.
pub proof fn lemma_outside_ascii_is_unexpected(s: Seq<char>, start: int)
    requires
        0 <= start < s.len(),
        s[start] as int >= 128,
    ensures
        lexeme_end(s, start) == start + 1,
        lexeme_at(s, start) == Lexeme::Failure(
            ErrorRecord {
                line: newlines_before(s, start),
                offset: start as nat,
                message: unexpected_character(),
            },
        ),
{
}

/// The two messages that a scan reports are different texts.
pub proof fn lemma_messages_differ()
    ensures
        unterminated_string() != unexpected_character(),
{
    reveal_strlit("unterminated string");
    reveal_strlit("unexpected character");
    assert(unterminated_string().len() != unexpected_character().len());
}

/// Every failure of a scan is an unterminated string or an unexpected
/// character, found at a position within the text and on a line of it.
pub proof fn lemma_failures_are_known(s: Seq<char>, start: int)
    requires
        0 <= start,
    ensures
        forall|k: int|
            0 <= k < errors_from(s, start).len() ==> {
                let error = #[trigger] errors_from(s, start)[k];
                &&& start <= error.offset < s.len()
                &&& error.line <= newlines_before(s, s.len() as int)
                &&& (error.message == unterminated_string() || error.message
                    == unexpected_character())
            },
    decreases s.len() - start,
{
    if start < s.len() {
        let end = lexeme_end(s, start);
        lemma_lexeme_end_advances(s, start);
        lemma_failures_are_known(s, end);
        lemma_newlines_grow(s, start, s.len() as int);
        assert forall|k: int| 0 <= k < errors_from(s, start).len() implies {
            let error = #[trigger] errors_from(s, start)[k];
            &&& start <= error.offset < s.len()
            &&& error.line <= newlines_before(s, s.len() as int)
            &&& (error.message == unterminated_string() || error.message
                == unexpected_character())
        } by {
            if lexeme_at(s, start) is Failure {
                if k > 0 {
                    assert(errors_from(s, start)[k] == errors_from(s, end)[k - 1]);
                }
            } else {
                assert(errors_from(s, start)[k] == errors_from(s, end)[k]);
            }
        }
    }
}

/// Failures are reported in source order: each one lies behind the one
/// before it, on the same line or a later one.
pub proof fn lemma_failures_in_source_order(s: Seq<char>, start: int)
    requires
        0 <= start,
    ensures
        forall|i: int, j: int|
            0 <= i < j < errors_from(s, start).len() ==> {
                &&& (#[trigger] errors_from(s, start)[i]).offset < (#[trigger] errors_from(
                    s,
                    start,
                )[j]).offset
                &&& errors_from(s, start)[i].line <= errors_from(s, start)[j].line
            },
    decreases s.len() - start,
{
    if start < s.len() {
        let end = lexeme_end(s, start);
        let rest = errors_from(s, end);
        lemma_lexeme_end_advances(s, start);
        lemma_failures_in_source_order(s, end);
        lemma_failures_are_known(s, end);
        lemma_failure_lines_from(s, end);
        lemma_newlines_grow(s, start, end);
        assert forall|i: int, j: int| 0 <= i < j < errors_from(s, start).len() implies {
            &&& (#[trigger] errors_from(s, start)[i]).offset < (#[trigger] errors_from(
                s,
                start,
            )[j]).offset
            &&& errors_from(s, start)[i].line <= errors_from(s, start)[j].line
        } by {
            if lexeme_at(s, start) is Failure {
                assert(errors_from(s, start)[j] == rest[j - 1]);
                if i > 0 {
                    assert(errors_from(s, start)[i] == rest[i - 1]);
                } else {
                    lemma_run_end(s, start + 1, CharClass::StringBody);
                    if s[start] == '"' {
                        assert(end == s.len());
                        assert(rest.len() == 0);
                    }
                }
            } else {
                assert(errors_from(s, start)[i] == rest[i]);
                assert(errors_from(s, start)[j] == rest[j]);
            }
        }
    }
}

/// No failure found from `start` on is on a line before that of `start`.
proof fn lemma_failure_lines_from(s: Seq<char>, start: int)
    requires
        0 <= start,
    ensures
        forall|k: int|
            0 <= k < errors_from(s, start).len() ==> newlines_before(s, start) <= (
            #[trigger] errors_from(s, start)[k]).line,
    decreases s.len() - start,
{
    if start < s.len() {
        let end = lexeme_end(s, start);
        let rest = errors_from(s, end);
        lemma_lexeme_end_advances(s, start);
        lemma_failure_lines_from(s, end);
        lemma_newlines_grow(s, start, end);
        lemma_newlines_grow(s, start, s.len() as int);
        assert forall|k: int| 0 <= k < errors_from(s, start).len() implies newlines_before(
            s,
            start,
        ) <= (#[trigger] errors_from(s, start)[k]).line by {
            if lexeme_at(s, start) is Failure {
                if k > 0 {
                    assert(errors_from(s, start)[k] == rest[k - 1]);
                }
            } else {
                assert(errors_from(s, start)[k] == rest[k]);
            }
        }
    }
}

} // verus!
