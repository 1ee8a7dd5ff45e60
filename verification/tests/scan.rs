use rlox::token::{scan, Token};
use rlox::LexError;

fn number(literal: &str) -> Token {
    Token::Number { literal: literal.to_string() }
}

fn identifier(name: &str) -> Token {
    Token::Identifier { name: name.to_string() }
}

fn string(literal: &str) -> Token {
    Token::String { literal: literal.to_string() }
}

fn tokens_of(source: &str) -> Vec<Token> {
    match scan(source) {
        Ok(tokens) => tokens,
        Err(errors) => panic!("unexpected lexical errors: {:?}", errors),
    }
}

fn errors_of(source: &str) -> Vec<LexError> {
    match scan(source) {
        Ok(tokens) => panic!("unexpected success: {:?}", tokens),
        Err(errors) => errors,
    }
}

fn value_of(token: &Token) -> f64 {
    match token {
        Token::Number { literal } => literal.parse::<f64>().expect("a decimal numeral"),
        other => panic!("not a number: {:?}", other),
    }
}

#[test]
fn scans_an_addition() {
    let tokens = tokens_of("1 + 2");
    assert_eq!(tokens, vec![number("1"), Token::Plus, number("2"), Token::Eof { line: 0 }]);
    assert_eq!(value_of(&tokens[0]), 1.0);
    assert_eq!(value_of(&tokens[2]), 2.0);
}

#[test]
fn empty_source_gives_only_the_terminal_token() {
    assert_eq!(tokens_of(""), vec![Token::Eof { line: 0 }]);
}

#[test]
fn blanks_give_no_token() {
    assert_eq!(tokens_of(" \t\r "), vec![Token::Eof { line: 0 }]);
}

#[test]
fn terminal_token_counts_newlines() {
    assert_eq!(tokens_of("\n\n"), vec![Token::Eof { line: 2 }]);
    assert_eq!(tokens_of("a\nb\nc"), vec![
        identifier("a"),
        identifier("b"),
        identifier("c"),
        Token::Eof { line: 2 },
    ]);
}

#[test]
fn success_always_ends_with_the_terminal_token() {
    for source in ["", "1", "a b c", "\n", "// only a comment", "\"text\"", "(){};"] {
        let tokens = tokens_of(source);
        let newlines = source.chars().filter(|c| *c == '\n').count();
        assert_eq!(tokens.last(), Some(&Token::Eof { line: newlines }));
        let terminals = tokens.iter().filter(|token| matches!(token, Token::Eof { .. })).count();
        assert_eq!(terminals, 1);
    }
}

#[test]
fn single_character_operators() {
    assert_eq!(tokens_of("(){},.-+;*/"), vec![
        Token::LeftParen,
        Token::RightParen,
        Token::LeftBrace,
        Token::RightBrace,
        Token::Comma,
        Token::Dot,
        Token::Minus,
        Token::Plus,
        Token::Semicolon,
        Token::Star,
        Token::Slash,
        Token::Eof { line: 0 },
    ]);
}

#[test]
fn comparison_operators_alone() {
    assert_eq!(tokens_of("! = < >"), vec![
        Token::Bang,
        Token::Equal,
        Token::Less,
        Token::Greater,
        Token::Eof { line: 0 },
    ]);
}

#[test]
fn bang_equal_is_one_token() {
    assert_eq!(tokens_of("!="), vec![Token::BangEqual, Token::Eof { line: 0 }]);
}

#[test]
fn equal_equal_is_one_token() {
    assert_eq!(tokens_of("=="), vec![Token::EqualEqual, Token::Eof { line: 0 }]);
}

#[test]
fn less_equal_is_one_token() {
    assert_eq!(tokens_of("<="), vec![Token::LessEqual, Token::Eof { line: 0 }]);
}

#[test]
fn greater_equal_is_one_token() {
    assert_eq!(tokens_of(">="), vec![Token::GreaterEqual, Token::Eof { line: 0 }]);
}

#[test]
fn a_blank_keeps_operators_apart() {
    assert_eq!(tokens_of("! ="), vec![Token::Bang, Token::Equal, Token::Eof { line: 0 }]);
}

#[test]
fn pairs_are_taken_from_the_left() {
    assert_eq!(tokens_of("==="), vec![Token::EqualEqual, Token::Equal, Token::Eof { line: 0 }]);
    assert_eq!(tokens_of("!=="), vec![Token::BangEqual, Token::Equal, Token::Eof { line: 0 }]);
    assert_eq!(tokens_of("<=>"), vec![Token::LessEqual, Token::Greater, Token::Eof { line: 0 }]);
    assert_eq!(tokens_of("=!"), vec![Token::Equal, Token::Bang, Token::Eof { line: 0 }]);
}

#[test]
fn comment_contributes_no_token() {
    assert_eq!(tokens_of("// comment\n1"), vec![number("1"), Token::Eof { line: 1 }]);
}

#[test]
fn comment_runs_to_the_end_of_input() {
    assert_eq!(tokens_of("1 // the rest \" @ is ignored"), vec![
        number("1"),
        Token::Eof { line: 0 },
    ]);
    assert_eq!(tokens_of("//"), vec![Token::Eof { line: 0 }]);
}

#[test]
fn slash_alone_is_an_operator() {
    assert_eq!(tokens_of("6 / 3"), vec![
        number("6"),
        Token::Slash,
        number("3"),
        Token::Eof { line: 0 },
    ]);
    assert_eq!(tokens_of("/ /"), vec![Token::Slash, Token::Slash, Token::Eof { line: 0 }]);
}

#[test]
fn string_literal_drops_its_quotes() {
    assert_eq!(tokens_of("\"hello\""), vec![string("hello"), Token::Eof { line: 0 }]);
    assert_eq!(tokens_of("\"\""), vec![string(""), Token::Eof { line: 0 }]);
}

#[test]
fn string_literal_keeps_newlines_and_counts_them() {
    assert_eq!(tokens_of("\"a\nb\"\n"), vec![string("a\nb"), Token::Eof { line: 2 }]);
}

#[test]
fn string_literal_holds_anything_but_a_quote() {
    assert_eq!(tokens_of("\"// 1.5 @ é\" x"), vec![
        string("// 1.5 @ é"),
        identifier("x"),
        Token::Eof { line: 0 },
    ]);
}

#[test]
fn unterminated_string_fails_with_one_error() {
    let errors = errors_of("\"abc");
    assert_eq!(errors.len(), 1);
    assert_eq!(errors[0].message(), "unterminated string");
    assert_eq!(errors[0].line(), 0);
    assert_eq!(errors[0].location(), 0);
}

#[test]
fn unterminated_string_is_recorded_at_its_opening_quote() {
    let errors = errors_of("1 + \"abc\ndef\n");
    assert_eq!(errors, vec![LexError::from((2, 4, "unterminated string"))]);
}

#[test]
fn tokens_before_a_failure_are_dropped() {
    let outcome = scan("var x = \"abc");
    assert!(outcome.is_err());
    assert_eq!(outcome.unwrap_err(), vec![LexError::from((0, 8, "unterminated string"))]);
}

#[test]
fn unexpected_character_is_recorded_where_it_stands() {
    assert_eq!(errors_of("@"), vec![LexError::from((0, 0, "unexpected character"))]);
    assert_eq!(errors_of("a\n  #"), vec![LexError::from((1, 4, "unexpected character"))]);
}

#[test]
fn every_failure_is_recorded_in_order() {
    assert_eq!(errors_of("@ 1 #\n$ \"open"), vec![
        LexError::from((0, 0, "unexpected character")),
        LexError::from((0, 4, "unexpected character")),
        LexError::from((1, 6, "unexpected character")),
        LexError::from((1, 8, "unterminated string")),
    ]);
}

#[test]
fn letters_outside_ascii_are_unexpected() {
    assert_eq!(errors_of("é"), vec![LexError::from((0, 0, "unexpected character"))]);
    assert_eq!(errors_of("aé"), vec![LexError::from((0, 1, "unexpected character"))]);
}

#[test]
fn offsets_count_characters() {
    assert_eq!(errors_of("\"é\" @"), vec![LexError::from((0, 4, "unexpected character"))]);
}

#[test]
fn integer_literal() {
    let tokens = tokens_of("1234567890");
    assert_eq!(tokens, vec![number("1234567890"), Token::Eof { line: 0 }]);
    assert_eq!(value_of(&tokens[0]), 1234567890.0);
}

#[test]
fn decimal_literal() {
    let tokens = tokens_of("123.45");
    assert_eq!(tokens, vec![number("123.45"), Token::Eof { line: 0 }]);
    assert_eq!(value_of(&tokens[0]), 123.45);
}

#[test]
fn number_before_a_lone_dot_is_kept() {
    let tokens = tokens_of("1.");
    assert_eq!(tokens, vec![number("1"), Token::Dot, Token::Eof { line: 0 }]);
    assert_eq!(value_of(&tokens[0]), 1.0);
}

#[test]
fn dot_needs_a_digit_behind_it_to_join_a_number() {
    assert_eq!(tokens_of("12.x"), vec![
        number("12"),
        Token::Dot,
        identifier("x"),
        Token::Eof { line: 0 },
    ]);
    assert_eq!(tokens_of("1..2"), vec![
        number("1"),
        Token::Dot,
        Token::Dot,
        number("2"),
        Token::Eof { line: 0 },
    ]);
    assert_eq!(tokens_of(".5"), vec![Token::Dot, number("5"), Token::Eof { line: 0 }]);
}

#[test]
fn number_takes_one_dot_only() {
    assert_eq!(tokens_of("1.2.3"), vec![
        number("1.2"),
        Token::Dot,
        number("3"),
        Token::Eof { line: 0 },
    ]);
}

#[test]
fn every_number_literal_converts() {
    for source in ["0", "007", "1.0", "0.000001", "99999999999999999999999999.5"] {
        let tokens = tokens_of(source);
        assert_eq!(tokens, vec![number(source), Token::Eof { line: 0 }]);
        assert!(value_of(&tokens[0]).is_finite());
    }
}

#[test]
fn class_is_a_keyword() {
    assert_eq!(tokens_of("class"), vec![Token::Class, Token::Eof { line: 0 }]);
}

#[test]
fn classify_is_an_identifier() {
    assert_eq!(tokens_of("classify"), vec![identifier("classify"), Token::Eof { line: 0 }]);
}

#[test]
fn every_keyword_is_recognised() {
    let source = "and class else false fun for if nil or print return super this true var while";
    assert_eq!(tokens_of(source), vec![
        Token::And,
        Token::Class,
        Token::Else,
        Token::False,
        Token::Fun,
        Token::For,
        Token::If,
        Token::Nil,
        Token::Or,
        Token::Print,
        Token::Return,
        Token::Super,
        Token::This,
        Token::True,
        Token::Var,
        Token::While,
        Token::Eof { line: 0 },
    ]);
}

#[test]
fn keywords_match_exactly() {
    assert_eq!(tokens_of("Class"), vec![identifier("Class"), Token::Eof { line: 0 }]);
    assert_eq!(tokens_of("an"), vec![identifier("an"), Token::Eof { line: 0 }]);
    assert_eq!(tokens_of("_if"), vec![identifier("_if"), Token::Eof { line: 0 }]);
    assert_eq!(tokens_of("if1"), vec![identifier("if1"), Token::Eof { line: 0 }]);
    assert_eq!(tokens_of("or_"), vec![identifier("or_"), Token::Eof { line: 0 }]);
}

#[test]
fn identifier_keeps_its_spelling() {
    assert_eq!(tokens_of("_private x1 snake_case CamelCase _"), vec![
        identifier("_private"),
        identifier("x1"),
        identifier("snake_case"),
        identifier("CamelCase"),
        identifier("_"),
        Token::Eof { line: 0 },
    ]);
}

#[test]
fn digits_do_not_begin_an_identifier() {
    assert_eq!(tokens_of("1abc"), vec![number("1"), identifier("abc"), Token::Eof { line: 0 }]);
}

#[test]
fn scans_a_small_program() {
    let source = "var answer = (40 + 2) * 1.5; // note\nif (answer >= 63) { print \"ok\"; }\n";
    assert_eq!(tokens_of(source), vec![
        Token::Var,
        identifier("answer"),
        Token::Equal,
        Token::LeftParen,
        number("40"),
        Token::Plus,
        number("2"),
        Token::RightParen,
        Token::Star,
        number("1.5"),
        Token::Semicolon,
        Token::If,
        Token::LeftParen,
        identifier("answer"),
        Token::GreaterEqual,
        number("63"),
        Token::RightParen,
        Token::LeftBrace,
        Token::Print,
        string("ok"),
        Token::Semicolon,
        Token::RightBrace,
        Token::Eof { line: 2 },
    ]);
}

#[test]
fn scanning_twice_gives_the_same_outcome() {
    for source in ["1 + 2", "\"open", "@ class classify 1.", "", "a\n\"b\nc\"\n// d"] {
        assert_eq!(scan(source), scan(source));
    }
}
