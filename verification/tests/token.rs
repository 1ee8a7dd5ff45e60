use rlox::cursor::{operator, pairs_with};
use rlox::grammar::CharClass;
use rlox::token::Token;

#[test]
fn keyword_table_holds_every_reserved_word() {
    assert_eq!(Token::try_from_keyword("and"), Some(Token::And));
    assert_eq!(Token::try_from_keyword("class"), Some(Token::Class));
    assert_eq!(Token::try_from_keyword("else"), Some(Token::Else));
    assert_eq!(Token::try_from_keyword("false"), Some(Token::False));
    assert_eq!(Token::try_from_keyword("for"), Some(Token::For));
    assert_eq!(Token::try_from_keyword("fun"), Some(Token::Fun));
    assert_eq!(Token::try_from_keyword("if"), Some(Token::If));
    assert_eq!(Token::try_from_keyword("nil"), Some(Token::Nil));
    assert_eq!(Token::try_from_keyword("or"), Some(Token::Or));
    assert_eq!(Token::try_from_keyword("print"), Some(Token::Print));
    assert_eq!(Token::try_from_keyword("return"), Some(Token::Return));
    assert_eq!(Token::try_from_keyword("super"), Some(Token::Super));
    assert_eq!(Token::try_from_keyword("this"), Some(Token::This));
    assert_eq!(Token::try_from_keyword("true"), Some(Token::True));
    assert_eq!(Token::try_from_keyword("var"), Some(Token::Var));
    assert_eq!(Token::try_from_keyword("while"), Some(Token::While));
}

#[test]
fn keyword_table_misses_everything_else() {
    for word in ["", "classify", "clas", "Class", "AND", "an", "iff", " if", "if ", "ïf", "while1"] {
        assert_eq!(Token::try_from_keyword(word), None);
    }
}

#[test]
fn operator_of_one_character() {
    assert_eq!(operator('(', None), Some(Token::LeftParen));
    assert_eq!(operator(')', Some('=')), Some(Token::RightParen));
    assert_eq!(operator('{', None), Some(Token::LeftBrace));
    assert_eq!(operator('}', None), Some(Token::RightBrace));
    assert_eq!(operator(',', None), Some(Token::Comma));
    assert_eq!(operator('.', Some('5')), Some(Token::Dot));
    assert_eq!(operator('-', Some('=')), Some(Token::Minus));
    assert_eq!(operator('+', Some('+')), Some(Token::Plus));
    assert_eq!(operator(';', None), Some(Token::Semicolon));
    assert_eq!(operator('*', Some('/')), Some(Token::Star));
}

#[test]
fn operator_with_lookahead() {
    assert_eq!(operator('!', None), Some(Token::Bang));
    assert_eq!(operator('!', Some('!')), Some(Token::Bang));
    assert_eq!(operator('!', Some('=')), Some(Token::BangEqual));
    assert_eq!(operator('=', Some(' ')), Some(Token::Equal));
    assert_eq!(operator('=', Some('=')), Some(Token::EqualEqual));
    assert_eq!(operator('<', Some('>')), Some(Token::Less));
    assert_eq!(operator('<', Some('=')), Some(Token::LessEqual));
    assert_eq!(operator('>', None), Some(Token::Greater));
    assert_eq!(operator('>', Some('=')), Some(Token::GreaterEqual));
    assert_eq!(operator('/', None), Some(Token::Slash));
    assert_eq!(operator('/', Some('=')), Some(Token::Slash));
    assert_eq!(operator('/', Some('/')), None);
}

#[test]
fn other_characters_begin_no_operator() {
    for c in ['a', '1', '_', '"', ' ', '\n', '@', 'é'] {
        assert_eq!(operator(c, Some('=')), None);
    }
}

#[test]
fn lookahead_is_taken_for_five_pairs_only() {
    assert!(pairs_with('!', Some('=')));
    assert!(pairs_with('=', Some('=')));
    assert!(pairs_with('<', Some('=')));
    assert!(pairs_with('>', Some('=')));
    assert!(pairs_with('/', Some('/')));
    assert!(!pairs_with('/', Some('=')));
    assert!(!pairs_with('=', Some('/')));
    assert!(!pairs_with('+', Some('=')));
    assert!(!pairs_with('!', Some('!')));
    assert!(!pairs_with('!', None));
    assert!(!pairs_with('/', None));
}

#[test]
fn character_classes() {
    assert!(CharClass::WordStart.accepts('a'));
    assert!(CharClass::WordStart.accepts('_'));
    assert!(!CharClass::WordStart.accepts('1'));
    assert!(!CharClass::WordStart.accepts('é'));
    assert!(CharClass::Digit.accepts('0'));
    assert!(CharClass::Digit.accepts('9'));
    assert!(!CharClass::Digit.accepts('a'));
    assert!(!CharClass::Digit.accepts('٣'));
    assert!(CharClass::WordPart.accepts('a'));
    assert!(CharClass::WordPart.accepts('Z'));
    assert!(CharClass::WordPart.accepts('_'));
    assert!(CharClass::WordPart.accepts('7'));
    assert!(!CharClass::WordPart.accepts('-'));
    assert!(!CharClass::WordPart.accepts('é'));
    assert!(CharClass::CommentBody.accepts('"'));
    assert!(!CharClass::CommentBody.accepts('\n'));
    assert!(CharClass::StringBody.accepts('\n'));
    assert!(!CharClass::StringBody.accepts('"'));
}

#[test]
fn clone_keeps_the_token() {
    let tokens = vec![
        Token::Identifier { name: "x".to_string() },
        Token::String { literal: "a\nb".to_string() },
        Token::Number { literal: "1.5".to_string() },
        Token::While,
        Token::LessEqual,
        Token::Eof { line: 3 },
    ];
    for token in &tokens {
        assert_eq!(&token.clone(), token);
    }
}
