use rlox::ast::{Token, TokenKind};
use rlox::result::Error;
use rlox::scanner::Scanner;

fn token(kind: TokenKind, line: usize, lexeme: &str, literal: &str) -> Token {
    Token { kind, line, lexeme: String::from(lexeme), literal: String::from(literal) }
}

fn kinds(source: &str) -> Vec<TokenKind> {
    Scanner::scan(source).unwrap().iter().map(|t| t.kind).collect()
}

#[test]
fn test_expression() {
    let tokens = Scanner::tokenize("foo.bar.baz");

    assert_eq!(
        tokens.unwrap(),
        vec![
            token(TokenKind::Identifier, 1, "foo", "foo"),
            token(TokenKind::Dot, 1, ".", ""),
            token(TokenKind::Identifier, 1, "bar", "bar"),
            token(TokenKind::Dot, 1, ".", ""),
            token(TokenKind::Identifier, 1, "baz", "baz"),
            token(TokenKind::EOF, 1, "", ""),
        ]
    );
}

#[test]
fn test_function() {
    let tokens = Scanner::tokenize("fun foo(a) { return a; }");

    assert_eq!(
        tokens.unwrap(),
        vec![
            token(TokenKind::Function, 1, "fun", ""),
            token(TokenKind::Identifier, 1, "foo", "foo"),
            token(TokenKind::LeftParen, 1, "(", ""),
            token(TokenKind::Identifier, 1, "a", "a"),
            token(TokenKind::RightParen, 1, ")", ""),
            token(TokenKind::LeftBrace, 1, "{", ""),
            token(TokenKind::Return, 1, "return", ""),
            token(TokenKind::Identifier, 1, "a", "a"),
            token(TokenKind::Semicolon, 1, ";", ""),
            token(TokenKind::RightBrace, 1, "}", ""),
            token(TokenKind::EOF, 1, "", ""),
        ]
    );
}

#[test]
fn scans_arithmetic_on_one_line() {
    let tokens = Scanner::scan("1 + 1 * 2").unwrap();
    assert_eq!(
        tokens,
        vec![
            token(TokenKind::Number, 1, "1", "1"),
            token(TokenKind::Plus, 1, "+", ""),
            token(TokenKind::Number, 1, "1", "1"),
            token(TokenKind::Star, 1, "*", ""),
            token(TokenKind::Number, 1, "2", "2"),
            token(TokenKind::EOF, 1, "", ""),
        ]
    );
}

#[test]
fn unterminated_string_reports_its_first_line() {
    match Scanner::scan("\n\n\"abc") {
        Err(Error::Scanner(line, msg)) => {
            assert_eq!(line, 3);
            assert_eq!(msg, "Unterminated string");
        }
        other => panic!("unexpected {:?}", other),
    }
    match Scanner::scan("\"abc\nde") {
        Err(Error::Scanner(line, _)) => assert_eq!(line, 1),
        other => panic!("unexpected {:?}", other),
    }
}

#[test]
fn unexpected_character_is_a_scanner_error() {
    match Scanner::scan("var a = 1;\n@") {
        Err(Error::Scanner(line, msg)) => {
            assert_eq!(line, 2);
            assert_eq!(msg, "Unexpected character.");
        }
        other => panic!("unexpected {:?}", other),
    }
}

#[test]
fn two_character_operators_use_maximal_munch() {
    assert_eq!(
        kinds("! != = == < <= > >="),
        vec![
            TokenKind::Bang,
            TokenKind::BangEqual,
            TokenKind::Equal,
            TokenKind::EqualEqual,
            TokenKind::Less,
            TokenKind::LessEqual,
            TokenKind::Greater,
            TokenKind::GreaterEqual,
            TokenKind::EOF,
        ]
    );
}

#[test]
fn comments_and_whitespace_produce_no_tokens() {
    let tokens = Scanner::scan("// note\n\t 1 / 2 // tail").unwrap();
    assert_eq!(
        tokens,
        vec![
            token(TokenKind::Number, 2, "1", "1"),
            token(TokenKind::Slash, 2, "/", ""),
            token(TokenKind::Number, 2, "2", "2"),
            token(TokenKind::EOF, 2, "", ""),
        ]
    );
}

#[test]
fn numbers_take_a_fraction_only_before_a_digit() {
    let tokens = Scanner::scan("12.5 7. 3.x").unwrap();
    let lexemes: Vec<&str> = tokens.iter().map(|t| t.lexeme.as_str()).collect();
    assert_eq!(lexemes, vec!["12.5", "7", ".", "3", ".", "x", ""]);
    assert_eq!(tokens[0].kind, TokenKind::Number);
    assert_eq!(tokens[0].literal, "12.5");
}

#[test]
fn strings_keep_their_contents_and_start_line() {
    let tokens = Scanner::scan("\"a\nb\" x").unwrap();
    assert_eq!(tokens[0], token(TokenKind::String, 1, "\"a\nb\"", "a\nb"));
    assert_eq!(tokens[1], token(TokenKind::Identifier, 2, "x", "x"));
}

#[test]
fn keywords_are_case_sensitive() {
    assert_eq!(
        kinds("and class else false for fun if nil or print return super this true var while Var _x1"),
        vec![
            TokenKind::And,
            TokenKind::Class,
            TokenKind::Else,
            TokenKind::False,
            TokenKind::For,
            TokenKind::Function,
            TokenKind::If,
            TokenKind::Nil,
            TokenKind::Or,
            TokenKind::Print,
            TokenKind::Return,
            TokenKind::Super,
            TokenKind::This,
            TokenKind::True,
            TokenKind::Var,
            TokenKind::While,
            TokenKind::Identifier,
            TokenKind::Identifier,
            TokenKind::EOF,
        ]
    );
}

#[test]
fn empty_source_is_only_end_of_input() {
    assert_eq!(Scanner::scan("").unwrap(), vec![token(TokenKind::EOF, 1, "", "")]);
}

#[test]
fn rescanning_a_lexeme_gives_the_same_kind() {
    let source = "var s = \"hi\nthere\"; print (s) != 12.5 >= x_1 // done";
    for t in Scanner::scan(source).unwrap() {
        if t.kind == TokenKind::EOF {
            continue;
        }
        let again = Scanner::scan(&t.lexeme).unwrap();
        assert_eq!(again.len(), 2);
        assert_eq!(again[0].kind, t.kind);
        assert_eq!(again[0].lexeme, t.lexeme);
    }
}
