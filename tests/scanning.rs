use rlox::{Diagnostic, Scanner, Token, TokenType};

fn scan(src: &str) -> Scanner {
    let mut scanner = Scanner::new(src.to_string());
    scanner.scan_tokens();
    scanner
}

fn kinds(tokens: &[Token]) -> Vec<String> {
    tokens.iter().map(|t| t.token_type.text()).collect()
}

fn eof_count(tokens: &[Token]) -> usize {
    tokens.iter().filter(|t| matches!(t.token_type, TokenType::Eof)).count()
}

#[test]
fn empty_input_gives_only_end_of_input() {
    let s = scan("");
    assert_eq!(kinds(&s.tokens), vec!["EOF"]);
    assert_eq!(s.tokens[0].line, 1);
    assert!(s.diagnostics.is_empty());
}

#[test]
fn every_input_ends_with_one_end_of_input() {
    for src in ["", "1 + 2", "\"open", "@#$", "a\nb\n// c", "!=<=>===", "1.2.3", "x;y"] {
        let s = scan(src);
        assert_eq!(eof_count(&s.tokens), 1, "{}", src);
        assert!(matches!(s.tokens.last().unwrap().token_type, TokenType::Eof));
    }
}

#[test]
fn two_character_operators_are_one_token() {
    assert_eq!(kinds(&scan("!=").tokens), vec!["!=", "EOF"]);
    assert_eq!(kinds(&scan("<=").tokens), vec!["<=", "EOF"]);
    assert_eq!(kinds(&scan(">=").tokens), vec![">=", "EOF"]);
    assert_eq!(kinds(&scan("==").tokens), vec!["==", "EOF"]);
    assert_eq!(kinds(&scan("! = < > =").tokens), vec!["!", "=", "<", ">", "=", "EOF"]);
    assert_eq!(kinds(&scan("===").tokens), vec!["==", "=", "EOF"]);
}

#[test]
fn comments_give_no_tokens() {
    let s = scan("1 // comment\n2");
    assert_eq!(kinds(&s.tokens), vec!["Number(1)", "Number(2)", "EOF"]);
    assert_eq!(s.tokens[0].line, 1);
    assert_eq!(s.tokens[1].line, 2);
    assert_eq!(kinds(&scan("4 / 2").tokens), vec!["Number(4)", "/", "Number(2)", "EOF"]);
}

#[test]
fn trailing_dot_is_not_part_of_a_number() {
    let s = scan("1.");
    assert_eq!(kinds(&s.tokens), vec!["Number(1)", ".", "EOF"]);
    let s = scan("12.50");
    assert_eq!(kinds(&s.tokens), vec!["Number(12.50)", "EOF"]);
}

#[test]
fn string_literal_and_unterminated_string() {
    let s = scan("\"abc\"");
    assert_eq!(s.tokens.len(), 2);
    match &s.tokens[0].token_type {
        TokenType::Stringy(v) => assert_eq!(v, "abc"),
        other => panic!("unexpected {:?}", other),
    }
    assert!(s.diagnostics.is_empty());

    let s = scan("\"abc");
    assert_eq!(kinds(&s.tokens), vec!["EOF"]);
    assert_eq!(s.diagnostics, vec![Diagnostic::UnterminatedString { line: 1 }]);
}

#[test]
fn multi_line_string_counts_lines() {
    let s = scan("\"a\nb\" x");
    assert_eq!(kinds(&s.tokens), vec!["String(\"a\nb\")", "Identifier(x)", "EOF"]);
    assert_eq!(s.tokens[0].line, 2);
    assert_eq!(s.tokens[2].line, 2);
}

#[test]
fn unexpected_character_is_reported_and_skipped() {
    let s = scan("1\n@ 2");
    assert_eq!(kinds(&s.tokens), vec!["Number(1)", "Number(2)", "EOF"]);
    assert_eq!(s.diagnostics, vec![Diagnostic::UnexpectedCharacter { line: 2, character: '@' }]);
}

#[test]
fn keywords_and_identifiers() {
    let s = scan("and class else false fun for if nil or print return super this true var while");
    assert_eq!(
        kinds(&s.tokens),
        vec![
            "and", "class", "else", "false", "fun", "for", "if", "nil", "or", "print", "return",
            "super", "this", "true", "var", "while", "EOF"
        ]
    );
    let s = scan("orchid x1 While");
    assert_eq!(kinds(&s.tokens), vec!["Identifier(orchid)", "Identifier(x1)", "Identifier(While)", "EOF"]);
}

#[test]
fn punctuation() {
    let s = scan("(){},.-+;*");
    assert_eq!(kinds(&s.tokens), vec!["(", ")", "{", "}", ",", ".", "-", "+", ";", "*", "EOF"]);
}

#[test]
fn keyword_lookup() {
    assert!(matches!(TokenType::get_keyword("while"), Some(TokenType::While)));
    assert!(matches!(TokenType::get_keyword("nil"), Some(TokenType::Nil)));
    assert!(TokenType::get_keyword("whilst").is_none());
    assert!(TokenType::get_keyword("").is_none());
}

#[test]
fn category_equality_ignores_payload() {
    let a = TokenType::Identifier("a".to_string());
    let b = TokenType::Identifier("b".to_string());
    assert!(a == b);
    assert!(TokenType::Number("1".to_string()) == TokenType::Number("2".to_string()));
    assert!(a != TokenType::Stringy("a".to_string()));
    assert!(TokenType::Plus != TokenType::Minus);
    assert_eq!(a.text(), "Identifier(a)");
    assert_eq!(b.text(), "Identifier(b)");
    let t = Token::new(a, 3);
    match &t.token_type {
        TokenType::Identifier(name) => assert_eq!(name, "a"),
        other => panic!("unexpected {:?}", other),
    }
}
