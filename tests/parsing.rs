use rlox::{Error, Expr, Literal, Parser, Scanner, Token, TokenType};

fn tokens(src: &str) -> Vec<Token> {
    let mut scanner = Scanner::new(src.to_string());
    scanner.scan_tokens();
    scanner.tokens
}

fn parse_print(src: &str) -> String {
    let toks = tokens(src);
    let mut parser = Parser::new(&toks);
    parser.parse().unwrap().print()
}

fn parse_error(src: &str) -> String {
    let toks = tokens(src);
    let mut parser = Parser::new(&toks);
    match parser.parse() {
        Err(Error::ParseErr(message)) => message,
        other => panic!("unexpected {:?}", other),
    }
}

#[test]
fn check_print() {
    let lop = Token::new(TokenType::Minus, 0);
    let op = Token::new(TokenType::Star, 0);

    let expr = Expr::Binary {
        left: Box::new(Expr::Unary {
            operator: lop,
            right: Box::new(Expr::Literal { value: Literal::Number("123".to_string()) }),
        }),
        operator: op,
        right: Box::new(Expr::Grouping {
            expression: Box::new(Expr::Literal { value: Literal::Number("45.67".to_string()) }),
        }),
    };

    assert_eq!(expr.print(), "(* (- 123) (group 45.67))")
}

#[test]
fn print_uses_the_operator_of_the_node() {
    let expr = Expr::Binary {
        left: Box::new(Expr::Unary {
            operator: Token::new(TokenType::Minus, 0),
            right: Box::new(Expr::Literal { value: Literal::Number("123".to_string()) }),
        }),
        operator: Token::new(TokenType::Minus, 0),
        right: Box::new(Expr::Grouping {
            expression: Box::new(Expr::Literal { value: Literal::Number("45.67".to_string()) }),
        }),
    };
    assert_eq!(expr.print(), "(- (- 123) (group 45.67))")
}

#[test]
fn print_literals() {
    let lit = |value| Expr::Literal { value };
    assert_eq!(lit(Literal::Nil).print(), "nil");
    assert_eq!(lit(Literal::Bool(true)).print(), "true");
    assert_eq!(lit(Literal::Bool(false)).print(), "false");
    assert_eq!(lit(Literal::Stringy("hi there".to_string())).print(), "hi there");
    assert_eq!(lit(Literal::Number("123.0".to_string())).print(), "123");
    assert_eq!(lit(Literal::Number("007".to_string())).print(), "7");
    assert_eq!(lit(Literal::Number("00.50".to_string())).print(), "0.5");
    assert_eq!(lit(Literal::Number("0".to_string())).print(), "0");
    assert_eq!(lit(Literal::Number("100".to_string())).print(), "100");
}

#[test]
fn print_twice_gives_the_same_text() {
    let toks = tokens("!(1 <= 2) == \"s\"");
    let mut parser = Parser::new(&toks);
    let expr = parser.parse().unwrap();
    let first = expr.print();
    let second = expr.print();
    assert_eq!(first, second);
    assert_eq!(first, "(== (! (group (<= 1 2))) s)");
}

#[test]
fn precedence_and_associativity() {
    assert_eq!(parse_print("1 + 2 * 3"), "(+ 1 (* 2 3))");
    assert_eq!(parse_print("1 - 2 - 3"), "(- (- 1 2) 3)");
    assert_eq!(parse_print("8 / 4 / 2"), "(/ (/ 8 4) 2)");
    assert_eq!(parse_print("1 < 2 == 3 >= 4"), "(== (< 1 2) (>= 3 4))");
    assert_eq!(parse_print("1 != 2 != 3"), "(!= (!= 1 2) 3)");
    assert_eq!(parse_print("-1 * 2 + 3 > 4"), "(> (+ (* (- 1) 2) 3) 4)");
}

#[test]
fn grouping() {
    assert_eq!(parse_print("(1 + 2) * 3"), "(* (group (+ 1 2)) 3)");
    assert_eq!(parse_print("((nil))"), "(group (group nil))");
}

#[test]
fn unary_nesting() {
    assert_eq!(parse_print("-- 3"), "(- (- 3))");
    assert_eq!(parse_print("- -3"), "(- (- 3))");
    assert_eq!(parse_print("!!true"), "(! (! true))");
}

#[test]
fn missing_paren_is_a_parse_error() {
    assert_eq!(parse_error("(1 + 2"), "Expect ')' after expression");
}

#[test]
fn no_expression_is_a_parse_error() {
    assert_eq!(parse_error(")"), "Expect expression.");
    assert_eq!(parse_error(""), "Expect expression.");
    assert_eq!(parse_error("1 +"), "Expect expression.");
}

#[test]
fn parse_stops_after_one_expression() {
    let toks = tokens("1 2");
    let mut parser = Parser::new(&toks);
    assert_eq!(parser.parse().unwrap().print(), "1");
    assert_eq!(parser.position(), 1);
}

#[test]
fn synchronize_after_error_goes_past_semicolon() {
    let toks = tokens("(1 + 2 ; 3");
    let mut parser = Parser::new(&toks);
    assert!(parser.parse().is_err());
    assert_eq!(parser.position(), 4);
    parser.synchronize();
    assert_eq!(parser.position(), 5);
    assert_eq!(parser.parse().unwrap().print(), "3");
}

#[test]
fn synchronize_stops_before_statement_keyword() {
    let toks = tokens("1 + + 2 var x");
    let mut parser = Parser::new(&toks);
    parser.synchronize();
    assert_eq!(parser.position(), 4);
    assert!(matches!(toks[parser.position()].token_type, TokenType::Var));
}

#[test]
fn synchronize_stops_at_end_of_input() {
    let toks = tokens("1 2 3");
    let mut parser = Parser::new(&toks);
    parser.synchronize();
    assert_eq!(parser.position(), 3);
    parser.synchronize();
    assert_eq!(parser.position(), 3);
}

#[test]
fn identifiers_are_not_expressions_yet() {
    assert_eq!(parse_error("x"), "Expect expression.");
}
