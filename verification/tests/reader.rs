use scheme_interpreter::lexer::{Lexer, LexerError};
use scheme_interpreter::parser::{ParseError, Parser};
use scheme_interpreter::token::{LispVal, Token, TokenType};

fn parse(input: &str) -> Result<Vec<LispVal>, ParseError> {
    let mut lex = Lexer::init_lex(input.to_owned());
    let mut parser = Parser::init_parser(&mut lex)?;
    parser.parse_program()
}

fn atom(literal: &str, kind: TokenType) -> LispVal {
    LispVal::Atom(Token { literal: literal.to_owned(), kind })
}

fn ident(name: &str) -> LispVal {
    atom(name, TokenType::IDENT)
}

fn list(items: Vec<LispVal>) -> LispVal {
    LispVal::List(items)
}

fn message(input: &str) -> String {
    match parse(input) {
        Err(ParseError::PError(msg)) => msg,
        other => panic!("{:?}", other),
    }
}

#[test]
fn empty_program() {
    assert_eq!(parse("").unwrap(), vec![]);
    assert_eq!(parse("   ").unwrap(), vec![]);
}

#[test]
fn literals_at_the_top_level() {
    assert_eq!(
        parse("42 -7 \"hi\" #t #f x +").unwrap(),
        vec![
            LispVal::Number(42),
            LispVal::Number(-7),
            LispVal::String("hi".to_owned()),
            LispVal::Bool(true),
            LispVal::Bool(false),
            ident("x"),
            atom("+", TokenType::PLUS),
        ]
    );
}

#[test]
fn application_is_a_list() {
    assert_eq!(
        parse("(+ (* 3 5) (+ 1 2))").unwrap(),
        vec![list(vec![
            atom("+", TokenType::PLUS),
            list(vec![
                atom("*", TokenType::ASTERICK),
                LispVal::Number(3),
                LispVal::Number(5)
            ]),
            list(vec![
                atom("+", TokenType::PLUS),
                LispVal::Number(1),
                LispVal::Number(2)
            ]),
        ])]
    );
}

#[test]
fn empty_list() {
    assert_eq!(parse("()").unwrap(), vec![list(vec![])]);
}

#[test]
fn booleans_inside_a_list() {
    assert_eq!(
        parse("(#t #f)").unwrap(),
        vec![list(vec![LispVal::Bool(true), LispVal::Bool(false)])]
    );
}

#[test]
fn two_top_level_expressions() {
    assert_eq!(
        parse("(f 1) (g 2)").unwrap(),
        vec![
            list(vec![ident("f"), LispVal::Number(1)]),
            list(vec![ident("g"), LispVal::Number(2)]),
        ]
    );
}

#[test]
fn quote_mark_makes_a_two_element_list() {
    assert_eq!(
        parse("'(* x x)").unwrap(),
        vec![list(vec![
            atom("'", TokenType::QUOTE),
            list(vec![atom("*", TokenType::ASTERICK), ident("x"), ident("x")]),
        ])]
    );
    assert_eq!(
        parse("'x").unwrap(),
        vec![list(vec![atom("'", TokenType::QUOTE), ident("x")])]
    );
}

#[test]
fn quote_keyword_inside_a_list() {
    assert_eq!(
        parse("(quote (* x x))").unwrap(),
        vec![list(vec![list(vec![
            atom("quote", TokenType::QUOTE),
            list(vec![atom("*", TokenType::ASTERICK), ident("x"), ident("x")]),
        ])])]
    );
}

#[test]
fn let_is_a_three_element_form() {
    let form = list(vec![
        atom("let", TokenType::LET),
        list(vec![
            list(vec![ident("x"), LispVal::Number(2)]),
            list(vec![ident("y"), LispVal::Number(3)]),
        ]),
        list(vec![atom("*", TokenType::ASTERICK), ident("x"), ident("y")]),
    ]);
    assert_eq!(
        parse("(let ((x 2) (y 3)) (* x y))").unwrap(),
        vec![list(vec![form])]
    );
}

#[test]
fn lambda_is_a_closure_template() {
    let template = LispVal::Lamda(
        Box::new(list(vec![ident("x"), ident("y")])),
        Box::new(list(vec![
            atom("*", TokenType::ASTERICK),
            ident("x"),
            ident("y"),
        ])),
    );
    assert_eq!(
        parse("((lambda (x y) (* x y)) 3 4)").unwrap(),
        vec![list(vec![
            list(vec![template]),
            LispVal::Number(3),
            LispVal::Number(4)
        ])]
    );
}

#[test]
fn lambda_with_one_atom_as_pattern() {
    assert_eq!(
        parse("(lambda x x)").unwrap(),
        vec![list(vec![LispVal::Lamda(
            Box::new(ident("x")),
            Box::new(ident("x"))
        )])]
    );
}

#[test]
fn define_of_a_value_and_of_a_procedure() {
    assert_eq!(
        parse("(define x 3)").unwrap(),
        vec![list(vec![list(vec![
            atom("define", TokenType::DEFINE),
            ident("x"),
            LispVal::Number(3),
        ])])]
    );
    assert_eq!(
        parse("(define (p x y) (+ x y))").unwrap(),
        vec![list(vec![list(vec![
            atom("define", TokenType::DEFINE),
            list(vec![ident("p"), ident("x"), ident("y")]),
            list(vec![atom("+", TokenType::PLUS), ident("x"), ident("y")]),
        ])])]
    );
}

#[test]
fn elements_after_a_form_stay_in_the_list() {
    assert_eq!(
        parse("(define x 3 4)").unwrap(),
        vec![list(vec![
            list(vec![
                atom("define", TokenType::DEFINE),
                ident("x"),
                LispVal::Number(3),
            ]),
            LispVal::Number(4),
        ])]
    );
}

#[test]
fn unmatched_open_parenthesis_gives_a_truncated_list() {
    assert_eq!(
        parse("(+ 1 2").unwrap(),
        vec![list(vec![
            atom("+", TokenType::PLUS),
            LispVal::Number(1),
            LispVal::Number(2)
        ])]
    );
    assert_eq!(
        parse("(a (b").unwrap(),
        vec![list(vec![ident("a"), list(vec![ident("b")])])]
    );
}

#[test]
fn closing_parenthesis_cannot_start_an_expression() {
    assert_eq!(
        message(")"),
        "Unknown Token in parse_lisp_val: Token literal: ) Token kind: RPAREN"
    );
    assert_eq!(
        message("(a) )"),
        "Unknown Token in parse_lisp_val: Token literal: ) Token kind: RPAREN"
    );
}

#[test]
fn punctuation_cannot_start_an_expression() {
    assert_eq!(
        message("(a , b)"),
        "Unknown Token in parse_lisp_val: Token literal: , Token kind: COMMA"
    );
    assert_eq!(
        message("#"),
        "Unknown Token in parse_lisp_val: Token literal: # Token kind: POUND"
    );
    assert_eq!(
        message("@"),
        "Unknown Token in parse_lisp_val: Token literal: @ Token kind: AT"
    );
}

#[test]
fn comments_cannot_stand_in_an_expression() {
    assert_eq!(
        message("-- note\n1"),
        "Unknown Token in parse_lisp_val: Token literal: single-line-comment Token kind: COMMENT"
    );
    assert_eq!(
        message("{- note -} 1"),
        "Unknown Token in parse_lisp_val: Token literal:  Token kind: ILLEGAL"
    );
}

#[test]
fn form_cut_short_by_the_end_of_the_input() {
    assert_eq!(
        message("(define x"),
        "Unknown Token in parse_lisp_val: Token literal: \0 Token kind: EOF"
    );
    assert_eq!(
        message("(lambda (x)"),
        "Unknown Token in parse_lisp_val: Token literal: \0 Token kind: EOF"
    );
    assert_eq!(
        message("'"),
        "Unknown Token in parse_lisp_val: Token literal: \0 Token kind: EOF"
    );
}

#[test]
fn form_cut_short_by_a_closing_parenthesis() {
    assert_eq!(
        message("(let ((x 1)))"),
        "Unknown Token in parse_lisp_val: Token literal: ) Token kind: RPAREN"
    );
}

#[test]
fn number_too_large_for_64_bits() {
    assert_eq!(
        message("9223372036854775808"),
        "Could not parse 9223372036854775808 as a number"
    );
    assert_eq!(
        parse("9223372036854775807 -9223372036854775808").unwrap(),
        vec![LispVal::Number(i64::MAX), LispVal::Number(i64::MIN)]
    );
}

#[test]
fn number_with_leading_zeros() {
    assert_eq!(
        parse("007 -0").unwrap(),
        vec![LispVal::Number(7), LispVal::Number(0)]
    );
}

#[test]
fn scanner_error_stops_the_parser() {
    match parse("(+ 1 2) $") {
        Err(ParseError::Lexer(LexerError::UnknownToken(c))) => assert_eq!(c, "$"),
        other => panic!("{:?}", other),
    }
}

#[test]
fn scanner_error_in_the_first_two_tokens() {
    let mut lex = Lexer::init_lex("x $".to_owned());
    match Parser::init_parser(&mut lex) {
        Err(ParseError::Lexer(LexerError::UnknownToken(c))) => assert_eq!(c, "$"),
        Err(other) => panic!("{:?}", other),
        Ok(_) => panic!("the second token cannot be scanned"),
    }
}

#[test]
fn parser_next_token_moves_the_lookahead() {
    let mut lex = Lexer::init_lex("1 2 3".to_owned());
    let mut parser = Parser::init_parser(&mut lex).unwrap();
    parser.next_token().unwrap();
    assert_eq!(
        parser.parse_program().unwrap(),
        vec![LispVal::Number(2), LispVal::Number(3)]
    );
}

#[test]
fn deeply_nested_lists() {
    let depth = 500;
    let input = "(".repeat(depth) + &")".repeat(depth);
    let mut expected = list(vec![]);
    for _ in 1..depth {
        expected = list(vec![expected]);
    }
    assert_eq!(parse(&input).unwrap(), vec![expected]);
}
