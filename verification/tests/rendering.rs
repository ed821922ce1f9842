use scheme_interpreter::eval::{eval_prog, Environment};
use scheme_interpreter::lexer::Lexer;
use scheme_interpreter::parser::Parser;
use scheme_interpreter::token::{clone_list, LispVal, Token, TokenType};

fn parse(input: &str) -> Vec<LispVal> {
    let mut lex = Lexer::init_lex(input.to_owned());
    let mut parser = Parser::init_parser(&mut lex).unwrap();
    parser.parse_program().unwrap()
}

fn shown(input: &str) -> Vec<String> {
    let mut env = Environment::init_env();
    eval_prog(parse(input), &mut env)
        .unwrap()
        .iter()
        .map(|v| v.show_val())
        .collect()
}

fn ident(name: &str) -> LispVal {
    LispVal::Atom(Token { literal: name.to_owned(), kind: TokenType::IDENT })
}

#[test]
fn atoms_are_followed_by_a_space() {
    assert_eq!(ident("abc").show_val(), "abc ");
}

#[test]
fn numbers_in_decimal() {
    assert_eq!(LispVal::Number(0).show_val(), "0 ");
    assert_eq!(LispVal::Number(42).show_val(), "42 ");
    assert_eq!(LispVal::Number(-17).show_val(), "-17 ");
    assert_eq!(LispVal::Number(i64::MAX).show_val(), "9223372036854775807 ");
    assert_eq!(LispVal::Number(i64::MIN).show_val(), "-9223372036854775808 ");
}

#[test]
fn strings_without_quotes() {
    assert_eq!(LispVal::String("a b".to_owned()).show_val(), "a b ");
    assert_eq!(LispVal::String("".to_owned()).show_val(), " ");
}

#[test]
fn booleans() {
    assert_eq!(LispVal::Bool(true).show_val(), "#t ");
    assert_eq!(LispVal::Bool(false).show_val(), "#f ");
}

#[test]
fn placeholders() {
    assert_eq!(LispVal::Nil.show_val(), "Nil");
    assert_eq!(
        LispVal::Lamda(Box::new(ident("x")), Box::new(ident("x"))).show_val(),
        "(lambda function)"
    );
    assert_eq!(
        LispVal::Fun(vec![], vec![]).show_val(),
        "(internal function)"
    );
}

#[test]
fn lists_in_parentheses() {
    assert_eq!(
        LispVal::List(vec![ident("a"), LispVal::Number(1), LispVal::Bool(true)]).show_val(),
        "(a 1 #t) "
    );
    assert_eq!(
        LispVal::List(vec![
            ident("a"),
            LispVal::List(vec![ident("b"), ident("c")])
        ])
        .show_val(),
        "(a (b c)) "
    );
}

#[test]
fn empty_list_keeps_its_parentheses() {
    assert_eq!(LispVal::List(vec![]).show_val(), "() ");
    assert_eq!(
        LispVal::List(vec![LispVal::List(vec![]), LispVal::List(vec![])]).show_val(),
        "(() ()) "
    );
}

#[test]
fn list_elements_are_joined_by_one_space() {
    assert_eq!(LispVal::List(vec![ident("a")]).show_val(), "(a) ");
    assert_eq!(LispVal::List(vec![LispVal::Nil]).show_val(), "(Nil) ");
    assert_eq!(
        LispVal::List(vec![LispVal::Nil, LispVal::Nil]).show_val(),
        "(Nil Nil) "
    );
    assert_eq!(
        LispVal::List(vec![LispVal::Fun(vec![], vec![])]).show_val(),
        "((internal function)) "
    );
    assert_eq!(
        LispVal::List(vec![
            LispVal::Lamda(Box::new(ident("x")), Box::new(ident("x"))),
            LispVal::Number(3),
            LispVal::String("s".to_owned()),
        ])
        .show_val(),
        "((lambda function) 3 s) "
    );
}

#[test]
fn bare_text_has_no_trailing_space() {
    assert_eq!(ident("abc").show_bare(), "abc");
    assert_eq!(LispVal::Number(-4).show_bare(), "-4");
    assert_eq!(LispVal::Bool(true).show_bare(), "#t");
    assert_eq!(LispVal::Bool(false).show_bare(), "#f");
    assert_eq!(LispVal::String("a b".to_owned()).show_bare(), "a b");
    assert_eq!(LispVal::Nil.show_bare(), "Nil");
    assert_eq!(LispVal::List(vec![]).show_bare(), "()");
    assert_eq!(
        LispVal::List(vec![ident("a"), LispVal::Number(1)]).show_bare(),
        "(a 1)"
    );
}

#[test]
fn empty_list_parses_back_to_itself() {
    let mut env = Environment::init_env();
    let value = eval_prog(parse("'()"), &mut env).unwrap().pop().unwrap();
    assert_eq!(value, LispVal::List(vec![]));
    assert_eq!(value.show_val(), "() ");
    assert_eq!(parse(&value.show_val()), vec![value]);
}

#[test]
fn dotted_lists() {
    assert_eq!(
        LispVal::DottedList(vec![ident("a"), ident("b")], Box::new(ident("c"))).show_val(),
        "(a b c )"
    );
}

#[test]
fn values_of_programs() {
    assert_eq!(shown("(+ (* 3 5) (+ 1 2))"), ["18 "]);
    assert_eq!(shown("(define x 3) (* x 3)"), ["(x <- 3) ", "9 "]);
    assert_eq!(shown("(define (p x y) (+ x y ))"), ["(fn p (x y)) "]);
    assert_eq!(shown("(quote (* x x))"), ["(* x x) "]);
    assert_eq!(shown("(< 1 2) (> 1 2)"), ["#t ", "#f "]);
}

#[test]
fn rendered_list_parses_back_to_itself() {
    let source = parse("'(* x (+ y 12) -3)").pop().unwrap();
    let quoted = match &source {
        LispVal::List(items) => items[1].clone(),
        other => panic!("{:?}", other),
    };
    assert_eq!(quoted.show_val(), "(* x (+ y 12) -3) ");
    assert_eq!(parse(&quoted.show_val()), vec![quoted]);
}

#[test]
fn printable_values_parse_back_to_themselves() {
    for text in [
        "()",
        "(())",
        "(a)",
        "(+ 1 2)",
        "(- -5 3)",
        "(<= x1 (>= y 0))",
        "(f #t #f (g (h)) -9223372036854775808 9223372036854775807)",
        "(* (/ a b) (= c d) (< e f) (> g h))",
        "x",
        "-7",
        "#t",
        "<=",
    ] {
        let value = parse(text).pop().unwrap();
        assert_eq!(value.show_bare(), text);
        assert_eq!(parse(&value.show_bare()), vec![value.clone()]);
        assert_eq!(parse(&value.show_val()), vec![value]);
    }
}

#[test]
fn rendered_string_does_not_parse_back() {
    let value = LispVal::List(vec![LispVal::String("a b".to_owned())]);
    assert_eq!(value.show_val(), "(a b) ");
    assert_eq!(
        parse(&value.show_val()),
        vec![LispVal::List(vec![ident("a"), ident("b")])]
    );
}

#[test]
fn rendered_quote_form_parses_back_inside_a_list() {
    let source = parse("'(* x x)").pop().unwrap();
    assert_eq!(source.show_val(), "(' (* x x)) ");
    let again = parse(&source.show_val());
    assert_eq!(again, vec![LispVal::List(vec![source.clone()])]);
    // both have the same value
    let mut env = Environment::init_env();
    let first = eval_prog(vec![source], &mut env).unwrap();
    let second = eval_prog(again, &mut env).unwrap();
    assert_eq!(first, second);
}

#[test]
fn clone_is_equal() {
    let value = parse("(a (b \"c\" 1) #t (lambda (x) x))").pop().unwrap();
    assert_eq!(value.clone(), value);
    let token = Token { literal: "x".to_owned(), kind: TokenType::IDENT };
    assert_eq!(token.clone(), token);
    let items = vec![value, LispVal::Number(1)];
    assert_eq!(clone_list(&items), items);
}
