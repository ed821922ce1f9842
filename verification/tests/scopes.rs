use scheme_interpreter::eval::{eval_prog, Environment};
use scheme_interpreter::lexer::Lexer;
use scheme_interpreter::parser::Parser;
use scheme_interpreter::token::LispVal;

fn parse(input: &str) -> Vec<LispVal> {
    let mut lex = Lexer::init_lex(input.to_owned());
    let mut parser = Parser::init_parser(&mut lex).unwrap();
    parser.parse_program().unwrap()
}

fn run_in(env: &mut Environment, input: &str) -> Result<Vec<LispVal>, String> {
    eval_prog(parse(input), env)
}

#[test]
fn fresh_environment_binds_nothing() {
    let env = Environment::init_env();
    assert_eq!(env.get("x".to_owned()), None);
}

#[test]
fn set_then_get() {
    let mut env = Environment::init_env();
    assert_eq!(
        env.set("x".to_owned(), LispVal::Number(1)),
        LispVal::Number(1)
    );
    assert_eq!(env.get("x".to_owned()), Some(LispVal::Number(1)));
    assert_eq!(env.get("y".to_owned()), None);
}

#[test]
fn later_binding_replaces_the_earlier_one() {
    let mut env = Environment::init_env();
    env.set("x".to_owned(), LispVal::Number(1));
    env.set("y".to_owned(), LispVal::Number(5));
    env.set("x".to_owned(), LispVal::Number(2));
    assert_eq!(env.get("x".to_owned()), Some(LispVal::Number(2)));
    assert_eq!(env.get("y".to_owned()), Some(LispVal::Number(5)));
}

#[test]
fn enclosed_scope_falls_back_to_the_outer_one() {
    let mut outer = Environment::init_env();
    outer.set("x".to_owned(), LispVal::Number(1));
    outer.set("y".to_owned(), LispVal::Number(2));
    let copy = outer.clone();
    let mut inner = outer.new_enclosed(copy);
    assert_eq!(inner.get("x".to_owned()), Some(LispVal::Number(1)));
    inner.set("x".to_owned(), LispVal::Number(10));
    assert_eq!(inner.get("x".to_owned()), Some(LispVal::Number(10)));
    assert_eq!(inner.get("y".to_owned()), Some(LispVal::Number(2)));
    // the outer scope does not see what happened in the inner one
    assert_eq!(outer.get("x".to_owned()), Some(LispVal::Number(1)));
}

#[test]
fn clone_is_independent() {
    let mut env = Environment::init_env();
    env.set("x".to_owned(), LispVal::Number(1));
    let mut copy = env.clone();
    copy.set("x".to_owned(), LispVal::Number(2));
    assert_eq!(env.get("x".to_owned()), Some(LispVal::Number(1)));
    assert_eq!(copy.get("x".to_owned()), Some(LispVal::Number(2)));
}

#[test]
fn inner_let_shadows_and_the_outer_binding_comes_back() {
    let mut env = Environment::init_env();
    assert_eq!(
        run_in(
            &mut env,
            "(define x 10) (let ((x 2)) (let ((x 3)) (+ x 0))) (let ((x 2)) (+ x 0)) x"
        )
        .unwrap()[1..],
        [
            LispVal::Number(3),
            LispVal::Number(2),
            LispVal::Number(10)
        ]
    );
    assert_eq!(env.get("x".to_owned()), Some(LispVal::Number(10)));
}

#[test]
fn define_in_a_let_body_does_not_leak() {
    let mut env = Environment::init_env();
    run_in(&mut env, "(define x 1) (let ((y 2)) (define x 5))").unwrap();
    assert_eq!(env.get("x".to_owned()), Some(LispVal::Number(1)));
    run_in(&mut env, "(let ((y 2)) (define z 5))").unwrap();
    assert_eq!(env.get("z".to_owned()), None);
    assert_eq!(
        run_in(&mut env, "z"),
        Err("identifier not in environment: z".to_owned())
    );
}

#[test]
fn define_in_a_procedure_body_does_not_leak() {
    let mut env = Environment::init_env();
    run_in(&mut env, "(define (p a) (define w a)) (p 3)").unwrap();
    assert_eq!(env.get("w".to_owned()), None);
    run_in(&mut env, "((lambda (a) (define v a)) 3)").unwrap();
    assert_eq!(env.get("v".to_owned()), None);
}

#[test]
fn parameters_shadow_outer_bindings_during_the_call() {
    let mut env = Environment::init_env();
    assert_eq!(
        run_in(&mut env, "(define x 1) (define (p x) (+ x 100)) (p 5) x").unwrap()[2..],
        [LispVal::Number(105), LispVal::Number(1)]
    );
}

#[test]
fn environment_lasts_across_programs() {
    let mut env = Environment::init_env();
    run_in(&mut env, "(define x 4)").unwrap();
    assert_eq!(
        run_in(&mut env, "(* x x)"),
        Ok(vec![LispVal::Number(16)])
    );
}
