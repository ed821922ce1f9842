//! What evaluation means: the value of an expression in an environment, as
//! functions on the models of expressions and environments.
use crate::token::{render, Sexp, TokenType, TokenView};
use vstd::prelude::*;

verus! {

/// One scope: the values bound to names.
pub type Scope = Map<Seq<char>, Sexp>;

/// A chain of scopes, innermost first.
pub type Env = Seq<Scope>;

/// The result of an evaluation and the environment it leaves behind.
pub type Outcome = (Result<Sexp, Seq<char>>, Env);

/// The value bound to `name` in the innermost scope that holds it.
pub open spec fn lookup(env: Env, name: Seq<char>) -> Option<Sexp>
    decreases env.len(),
{
    if env.len() == 0 {
        None
    } else if env[0].contains_key(name) {
        Some(env[0][name])
    } else {
        lookup(env.subrange(1, env.len() as int), name)
    }
}

/// `env` with `name` bound to `value` in its innermost scope.
pub open spec fn bind(env: Env, name: Seq<char>, value: Sexp) -> Env {
    if env.len() == 0 {
        env
    } else {
        env.update(0, env[0].insert(name, value))
    }
}

/// `env` with `scope` in front of it as its new innermost scope.
pub open spec fn enclose(scope: Scope, env: Env) -> Env {
    seq![scope] + env
}

/// The quotient of `x` by `d` rounded toward zero, for `d != 0`.
pub open spec fn quotient(x: int, d: int) -> int {
    if x >= 0 && d > 0 {
        x / d
    } else if x < 0 && d < 0 {
        (-x) / (-d)
    } else if x < 0 {
        -((-x) / d)
    } else {
        -(x / (-d))
    }
}

/// Whether `x` is a 64-bit signed integer.
pub open spec fn fits(x: int) -> bool {
    i64::MIN <= x <= i64::MAX
}

/// Whether `kind` is one of `+ - * /`.
pub open spec fn is_arithmetic(kind: TokenType) -> bool {
    kind == TokenType::PLUS || kind == TokenType::MINUS || kind == TokenType::ASTERICK || kind
        == TokenType::SLASH
}

/// Whether `kind` is one of `= < <= > >=`.
pub open spec fn is_comparison(kind: TokenType) -> bool {
    kind == TokenType::EQ || kind == TokenType::LT || kind == TokenType::LTEQ || kind
        == TokenType::GT || kind == TokenType::GTEQ
}

/// The truth of `x kind y` for a comparison `kind`.
pub open spec fn compare(kind: TokenType, x: i64, y: i64) -> bool {
    if kind == TokenType::LT {
        x < y
    } else if kind == TokenType::LTEQ {
        x <= y
    } else if kind == TokenType::EQ {
        x == y
    } else if kind == TokenType::GT {
        x > y
    } else {
        x >= y
    }
}

/// The error for more nested list evaluations than the depth allows.
pub open spec fn err_too_deep() -> Seq<char> {
    "evaluation is nested too deeply"@
}

/// The error for an arithmetic result outside 64 bits.
pub open spec fn err_overflow() -> Seq<char> {
    "integer overflow"@
}

/// The error for a list without a first element.
pub open spec fn err_empty_list() -> Seq<char> {
    "cannot evaluate an empty list"@
}

/// The error for a list whose first element selects no rule.
pub open spec fn err_not_applicable(head: Sexp) -> Seq<char> {
    "not an operator, a special form or a procedure: "@ + render(head)
}

/// The error for a name that no scope binds.
pub open spec fn err_unbound(name: Seq<char>) -> Seq<char> {
    "identifier not in environment: "@ + name
}

/// The error for operands of a comparison that are not both numbers.
pub open spec fn err_operands(first: Sexp, second: Sexp) -> Seq<char> {
    "conditonal not fully implemented first: "@ + render(first) + " second: "@ + render(second)
}

/// What one operand does to an arithmetic fold.
pub enum Step {
    /// The new running total.
    Total(i64),
    /// The value of the whole fold, with no further operand evaluated.
    Finished(i64),
    /// The error with which the fold ends.
    Failed(Seq<char>),
}

/// `x` as the new total, or the overflow error when it is outside 64 bits.
pub open spec fn checked(x: int) -> Step {
    if fits(x) {
        Step::Total(x as i64)
    } else {
        Step::Failed(err_overflow())
    }
}

/// One step of an arithmetic fold: the running total `acc` meets the
/// operand `x` at index `i` (operands start at index 1).
///
/// `+` and `*` combine the two. `-` and `/` take the first operand as the
/// total. A zero first operand of `/` ends the fold with `0`; a later zero
/// is an error. A total outside 64 bits is an error.
pub open spec fn step(kind: TokenType, i: int, acc: i64, x: i64) -> Step {
    if kind == TokenType::PLUS {
        checked(acc + x)
    } else if kind == TokenType::ASTERICK {
        checked(x * acc)
    } else if kind == TokenType::MINUS {
        if i == 1 {
            Step::Total(x)
        } else {
            checked(acc - x)
        }
    } else {
        if i == 1 {
            if x == 0 {
                Step::Finished(0)
            } else {
                Step::Total(x)
            }
        } else if x == 0 {
            Step::Failed("cannot divide by 0"@)
        } else {
            checked(quotient(acc as int, x as int))
        }
    }
}

/// The total from which a fold starts: 1 for `*`, 0 for the others.
pub open spec fn identity(kind: TokenType) -> i64 {
    if kind == TokenType::ASTERICK {
        1
    } else {
        0
    }
}

/// The error for an operand of `kind` at index `i` that is not a number.
pub open spec fn err_not_a_number(kind: TokenType, i: int) -> Seq<char> {
    if kind == TokenType::ASTERICK {
        "could not multipy lispval. not a number"@
    } else if kind == TokenType::SLASH && i == 1 {
        "could not divide lispval. not a number"@
    } else {
        "could not sub lispval. not a number"@
    }
}

/// The value of `v` in `env`, with at most `depth` list evaluations nested
/// in one another.
///
/// Numbers, strings, booleans and `Nil` are their own values. An atom is
/// looked up by its text. A list is evaluated by [`eval_list`]. Nothing
/// else has a value.
pub open spec fn eval(depth: nat, v: Sexp, env: Env) -> Outcome
    decreases depth, 0nat, 0nat,
{
    match v {
        Sexp::List(items) => if depth == 0 {
            (Err(err_too_deep()), env)
        } else {
            eval_list((depth - 1) as nat, items, env)
        },
        Sexp::Atom(t) => (eval_atom(t.literal, env), env),
        Sexp::Number(_) | Sexp::String(_) | Sexp::Nil | Sexp::Bool(_) => (Ok(v), env),
        _ => (Err("problem with eval"@), env),
    }
}

/// The value bound to `name`, or the error for an unbound identifier.
pub open spec fn eval_atom(name: Seq<char>, env: Env) -> Result<Sexp, Seq<char>> {
    match lookup(env, name) {
        Some(v) => Ok(v),
        None => Err(err_unbound(name)),
    }
}

/// What `quote` gives for the elements after it: the one quoted expression
/// as it stands, or the elements as a list when there is not exactly one.
pub open spec fn quoted(rest: Seq<Sexp>) -> Sexp {
    if rest.len() == 1 {
        rest[0]
    } else {
        Sexp::List(rest)
    }
}

/// The evaluation of `items` one level further down.
pub open spec fn descend(depth: nat, items: Seq<Sexp>, env: Env) -> Outcome
    decreases depth, 0nat, 0nat,
{
    if depth == 0 {
        (Err(err_too_deep()), env)
    } else {
        eval_list((depth - 1) as nat, items, env)
    }
}

/// The value of a list, by its first element.
///
/// - An operator atom: arithmetic or comparison over the other elements.
/// - `let`, `define`: the special form.
/// - `quote`: the expression after it, unevaluated.
/// - An identifier: the call of the procedure bound to it.
/// - A closure template: its application to the other elements.
/// - A list that starts with a closure template: the application of that
///   template to the other elements of the outer list.
/// - A list that starts with `define`: the definition, and then the value
///   of the rest of the outer list, if there is any.
/// - A list that starts with `let`: that form.
/// - Any other list: the value of that list alone.
/// - Anything else is an error.
pub open spec fn eval_list(depth: nat, items: Seq<Sexp>, env: Env) -> Outcome
    decreases depth, 3nat, 0nat,
{
    if items.len() == 0 {
        (Err(err_empty_list()), env)
    } else {
        let rest = items.subrange(1, items.len() as int);
        match items[0] {
            Sexp::Atom(t) => {
                if is_arithmetic(t.kind) {
                    eval_bin(depth, items, env)
                } else if is_comparison(t.kind) {
                    eval_cond(depth, items, env)
                } else if t.kind == TokenType::LET {
                    eval_let(depth, items, env)
                } else if t.kind == TokenType::QUOTE {
                    (Ok(quoted(rest)), env)
                } else if t.kind == TokenType::DEFINE {
                    eval_define(depth, items, env)
                } else if t.kind == TokenType::LAMBDA {
                    (Err("error evaluating paramaters for lambda"@), env)
                } else if t.kind == TokenType::IDENT {
                    match lookup(env, t.literal) {
                        Some(Sexp::List(procedure)) => eval_proc(depth, procedure, rest, env),
                        Some(_) => (Err("should of been a list for procedure"@), env),
                        None => (Err(err_unbound(t.literal)), env),
                    }
                } else {
                    (Err(err_not_applicable(items[0])), env)
                }
            },
            Sexp::List(head) => {
                if head.len() == 0 {
                    (Err(err_empty_list()), env)
                } else {
                    match head[0] {
                        Sexp::Atom(z) => {
                            if z.kind == TokenType::LAMBDA {
                                (Err("error evaluating paramaters for lambda"@), env)
                            } else if z.kind == TokenType::DEFINE {
                                let defined = eval_define(depth, head, env);
                                if defined.0 is Err || items.len() == 1 {
                                    defined
                                } else {
                                    descend(depth, rest, defined.1)
                                }
                            } else if z.kind == TokenType::LET {
                                eval_let(depth, head, env)
                            } else {
                                descend(depth, head, env)
                            }
                        },
                        Sexp::Lamda(params, body) => eval_lambda(
                            depth,
                            *params,
                            *body,
                            rest,
                            env,
                        ),
                        _ => descend(depth, head, env),
                    }
                }
            },
            Sexp::Lamda(params, body) => eval_lambda(depth, *params, *body, rest, env),
            _ => (Err(err_not_applicable(items[0])), env),
        }
    }
}

/// Arithmetic: the fold of the operator at the head of `items` over the
/// values of at least two operands, from left to right.
pub open spec fn eval_bin(depth: nat, items: Seq<Sexp>, env: Env) -> Outcome
    decreases depth, 2nat, 0nat,
{
    if items.len() < 3 {
        (
            Err(
                "invalid binary operation. should have at least 2 arguments for operation ex (+ 2 3)"@,
            ),
            env,
        )
    } else {
        match items[0] {
            Sexp::Atom(t) => if is_arithmetic(t.kind) {
                fold(depth, t.kind, items, 1, identity(t.kind), env)
            } else {
                (Err("invalid binary operation. error: "@ + render(items[0])), env)
            },
            _ => (Err("invalid binary operation. error: "@ + render(items[0])), env),
        }
    }
}

/// The fold of `kind` over the operands of `items` from index `i` on, with
/// the running total `acc`. Each operand is evaluated, must be a number,
/// and enters the total by [`step`].
pub open spec fn fold(depth: nat, kind: TokenType, items: Seq<Sexp>, i: int, acc: i64, env: Env)
    -> Outcome
    decreases depth, 1nat, items.len() - i,
{
    if i < 1 || i >= items.len() {
        (Ok(Sexp::Number(acc)), env)
    } else {
        let operand = eval(depth, items[i], env);
        match operand.0 {
            Ok(Sexp::Number(x)) => match step(kind, i, acc, x) {
                Step::Total(total) => fold(depth, kind, items, i + 1, total, operand.1),
                Step::Finished(total) => (Ok(Sexp::Number(total)), operand.1),
                Step::Failed(e) => (Err(e), operand.1),
            },
            Ok(_) => (Err(err_not_a_number(kind, i)), operand.1),
            Err(e) => (Err(e), operand.1),
        }
    }
}

/// Comparison: the truth of the operator at the head of `items` on the
/// values of exactly two operands, both numbers, the first evaluated
/// first.
pub open spec fn eval_cond(depth: nat, items: Seq<Sexp>, env: Env) -> Outcome
    decreases depth, 2nat, 0nat,
{
    if items.len() != 3 {
        (
            Err(
                "invalid conditional operation. should have only 2 arguments for operation ex (< 2 3)"@,
            ),
            env,
        )
    } else {
        match items[0] {
            Sexp::Atom(t) => if is_comparison(t.kind) {
                let first = eval(depth, items[1], env);
                match first.0 {
                    Ok(a) => {
                        let second = eval(depth, items[2], first.1);
                        match second.0 {
                            Ok(b) => match (a, b) {
                                (Sexp::Number(x), Sexp::Number(y)) => (
                                    Ok(Sexp::Bool(compare(t.kind, x, y))),
                                    second.1,
                                ),
                                _ => (Err(err_operands(a, b)), second.1),
                            },
                            Err(e) => (Err(e), second.1),
                        }
                    },
                    Err(e) => (Err(e), first.1),
                }
            } else {
                (Err("invalid cond operation. error: "@ + render(items[0])), env)
            },
            _ => (Err("invalid cond operation. error: "@ + render(items[0])), env),
        }
    }
}

/// The scope that a sequence of evaluations fills, or the first error, and
/// the environment after them.
pub type Bound = (Result<Scope, Seq<char>>, Env);

/// `let`: the value of each binding is evaluated in `env`, in order; the
/// body is evaluated in a new scope that holds the bindings, in front of
/// `env` as those evaluations left it. That scope is then dropped: what
/// the body defines does not reach `env`.
pub open spec fn eval_let(depth: nat, items: Seq<Sexp>, env: Env) -> Outcome
    decreases depth, 2nat, 0nat,
{
    if items.len() < 3 {
        (Err("let eval went wrong"@), env)
    } else {
        match items[1] {
            Sexp::List(pairs) => {
                let bound = eval_let_pair(depth, pairs, 0, Map::empty(), env);
                match bound.0 {
                    Ok(scope) => (eval(depth, items[2], enclose(scope, bound.1)).0, bound.1),
                    Err(e) => (Err(e), bound.1),
                }
            },
            _ => (Err("let eval went wrong"@), env),
        }
    }
}

/// The bindings of a `let` from index `i` on, added to `scope`: each is a
/// list of an identifier and an expression, whose value is taken in `env`.
pub open spec fn eval_let_pair(depth: nat, pairs: Seq<Sexp>, i: int, scope: Scope, env: Env)
    -> Bound
    decreases depth, 1nat, pairs.len() - i,
{
    if i < 0 || i >= pairs.len() {
        (Ok(scope), env)
    } else {
        match pairs[i] {
            Sexp::List(pair) => if pair.len() < 2 {
                (Err(err_not_a_pair(pairs[i])), env)
            } else {
                match pair[0] {
                    Sexp::Atom(t) => {
                        let value = eval(depth, pair[1], env);
                        match value.0 {
                            Ok(v) => eval_let_pair(
                                depth,
                                pairs,
                                i + 1,
                                scope.insert(t.literal, v),
                                value.1,
                            ),
                            Err(e) => (Err(e), value.1),
                        }
                    },
                    _ => (
                        Err(
                            "first of let pair of variable binding should be an identifier. Error in: "@
                                + render(pair[0]),
                        ),
                        env,
                    ),
                }
            },
            _ => (Err(err_not_a_pair(pairs[i])), env),
        }
    }
}

/// The error for a binding of a `let` that is no list of two elements.
pub open spec fn err_not_a_pair(binding: Sexp) -> Seq<char> {
    "variable bindings in let statement should be in pairs. (let ((x 5)(y 6))...error in "@
        + render(binding)
}

/// `define`, of three elements. With an identifier, or a list of one
/// identifier, in second place it binds a value; with a longer list it
/// binds a procedure under the list's first identifier.
pub open spec fn eval_define(depth: nat, items: Seq<Sexp>, env: Env) -> Outcome
    decreases depth, 2nat, 1nat,
{
    if items.len() != 3 {
        (Err("define should have 3 parts (define (x) (3))"@), env)
    } else {
        match items[1] {
            Sexp::Atom(t) => define_value(depth, t, items[2], env),
            Sexp::List(target) => if target.len() < 2 {
                if target.len() == 1 && target[0] is Atom {
                    define_value(depth, target[0]->Atom_0, items[2], env)
                } else {
                    (Err("define should be a list of identifiers or just an identifier"@), env)
                }
            } else {
                match target[0] {
                    Sexp::Atom(name) => {
                        let params = Sexp::List(target.subrange(1, target.len() as int));
                        (
                            Ok(Sexp::List(seq![Sexp::String("fn "@ + name.literal), params])),
                            bind(env, name.literal, Sexp::List(seq![params, items[2]])),
                        )
                    },
                    _ => (
                        Err(
                            "error: first part to define a procedure should be the name of the procedure"@,
                        ),
                        env,
                    ),
                }
            },
            _ => (Err("define should be a list of identifier or just an identifier"@), env),
        }
    }
}

/// The atom that stands between a name and its value in the confirmation
/// of a definition.
pub open spec fn arrow() -> Sexp {
    Sexp::Atom(TokenView { literal: "<-"@, kind: TokenType::ILLEGAL })
}

/// The definition of a value: `expr` is evaluated once, in `env`; `name` is
/// bound to its value in the innermost scope of the environment that the
/// evaluation left, and the confirmation is `(name <- value)`. When the
/// evaluation fails, nothing is bound.
pub open spec fn define_value(depth: nat, name: TokenView, expr: Sexp, env: Env) -> Outcome
    decreases depth, 2nat, 0nat,
{
    let value = eval(depth, expr, env);
    match value.0 {
        Ok(v) => (
            Ok(Sexp::List(seq![Sexp::Atom(name), arrow(), v])),
            bind(value.1, name.literal, v),
        ),
        Err(e) => (Err(e), value.1),
    }
}

/// The scope of a call: each of `params` from index `i` on must be an
/// atom, and is bound to the value of the argument at its index, taken in
/// `env`.
pub open spec fn bind_args(
    depth: nat,
    params: Seq<Sexp>,
    args: Seq<Sexp>,
    i: int,
    scope: Scope,
    env: Env,
    not_an_atom: Seq<char>,
) -> Bound
    decreases depth, 1nat, params.len() - i,
{
    if i < 0 || i >= params.len() || i >= args.len() {
        (Ok(scope), env)
    } else {
        match params[i] {
            Sexp::Atom(t) => {
                let value = eval(depth, args[i], env);
                match value.0 {
                    Ok(v) => bind_args(
                        depth,
                        params,
                        args,
                        i + 1,
                        scope.insert(t.literal, v),
                        value.1,
                        not_an_atom,
                    ),
                    Err(e) => (Err(e), value.1),
                }
            },
            _ => (Err(not_an_atom), env),
        }
    }
}

/// The call of a body with parameters: as many arguments as parameters;
/// the arguments are evaluated in the caller's environment, the body in a
/// new scope that holds them, which is then dropped.
pub open spec fn apply(
    depth: nat,
    params: Seq<Sexp>,
    body: Sexp,
    args: Seq<Sexp>,
    env: Env,
    arity: Seq<char>,
    not_an_atom: Seq<char>,
) -> Outcome
    decreases depth, 2nat, 0nat,
{
    if args.len() != params.len() {
        (Err(arity), env)
    } else {
        let bound = bind_args(depth, params, args, 0, Map::empty(), env, not_an_atom);
        match bound.0 {
            Ok(scope) => (eval(depth, body, enclose(scope, bound.1)).0, bound.1),
            Err(e) => (Err(e), bound.1),
        }
    }
}

/// The call of a procedure binding: a list of the parameter list and the
/// body.
pub open spec fn eval_proc(depth: nat, procedure: Seq<Sexp>, args: Seq<Sexp>, env: Env)
    -> Outcome
    decreases depth, 2nat, 1nat,
{
    if procedure.len() < 2 {
        (Err("error getting the amount of parameters in procedure"@), env)
    } else {
        match procedure[0] {
            Sexp::List(params) => apply(
                depth,
                params,
                procedure[1],
                args,
                env,
                "not enough arguments for procedure"@,
                "should of been an atom"@,
            ),
            _ => (Err("error getting the amount of parameters in procedure"@), env),
        }
    }
}

/// The application of a closure template: its parameter pattern is a list
/// of atoms or one atom.
pub open spec fn eval_lambda(depth: nat, pattern: Sexp, body: Sexp, args: Seq<Sexp>, env: Env)
    -> Outcome
    decreases depth, 2nat, 1nat,
{
    match pattern {
        Sexp::List(params) => apply(
            depth,
            params,
            body,
            args,
            env,
            "number of params in lambda do not match the amount applied"@,
            "should of been an atom for lambda"@,
        ),
        Sexp::Atom(_) => apply(
            depth,
            seq![pattern],
            body,
            args,
            env,
            "number of params in lambda do not match the amount applied"@,
            "should of been an atom for lambda"@,
        ),
        _ => (Err("error evaluating params for lambda"@), env),
    }
}

/// The values of the expressions of `program` from index `i` on, after
/// `acc`, each evaluated in the environment that the one before left; or
/// the first error.
pub open spec fn eval_all(depth: nat, program: Seq<Sexp>, i: int, acc: Seq<Sexp>, env: Env) -> (
    Result<Seq<Sexp>, Seq<char>>,
    Env,
)
    decreases program.len() - i,
{
    if i < 0 || i >= program.len() {
        (Ok(acc), env)
    } else {
        let one = eval(depth, program[i], env);
        match one.0 {
            Ok(v) => eval_all(depth, program, i + 1, acc.push(v), one.1),
            Err(e) => (Err(e), one.1),
        }
    }
}

} // verus!
