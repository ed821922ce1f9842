//! Laws of evaluation, proved from its definition.
use crate::semantics::{
    apply, bind, bind_args, enclose, eval, eval_let, eval_let_pair, fits, lookup, quotient, Env,
    Outcome, Scope,
};
use crate::semantics::{
    define_value, descend, eval_cond, eval_define, eval_lambda, eval_proc, Step,
};
use crate::semantics::{arrow, eval_bin, eval_list, fold, identity, quoted, step};
use crate::token::{Sexp, TokenType, TokenView};
use vstd::prelude::*;

verus! {

/// The expression `(op a b)`: an operator atom applied to two numbers.
pub open spec fn binary(op: TokenView, a: i64, b: i64) -> Sexp {
    Sexp::List(seq![Sexp::Atom(op), Sexp::Number(a), Sexp::Number(b)])
}

/// An evaluation that gives the number `n` and leaves `env` as it was.
pub open spec fn gives(n: int, env: Env) -> Outcome {
    (Ok(Sexp::Number(n as i64)), env)
}

/// An evaluation that fails with `message` and leaves `env` as it was.
pub open spec fn fails(message: Seq<char>, env: Env) -> Outcome {
    (Err(message), env)
}

/// The fold of an operator over two numbers, at any depth: the sum, the
/// product, the difference and the quotient rounded toward zero, when they
/// are 64-bit integers; `0` for a zero dividend whatever the divisor; the
/// division-by-zero error for a zero divisor under another dividend. The
/// environment stays as it was.
pub proof fn lemma_fold_binary(depth: nat, op: TokenView, a: i64, b: i64, env: Env)
    ensures
        op.kind == TokenType::PLUS && fits(a + b) ==> fold(
            depth,
            op.kind,
            binary(op, a, b)->List_0,
            1,
            0,
            env,
        ) == gives(a + b, env),
        op.kind == TokenType::ASTERICK && fits(a * b) ==> fold(
            depth,
            op.kind,
            binary(op, a, b)->List_0,
            1,
            1,
            env,
        ) == gives(a * b, env),
        op.kind == TokenType::MINUS && fits(a - b) ==> fold(
            depth,
            op.kind,
            binary(op, a, b)->List_0,
            1,
            0,
            env,
        ) == gives(a - b, env),
        op.kind == TokenType::SLASH && a == 0 ==> fold(
            depth,
            op.kind,
            binary(op, a, b)->List_0,
            1,
            0,
            env,
        ) == gives(0, env),
        op.kind == TokenType::SLASH && a != 0 && b == 0 ==> fold(
            depth,
            op.kind,
            binary(op, a, b)->List_0,
            1,
            0,
            env,
        ) == fails("cannot divide by 0"@, env),
        op.kind == TokenType::SLASH && a != 0 && b != 0 && fits(quotient(a as int, b as int))
            ==> fold(depth, op.kind, binary(op, a, b)->List_0, 1, 0, env) == gives(
            quotient(a as int, b as int),
            env,
        ),
{
    reveal_with_fuel(fold, 4);
    assert(a * 1 == a);
    assert(b * a == a * b) by (nonlinear_arith);
}

/// The value of `(op a b)` is the fold of `op` over `a` and then `b`.
pub proof fn lemma_binary_unfolds(depth: nat, op: TokenView, a: i64, b: i64, env: Env)
    requires
        depth > 0,
        op.kind == TokenType::PLUS || op.kind == TokenType::MINUS || op.kind
            == TokenType::ASTERICK || op.kind == TokenType::SLASH,
    ensures
        eval(depth, binary(op, a, b), env) == fold(
            (depth - 1) as nat,
            op.kind,
            binary(op, a, b)->List_0,
            1,
            identity(op.kind),
            env,
        ),
{
    let items = binary(op, a, b)->List_0;
    assert(items.len() == 3);
    assert(items[0] == Sexp::Atom(op));
    assert(eval(depth, binary(op, a, b), env) == eval_list((depth - 1) as nat, items, env));
    assert(eval_list((depth - 1) as nat, items, env) == eval_bin((depth - 1) as nat, items, env));
}

/// `(+ a b)` evaluates to the sum of `a` and `b`, when the sum is a 64-bit
/// integer and one list may be evaluated.
pub proof fn lemma_sum(depth: nat, op: TokenView, a: i64, b: i64, env: Env)
    requires
        depth > 0,
        op.kind == TokenType::PLUS,
        fits(a + b),
    ensures
        eval(depth, binary(op, a, b), env) == gives(a + b, env),
{
    lemma_binary_unfolds(depth, op, a, b, env);
    reveal_with_fuel(fold, 4);
}

/// `(* a b)` evaluates to the product of `a` and `b`, when the product is
/// a 64-bit integer and one list may be evaluated.
pub proof fn lemma_product(depth: nat, op: TokenView, a: i64, b: i64, env: Env)
    requires
        depth > 0,
        op.kind == TokenType::ASTERICK,
        fits(a * b),
    ensures
        eval(depth, binary(op, a, b), env) == gives(a * b, env),
{
    lemma_binary_unfolds(depth, op, a, b, env);
    reveal_with_fuel(fold, 4);
    assert(a * 1 == a);
    assert(b * a == a * b) by (nonlinear_arith);
}

/// `(- a b)` evaluates to `a - b`, when the difference is a 64-bit integer
/// and one list may be evaluated.
pub proof fn lemma_difference(depth: nat, op: TokenView, a: i64, b: i64, env: Env)
    requires
        depth > 0,
        op.kind == TokenType::MINUS,
        fits(a - b),
    ensures
        eval(depth, binary(op, a, b), env) == gives(a - b, env),
{
    lemma_binary_unfolds(depth, op, a, b, env);
    reveal_with_fuel(fold, 4);
}

/// `(/ a b)` evaluates to the quotient of `a` by `b`, rounded toward zero,
/// when neither is zero, the quotient is a 64-bit integer and one list may
/// be evaluated.
pub proof fn lemma_quotient(depth: nat, op: TokenView, a: i64, b: i64, env: Env)
    requires
        depth > 0,
        op.kind == TokenType::SLASH,
        a != 0,
        b != 0,
        fits(quotient(a as int, b as int)),
    ensures
        eval(depth, binary(op, a, b), env) == gives(quotient(a as int, b as int), env),
{
    lemma_binary_unfolds(depth, op, a, b, env);
    reveal_with_fuel(fold, 4);
}

/// `(/ 0 b)` evaluates to `0` whatever `b` is, zero included.
pub proof fn lemma_zero_dividend(depth: nat, op: TokenView, b: i64, env: Env)
    requires
        depth > 0,
        op.kind == TokenType::SLASH,
    ensures
        eval(depth, binary(op, 0, b), env) == gives(0, env),
{
    lemma_binary_unfolds(depth, op, 0, b, env);
    reveal_with_fuel(fold, 4);
}

/// `(/ a 0)` fails with the division-by-zero error when `a` is not zero.
pub proof fn lemma_zero_divisor(depth: nat, op: TokenView, a: i64, env: Env)
    requires
        depth > 0,
        op.kind == TokenType::SLASH,
        a != 0,
    ensures
        eval(depth, binary(op, a, 0), env) == fails("cannot divide by 0"@, env),
{
    lemma_binary_unfolds(depth, op, a, 0, env);
    reveal_with_fuel(fold, 4);
}

/// The quotient rounded toward zero is the mathematical quotient when both
/// numbers are positive, and changes sign with either of them.
pub proof fn lemma_quotient_signs(a: int, b: int)
    requires
        a > 0,
        b > 0,
    ensures
        quotient(a, b) == a / b,
        quotient(-a, b) == -(a / b),
        quotient(a, -b) == -(a / b),
        quotient(-a, -b) == a / b,
        b * quotient(a, b) <= a < b * quotient(a, b) + b,
{
    assert(b * (a / b) <= a < b * (a / b) + b) by (nonlinear_arith)
        requires
            a > 0,
            b > 0,
    ;
}

/// The numbers `xs` as operands of the operator atom `op`.
pub open spec fn application(op: TokenView, xs: Seq<i64>) -> Seq<Sexp> {
    Seq::new(
        xs.len() + 1,
        |i: int|
            if i == 0 {
                Sexp::Atom(op)
            } else {
                Sexp::Number(xs[i - 1])
            },
    )
}

/// What `op` makes of the first `n` of the numbers `xs`: their sum, their
/// product, or the first less the others.
pub open spec fn total(kind: TokenType, xs: Seq<i64>, n: nat) -> int
    decreases n,
{
    if n == 0 || n > xs.len() {
        identity(kind) as int
    } else if kind == TokenType::PLUS {
        total(kind, xs, (n - 1) as nat) + xs[n - 1]
    } else if kind == TokenType::ASTERICK {
        xs[n - 1] * total(kind, xs, (n - 1) as nat)
    } else if n == 1 {
        xs[0] as int
    } else {
        total(kind, xs, (n - 1) as nat) - xs[n - 1]
    }
}

/// Whether `op` makes a 64-bit integer of every prefix of `xs`.
pub open spec fn totals_fit(kind: TokenType, xs: Seq<i64>) -> bool {
    forall|n: nat| n <= xs.len() ==> fits(#[trigger] total(kind, xs, n))
}

/// The fold over numbers from the operand at index `i` on, when the
/// running total is what `kind` makes of the operands before it: what
/// `kind` makes of all of them, at any depth, with the environment as it
/// was.
pub proof fn lemma_fold_of_numbers(
    depth: nat,
    op: TokenView,
    xs: Seq<i64>,
    i: int,
    acc: i64,
    env: Env,
)
    requires
        op.kind == TokenType::PLUS || op.kind == TokenType::ASTERICK || op.kind
            == TokenType::MINUS,
        1 <= i <= xs.len() + 1,
        totals_fit(op.kind, xs),
        acc == total(op.kind, xs, (i - 1) as nat),
    ensures
        fold(depth, op.kind, application(op, xs), i, acc, env) == gives(
            total(op.kind, xs, xs.len()),
            env,
        ),
    decreases xs.len() + 1 - i,
{
    let items = application(op, xs);
    if i < items.len() {
        assert(items[i] == Sexp::Number(xs[i - 1]));
        assert(fits(total(op.kind, xs, i as nat)));
        let next = total(op.kind, xs, i as nat);
        assert(step(op.kind, i, acc, xs[i - 1]) == Step::Total(next as i64));
        lemma_fold_of_numbers(depth, op, xs, i + 1, next as i64, env);
        assert(eval(depth, items[i], env) == (Ok::<Sexp, Seq<char>>(items[i]), env));
        assert(fold(depth, op.kind, items, i, acc, env) == fold(
            depth,
            op.kind,
            items,
            i + 1,
            next as i64,
            env,
        ));
    } else {
        assert(i == xs.len() + 1);
        assert(fold(depth, op.kind, items, i, acc, env) == (
            Ok::<Sexp, Seq<char>>(Sexp::Number(acc)),
            env,
        ));
    }
}

/// `(+ x1 ... xn)` evaluates to the sum of the numbers, `(* x1 ... xn)`
/// to their product and `(- x1 ... xn)` to the first less each of the
/// others, for two numbers or more, when the operator makes a 64-bit
/// integer of every prefix of them and one list may be evaluated.
pub proof fn lemma_total(depth: nat, op: TokenView, xs: Seq<i64>, env: Env)
    requires
        depth > 0,
        op.kind == TokenType::PLUS || op.kind == TokenType::ASTERICK || op.kind
            == TokenType::MINUS,
        xs.len() >= 2,
        totals_fit(op.kind, xs),
    ensures
        eval(depth, Sexp::List(application(op, xs)), env) == gives(
            total(op.kind, xs, xs.len()),
            env,
        ),
{
    let items = application(op, xs);
    assert(items[0] == Sexp::Atom(op));
    assert(eval(depth, Sexp::List(items), env) == eval_list((depth - 1) as nat, items, env));
    assert(eval_list((depth - 1) as nat, items, env) == eval_bin((depth - 1) as nat, items, env));
    lemma_fold_of_numbers((depth - 1) as nat, op, xs, 1, identity(op.kind), env);
}

/// `quote` gives the expression after it as it stands: nothing in it is
/// evaluated, and the environment stays as it was.
pub proof fn lemma_quote(depth: nat, mark: TokenView, quoted: Sexp, env: Env)
    requires
        depth > 0,
        mark.kind == TokenType::QUOTE,
    ensures
        eval(depth, Sexp::List(seq![Sexp::Atom(mark), quoted]), env) == (
            Ok::<Sexp, Seq<char>>(quoted),
            env,
        ),
{
    let items = seq![Sexp::Atom(mark), quoted];
    assert(items.subrange(1, 2) =~= seq![quoted]);
    assert(eval(depth, Sexp::List(items), env) == eval_list((depth - 1) as nat, items, env));
}

/// `quote` gives what stands after it, whatever that is: one expression
/// as it stands, or the elements as a list when there is not exactly one.
/// Nothing in them is evaluated, no identifier in them needs a binding,
/// and the environment stays as it was.
pub proof fn lemma_quote_rest(depth: nat, items: Seq<Sexp>, env: Env)
    requires
        depth > 0,
        items.len() > 0,
        items[0] matches Sexp::Atom(mark) && mark.kind == TokenType::QUOTE,
    ensures
        eval(depth, Sexp::List(items), env) == (
            Ok::<Sexp, Seq<char>>(quoted(items.subrange(1, items.len() as int))),
            env,
        ),
{
    assert(eval(depth, Sexp::List(items), env) == eval_list((depth - 1) as nat, items, env));
}

/// After a binding, the bound name has the bound value and every other
/// name has the value it had.
pub proof fn lemma_bind_lookup(env: Env, name: Seq<char>, value: Sexp, other: Seq<char>)
    requires
        env.len() > 0,
    ensures
        lookup(bind(env, name, value), other) == if other == name {
            Some(value)
        } else {
            lookup(env, other)
        },
{
    let after = bind(env, name, value);
    assert(after.subrange(1, after.len() as int) =~= env.subrange(1, env.len() as int));
}

/// `(define name expr)` evaluates `expr` once. When that gives a value,
/// the result is the confirmation `(name <- value)`; afterwards `name` has
/// that value, and every other name has the value that the evaluation of
/// `expr` left it. When it fails, `define` fails with the same error and
/// binds nothing.
pub proof fn lemma_define_binds(
    depth: nat,
    mark: TokenView,
    name: TokenView,
    expr: Sexp,
    env: Env,
    other: Seq<char>,
)
    requires
        depth > 0,
        mark.kind == TokenType::DEFINE,
        env.len() > 0,
    ensures
        ({
            let form = Sexp::List(seq![Sexp::Atom(mark), Sexp::Atom(name), expr]);
            let value = eval((depth - 1) as nat, expr, env);
            let defined = eval(depth, form, env);
            match value.0 {
                Ok(v) => {
                    &&& defined.0 == Ok::<Sexp, Seq<char>>(
                        Sexp::List(seq![Sexp::Atom(name), arrow(), v]),
                    )
                    &&& defined.1 == bind(value.1, name.literal, v)
                    &&& lookup(defined.1, name.literal) == Some(v)
                    &&& other != name.literal ==> lookup(defined.1, other) == lookup(
                        value.1,
                        other,
                    )
                },
                Err(e) => defined == (Err::<Sexp, Seq<char>>(e), value.1),
            }
        }),
{
    let items = seq![Sexp::Atom(mark), Sexp::Atom(name), expr];
    let value = eval((depth - 1) as nat, expr, env);
    assert(eval(depth, Sexp::List(items), env) == eval_list((depth - 1) as nat, items, env));
    assert(eval_list((depth - 1) as nat, items, env) == eval_define(
        (depth - 1) as nat,
        items,
        env,
    ));
    assert(eval_define((depth - 1) as nat, items, env) == define_value(
        (depth - 1) as nat,
        name,
        expr,
        env,
    ));
    lemma_eval_keeps_outer((depth - 1) as nat, expr, env);
    if let Ok(v) = value.0 {
        lemma_bind_lookup(value.1, name.literal, v, name.literal);
        lemma_bind_lookup(value.1, name.literal, v, other);
    }
}

/// Resolution goes by the chain: a name bound in the innermost scope has
/// the value it has there, whatever the outer scopes hold; any other name
/// has the value it has in the outer scopes.
pub proof fn lemma_inner_scope_shadows(scope: Scope, env: Env, name: Seq<char>)
    ensures
        lookup(enclose(scope, env), name) == if scope.contains_key(name) {
            Some(scope[name])
        } else {
            lookup(env, name)
        },
{
    let inner = enclose(scope, env);
    assert(inner[0] == scope);
    assert(inner.subrange(1, inner.len() as int) =~= env);
}

/// Binding a name in an inner scope leaves the outer scopes as they were.
pub proof fn lemma_bind_stays_inside(scope: Scope, env: Env, name: Seq<char>, value: Sexp)
    ensures
        bind(enclose(scope, env), name, value) == enclose(scope.insert(name, value), env),
{
    assert(bind(enclose(scope, env), name, value) =~= enclose(scope.insert(name, value), env));
}

/// What a `let` leaves behind is the environment in which the last of its
/// binding values was taken: the scope of its bindings is dropped, with
/// all that the body bound or defined in it.
pub proof fn lemma_let_scope_is_dropped(depth: nat, items: Seq<Sexp>, env: Env)
    requires
        items.len() >= 3,
        items[1] is List,
    ensures
        eval_let(depth, items, env).1 == eval_let_pair(
            depth,
            items[1]->List_0,
            0,
            Map::empty(),
            env,
        ).1,
{
}

/// Whether `v` is the atom of a `define`.
pub open spec fn is_define(v: Sexp) -> bool {
    match v {
        Sexp::Atom(t) => t.kind == TokenType::DEFINE,
        _ => false,
    }
}

/// Whether no list in `v` starts with `define`.
pub open spec fn define_free(v: Sexp) -> bool
    decreases v,
{
    match v {
        Sexp::List(items) => {
            &&& items.len() > 0 ==> !is_define(items[0])
            &&& forall|i: int| 0 <= i < items.len() ==> define_free(#[trigger] items[i])
        },
        _ => true,
    }
}

/// Whether each of `items` is free of `define`.
pub open spec fn all_define_free(items: Seq<Sexp>) -> bool {
    forall|i: int| 0 <= i < items.len() ==> define_free(#[trigger] items[i])
}

/// Whether the value expression of each binding of `pairs` is free of
/// `define`.
pub open spec fn free_bindings(pairs: Seq<Sexp>) -> bool {
    forall|j: int|
        0 <= j < pairs.len() ==> (#[trigger] pairs[j] matches Sexp::List(pair) ==> pair.len() >= 2
            ==> define_free(pair[1]))
}

/// The evaluation of an expression in which no list starts with `define`
/// leaves the environment exactly as it was: whatever it binds, it binds
/// in scopes of its own, which are dropped.
pub proof fn lemma_define_free_keeps_env(depth: nat, v: Sexp, env: Env)
    requires
        define_free(v),
    ensures
        eval(depth, v, env).1 == env,
    decreases depth, 0nat, 0nat,
{
    match v {
        Sexp::List(items) => {
            if depth > 0 {
                lemma_free_list((depth - 1) as nat, items, env);
            }
        },
        _ => {},
    }
}

proof fn lemma_free_pairs(pairs: Seq<Sexp>)
    requires
        define_free(Sexp::List(pairs)),
    ensures
        free_bindings(pairs),
{
    assert forall|j: int| 0 <= j < pairs.len() implies (#[trigger] pairs[j] matches Sexp::List(
        pair,
    ) ==> pair.len() >= 2 ==> define_free(pair[1])) by {
        assert(define_free(pairs[j]));
        match pairs[j] {
            Sexp::List(pair) => {
                if pair.len() >= 2 {
                    assert(define_free(pair[1]));
                }
            },
            _ => {},
        }
    }
}

proof fn lemma_free_descend(depth: nat, items: Seq<Sexp>, env: Env)
    requires
        define_free(Sexp::List(items)),
    ensures
        descend(depth, items, env).1 == env,
    decreases depth, 0nat, 0nat,
{
    if depth > 0 {
        lemma_free_list((depth - 1) as nat, items, env);
    }
}

proof fn lemma_free_list(depth: nat, items: Seq<Sexp>, env: Env)
    requires
        define_free(Sexp::List(items)),
    ensures
        eval_list(depth, items, env).1 == env,
    decreases depth, 3nat, 0nat,
{
    if items.len() > 0 {
        let rest = items.subrange(1, items.len() as int);
        assert(all_define_free(rest)) by {
            assert forall|i: int| 0 <= i < rest.len() implies define_free(#[trigger] rest[i]) by {
                assert(rest[i] == items[i + 1]);
            }
        }
        assert(define_free(items[0]));
        match items[0] {
            Sexp::Atom(t) => {
                lemma_free_bin(depth, items, env);
                lemma_free_cond(depth, items, env);
                if items.len() >= 3 && items[1] is List {
                    assert(define_free(items[1]));
                    lemma_free_pairs(items[1]->List_0);
                    lemma_free_let(depth, items, env);
                }
                match lookup(env, t.literal) {
                    Some(Sexp::List(procedure)) => {
                        lemma_free_proc(depth, procedure, rest, env);
                    },
                    _ => {},
                }
            },
            Sexp::List(head) => {
                if head.len() > 0 {
                    assert(define_free(head[0]));
                    match head[0] {
                        Sexp::Atom(z) => {
                            if head.len() >= 3 && head[1] is List {
                                assert(define_free(head[1]));
                                lemma_free_pairs(head[1]->List_0);
                                lemma_free_let(depth, head, env);
                            }
                            lemma_free_descend(depth, head, env);
                        },
                        Sexp::Lamda(params, body) => {
                            lemma_free_lambda(depth, *params, *body, rest, env);
                        },
                        _ => {
                            lemma_free_descend(depth, head, env);
                        },
                    }
                }
            },
            Sexp::Lamda(params, body) => {
                lemma_free_lambda(depth, *params, *body, rest, env);
            },
            _ => {},
        }
    }
}

proof fn lemma_free_bin(depth: nat, items: Seq<Sexp>, env: Env)
    requires
        all_define_free(items),
    ensures
        eval_bin(depth, items, env).1 == env,
    decreases depth, 2nat, 0nat,
{
    if items.len() >= 3 {
        match items[0] {
            Sexp::Atom(t) => {
                lemma_free_fold(depth, t.kind, items, 1, identity(t.kind), env);
            },
            _ => {},
        }
    }
}

proof fn lemma_free_fold(
    depth: nat,
    kind: TokenType,
    items: Seq<Sexp>,
    i: int,
    acc: i64,
    env: Env,
)
    requires
        all_define_free(items),
    ensures
        fold(depth, kind, items, i, acc, env).1 == env,
    decreases depth, 1nat, items.len() - i,
{
    if !(i < 1 || i >= items.len()) {
        lemma_define_free_keeps_env(depth, items[i], env);
        let operand = eval(depth, items[i], env);
        match operand.0 {
            Ok(Sexp::Number(x)) => match step(kind, i, acc, x) {
                Step::Total(total) => {
                    lemma_free_fold(depth, kind, items, i + 1, total, env);
                },
                _ => {},
            },
            _ => {},
        }
    }
}

proof fn lemma_free_cond(depth: nat, items: Seq<Sexp>, env: Env)
    requires
        all_define_free(items),
    ensures
        eval_cond(depth, items, env).1 == env,
    decreases depth, 2nat, 0nat,
{
    if items.len() == 3 {
        lemma_define_free_keeps_env(depth, items[1], env);
        lemma_define_free_keeps_env(depth, items[2], env);
    }
}

proof fn lemma_free_let(depth: nat, items: Seq<Sexp>, env: Env)
    requires
        items.len() >= 3,
        items[1] matches Sexp::List(pairs) && free_bindings(pairs),
    ensures
        eval_let(depth, items, env).1 == env,
    decreases depth, 2nat, 0nat,
{
    lemma_free_let_pair(depth, items[1]->List_0, 0, Map::empty(), env);
}

proof fn lemma_free_let_pair(depth: nat, pairs: Seq<Sexp>, i: int, scope: Scope, env: Env)
    requires
        0 <= i,
        free_bindings(pairs),
    ensures
        eval_let_pair(depth, pairs, i, scope, env).1 == env,
    decreases depth, 1nat, pairs.len() - i,
{
    if i < pairs.len() {
        match pairs[i] {
            Sexp::List(pair) => {
                if pair.len() >= 2 {
                    match pair[0] {
                        Sexp::Atom(t) => {
                            lemma_define_free_keeps_env(depth, pair[1], env);
                            let value = eval(depth, pair[1], env);
                            match value.0 {
                                Ok(v) => {
                                    lemma_free_let_pair(
                                        depth,
                                        pairs,
                                        i + 1,
                                        scope.insert(t.literal, v),
                                        env,
                                    );
                                },
                                Err(_) => {},
                            }
                        },
                        _ => {},
                    }
                }
            },
            _ => {},
        }
    }
}

proof fn lemma_free_bind_args(
    depth: nat,
    params: Seq<Sexp>,
    args: Seq<Sexp>,
    i: int,
    scope: Scope,
    env: Env,
    not_an_atom: Seq<char>,
)
    requires
        all_define_free(args),
    ensures
        bind_args(depth, params, args, i, scope, env, not_an_atom).1 == env,
    decreases depth, 1nat, params.len() - i,
{
    if !(i < 0 || i >= params.len() || i >= args.len()) {
        match params[i] {
            Sexp::Atom(t) => {
                lemma_define_free_keeps_env(depth, args[i], env);
                let value = eval(depth, args[i], env);
                match value.0 {
                    Ok(v) => {
                        lemma_free_bind_args(
                            depth,
                            params,
                            args,
                            i + 1,
                            scope.insert(t.literal, v),
                            env,
                            not_an_atom,
                        );
                    },
                    Err(_) => {},
                }
            },
            _ => {},
        }
    }
}

proof fn lemma_free_apply(
    depth: nat,
    params: Seq<Sexp>,
    body: Sexp,
    args: Seq<Sexp>,
    env: Env,
    arity: Seq<char>,
    not_an_atom: Seq<char>,
)
    requires
        all_define_free(args),
    ensures
        apply(depth, params, body, args, env, arity, not_an_atom).1 == env,
    decreases depth, 2nat, 0nat,
{
    if args.len() == params.len() {
        lemma_free_bind_args(depth, params, args, 0, Map::empty(), env, not_an_atom);
    }
}

proof fn lemma_free_proc(depth: nat, procedure: Seq<Sexp>, args: Seq<Sexp>, env: Env)
    requires
        all_define_free(args),
    ensures
        eval_proc(depth, procedure, args, env).1 == env,
    decreases depth, 2nat, 1nat,
{
    if procedure.len() >= 2 {
        match procedure[0] {
            Sexp::List(params) => {
                lemma_free_apply(
                    depth,
                    params,
                    procedure[1],
                    args,
                    env,
                    "not enough arguments for procedure"@,
                    "should of been an atom"@,
                );
            },
            _ => {},
        }
    }
}

proof fn lemma_free_lambda(depth: nat, pattern: Sexp, body: Sexp, args: Seq<Sexp>, env: Env)
    requires
        all_define_free(args),
    ensures
        eval_lambda(depth, pattern, body, args, env).1 == env,
    decreases depth, 2nat, 1nat,
{
    match pattern {
        Sexp::List(params) => {
            lemma_free_apply(
                depth,
                params,
                body,
                args,
                env,
                "number of params in lambda do not match the amount applied"@,
                "should of been an atom for lambda"@,
            );
        },
        Sexp::Atom(_) => {
            lemma_free_apply(
                depth,
                seq![pattern],
                body,
                args,
                env,
                "number of params in lambda do not match the amount applied"@,
                "should of been an atom for lambda"@,
            );
        },
        _ => {},
    }
}

/// After a `let` in whose binding values no list starts with `define`,
/// whether it gave a value or failed, the environment is as it was and
/// every name has the value it had before: the bindings of the `let` are
/// gone, the names they shadowed are visible again unchanged, and what the
/// body defined has not leaked.
pub proof fn lemma_let_restores(depth: nat, items: Seq<Sexp>, env: Env, name: Seq<char>)
    requires
        items.len() >= 3,
        items[1] matches Sexp::List(pairs) && free_bindings(pairs),
    ensures
        eval_let(depth, items, env).1 == env,
        lookup(eval_let(depth, items, env).1, name) == lookup(env, name),
{
    lemma_free_let(depth, items, env);
}

/// After a call none of whose arguments holds a list that starts with
/// `define`, the environment is as it was: the parameters are gone, and
/// what the body defined has not leaked.
pub proof fn lemma_call_restores(
    depth: nat,
    params: Seq<Sexp>,
    body: Sexp,
    args: Seq<Sexp>,
    env: Env,
    arity: Seq<char>,
    not_an_atom: Seq<char>,
)
    requires
        all_define_free(args),
    ensures
        apply(depth, params, body, args, env, arity, not_an_atom).1 == env,
{
    lemma_free_apply(depth, params, body, args, env, arity, not_an_atom);
}

/// What a call leaves behind is the environment in which the last of its
/// arguments was evaluated: the scope of its parameters is dropped, with
/// all that the body bound or defined in it.
pub proof fn lemma_call_scope_is_dropped(
    depth: nat,
    params: Seq<Sexp>,
    body: Sexp,
    args: Seq<Sexp>,
    env: Env,
    arity: Seq<char>,
    not_an_atom: Seq<char>,
)
    requires
        args.len() == params.len(),
    ensures
        apply(depth, params, body, args, env, arity, not_an_atom).1 == bind_args(
            depth,
            params,
            args,
            0,
            Map::empty(),
            env,
            not_an_atom,
        ).1,
{
}

/// Inside a `let`, a bound name has the value of its binding, whatever
/// the name was bound to outside.
pub proof fn lemma_let_binding_is_seen(depth: nat, scope: Scope, env: Env, name: TokenView)
    requires
        scope.contains_key(name.literal),
    ensures
        eval(depth, Sexp::Atom(name), enclose(scope, env)).0 == Ok::<Sexp, Seq<char>>(
            scope[name.literal],
        ),
{
    lemma_inner_scope_shadows(scope, env, name.literal);
}

/// Whether `after` has the scopes of `before` with at most the innermost
/// one changed.
pub open spec fn keeps_outer(before: Env, after: Env) -> bool {
    &&& after.len() == before.len()
    &&& forall|i: int| 1 <= i < before.len() ==> after[i] == before[i]
}

/// An evaluation changes no scope but the innermost one of the environment
/// it is made in: every scope around it is afterwards as it was.
pub proof fn lemma_eval_keeps_outer(depth: nat, v: Sexp, env: Env)
    ensures
        keeps_outer(env, eval(depth, v, env).1),
    decreases depth, 0nat, 0nat,
{
    match v {
        Sexp::List(items) => {
            if depth > 0 {
                lemma_list_keeps_outer((depth - 1) as nat, items, env);
            }
        },
        _ => {},
    }
}

proof fn lemma_descend_keeps_outer(depth: nat, items: Seq<Sexp>, env: Env)
    ensures
        keeps_outer(env, descend(depth, items, env).1),
    decreases depth, 0nat, 0nat,
{
    if depth > 0 {
        lemma_list_keeps_outer((depth - 1) as nat, items, env);
    }
}

proof fn lemma_list_keeps_outer(depth: nat, items: Seq<Sexp>, env: Env)
    ensures
        keeps_outer(env, eval_list(depth, items, env).1),
    decreases depth, 3nat, 0nat,
{
    if items.len() > 0 {
        let rest = items.subrange(1, items.len() as int);
        match items[0] {
            Sexp::Atom(t) => {
                lemma_bin_keeps_outer(depth, items, env);
                lemma_cond_keeps_outer(depth, items, env);
                lemma_let_keeps_outer(depth, items, env);
                lemma_define_keeps_outer(depth, items, env);
                match lookup(env, t.literal) {
                    Some(Sexp::List(procedure)) => {
                        lemma_proc_keeps_outer(depth, procedure, rest, env);
                    },
                    _ => {},
                }
            },
            Sexp::List(head) => {
                if head.len() > 0 {
                    match head[0] {
                        Sexp::Atom(z) => {
                            lemma_define_keeps_outer(depth, head, env);
                            lemma_descend_keeps_outer(
                                depth,
                                rest,
                                eval_define(depth, head, env).1,
                            );
                            lemma_let_keeps_outer(depth, head, env);
                            lemma_descend_keeps_outer(depth, head, env);
                        },
                        Sexp::Lamda(params, body) => {
                            lemma_lambda_keeps_outer(depth, *params, *body, rest, env);
                        },
                        _ => {
                            lemma_descend_keeps_outer(depth, head, env);
                        },
                    }
                }
            },
            Sexp::Lamda(params, body) => {
                lemma_lambda_keeps_outer(depth, *params, *body, rest, env);
            },
            _ => {},
        }
    }
}

proof fn lemma_bin_keeps_outer(depth: nat, items: Seq<Sexp>, env: Env)
    ensures
        keeps_outer(env, eval_bin(depth, items, env).1),
    decreases depth, 2nat, 0nat,
{
    if items.len() >= 3 {
        match items[0] {
            Sexp::Atom(t) => {
                lemma_fold_keeps_outer(depth, t.kind, items, 1, identity(t.kind), env);
            },
            _ => {},
        }
    }
}

proof fn lemma_fold_keeps_outer(
    depth: nat,
    kind: TokenType,
    items: Seq<Sexp>,
    i: int,
    acc: i64,
    env: Env,
)
    ensures
        keeps_outer(env, fold(depth, kind, items, i, acc, env).1),
    decreases depth, 1nat, items.len() - i,
{
    if !(i < 1 || i >= items.len()) {
        lemma_eval_keeps_outer(depth, items[i], env);
        let operand = eval(depth, items[i], env);
        match operand.0 {
            Ok(Sexp::Number(x)) => match step(kind, i, acc, x) {
                Step::Total(total) => {
                    lemma_fold_keeps_outer(depth, kind, items, i + 1, total, operand.1);
                },
                _ => {},
            },
            _ => {},
        }
    }
}

proof fn lemma_cond_keeps_outer(depth: nat, items: Seq<Sexp>, env: Env)
    ensures
        keeps_outer(env, eval_cond(depth, items, env).1),
    decreases depth, 2nat, 0nat,
{
    if items.len() == 3 {
        lemma_eval_keeps_outer(depth, items[1], env);
        lemma_eval_keeps_outer(depth, items[2], eval(depth, items[1], env).1);
    }
}

proof fn lemma_let_keeps_outer(depth: nat, items: Seq<Sexp>, env: Env)
    ensures
        keeps_outer(env, eval_let(depth, items, env).1),
    decreases depth, 2nat, 0nat,
{
    if items.len() >= 3 {
        match items[1] {
            Sexp::List(pairs) => {
                lemma_let_pair_keeps_outer(depth, pairs, 0, Map::empty(), env);
            },
            _ => {},
        }
    }
}

proof fn lemma_let_pair_keeps_outer(
    depth: nat,
    pairs: Seq<Sexp>,
    i: int,
    scope: Scope,
    env: Env,
)
    ensures
        keeps_outer(env, eval_let_pair(depth, pairs, i, scope, env).1),
    decreases depth, 1nat, pairs.len() - i,
{
    if !(i < 0 || i >= pairs.len()) {
        match pairs[i] {
            Sexp::List(pair) => {
                if pair.len() >= 2 {
                    match pair[0] {
                        Sexp::Atom(t) => {
                            lemma_eval_keeps_outer(depth, pair[1], env);
                            let value = eval(depth, pair[1], env);
                            match value.0 {
                                Ok(v) => {
                                    lemma_let_pair_keeps_outer(
                                        depth,
                                        pairs,
                                        i + 1,
                                        scope.insert(t.literal, v),
                                        value.1,
                                    );
                                },
                                Err(_) => {},
                            }
                        },
                        _ => {},
                    }
                }
            },
            _ => {},
        }
    }
}

proof fn lemma_define_keeps_outer(depth: nat, items: Seq<Sexp>, env: Env)
    ensures
        keeps_outer(env, eval_define(depth, items, env).1),
    decreases depth, 2nat, 1nat,
{
    if items.len() == 3 {
        match items[1] {
            Sexp::Atom(t) => {
                lemma_define_value_keeps_outer(depth, t, items[2], env);
            },
            Sexp::List(target) => {
                if target.len() == 1 && target[0] is Atom {
                    lemma_define_value_keeps_outer(depth, target[0]->Atom_0, items[2], env);
                }
            },
            _ => {},
        }
    }
}

proof fn lemma_define_value_keeps_outer(depth: nat, name: TokenView, expr: Sexp, env: Env)
    ensures
        keeps_outer(env, define_value(depth, name, expr, env).1),
    decreases depth, 2nat, 0nat,
{
    lemma_eval_keeps_outer(depth, expr, env);
}

proof fn lemma_bind_args_keeps_outer(
    depth: nat,
    params: Seq<Sexp>,
    args: Seq<Sexp>,
    i: int,
    scope: Scope,
    env: Env,
    not_an_atom: Seq<char>,
)
    ensures
        keeps_outer(env, bind_args(depth, params, args, i, scope, env, not_an_atom).1),
    decreases depth, 1nat, params.len() - i,
{
    if !(i < 0 || i >= params.len() || i >= args.len()) {
        match params[i] {
            Sexp::Atom(t) => {
                lemma_eval_keeps_outer(depth, args[i], env);
                let value = eval(depth, args[i], env);
                match value.0 {
                    Ok(v) => {
                        lemma_bind_args_keeps_outer(
                            depth,
                            params,
                            args,
                            i + 1,
                            scope.insert(t.literal, v),
                            value.1,
                            not_an_atom,
                        );
                    },
                    Err(_) => {},
                }
            },
            _ => {},
        }
    }
}

proof fn lemma_apply_keeps_outer(
    depth: nat,
    params: Seq<Sexp>,
    body: Sexp,
    args: Seq<Sexp>,
    env: Env,
    arity: Seq<char>,
    not_an_atom: Seq<char>,
)
    ensures
        keeps_outer(env, apply(depth, params, body, args, env, arity, not_an_atom).1),
    decreases depth, 2nat, 0nat,
{
    if args.len() == params.len() {
        lemma_bind_args_keeps_outer(depth, params, args, 0, Map::empty(), env, not_an_atom);
    }
}

proof fn lemma_proc_keeps_outer(depth: nat, procedure: Seq<Sexp>, args: Seq<Sexp>, env: Env)
    ensures
        keeps_outer(env, eval_proc(depth, procedure, args, env).1),
    decreases depth, 2nat, 1nat,
{
    if procedure.len() >= 2 {
        match procedure[0] {
            Sexp::List(params) => {
                lemma_apply_keeps_outer(
                    depth,
                    params,
                    procedure[1],
                    args,
                    env,
                    "not enough arguments for procedure"@,
                    "should of been an atom"@,
                );
            },
            _ => {},
        }
    }
}

proof fn lemma_lambda_keeps_outer(
    depth: nat,
    pattern: Sexp,
    body: Sexp,
    args: Seq<Sexp>,
    env: Env,
)
    ensures
        keeps_outer(env, eval_lambda(depth, pattern, body, args, env).1),
    decreases depth, 2nat, 1nat,
{
    match pattern {
        Sexp::List(params) => {
            lemma_apply_keeps_outer(
                depth,
                params,
                body,
                args,
                env,
                "number of params in lambda do not match the amount applied"@,
                "should of been an atom for lambda"@,
            );
        },
        Sexp::Atom(_) => {
            lemma_apply_keeps_outer(
                depth,
                seq![pattern],
                body,
                args,
                env,
                "number of params in lambda do not match the amount applied"@,
                "should of been an atom for lambda"@,
            );
        },
        _ => {},
    }
}

} // verus!
