//! The evaluator: the value of an expression in a chain of scopes.
use crate::semantics;
use crate::semantics::{Env, Scope};
use crate::parser::Program;
use crate::token::{models, LispVal, Sexp, Token, TokenType};
use vstd::prelude::*;
use vstd::string::*;

verus! {

/// The names and values of `store`, as models.
pub open spec fn pairs_model(store: Seq<(String, LispVal)>) -> Seq<(Seq<char>, Sexp)> {
    Seq::new(store.len(), |i: int| (store[i].0@, store[i].1@))
}

/// The scope that a list of bindings stands for: a later binding of a name
/// replaces an earlier one.
pub open spec fn scope_of(pairs: Seq<(Seq<char>, Sexp)>) -> Scope
    decreases pairs.len(),
{
    if pairs.len() == 0 {
        Map::empty()
    } else {
        scope_of(pairs.drop_last()).insert(pairs.last().0, pairs.last().1)
    }
}

/// A scope with the scopes around it. A scope owns a copy of its outer
/// scope: what happens to that copy is never seen by the scope it was
/// copied from.
#[derive(Debug, PartialEq)]
pub struct Environment {
    store: Vec<(String, LispVal)>,
    outer: Option<Box<Environment>>,
}

impl Environment {
    /// The chain of scopes, innermost first.
    pub closed spec fn chain(self) -> Env
        decreases self,
    {
        let rest = match self.outer {
            Some(outer) => outer.chain(),
            None => Seq::empty(),
        };
        seq![scope_of(pairs_model(self.store@))] + rest
    }

    /// An environment always has an innermost scope.
    pub proof fn lemma_has_scope(self)
        ensures
            self@.len() > 0,
    {
    }

    /// The root environment: one empty scope.
    pub fn init_env() -> (env: Environment)
        ensures
            env@ == seq![Map::<Seq<char>, Sexp>::empty()],
    {
        let env = Environment { store: Vec::new(), outer: None };
        assert(pairs_model(env.store@) =~= Seq::empty());
        assert(env.chain() =~= seq![Map::<Seq<char>, Sexp>::empty()]);
        env
    }

    /// A new empty scope in front of `envir`.
    pub fn new_enclosed(&mut self, envir: Environment) -> (env: Environment)
        ensures
            env@ == semantics::enclose(Map::empty(), envir@),
            final(self)@ == old(self)@,
    {
        let env = Environment { store: Vec::new(), outer: Some(Box::new(envir)) };
        assert(pairs_model(env.store@) =~= Seq::empty());
        env
    }

    /// A new scope that holds `bindings`, in front of `envir`.
    fn with_scope(bindings: Vec<(String, LispVal)>, envir: Environment) -> (env: Environment)
        ensures
            env@ == semantics::enclose(scope_of(pairs_model(bindings@)), envir@),
    {
        Environment { store: bindings, outer: Some(Box::new(envir)) }
    }

    /// The value bound to `name` in this scope, if any.
    fn get_local(&self, name: &String) -> (r: Option<LispVal>)
        ensures
            match r {
                Some(v) => self@[0].contains_key(name@) && self@[0][name@] == v@,
                None => !self@[0].contains_key(name@),
            },
    {
        let mut i: usize = self.store.len();
        assert(pairs_model(self.store@).subrange(0, i as int) =~= pairs_model(self.store@));
        while i > 0
            invariant
                i <= self.store.len(),
                scope_of(pairs_model(self.store@)).contains_key(name@) == scope_of(
                    pairs_model(self.store@).subrange(0, i as int),
                ).contains_key(name@),
                scope_of(pairs_model(self.store@)).contains_key(name@) ==> scope_of(
                    pairs_model(self.store@),
                )[name@] == scope_of(pairs_model(self.store@).subrange(0, i as int))[name@],
            decreases i,
        {
            let ghost prefix = pairs_model(self.store@).subrange(0, i as int);
            assert(prefix.drop_last() =~= pairs_model(self.store@).subrange(0, i - 1));
            assert(prefix.last() == pairs_model(self.store@)[i - 1]);
            i -= 1;
            if self.store[i].0 == *name {
                return Some(self.store[i].1.clone());
            }
        }
        assert(pairs_model(self.store@).subrange(0, 0) =~= Seq::empty());
        None
    }

    /// The value bound to `name` in the innermost scope that holds it.
    pub fn get(&self, name: String) -> (r: Option<LispVal>)
        ensures
            match semantics::lookup(self@, name@) {
                Some(v) => r matches Some(x) && x@ == v,
                None => r is None,
            },
        decreases self,
    {
        let p = self.get_local(&name);
        assert(self@.subrange(1, self@.len() as int) =~= match self.outer {
            Some(outer) => outer@,
            None => Seq::empty(),
        });
        match p {
            Some(c) => {
                assert(self@.len() > 0);
                assert(self@[0].contains_key(name@));
                assert(semantics::lookup(self@, name@) == Some(self@[0][name@]));
                Some(c)
            },
            None => {
                assert(self@.len() > 0);
                assert(semantics::lookup(self@, name@) == semantics::lookup(
                    self@.subrange(1, self@.len() as int),
                    name@,
                ));
                match &self.outer {
                    Some(outer) => {
                        assert(self@.subrange(1, self@.len() as int) == outer@);
                        outer.get(name)
                    },
                    None => {
                        assert(self@.subrange(1, self@.len() as int).len() == 0);
                        None
                    },
                }
            },
        }
    }

    /// Binds `name` to `obj` in the innermost scope, in place of what it
    /// was bound to there, and gives `obj` back.
    pub fn set(&mut self, name: String, obj: LispVal) -> (r: LispVal)
        ensures
            final(self)@ == semantics::bind(old(self)@, name@, obj@),
            r@ == obj@,
    {
        let ghost before = pairs_model(self.store@);
        self.store.push((name, obj.clone()));
        proof {
            assert(pairs_model(self.store@).drop_last() =~= before);
            assert(self@ =~= semantics::bind(old(self)@, name@, obj@));
        }
        obj
    }
}

impl View for Environment {
    type V = Env;

    closed spec fn view(&self) -> Env {
        self.chain()
    }
}

impl Clone for Environment {
    fn clone(&self) -> (copy: Environment)
        ensures
            copy@ == self@,
        decreases self,
    {
        let mut store: Vec<(String, LispVal)> = Vec::new();
        let mut i: usize = 0;
        while i < self.store.len()
            invariant
                i <= self.store.len(),
                store.len() == i,
                forall|j: int|
                    0 <= j < i ==> store[j].0@ == self.store[j].0@ && store[j].1@
                        == self.store[j].1@,
            decreases self.store.len() - i,
        {
            store.push((self.store[i].0.clone(), self.store[i].1.clone()));
            i += 1;
        }
        assert(pairs_model(store@) =~= pairs_model(self.store@));
        let outer = match &self.outer {
            Some(outer) => {
                let inner: Environment = (**outer).clone();
                Some(Box::new(inner))
            },
            None => None,
        };
        Environment { store, outer }
    }
}

/// How many list evaluations may be nested in one another when a program
/// is evaluated. Each level takes room on the call stack; the limit is set
/// so that the deepest evaluation fits a thread with a stack of two
/// mebibytes.
pub const MAX_DEPTH: usize = 1000;

/// The model of an evaluation's result.
pub open spec fn outcome(r: Result<LispVal, String>) -> Result<Sexp, Seq<char>> {
    match r {
        Ok(v) => Ok(v@),
        Err(e) => Err(e@),
    }
}

/// The elements of `list` after the first.
fn tail(list: &Vec<LispVal>) -> (rest: Vec<LispVal>)
    requires
        list.len() > 0,
    ensures
        models(rest@) == models(list@).subrange(1, list.len() as int),
{
    let mut rest: Vec<LispVal> = Vec::new();
    let mut i: usize = 1;
    while i < list.len()
        invariant
            1 <= i <= list.len(),
            rest.len() == i - 1,
            forall|j: int| 0 <= j < rest.len() ==> rest[j]@ == list[j + 1]@,
        decreases list.len() - i,
    {
        rest.push(list[i].clone());
        i += 1;
    }
    assert(models(rest@) =~= models(list@).subrange(1, list.len() as int));
    rest
}

/// `prefix` followed by the text of `v`.
fn with_text(prefix: &str, v: &LispVal) -> (msg: String)
    ensures
        msg@ == prefix@ + crate::token::render(v@),
{
    let mut msg = prefix.to_owned();
    msg.append(v.show_val().as_str());
    msg
}

/// The error for operands of a comparison that are not both numbers.
fn operands_error(first: &LispVal, second: &LispVal) -> (msg: String)
    ensures
        msg@ == semantics::err_operands(first@, second@),
{
    let mut msg = with_text("conditonal not fully implemented first: ", first);
    msg.append(" second: ");
    msg.append(second.show_val().as_str());
    msg
}

/// The values of the top-level expressions of `prog`, each evaluated in the
/// environment that the one before left, or the first error.
///
/// Each expression is evaluated with at most [`MAX_DEPTH`] list
/// evaluations nested in one another: a deeper expression, and a procedure
/// that calls itself without end, fail with the error `evaluation is
/// nested too deeply`. [`eval`] takes the depth as an argument.
pub fn eval_prog(prog: Program, env: &mut Environment) -> (r: Result<Vec<LispVal>, String>)
    ensures
        ({
            let all = semantics::eval_all(
                MAX_DEPTH as nat,
                models(prog@),
                0,
                Seq::empty(),
                old(env)@,
            );
            &&& final(env)@ == all.1
            &&& match all.0 {
                Ok(values) => r matches Ok(v) && models(v@) == values,
                Err(e) => r matches Err(msg) && msg@ == e,
            }
        }),
{
    let mut v: Vec<LispVal> = Vec::new();
    let mut i: usize = 0;
    assert(models(v@) =~= Seq::empty());
    while i < prog.len()
        invariant
            i <= prog.len(),
            semantics::eval_all(MAX_DEPTH as nat, models(prog@), 0, Seq::empty(), old(env)@)
                == semantics::eval_all(
                MAX_DEPTH as nat,
                models(prog@),
                i as int,
                models(v@),
                env@,
            ),
        decreases prog.len() - i,
    {
        let ghost before = models(v@);
        let result = eval(&prog[i], env, MAX_DEPTH);
        match result {
            Ok(x) => {
                v.push(x);
                assert(models(v@) =~= before.push(x@));
            },
            Err(x) => return Err(x),
        }
        i += 1;
    }
    Ok(v)
}

/// The value of `val` in `env`, with at most `depth` list evaluations
/// nested in one another.
pub fn eval(val: &LispVal, env: &mut Environment, depth: usize) -> (r: Result<LispVal, String>)
    ensures
        (outcome(r), final(env)@) == semantics::eval(depth as nat, val@, old(env)@),
    decreases depth, 0nat, 0nat,
{
    match val {
        LispVal::List(items) => {
            if depth == 0 {
                Err("evaluation is nested too deeply".to_owned())
            } else {
                eval_list(items, env, depth - 1)
            }
        },
        LispVal::Atom(x) => eval_atom(&x.literal, env),
        LispVal::Number(_) => Ok(val.clone()),
        LispVal::String(_) => Ok(val.clone()),
        LispVal::Nil => Ok(val.clone()),
        LispVal::Bool(_) => Ok(val.clone()),
        _ => Err("problem with eval".to_owned()),
    }
}

/// The value bound to `val`, or the error for an unbound identifier.
fn eval_atom(val: &String, env: &Environment) -> (r: Result<LispVal, String>)
    ensures
        outcome(r) == semantics::eval_atom(val@, env@),
{
    let bound = env.get(val.clone());
    match bound {
        Some(x) => Ok(x),
        None => {
            let mut msg = "identifier not in environment: ".to_owned();
            msg.append(val.as_str());
            Err(msg)
        },
    }
}

/// The evaluation of `list` one level further down.
fn descend(list: &Vec<LispVal>, env: &mut Environment, depth: usize) -> (r: Result<
    LispVal,
    String,
>)
    ensures
        (outcome(r), final(env)@) == semantics::descend(depth as nat, models(list@), old(env)@),
    decreases depth, 0nat, 0nat,
{
    if depth == 0 {
        Err("evaluation is nested too deeply".to_owned())
    } else {
        eval_list(list, env, depth - 1)
    }
}

/// The value of a list, by its first element.
fn eval_list(list: &Vec<LispVal>, env: &mut Environment, depth: usize) -> (r: Result<
    LispVal,
    String,
>)
    ensures
        (outcome(r), final(env)@) == semantics::eval_list(
            depth as nat,
            models(list@),
            old(env)@,
        ),
    decreases depth, 3nat, 0nat,
{
    if list.len() == 0 {
        return Err("cannot evaluate an empty list".to_owned());
    }
    assert(models(list@)[0] == list[0]@);
    match &list[0] {
        LispVal::Atom(x) => match x.kind {
            TokenType::MINUS | TokenType::PLUS | TokenType::ASTERICK | TokenType::SLASH => {
                eval_bin(list, env, depth)
            },
            TokenType::LET => eval_let(list, env, depth),
            TokenType::EQ
            | TokenType::GT
            | TokenType::GTEQ
            | TokenType::LT
            | TokenType::LTEQ => eval_cond(list, env, depth),
            TokenType::QUOTE => {
                if list.len() == 2 {
                    assert(models(list@).subrange(1, 2)[0] == list[1]@);
                    Ok(list[1].clone())
                } else {
                    Ok(LispVal::List(tail(list)))
                }
            },
            TokenType::DEFINE => eval_define(list, env, depth),
            TokenType::LAMBDA => Err("error evaluating paramaters for lambda".to_owned()),
            TokenType::IDENT => {
                match env.get(x.literal.clone()) {
                    Some(LispVal::List(procedure)) => {
                        let args = tail(list);
                        eval_proc(&procedure, &args, env, depth)
                    },
                    Some(_) => Err("should of been a list for procedure".to_owned()),
                    None => {
                        let mut msg = "identifier not in environment: ".to_owned();
                        msg.append(x.literal.as_str());
                        Err(msg)
                    },
                }
            },
            _ => Err(with_text("not an operator, a special form or a procedure: ", &list[0])),
        },
        LispVal::List(x) => {
            assert(list[0]@ == Sexp::List(models(x@)));
            if x.len() == 0 {
                return Err("cannot evaluate an empty list".to_owned());
            }
            assert(models(x@)[0] == x[0]@);
            match &x[0] {
                LispVal::Atom(z) => {
                    if z.kind == TokenType::LAMBDA {
                        Err("error evaluating paramaters for lambda".to_owned())
                    } else if z.kind == TokenType::DEFINE {
                        let y = eval_define(x, env, depth);
                        match y {
                            Ok(shown) => {
                                if list.len() == 1 {
                                    Ok(shown)
                                } else {
                                    let rest = tail(list);
                                    descend(&rest, env, depth)
                                }
                            },
                            Err(e) => Err(e),
                        }
                    } else if z.kind == TokenType::LET {
                        eval_let(x, env, depth)
                    } else {
                        descend(x, env, depth)
                    }
                },
                LispVal::Lamda(params, body) => {
                    let args = tail(list);
                    eval_lambda(params, body, &args, env, depth)
                },
                _ => descend(x, env, depth),
            }
        },
        LispVal::Lamda(params, body) => {
            let args = tail(list);
            eval_lambda(params, body, &args, env, depth)
        },
        _ => Err(with_text("not an operator, a special form or a procedure: ", &list[0])),
    }
}

/// Arithmetic: the operator at the head of `list` over at least two
/// operands.
fn eval_bin(list: &Vec<LispVal>, env: &mut Environment, depth: usize) -> (r: Result<
    LispVal,
    String,
>)
    ensures
        (outcome(r), final(env)@) == semantics::eval_bin(depth as nat, models(list@), old(env)@),
    decreases depth, 2nat, 0nat,
{
    if list.len() < 3 {
        return Err(
            "invalid binary operation. should have at least 2 arguments for operation ex (+ 2 3)".to_owned(),
        );
    }
    match &list[0] {
        LispVal::Atom(x) => match x.kind {
            TokenType::ASTERICK => eval_bin_mult(list, env, depth),
            TokenType::MINUS => eval_bin_sub(list, env, depth),
            TokenType::SLASH => eval_bin_div(list, env, depth),
            TokenType::PLUS => eval_bin_add(list, env, depth),
            _ => Err(with_text("invalid binary operation. error: ", &list[0])),
        },
        _ => Err(with_text("invalid binary operation. error: ", &list[0])),
    }
}

/// The product of the operands of `list`, from 1.
fn eval_bin_mult(list: &Vec<LispVal>, env: &mut Environment, depth: usize) -> (r: Result<
    LispVal,
    String,
>)
    ensures
        (outcome(r), final(env)@) == semantics::fold(
            depth as nat,
            TokenType::ASTERICK,
            models(list@),
            1,
            1,
            old(env)@,
        ),
    decreases depth, 1nat, 0nat,
{
    let mut result: i64 = 1;
    let mut i: usize = 1;
    while i < list.len()
        invariant
            1 <= i,
            semantics::fold(depth as nat, TokenType::ASTERICK, models(list@), 1, 1, old(env)@)
                == semantics::fold(
                depth as nat,
                TokenType::ASTERICK,
                models(list@),
                i as int,
                result,
                env@,
            ),
        decreases list.len() - i,
    {
        let res = eval(&list[i], env, depth);
        match res {
            Ok(LispVal::Number(x)) => match x.checked_mul(result) {
                Some(total) => result = total,
                None => return Err("integer overflow".to_owned()),
            },
            Ok(_) => return Err("could not multipy lispval. not a number".to_owned()),
            Err(err) => return Err(err),
        }
        i += 1;
    }
    Ok(LispVal::Number(result))
}

/// The first operand of `list` less each of the others.
fn eval_bin_sub(list: &Vec<LispVal>, env: &mut Environment, depth: usize) -> (r: Result<
    LispVal,
    String,
>)
    ensures
        (outcome(r), final(env)@) == semantics::fold(
            depth as nat,
            TokenType::MINUS,
            models(list@),
            1,
            0,
            old(env)@,
        ),
    decreases depth, 1nat, 0nat,
{
    let mut result: i64 = 0;
    let mut i: usize = 1;
    while i < list.len()
        invariant
            1 <= i,
            semantics::fold(depth as nat, TokenType::MINUS, models(list@), 1, 0, old(env)@)
                == semantics::fold(
                depth as nat,
                TokenType::MINUS,
                models(list@),
                i as int,
                result,
                env@,
            ),
        decreases list.len() - i,
    {
        let res = eval(&list[i], env, depth);
        match res {
            Ok(LispVal::Number(x)) => {
                if i == 1 {
                    result = x;
                } else {
                    match result.checked_sub(x) {
                        Some(total) => result = total,
                        None => return Err("integer overflow".to_owned()),
                    }
                }
            },
            Ok(_) => return Err("could not sub lispval. not a number".to_owned()),
            Err(err) => return Err(err),
        }
        i += 1;
    }
    Ok(LispVal::Number(result))
}

/// The sum of the operands of `list`, from 0.
fn eval_bin_add(list: &Vec<LispVal>, env: &mut Environment, depth: usize) -> (r: Result<
    LispVal,
    String,
>)
    ensures
        (outcome(r), final(env)@) == semantics::fold(
            depth as nat,
            TokenType::PLUS,
            models(list@),
            1,
            0,
            old(env)@,
        ),
    decreases depth, 1nat, 0nat,
{
    let mut result: i64 = 0;
    let mut i: usize = 1;
    while i < list.len()
        invariant
            1 <= i,
            semantics::fold(depth as nat, TokenType::PLUS, models(list@), 1, 0, old(env)@)
                == semantics::fold(
                depth as nat,
                TokenType::PLUS,
                models(list@),
                i as int,
                result,
                env@,
            ),
        decreases list.len() - i,
    {
        let res = eval(&list[i], env, depth);
        match res {
            Ok(LispVal::Number(x)) => match result.checked_add(x) {
                Some(total) => result = total,
                None => return Err("integer overflow".to_owned()),
            },
            Ok(_) => return Err("could not sub lispval. not a number".to_owned()),
            Err(err) => return Err(err),
        }
        i += 1;
    }
    Ok(LispVal::Number(result))
}

/// The first operand of `list` divided by each of the others, rounding
/// toward zero. A zero first operand gives 0 at once, with no other
/// operand evaluated; a zero later operand is an error.
fn eval_bin_div(list: &Vec<LispVal>, env: &mut Environment, depth: usize) -> (r: Result<
    LispVal,
    String,
>)
    ensures
        (outcome(r), final(env)@) == semantics::fold(
            depth as nat,
            TokenType::SLASH,
            models(list@),
            1,
            0,
            old(env)@,
        ),
    decreases depth, 1nat, 0nat,
{
    let mut result: i64 = 0;
    let mut i: usize = 1;
    while i < list.len()
        invariant
            1 <= i,
            semantics::fold(depth as nat, TokenType::SLASH, models(list@), 1, 0, old(env)@)
                == semantics::fold(
                depth as nat,
                TokenType::SLASH,
                models(list@),
                i as int,
                result,
                env@,
            ),
        decreases list.len() - i,
    {
        let res = eval(&list[i], env, depth);
        match res {
            Ok(LispVal::Number(x)) => {
                if i == 1 {
                    if x == 0 {
                        return Ok(LispVal::Number(0));
                    }
                    result = x;
                } else {
                    if x == 0 {
                        return Err("cannot divide by 0".to_owned());
                    }
                    match result.checked_div(x) {
                        Some(total) => result = total,
                        None => return Err("integer overflow".to_owned()),
                    }
                }
            },
            Ok(_) => {
                if i == 1 {
                    return Err("could not divide lispval. not a number".to_owned());
                } else {
                    return Err("could not sub lispval. not a number".to_owned());
                }
            },
            Err(err) => return Err(err),
        }
        i += 1;
    }
    Ok(LispVal::Number(result))
}

/// What the two operands of a comparison evaluate to, the first one
/// first.
pub open spec fn operands(depth: nat, items: Seq<Sexp>, env: Env) -> (
    Result<(Sexp, Sexp), Seq<char>>,
    Env,
) {
    let first = semantics::eval(depth, items[1], env);
    match first.0 {
        Ok(a) => {
            let second = semantics::eval(depth, items[2], first.1);
            match second.0 {
                Ok(b) => (Ok((a, b)), second.1),
                Err(e) => (Err(e), second.1),
            }
        },
        Err(e) => (Err(e), first.1),
    }
}

/// The values of the two operands of a comparison.
fn eval_operands(list: &Vec<LispVal>, env: &mut Environment, depth: usize) -> (r: Result<
    (LispVal, LispVal),
    String,
>)
    requires
        list.len() == 3,
    ensures
        final(env)@ == operands(depth as nat, models(list@), old(env)@).1,
        match operands(depth as nat, models(list@), old(env)@).0 {
            Ok((a, b)) => r matches Ok(pair) && pair.0@ == a && pair.1@ == b,
            Err(e) => r matches Err(msg) && msg@ == e,
        },
    decreases depth, 1nat, 0nat,
{
    let res_first = match eval(&list[1], env, depth) {
        Ok(v) => v,
        Err(e) => return Err(e),
    };
    let res_second = match eval(&list[2], env, depth) {
        Ok(v) => v,
        Err(e) => return Err(e),
    };
    Ok((res_first, res_second))
}

/// Comparison: the operator at the head of `list` on exactly two
/// operands.
fn eval_cond(list: &Vec<LispVal>, env: &mut Environment, depth: usize) -> (r: Result<
    LispVal,
    String,
>)
    ensures
        (outcome(r), final(env)@) == semantics::eval_cond(
            depth as nat,
            models(list@),
            old(env)@,
        ),
    decreases depth, 2nat, 1nat,
{
    if list.len() != 3 {
        return Err(
            "invalid conditional operation. should have only 2 arguments for operation ex (< 2 3)".to_owned(),
        );
    }
    match &list[0] {
        LispVal::Atom(x) => match x.kind {
            TokenType::LT => eval_cond_lt(list, env, depth),
            TokenType::LTEQ => eval_cond_lteq(list, env, depth),
            TokenType::EQ => eval_cond_eq(list, env, depth),
            TokenType::GT => eval_cond_gt(list, env, depth),
            TokenType::GTEQ => eval_cond_gteq(list, env, depth),
            _ => Err(with_text("invalid cond operation. error: ", &list[0])),
        },
        _ => Err(with_text("invalid cond operation. error: ", &list[0])),
    }
}

/// Whether the first operand is less than the second.
fn eval_cond_lt(list: &Vec<LispVal>, env: &mut Environment, depth: usize) -> (r: Result<
    LispVal,
    String,
>)
    requires
        list.len() == 3,
        list[0]@ matches Sexp::Atom(t) && t.kind == TokenType::LT,
    ensures
        (outcome(r), final(env)@) == semantics::eval_cond(
            depth as nat,
            models(list@),
            old(env)@,
        ),
    decreases depth, 2nat, 0nat,
{
    match eval_operands(list, env, depth) {
        Ok((LispVal::Number(x), LispVal::Number(y))) => Ok(LispVal::Bool(x < y)),
        Ok((res_first, res_second)) => Err(operands_error(&res_first, &res_second)),
        Err(e) => Err(e),
    }
}

/// Whether the first operand is at most the second.
fn eval_cond_lteq(list: &Vec<LispVal>, env: &mut Environment, depth: usize) -> (r: Result<
    LispVal,
    String,
>)
    requires
        list.len() == 3,
        list[0]@ matches Sexp::Atom(t) && t.kind == TokenType::LTEQ,
    ensures
        (outcome(r), final(env)@) == semantics::eval_cond(
            depth as nat,
            models(list@),
            old(env)@,
        ),
    decreases depth, 2nat, 0nat,
{
    match eval_operands(list, env, depth) {
        Ok((LispVal::Number(x), LispVal::Number(y))) => Ok(LispVal::Bool(x <= y)),
        Ok((res_first, res_second)) => Err(operands_error(&res_first, &res_second)),
        Err(e) => Err(e),
    }
}

/// Whether the two operands are equal.
fn eval_cond_eq(list: &Vec<LispVal>, env: &mut Environment, depth: usize) -> (r: Result<
    LispVal,
    String,
>)
    requires
        list.len() == 3,
        list[0]@ matches Sexp::Atom(t) && t.kind == TokenType::EQ,
    ensures
        (outcome(r), final(env)@) == semantics::eval_cond(
            depth as nat,
            models(list@),
            old(env)@,
        ),
    decreases depth, 2nat, 0nat,
{
    match eval_operands(list, env, depth) {
        Ok((LispVal::Number(x), LispVal::Number(y))) => Ok(LispVal::Bool(x == y)),
        Ok((res_first, res_second)) => Err(operands_error(&res_first, &res_second)),
        Err(e) => Err(e),
    }
}

/// Whether the first operand is greater than the second.
fn eval_cond_gt(list: &Vec<LispVal>, env: &mut Environment, depth: usize) -> (r: Result<
    LispVal,
    String,
>)
    requires
        list.len() == 3,
        list[0]@ matches Sexp::Atom(t) && t.kind == TokenType::GT,
    ensures
        (outcome(r), final(env)@) == semantics::eval_cond(
            depth as nat,
            models(list@),
            old(env)@,
        ),
    decreases depth, 2nat, 0nat,
{
    match eval_operands(list, env, depth) {
        Ok((LispVal::Number(x), LispVal::Number(y))) => Ok(LispVal::Bool(x > y)),
        Ok((res_first, res_second)) => Err(operands_error(&res_first, &res_second)),
        Err(e) => Err(e),
    }
}

/// Whether the first operand is at least the second.
fn eval_cond_gteq(list: &Vec<LispVal>, env: &mut Environment, depth: usize) -> (r: Result<
    LispVal,
    String,
>)
    requires
        list.len() == 3,
        list[0]@ matches Sexp::Atom(t) && t.kind == TokenType::GTEQ,
    ensures
        (outcome(r), final(env)@) == semantics::eval_cond(
            depth as nat,
            models(list@),
            old(env)@,
        ),
    decreases depth, 2nat, 0nat,
{
    match eval_operands(list, env, depth) {
        Ok((LispVal::Number(x), LispVal::Number(y))) => Ok(LispVal::Bool(x >= y)),
        Ok((res_first, res_second)) => Err(operands_error(&res_first, &res_second)),
        Err(e) => Err(e),
    }
}

/// `let`: the bindings' values are taken in `env`, the body's in a new
/// scope that holds them.
fn eval_let(list: &Vec<LispVal>, env: &mut Environment, depth: usize) -> (r: Result<
    LispVal,
    String,
>)
    ensures
        (outcome(r), final(env)@) == semantics::eval_let(depth as nat, models(list@), old(env)@),
    decreases depth, 2nat, 0nat,
{
    if list.len() < 3 {
        return Err("let eval went wrong".to_owned());
    }
    let bindings = match &list[1] {
        LispVal::List(x) => match eval_let_pair(x, env, depth) {
            Ok(b) => b,
            Err(e) => return Err(e),
        },
        _ => return Err("let eval went wrong".to_owned()),
    };
    let mut envr = Environment::with_scope(bindings, env.clone());
    eval(&list[2], &mut envr, depth)
}

/// The bindings of a `let`, in order: each a list of an identifier and an
/// expression, whose value is taken in `env`.
fn eval_let_pair(list: &Vec<LispVal>, env: &mut Environment, depth: usize) -> (r: Result<
    Vec<(String, LispVal)>,
    String,
>)
    ensures
        ({
            let bound = semantics::eval_let_pair(
                depth as nat,
                models(list@),
                0,
                Map::empty(),
                old(env)@,
            );
            &&& final(env)@ == bound.1
            &&& match bound.0 {
                Ok(scope) => r matches Ok(b) && scope_of(pairs_model(b@)) == scope,
                Err(e) => r matches Err(msg) && msg@ == e,
            }
        }),
    decreases depth, 1nat, 0nat,
{
    let mut bindings: Vec<(String, LispVal)> = Vec::new();
    let mut i: usize = 0;
    assert(pairs_model(bindings@) =~= Seq::empty());
    while i < list.len()
        invariant
            semantics::eval_let_pair(depth as nat, models(list@), 0, Map::empty(), old(env)@)
                == semantics::eval_let_pair(
                depth as nat,
                models(list@),
                i as int,
                scope_of(pairs_model(bindings@)),
                env@,
            ),
        decreases list.len() - i,
    {
        assert(models(list@)[i as int] == list[i as int]@);
        match &list[i] {
            LispVal::List(x) => {
                assert(list[i as int]@ == Sexp::List(models(x@)));
                if x.len() >= 2 {
                    assert(models(x@)[0] == x[0]@);
                    assert(models(x@)[1] == x[1]@);
                }
                if x.len() < 2 {
                    return Err(
                        with_text(
                            "variable bindings in let statement should be in pairs. (let ((x 5)(y 6))...error in ",
                            &list[i],
                        ),
                    );
                }
                match &x[0] {
                    LispVal::Atom(tok) => {
                        let ident = tok.literal.clone();
                        let value = eval(&x[1], env, depth);
                        match value {
                            Ok(v) => {
                                let ghost before = pairs_model(bindings@);
                                bindings.push((ident, v));
                                assert(pairs_model(bindings@).drop_last() =~= before);
                            },
                            Err(e) => return Err(e),
                        }
                    },
                    _ => return Err(
                        with_text(
                            "first of let pair of variable binding should be an identifier. Error in: ",
                            &x[0],
                        ),
                    ),
                }
            },
            _ => return Err(
                with_text(
                    "variable bindings in let statement should be in pairs. (let ((x 5)(y 6))...error in ",
                    &list[i],
                ),
            ),
        }
        i += 1;
    }
    Ok(bindings)
}

/// `define`: binds a value or a procedure in the innermost scope.
fn eval_define(list: &Vec<LispVal>, env: &mut Environment, depth: usize) -> (r: Result<
    LispVal,
    String,
>)
    ensures
        (outcome(r), final(env)@) == semantics::eval_define(
            depth as nat,
            models(list@),
            old(env)@,
        ),
    decreases depth, 2nat, 1nat,
{
    if list.len() != 3 {
        return Err("define should have 3 parts (define (x) (3))".to_owned());
    }
    assert(models(list@)[1] == list[1]@);
    assert(models(list@)[2] == list[2]@);
    match &list[1] {
        LispVal::Atom(x) => define_value(x, &list[2], env, depth),
        LispVal::List(x) => {
            assert(list[1]@ == Sexp::List(models(x@)));
            if x.len() >= 1 {
                assert(models(x@)[0] == x[0]@);
            }
            if x.len() < 2 {
                if x.len() == 1 {
                    match &x[0] {
                        LispVal::Atom(x) => define_value(x, &list[2], env, depth),
                        _ => Err(
                            "define should be a list of identifiers or just an identifier".to_owned(),
                        ),
                    }
                } else {
                    Err("define should be a list of identifiers or just an identifier".to_owned())
                }
            } else {
                match &x[0] {
                    LispVal::Atom(y) => {
                        let mut procedure: Vec<LispVal> = Vec::new();
                        procedure.push(LispVal::List(tail(x)));
                        procedure.push(list[2].clone());
                        let ghost params = Sexp::List(
                            models(x@).subrange(1, x.len() as int),
                        );
                        assert(models(procedure@) =~= seq![params, list[2]@]);
                        env.set(y.literal.clone(), LispVal::List(procedure));
                        let mut name = "fn ".to_owned();
                        name.append(y.literal.as_str());
                        let mut shown: Vec<LispVal> = Vec::new();
                        shown.push(LispVal::String(name));
                        shown.push(LispVal::List(tail(x)));
                        assert(models(shown@) =~= seq![
                            Sexp::String("fn "@ + y@.literal),
                            params,
                        ]);
                        Ok(LispVal::List(shown))
                    },
                    _ => Err(
                        "error: first part to define a procedure should be the name of the procedure".to_owned(),
                    ),
                }
            }
        },
        _ => Err("define should be a list of identifier or just an identifier".to_owned()),
    }
}

/// The definition of a value under `name`.
fn define_value(name: &Token, expr: &LispVal, env: &mut Environment, depth: usize) -> (r: Result<
    LispVal,
    String,
>)
    ensures
        (outcome(r), final(env)@) == semantics::define_value(
            depth as nat,
            name@,
            expr@,
            old(env)@,
        ),
    decreases depth, 2nat, 0nat,
{
    let value = match eval(expr, env, depth) {
        Ok(v) => v,
        Err(e) => return Err(e),
    };
    let bound = env.set(name.literal.clone(), value);
    let mut shown: Vec<LispVal> = Vec::new();
    shown.push(LispVal::Atom(name.clone()));
    shown.push(LispVal::Atom(Token { literal: "<-".to_owned(), kind: TokenType::ILLEGAL }));
    shown.push(bound);
    assert(models(shown@) =~= seq![Sexp::Atom(name@), semantics::arrow(), bound@]);
    Ok(LispVal::List(shown))
}

/// The scope of a call: each parameter bound to the value of its
/// argument.
fn bind_args(
    params: &Vec<LispVal>,
    args: &Vec<LispVal>,
    env: &mut Environment,
    depth: usize,
    not_an_atom: &str,
) -> (r: Result<Vec<(String, LispVal)>, String>)
    requires
        params.len() == args.len(),
    ensures
        ({
            let bound = semantics::bind_args(
                depth as nat,
                models(params@),
                models(args@),
                0,
                Map::empty(),
                old(env)@,
                not_an_atom@,
            );
            &&& final(env)@ == bound.1
            &&& match bound.0 {
                Ok(scope) => r matches Ok(b) && scope_of(pairs_model(b@)) == scope,
                Err(e) => r matches Err(msg) && msg@ == e,
            }
        }),
    decreases depth, 1nat, 0nat,
{
    let mut bindings: Vec<(String, LispVal)> = Vec::new();
    let mut i: usize = 0;
    assert(pairs_model(bindings@) =~= Seq::empty());
    while i < params.len()
        invariant
            params.len() == args.len(),
            semantics::bind_args(
                depth as nat,
                models(params@),
                models(args@),
                0,
                Map::empty(),
                old(env)@,
                not_an_atom@,
            ) == semantics::bind_args(
                depth as nat,
                models(params@),
                models(args@),
                i as int,
                scope_of(pairs_model(bindings@)),
                env@,
                not_an_atom@,
            ),
        decreases params.len() - i,
    {
        match &params[i] {
            LispVal::Atom(x) => {
                let ident = x.literal.clone();
                match eval(&args[i], env, depth) {
                    Ok(v) => {
                        let ghost before = pairs_model(bindings@);
                        bindings.push((ident, v));
                        assert(pairs_model(bindings@).drop_last() =~= before);
                    },
                    Err(e) => return Err(e),
                }
            },
            _ => return Err(not_an_atom.to_owned()),
        }
        i += 1;
    }
    Ok(bindings)
}

/// The call of a body with parameters on arguments.
fn apply(
    params: &Vec<LispVal>,
    body: &LispVal,
    args: &Vec<LispVal>,
    env: &mut Environment,
    depth: usize,
    arity: &str,
    not_an_atom: &str,
) -> (r: Result<LispVal, String>)
    ensures
        (outcome(r), final(env)@) == semantics::apply(
            depth as nat,
            models(params@),
            body@,
            models(args@),
            old(env)@,
            arity@,
            not_an_atom@,
        ),
    decreases depth, 2nat, 0nat,
{
    if args.len() != params.len() {
        return Err(arity.to_owned());
    }
    let bindings = match bind_args(params, args, env, depth, not_an_atom) {
        Ok(b) => b,
        Err(e) => return Err(e),
    };
    let mut o_env = Environment::with_scope(bindings, env.clone());
    eval(body, &mut o_env, depth)
}

/// The call of a procedure binding on the arguments `list`.
fn eval_proc(proc: &Vec<LispVal>, list: &Vec<LispVal>, env: &mut Environment, depth: usize) -> (r:
    Result<LispVal, String>)
    ensures
        (outcome(r), final(env)@) == semantics::eval_proc(
            depth as nat,
            models(proc@),
            models(list@),
            old(env)@,
        ),
    decreases depth, 2nat, 1nat,
{
    if proc.len() < 2 {
        return Err("error getting the amount of parameters in procedure".to_owned());
    }
    match &proc[0] {
        LispVal::List(params) => apply(
            params,
            &proc[1],
            list,
            env,
            depth,
            "not enough arguments for procedure",
            "should of been an atom",
        ),
        _ => Err("error getting the amount of parameters in procedure".to_owned()),
    }
}

/// The application of a closure template on the arguments `args`.
fn eval_lambda(
    pattern: &LispVal,
    body: &LispVal,
    args: &Vec<LispVal>,
    env: &mut Environment,
    depth: usize,
) -> (r: Result<LispVal, String>)
    ensures
        (outcome(r), final(env)@) == semantics::eval_lambda(
            depth as nat,
            pattern@,
            body@,
            models(args@),
            old(env)@,
        ),
    decreases depth, 2nat, 1nat,
{
    match pattern {
        LispVal::List(z) => apply(
            z,
            body,
            args,
            env,
            depth,
            "number of params in lambda do not match the amount applied",
            "should of been an atom for lambda",
        ),
        LispVal::Atom(_) => {
            let mut params: Vec<LispVal> = Vec::new();
            params.push(pattern.clone());
            assert(models(params@) =~= seq![pattern@]);
            apply(
                &params,
                body,
                args,
                env,
                depth,
                "number of params in lambda do not match the amount applied",
                "should of been an atom for lambda",
            )
        },
        _ => Err("error evaluating params for lambda".to_owned()),
    }
}

} // verus!
