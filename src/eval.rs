//! The evaluator: special forms, application of primitives and closures,
//! and the root environment.
use vstd::prelude::*;
use crate::env::{Binding, Environment, Scope, env_define, env_get};
use crate::expr::{
    Error, Expression, Lambda, Sexp, agrees, lemma_sexps_index, lemma_sexps_len, lemma_sexps_push,
    lemma_sexps_tail, sexps_of, text_of,
};
use crate::prims::{apply_primitive, apply_spec};
use crate::text::{decimal, push_count};

verus! {

/// How deeply evaluations may nest before `eval` gives up.
pub const MAX_DEPTH: u64 = 1024;

pub open spec fn depth_msg() -> Seq<char> {
    "evaluation nested too deeply"@
}

/// The names of a parameter list.
pub open spec fn params_spec(e: Sexp) -> Result<Seq<Seq<char>>, Seq<char>> {
    match e {
        Sexp::List(xs) => if forall|i: int| 0 <= i < xs.len() ==> #[trigger] xs[i] is Sym {
            Ok(Seq::new(xs.len(), |i: int| xs[i]->Sym_0))
        } else {
            Err("expected symbols in the argument list"@)
        },
        _ => Err("expected args form to be a list"@),
    }
}

/// A scope that binds each name to the value at the same place.
pub open spec fn frame_of(names: Seq<Seq<char>>, vals: Seq<Sexp>) -> Scope {
    Seq::new(names.len(), |i: int| (names[i], vals[i]))
}

pub open spec fn arity_msg(k: nat, n: nat) -> Seq<char> {
    "expected "@ + decimal(k as int) + " arguments, got "@ + decimal(n as int)
}

pub open spec fn is_keyword(e: Sexp, w: Seq<char>) -> bool {
    e matches Sexp::Sym(s) && s == w
}

/// What evaluating `e` in `env` gives, with the environment after it, when
/// evaluations may nest `fuel` deep.
pub open spec fn eval_spec(e: Sexp, env: Seq<Scope>, fuel: nat) -> (
    Result<Sexp, Seq<char>>,
    Seq<Scope>,
)
    decreases fuel, 1nat, 0nat,
{
    if fuel == 0 {
        (Err(depth_msg()), env)
    } else {
        match e {
            Sexp::Sym(k) => match env_get(env, k) {
                Some(v) => (Ok(v), env),
                None => (Err("Unexpected symbol '"@ + k + "'"@), env),
            },
            Sexp::Num(_) => (Ok(e), env),
            Sexp::Bool(_) => (Ok(e), env),
            Sexp::List(xs) => if xs.len() == 0 {
                (Err("expected a non-empty list"@), env)
            } else {
                list_spec(xs[0], xs.drop_first(), env, fuel)
            },
            _ => (Err("unexpected form"@), env),
        }
    }
}

/// Evaluating the list `(head args...)`: a special form, or an application.
pub open spec fn list_spec(head: Sexp, args: Seq<Sexp>, env: Seq<Scope>, fuel: nat) -> (
    Result<Sexp, Seq<char>>,
    Seq<Scope>,
)
    decreases fuel, 0nat, 0nat,
{
    if fuel == 0 {
        (Err(depth_msg()), env)
    } else {
        let f = (fuel - 1) as nat;
        if is_keyword(head, "if"@) {
            if_spec(args, env, f)
        } else if is_keyword(head, "def"@) {
            def_spec(args, env, f)
        } else if is_keyword(head, "fn"@) {
            (lambda_spec(args), env)
        } else {
            let (h, env1) = eval_spec(head, env, f);
            match h {
                Err(m) => (Err(m), env1),
                Ok(Sexp::Prim(p)) => {
                    let (vs, env2) = forms_spec(args, env1, f);
                    match vs {
                        Err(m) => (Err(m), env2),
                        Ok(vals) => (apply_spec(p, vals), env2),
                    }
                },
                Ok(Sexp::Lam(ps, body)) => call_spec(*ps, *body, args, env1, f),
                Ok(_) => (Err("first form must be a function"@), env1),
            }
        }
    }
}

/// Evaluating each of `args` in turn, left to right.
pub open spec fn forms_spec(args: Seq<Sexp>, env: Seq<Scope>, fuel: nat) -> (
    Result<Seq<Sexp>, Seq<char>>,
    Seq<Scope>,
)
    decreases fuel, 2nat, args.len(),
{
    if args.len() == 0 {
        (Ok(Seq::empty()), env)
    } else {
        let (r, env1) = forms_spec(args.drop_last(), env, fuel);
        match r {
            Err(m) => (Err(m), env1),
            Ok(vs) => {
                let (v, env2) = eval_spec(args.last(), env1, fuel);
                match v {
                    Err(m) => (Err(m), env2),
                    Ok(x) => (Ok(vs.push(x)), env2),
                }
            },
        }
    }
}

/// The call frame of a closure with parameter list `ps` on the argument
/// forms `args`, which are evaluated in `env`.
pub open spec fn frame_spec(ps: Sexp, args: Seq<Sexp>, env: Seq<Scope>, fuel: nat) -> (
    Result<Scope, Seq<char>>,
    Seq<Scope>,
)
    decreases fuel, 3nat, 0nat,
{
    match params_spec(ps) {
        Err(m) => (Err(m), env),
        Ok(names) => if names.len() != args.len() {
            (Err(arity_msg(names.len(), args.len())), env)
        } else {
            let (vs, env1) = forms_spec(args, env, fuel);
            match vs {
                Err(m) => (Err(m), env1),
                Ok(vals) => (Ok(frame_of(names, vals)), env1),
            }
        },
    }
}

/// Calling a closure: its body is evaluated in a new scope whose parent is
/// the caller's environment, and that scope is closed afterwards.
pub open spec fn call_spec(ps: Sexp, body: Sexp, args: Seq<Sexp>, env: Seq<Scope>, fuel: nat) -> (
    Result<Sexp, Seq<char>>,
    Seq<Scope>,
)
    decreases fuel, 4nat, 0nat,
{
    let (fr, env1) = frame_spec(ps, args, env, fuel);
    match fr {
        Err(m) => (Err(m), env1),
        Ok(frame) => {
            let (r, env2) = eval_spec(body, env1.push(frame), fuel);
            (r, env2.drop_last())
        },
    }
}

/// `(if test then else)`: exactly three forms; only the branch that the
/// test picks is evaluated.
pub open spec fn if_spec(args: Seq<Sexp>, env: Seq<Scope>, fuel: nat) -> (
    Result<Sexp, Seq<char>>,
    Seq<Scope>,
)
    decreases fuel, 4nat, 0nat,
{
    if args.len() == 0 {
        (Err("expected test form"@), env)
    } else if args.len() < 3 {
        (Err("expected then and else forms"@), env)
    } else if args.len() > 3 {
        (Err("if can only have three forms "@), env)
    } else {
        let (t, env1) = eval_spec(args[0], env, fuel);
        match t {
            Err(m) => (Err(m), env1),
            Ok(Sexp::Bool(b)) => if b {
                eval_spec(args[1], env1, fuel)
            } else {
                eval_spec(args[2], env1, fuel)
            },
            Ok(_) => (Err("unexpected test form='"@ + text_of(args[0]) + "'"@), env1),
        }
    }
}

/// `(def name expr)`
pub open spec fn def_spec(args: Seq<Sexp>, env: Seq<Scope>, fuel: nat) -> (
    Result<Sexp, Seq<char>>,
    Seq<Scope>,
)
    decreases fuel, 4nat, 0nat,
{
    if args.len() == 0 {
        (Err("expected first form"@), env)
    } else if !(args[0] is Sym) {
        (Err("expected first form to be a symbol"@), env)
    } else if args.len() < 2 {
        (Err("expected second form"@), env)
    } else if args.len() > 2 {
        (Err("def can only have two forms "@), env)
    } else {
        let (v, env1) = eval_spec(args[1], env, fuel);
        match v {
            Err(m) => (Err(m), env1),
            Ok(x) => (Ok(args[0]), env_define(env1, args[0]->Sym_0, x)),
        }
    }
}

/// `(fn params body)`
pub open spec fn lambda_spec(args: Seq<Sexp>) -> Result<Sexp, Seq<char>> {
    if args.len() == 0 {
        Err("expected args form"@)
    } else if args.len() < 2 {
        Err("expected second form"@)
    } else if args.len() > 2 {
        Err("fn definition can only have two forms "@)
    } else {
        Ok(Sexp::Lam(Box::new(args[0]), Box::new(args[1])))
    }
}

/// Once evaluating a prefix of `args` fails, evaluating all of them fails
/// the same way.
proof fn lemma_forms_stop(args: Seq<Sexp>, env: Seq<Scope>, fuel: nat, j: int)
    requires
        0 <= j <= args.len(),
        forms_spec(args.subrange(0, j), env, fuel).0 is Err,
    ensures
        forms_spec(args, env, fuel) == forms_spec(args.subrange(0, j), env, fuel),
    decreases args.len(),
{
    if args.len() > j {
        assert(args.drop_last().subrange(0, j) =~= args.subrange(0, j));
        lemma_forms_stop(args.drop_last(), env, fuel, j);
    } else {
        assert(args.subrange(0, j) =~= args);
    }
}

/// Evaluating forms gives one value for each form.
proof fn lemma_forms_len(args: Seq<Sexp>, env: Seq<Scope>, fuel: nat)
    ensures
        forms_spec(args, env, fuel).0 matches Ok(vals) ==> vals.len() == args.len(),
    decreases args.len(),
{
    if args.len() > 0 {
        lemma_forms_len(args.drop_last(), env, fuel);
    }
}

pub open spec fn all_agree(r: Result<Vec<Expression>, Error>, s: Result<Seq<Sexp>, Seq<char>>) -> bool {
    match (r, s) {
        (Ok(a), Ok(b)) => sexps_of(a@) == b,
        (Err(Error::Generic(m)), Err(msg)) => m@ == msg,
        _ => false,
    }
}

fn generic(msg: &str) -> (e: Error)
    ensures
        e matches Error::Generic(m) && m@ == msg@,
{
    Error::Generic(String::from_str(msg))
}

/// The names of the parameter list `form`.
pub fn parse_list_of_symbol_strings(form: &Expression) -> (r: Result<Vec<String>, Error>)
    ensures
        match params_spec(form@) {
            Ok(names) => r matches Ok(v) && v@.map_values(|s: String| s@) == names,
            Err(m) => r matches Err(Error::Generic(e)) && e@ == m,
        },
{
    match form {
        Expression::List(list) => {
            let ghost xs = sexps_of(list@);
            proof {
                lemma_sexps_len(list@);
            }
            let mut out: Vec<String> = Vec::new();
            let mut i: usize = 0;
            while i < list.len()
                invariant
                    i <= list@.len(),
                    xs == sexps_of(list@),
                    form@ == Sexp::List(xs),
                    xs.len() == list@.len(),
                    out@.len() == i,
                    forall|j: int| 0 <= j < i ==> #[trigger] xs[j] is Sym && xs[j]->Sym_0 == out@[j]@,
                decreases list@.len() - i,
            {
                proof {
                    lemma_sexps_index(list@, i as int);
                }
                match &list[i] {
                    Expression::Symbol(s) => out.push(s.clone()),
                    _ => {
                        assert(!(xs[i as int] is Sym));
                        assert(!(forall|j: int| 0 <= j < xs.len() ==> #[trigger] xs[j] is Sym));
                        return Err(generic("expected symbols in the argument list"));
                    },
                }
                i = i + 1;
            }
            assert(out@.map_values(|s: String| s@) =~= Seq::new(xs.len(), |j: int| xs[j]->Sym_0));
            Ok(out)
        },
        _ => Err(generic("expected args form to be a list")),
    }
}

/// Evaluates each of `arg_forms` in turn, left to right.
fn eval_forms(arg_forms: &[Expression], env: &mut Environment, depth: u64) -> (r: Result<
    Vec<Expression>,
    Error,
>)
    requires
        old(env).wf(),
    ensures
        final(env)@.len() == old(env)@.len(),
        all_agree(r, forms_spec(sexps_of(arg_forms@), old(env)@, depth as nat).0),
        final(env)@ == forms_spec(sexps_of(arg_forms@), old(env)@, depth as nat).1,
    decreases depth, 2nat, arg_forms@.len(),
{
    let ghost env0 = env@;
    let ghost xs = sexps_of(arg_forms@);
    proof {
        lemma_sexps_len(arg_forms@);
    }
    let mut out: Vec<Expression> = Vec::new();
    let mut i: usize = 0;
    assert(xs.subrange(0, 0) =~= Seq::<Sexp>::empty());
    while i < arg_forms.len()
        invariant
            i <= arg_forms@.len(),
            xs == sexps_of(arg_forms@),
            xs.len() == arg_forms@.len(),
            env.wf(),
            env0 == old(env)@,
            env@.len() == env0.len(),
            forms_spec(xs.subrange(0, i as int), env0, depth as nat) == (
                Ok::<Seq<Sexp>, Seq<char>>(sexps_of(out@)),
                env@,
            ),
        decreases arg_forms@.len() - i,
    {
        proof {
            lemma_sexps_index(arg_forms@, i as int);
            assert(xs.subrange(0, i + 1).drop_last() =~= xs.subrange(0, i as int));
        }
        let ghost before = out@;
        match eval_within(&arg_forms[i], env, depth) {
            Ok(v) => {
                out.push(v);
                proof {
                    lemma_sexps_push(before, out@.last());
                    assert(out@ =~= before.push(out@.last()));
                }
            },
            Err(e) => {
                proof {
                    lemma_forms_stop(xs, env0, depth as nat, i + 1);
                }
                return Err(e);
            },
        }
        i = i + 1;
    }
    assert(xs.subrange(0, xs.len() as int) =~= xs);
    Ok(out)
}

/// Builds the call frame of a closure with parameter list `params`; the
/// argument forms are evaluated in the caller's environment.
fn env_for_lambda(params: &Expression, arg_forms: &[Expression], env: &mut Environment, depth: u64)
    -> (r: Result<Vec<Binding>, Error>)
    requires
        old(env).wf(),
    ensures
        final(env)@.len() == old(env)@.len(),
        final(env)@ == frame_spec(params@, sexps_of(arg_forms@), old(env)@, depth as nat).1,
        match (r, frame_spec(params@, sexps_of(arg_forms@), old(env)@, depth as nat).0) {
            (Ok(b), Ok(f)) => crate::env::scope_view(b@) == f,
            (Err(Error::Generic(m)), Err(msg)) => m@ == msg,
            _ => false,
        },
    decreases depth, 3nat, 0nat,
{
    proof {
        lemma_sexps_len(arg_forms@);
    }
    let ks = match parse_list_of_symbol_strings(params) {
        Ok(ks) => ks,
        Err(e) => {
            return Err(e);
        },
    };
    if ks.len() != arg_forms.len() {
        let mut m = String::from_str("expected ");
        push_count(&mut m, ks.len() as u64);
        m.append(" arguments, got ");
        push_count(&mut m, arg_forms.len() as u64);
        return Err(Error::Generic(m));
    }
    proof {
        lemma_forms_len(sexps_of(arg_forms@), env@, depth as nat);
    }
    let vs = match eval_forms(arg_forms, env, depth) {
        Ok(vs) => vs,
        Err(e) => {
            return Err(e);
        },
    };
    proof {
        lemma_sexps_len(vs@);
    }
    let ghost names = ks@.map_values(|s: String| s@);
    let ghost vals = sexps_of(vs@);
    let mut data: Vec<Binding> = Vec::new();
    let mut i: usize = 0;
    while i < ks.len()
        invariant
            i <= ks@.len(),
            ks@.len() == vs@.len(),
            vals.len() == vs@.len(),
            names == ks@.map_values(|s: String| s@),
            vals == sexps_of(vs@),
            crate::env::scope_view(data@) =~= frame_of(names, vals).subrange(0, i as int),
        decreases ks@.len() - i,
    {
        proof {
            lemma_sexps_index(vs@, i as int);
        }
        let ghost prev = data@;
        data.push(Binding { name: ks[i].clone(), value: vs[i].duplicate() });
        proof {
            assert(data@ =~= prev.push(data@.last()));
            assert(crate::env::scope_view(data@) =~= crate::env::scope_view(prev).push(
                (ks@[i as int]@, vs@[i as int]@),
            ));
            assert(frame_of(names, vals).subrange(0, i + 1) =~= frame_of(names, vals).subrange(
                0,
                i as int,
            ).push(frame_of(names, vals)[i as int]));
        }
        i = i + 1;
    }
    assert(frame_of(names, vals).subrange(0, ks@.len() as int) =~= frame_of(names, vals));
    Ok(data)
}

/// Dispatches the special forms `if`, `def` and `fn`; `None` when `exp` is
/// no such keyword, with the environment untouched.
fn eval_built_in_form(exp: &Expression, arg_forms: &[Expression], env: &mut Environment, depth: u64)
    -> (r: Option<Result<Expression, Error>>)
    requires
        old(env).wf(),
    ensures
        final(env)@.len() == old(env)@.len(),
        is_keyword(exp@, "if"@) ==> (r matches Some(x) && agrees(
            x,
            if_spec(sexps_of(arg_forms@), old(env)@, depth as nat).0,
        ) && final(env)@ == if_spec(sexps_of(arg_forms@), old(env)@, depth as nat).1),
        is_keyword(exp@, "def"@) ==> (r matches Some(x) && agrees(
            x,
            def_spec(sexps_of(arg_forms@), old(env)@, depth as nat).0,
        ) && final(env)@ == def_spec(sexps_of(arg_forms@), old(env)@, depth as nat).1),
        is_keyword(exp@, "fn"@) ==> (r matches Some(x) && agrees(x, lambda_spec(sexps_of(arg_forms@)))
            && final(env)@ == old(env)@),
        !is_keyword(exp@, "if"@) && !is_keyword(exp@, "def"@) && !is_keyword(exp@, "fn"@) ==> r
            is None && final(env)@ == old(env)@,
    decreases depth, 5nat, 0nat,
{
    proof {
        reveal_strlit("if");
        reveal_strlit("def");
        reveal_strlit("fn");
        assert("if"@ != "def"@ && "if"@ != "fn"@ && "def"@ != "fn"@) by {
            assert("if"@.len() == 2 && "def"@.len() == 3 && "fn"@.len() == 2);
            assert("if"@[0] != "fn"@[0]);
        }
    }
    match exp {
        Expression::Symbol(s) => {
            if *s == String::from_str("if") {
                Some(eval_if_args(arg_forms, env, depth))
            } else if *s == String::from_str("def") {
                Some(eval_def_args(arg_forms, env, depth))
            } else if *s == String::from_str("fn") {
                Some(eval_lambda_args(arg_forms))
            } else {
                None
            }
        },
        _ => None,
    }
}

fn eval_if_args(arg_forms: &[Expression], env: &mut Environment, depth: u64) -> (r: Result<
    Expression,
    Error,
>)
    requires
        old(env).wf(),
    ensures
        final(env)@.len() == old(env)@.len(),
        agrees(r, if_spec(sexps_of(arg_forms@), old(env)@, depth as nat).0),
        final(env)@ == if_spec(sexps_of(arg_forms@), old(env)@, depth as nat).1,
    decreases depth, 4nat, 0nat,
{
    proof {
        lemma_sexps_len(arg_forms@);
    }
    if arg_forms.len() == 0 {
        return Err(generic("expected test form"));
    }
    if arg_forms.len() < 3 {
        return Err(generic("expected then and else forms"));
    }
    if arg_forms.len() > 3 {
        return Err(generic("if can only have three forms "));
    }
    proof {
        lemma_sexps_index(arg_forms@, 0);
        lemma_sexps_index(arg_forms@, 1);
        lemma_sexps_index(arg_forms@, 2);
    }
    let test_form = &arg_forms[0];
    let test_eval = match eval_within(test_form, env, depth) {
        Ok(v) => v,
        Err(e) => {
            return Err(e);
        },
    };
    match test_eval {
        Expression::Boolean(b) => {
            let form_idx: usize = if b {
                1
            } else {
                2
            };
            eval_within(&arg_forms[form_idx], env, depth)
        },
        _ => {
            let mut m = String::from_str("unexpected test form='");
            let t = test_form.to_text();
            m.append(t.as_str());
            m.append("'");
            Err(Error::Generic(m))
        },
    }
}

fn eval_def_args(arg_forms: &[Expression], env: &mut Environment, depth: u64) -> (r: Result<
    Expression,
    Error,
>)
    requires
        old(env).wf(),
    ensures
        final(env)@.len() == old(env)@.len(),
        agrees(r, def_spec(sexps_of(arg_forms@), old(env)@, depth as nat).0),
        final(env)@ == def_spec(sexps_of(arg_forms@), old(env)@, depth as nat).1,
    decreases depth, 4nat, 0nat,
{
    proof {
        lemma_sexps_len(arg_forms@);
    }
    if arg_forms.len() == 0 {
        return Err(generic("expected first form"));
    }
    proof {
        lemma_sexps_index(arg_forms@, 0);
    }
    let first_form = &arg_forms[0];
    let first_str = match first_form {
        Expression::Symbol(s) => s.clone(),
        _ => {
            return Err(generic("expected first form to be a symbol"));
        },
    };
    if arg_forms.len() < 2 {
        return Err(generic("expected second form"));
    }
    if arg_forms.len() > 2 {
        return Err(generic("def can only have two forms "));
    }
    proof {
        lemma_sexps_index(arg_forms@, 1);
    }
    let second_eval = match eval_within(&arg_forms[1], env, depth) {
        Ok(v) => v,
        Err(e) => {
            return Err(e);
        },
    };
    env.define(first_str, second_eval);
    Ok(first_form.duplicate())
}

fn eval_lambda_args(arg_forms: &[Expression]) -> (r: Result<Expression, Error>)
    ensures
        agrees(r, lambda_spec(sexps_of(arg_forms@))),
{
    proof {
        lemma_sexps_len(arg_forms@);
    }
    if arg_forms.len() == 0 {
        return Err(generic("expected args form"));
    }
    if arg_forms.len() < 2 {
        return Err(generic("expected second form"));
    }
    if arg_forms.len() > 2 {
        return Err(generic("fn definition can only have two forms "));
    }
    proof {
        lemma_sexps_index(arg_forms@, 0);
        lemma_sexps_index(arg_forms@, 1);
    }
    Ok(
        Expression::Lambda(
            Lambda {
                params: Box::new(arg_forms[0].duplicate()),
                body: Box::new(arg_forms[1].duplicate()),
            },
        ),
    )
}

/// Evaluates the list `(head args...)`.
fn eval_list(head: &Expression, arg_forms: &[Expression], env: &mut Environment, depth: u64) -> (r:
    Result<Expression, Error>)
    requires
        old(env).wf(),
    ensures
        final(env)@.len() == old(env)@.len(),
        agrees(r, list_spec(head@, sexps_of(arg_forms@), old(env)@, depth as nat).0),
        final(env)@ == list_spec(head@, sexps_of(arg_forms@), old(env)@, depth as nat).1,
    decreases depth, 0nat, 0nat,
{
    if depth == 0 {
        return Err(generic("evaluation nested too deeply"));
    }
    let f = depth - 1;
    match eval_built_in_form(head, arg_forms, env, f) {
        Some(res) => {
            return res;
        },
        None => {},
    }
    let first_eval = match eval_within(head, env, f) {
        Ok(v) => v,
        Err(e) => {
            return Err(e);
        },
    };
    match first_eval {
        Expression::Function(p) => {
            match eval_forms(arg_forms, env, f) {
                Ok(vals) => apply_primitive(p, vals.as_slice()),
                Err(e) => Err(e),
            }
        },
        Expression::Lambda(lambda) => {
            let frame = match env_for_lambda(&lambda.params, arg_forms, env, f) {
                Ok(frame) => frame,
                Err(e) => {
                    return Err(e);
                },
            };
            env.push_scope(frame);
            let r = eval_within(&lambda.body, env, f);
            env.pop_scope();
            r
        },
        _ => Err(generic("first form must be a function")),
    }
}

/// Evaluates `exp` in `env`, with evaluations nested at most `depth` deep.
pub fn eval_within(exp: &Expression, env: &mut Environment, depth: u64) -> (r: Result<
    Expression,
    Error,
>)
    requires
        old(env).wf(),
    ensures
        final(env)@.len() == old(env)@.len(),
        agrees(r, eval_spec(exp@, old(env)@, depth as nat).0),
        final(env)@ == eval_spec(exp@, old(env)@, depth as nat).1,
    decreases depth, 1nat, 0nat,
{
    if depth == 0 {
        return Err(generic("evaluation nested too deeply"));
    }
    match exp {
        Expression::Symbol(key) => match env.get(key) {
            Some(v) => Ok(v),
            None => {
                let mut m = String::from_str("Unexpected symbol '");
                m.append(key.as_str());
                m.append("'");
                Err(Error::Generic(m))
            },
        },
        Expression::Number(_) => Ok(exp.duplicate()),
        Expression::Boolean(_) => Ok(exp.duplicate()),
        Expression::List(list) => {
            proof {
                lemma_sexps_len(list@);
            }
            if list.len() == 0 {
                return Err(generic("expected a non-empty list"));
            }
            let items = list.as_slice();
            let arg_forms = &items[1..items.len()];
            proof {
                lemma_sexps_tail(list@);
            }
            eval_list(&list[0], arg_forms, env, depth)
        },
        _ => Err(generic("unexpected form")),
    }
}

/// Evaluates `exp` in `env`; `def` binds in `env`'s innermost scope.
///
/// Evaluations nest at most `MAX_DEPTH` deep; past that the result is the
/// error "evaluation nested too deeply". A call of a closure spends about
/// three levels, so a recursive closure gets to a depth of about 340 calls.
pub fn eval(exp: &Expression, env: &mut Environment) -> (r: Result<Expression, Error>)
    requires
        old(env).wf(),
    ensures
        final(env).wf(),
        agrees(r, eval_spec(exp@, old(env)@, MAX_DEPTH as nat).0),
        final(env)@ == eval_spec(exp@, old(env)@, MAX_DEPTH as nat).1,
{
    eval_within(exp, env, MAX_DEPTH)
}

} // verus!
