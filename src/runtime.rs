//! Entry points: the root environment and reading-then-evaluating text.
use vstd::prelude::*;
use crate::env::{Environment, Scope, env_get, scope_get};
use crate::eval::{
    MAX_DEPTH, arity_msg, call_spec, eval, eval_spec, frame_spec, if_spec, is_keyword, list_spec,
    params_spec,
};
use crate::expr::{Error, Expression, Primitive, Sexp, agrees, text_of};
use crate::lexer::{tokenize, tokens_of};
use crate::reader::{parse, parse_spec};

verus! {

/// The bindings of the primitive library.
pub open spec fn default_scope() -> Scope {
    seq![
        ("+"@, Sexp::Prim(Primitive::Add)),
        ("-"@, Sexp::Prim(Primitive::Sub)),
        ("="@, Sexp::Prim(Primitive::Equal)),
        (">"@, Sexp::Prim(Primitive::Greater)),
        (">="@, Sexp::Prim(Primitive::GreaterEqual)),
        ("<"@, Sexp::Prim(Primitive::Less)),
        ("<="@, Sexp::Prim(Primitive::LessEqual)),
    ]
}

/// The root environment, holding the primitive library and no parent.
pub fn default_environment() -> (r: Environment)
    ensures
        r@ == seq![default_scope()],
        r.wf(),
{
    let mut env = Environment::new();
    env.define(String::from_str("+"), Expression::Function(Primitive::Add));
    env.define(String::from_str("-"), Expression::Function(Primitive::Sub));
    env.define(String::from_str("="), Expression::Function(Primitive::Equal));
    env.define(String::from_str(">"), Expression::Function(Primitive::Greater));
    env.define(String::from_str(">="), Expression::Function(Primitive::GreaterEqual));
    env.define(String::from_str("<"), Expression::Function(Primitive::Less));
    env.define(String::from_str("<="), Expression::Function(Primitive::LessEqual));
    assert(env@[0] =~= default_scope());
    assert(env@ =~= seq![default_scope()]);
    env
}

/// Reads the first expression of `expr` and evaluates it in `env`; what
/// follows the first expression is ignored.
pub fn parse_eval(expr: String, env: &mut Environment) -> (r: Result<Expression, Error>)
    requires
        old(env).wf(),
    ensures
        final(env).wf(),
        match parse_spec(tokens_of(expr@)) {
            Err(m) => r matches Err(Error::Generic(e)) && e@ == m && final(env)@ == old(env)@,
            Ok((x, _)) => agrees(r, eval_spec(x, old(env)@, MAX_DEPTH as nat).0) && final(env)@
                == eval_spec(x, old(env)@, MAX_DEPTH as nat).1,
        },
{
    let tokens = tokenize(expr);
    match parse(tokens.as_slice()) {
        Err(e) => Err(e),
        Ok((parsed, _)) => eval(&parsed, env),
    }
}

/// `k` occurs in `m` as a run of consecutive characters.
pub open spec fn contains_text(m: Seq<char>, k: Seq<char>) -> bool {
    exists|i: int| 0 <= i && i + k.len() <= m.len() && #[trigger] m.subrange(i, i + k.len()) == k
}

/// Numbers and booleans evaluate to themselves, whatever the environment
/// holds, and leave it unchanged.
pub proof fn lemma_literals_evaluate_to_themselves(e: Sexp, env: Seq<Scope>)
    requires
        e is Num || e is Bool,
    ensures
        eval_spec(e, env, MAX_DEPTH as nat) == (Ok::<Sexp, Seq<char>>(e), env),
{
}

/// Looking up a name that no scope binds fails with a message that holds
/// the name exactly.
pub proof fn lemma_unbound_symbol_names_itself(k: Seq<char>, env: Seq<Scope>)
    requires
        env_get(env, k) is None,
    ensures
        match eval_spec(Sexp::Sym(k), env, MAX_DEPTH as nat).0 {
            Err(m) => contains_text(m, k),
            Ok(_) => false,
        },
{
    let m = "Unexpected symbol '"@ + k + "'"@;
    let i = "Unexpected symbol '"@.len() as int;
    assert(eval_spec(Sexp::Sym(k), env, MAX_DEPTH as nat).0 == Err::<Sexp, Seq<char>>(m));
    assert(m.subrange(i, i + k.len()) =~= k);
    assert(0 <= i && i + k.len() <= m.len());
    assert(contains_text(m, k));
}

proof fn lemma_scope_absent(f: Scope, k: Seq<char>)
    requires
        forall|i: int| 0 <= i < f.len() ==> (#[trigger] f[i]).0 != k,
    ensures
        scope_get(f, k) is None,
    decreases f.len(),
{
    if f.len() > 0 {
        lemma_scope_absent(f.drop_last(), k);
    }
}

/// The call `(name args...)` where `name` is bound to a closure and is no
/// special form.
pub open spec fn calls_closure(e: Sexp, env: Seq<Scope>, ps: Sexp, body: Sexp, args: Seq<Sexp>) -> bool {
    &&& e matches Sexp::List(xs) && xs.len() > 0 && xs[0] is Sym && xs.drop_first() == args
    &&& env_get(env, e->List_0[0]->Sym_0) == Some(Sexp::Lam(Box::new(ps), Box::new(body)))
    &&& !is_keyword(e->List_0[0], "if"@) && !is_keyword(e->List_0[0], "def"@)
        && !is_keyword(e->List_0[0], "fn"@)
}

/// Calling a closure whose parameter list has `k` names with a number of
/// arguments other than `k` fails with an error that gives both counts, and
/// leaves the environment as it was.
pub proof fn lemma_arity_checked(
    e: Sexp,
    env: Seq<Scope>,
    ps: Sexp,
    body: Sexp,
    args: Seq<Sexp>,
    names: Seq<Seq<char>>,
)
    requires
        calls_closure(e, env, ps, body, args),
        params_spec(ps) == Ok::<Seq<Seq<char>>, Seq<char>>(names),
        names.len() != args.len(),
    ensures
        eval_spec(e, env, MAX_DEPTH as nat) == (
            Err::<Sexp, Seq<char>>(arity_msg(names.len(), args.len())),
            env,
        ),
{
    let xs = e->List_0;
    let f = (MAX_DEPTH - 1) as nat;
    assert(eval_spec(xs[0], env, f) == (Ok::<Sexp, Seq<char>>(
        Sexp::Lam(Box::new(ps), Box::new(body)),
    ), env));
    assert(eval_spec(e, env, MAX_DEPTH as nat) == list_spec(xs[0], args, env, MAX_DEPTH as nat));
    assert(list_spec(xs[0], args, env, MAX_DEPTH as nat) == call_spec(ps, body, args, env, f));
    assert(frame_spec(ps, args, env, f) == (
        Err::<Scope, Seq<char>>(arity_msg(names.len(), args.len())),
        env,
    ));
}

/// A closure's body runs in the environment of its caller at the moment of
/// the call (after the arguments were evaluated there), extended by one new
/// scope that binds the parameters; where the closure was written plays no
/// part. Inside that scope every name that is not a parameter resolves as it
/// does in the caller's environment. The body has one level less of the
/// nesting budget than the call.
pub proof fn lemma_body_sees_caller_scope(
    e: Sexp,
    env: Seq<Scope>,
    ps: Sexp,
    body: Sexp,
    args: Seq<Sexp>,
)
    requires
        calls_closure(e, env, ps, body, args),
    ensures
        ({
            let f = (MAX_DEPTH - 1) as nat;
            let (fr, env1) = frame_spec(ps, args, env, f);
            &&& eval_spec(e, env, MAX_DEPTH as nat) == match fr {
                Err(m) => (Err(m), env1),
                Ok(frame) => {
                    let (r, env2) = eval_spec(body, env1.push(frame), f);
                    (r, env2.drop_last())
                },
            }
            &&& forall|k: Seq<char>|
                #![auto]
                fr is Ok && !(params_spec(ps)->Ok_0).contains(k) ==> env_get(
                    env1.push(fr->Ok_0),
                    k,
                ) == env_get(env1, k)
        }),
{
    let xs = e->List_0;
    let f = (MAX_DEPTH - 1) as nat;
    assert(eval_spec(xs[0], env, f) == (Ok::<Sexp, Seq<char>>(
        Sexp::Lam(Box::new(ps), Box::new(body)),
    ), env));
    assert(eval_spec(e, env, MAX_DEPTH as nat) == list_spec(xs[0], args, env, MAX_DEPTH as nat));
    assert(list_spec(xs[0], args, env, MAX_DEPTH as nat) == call_spec(ps, body, args, env, f));
    let (fr, env1) = frame_spec(ps, args, env, f);
    assert forall|k: Seq<char>|
        #![auto]
        fr is Ok && !(params_spec(ps)->Ok_0).contains(k) implies env_get(env1.push(fr->Ok_0), k)
        == env_get(env1, k) by {
        let names = params_spec(ps)->Ok_0;
        let frame = fr->Ok_0;
        assert forall|i: int| 0 <= i < frame.len() implies (#[trigger] frame[i]).0 != k by {
            assert(frame[i].0 == names[i]);
        }
        lemma_scope_absent(frame, k);
        assert(env1.push(frame).drop_last() =~= env1);
    }
}

/// An `if` form that does not hold exactly a test, a then form and an else
/// form fails and evaluates none of its parts, so the environment stays as
/// it was.
pub proof fn lemma_if_needs_three_forms(args: Seq<Sexp>, env: Seq<Scope>)
    requires
        args.len() != 3,
    ensures
        ({
            let r = eval_spec(Sexp::List(seq![Sexp::Sym("if"@)] + args), env, MAX_DEPTH as nat);
            r.0 is Err && r.1 == env
        }),
{
    let xs = seq![Sexp::Sym("if"@)] + args;
    assert(xs[0] == Sexp::Sym("if"@));
    assert(xs.drop_first() =~= args);
    assert(eval_spec(Sexp::List(xs), env, MAX_DEPTH as nat) == if_spec(
        args,
        env,
        (MAX_DEPTH - 1) as nat,
    ));
}

/// When the test of `(if test then else)` evaluates to anything but a
/// boolean, the form fails with a message that quotes the test's printed
/// form, and neither branch is evaluated: the environment is the one the
/// test left.
pub proof fn lemma_if_test_must_be_boolean(test: Sexp, then_form: Sexp, else_form: Sexp, env: Seq<Scope>)
    requires
        eval_spec(test, env, (MAX_DEPTH - 1) as nat).0 matches Ok(v) && !(v is Bool),
    ensures
        eval_spec(
            Sexp::List(seq![Sexp::Sym("if"@), test, then_form, else_form]),
            env,
            MAX_DEPTH as nat,
        ) == (
            Err::<Sexp, Seq<char>>("unexpected test form='"@ + text_of(test) + "'"@),
            eval_spec(test, env, (MAX_DEPTH - 1) as nat).1,
        ),
{
    let xs = seq![Sexp::Sym("if"@), test, then_form, else_form];
    let args = seq![test, then_form, else_form];
    assert(xs.drop_first() =~= args);
    assert(eval_spec(Sexp::List(xs), env, MAX_DEPTH as nat) == if_spec(
        args,
        env,
        (MAX_DEPTH - 1) as nat,
    ));
}

} // verus!
