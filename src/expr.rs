//! The expression data model, its mathematical view and its printed form.
use vstd::prelude::*;
use crate::text::{decimal, push_char, push_decimal};

verus! {

/// The built-in operations of the primitive library.
#[derive(Clone, Copy, Debug, PartialEq, Eq, Structural)]
pub enum Primitive {
    Add,
    Sub,
    Equal,
    Greater,
    GreaterEqual,
    Less,
    LessEqual,
}

/// A value or a piece of code.
#[derive(Debug, PartialEq)]
pub enum Expression {
    Symbol(String),
    Number(i64),
    List(Vec<Expression>),
    Function(Primitive),
    Boolean(bool),
    Lambda(Lambda),
}

/// A user-defined function: a parameter list and a body, evaluated in a
/// frame whose parent is the caller's environment.
#[derive(Debug, PartialEq)]
pub struct Lambda {
    pub params: Box<Expression>,
    pub body: Box<Expression>,
}

#[derive(Debug)]
pub enum Error {
    /// Unbalanced parens
    UnbalancedParens(u32),
    /// Syntax error at a line and a column
    SyntaxError(u32, u32),
    /// Catch-all error carrying a message
    Generic(String),
}

/// The mathematical value of an expression.
pub enum Sexp {
    Sym(Seq<char>),
    Num(i64),
    List(Seq<Sexp>),
    Prim(Primitive),
    Bool(bool),
    Lam(Box<Sexp>, Box<Sexp>),
}

pub open spec fn sexp_of(e: Expression) -> Sexp
    decreases e,
{
    match e {
        Expression::Symbol(s) => Sexp::Sym(s@),
        Expression::Number(n) => Sexp::Num(n),
        Expression::List(v) => Sexp::List(sexps_of(v@)),
        Expression::Function(p) => Sexp::Prim(p),
        Expression::Boolean(b) => Sexp::Bool(b),
        Expression::Lambda(l) => Sexp::Lam(Box::new(sexp_of(*l.params)), Box::new(sexp_of(*l.body))),
    }
}

pub open spec fn sexps_of(s: Seq<Expression>) -> Seq<Sexp>
    decreases s,
{
    if s.len() == 0 {
        Seq::empty()
    } else {
        sexps_of(s.drop_last()).push(sexp_of(s.last()))
    }
}

impl View for Expression {
    type V = Sexp;

    open spec fn view(&self) -> Sexp {
        sexp_of(*self)
    }
}

pub proof fn lemma_sexps_len(s: Seq<Expression>)
    ensures
        sexps_of(s).len() == s.len(),
    decreases s.len(),
{
    if s.len() > 0 {
        lemma_sexps_len(s.drop_last());
    }
}

pub proof fn lemma_sexps_index(s: Seq<Expression>, i: int)
    requires
        0 <= i < s.len(),
    ensures
        sexps_of(s).len() == s.len(),
        sexps_of(s)[i] == sexp_of(s[i]),
    decreases s.len(),
{
    lemma_sexps_len(s);
    if i < s.len() - 1 {
        lemma_sexps_index(s.drop_last(), i);
    }
}

/// Lists over the same views have the same view.
pub proof fn lemma_sexps_ext(a: Seq<Expression>, b: Seq<Expression>)
    requires
        a.len() == b.len(),
        forall|i: int| 0 <= i < a.len() ==> sexp_of(#[trigger] a[i]) == sexp_of(b[i]),
    ensures
        sexps_of(a) == sexps_of(b),
    decreases a.len(),
{
    if a.len() > 0 {
        lemma_sexps_ext(a.drop_last(), b.drop_last());
    }
}

/// The views of a list without its head are the list's views without theirs.
pub proof fn lemma_sexps_tail(s: Seq<Expression>)
    requires
        s.len() > 0,
    ensures
        sexps_of(s.subrange(1, s.len() as int)) == sexps_of(s).drop_first(),
        sexps_of(s)[0] == sexp_of(s[0]),
{
    let t = s.subrange(1, s.len() as int);
    lemma_sexps_len(s);
    lemma_sexps_len(t);
    lemma_sexps_index(s, 0);
    assert forall|i: int| 0 <= i < t.len() implies sexps_of(t)[i] == sexps_of(s).drop_first()[i] by {
        lemma_sexps_index(t, i);
        lemma_sexps_index(s, i + 1);
    }
    assert(sexps_of(t) =~= sexps_of(s).drop_first());
}

pub proof fn lemma_sexps_push(s: Seq<Expression>, e: Expression)
    ensures
        sexps_of(s.push(e)) == sexps_of(s).push(sexp_of(e)),
{
    assert(s.push(e).drop_last() =~= s);
}

/// The printed form of a value; list items are separated by commas.
pub open spec fn text_of(e: Sexp) -> Seq<char>
    decreases e,
{
    match e {
        Sexp::Sym(s) => s,
        Sexp::Num(n) => decimal(n as int),
        Sexp::List(xs) => seq!['('] + joined(xs) + seq![')'],
        Sexp::Prim(_) => "Function {}"@,
        Sexp::Bool(b) => if b { "true"@ } else { "false"@ },
        Sexp::Lam(_, _) => "Lambda {}"@,
    }
}

/// The printed forms of `xs`, separated by commas.
pub open spec fn joined(xs: Seq<Sexp>) -> Seq<char>
    decreases xs,
{
    if xs.len() == 0 {
        Seq::empty()
    } else if xs.len() == 1 {
        text_of(xs[0])
    } else {
        joined(xs.drop_last()) + seq![','] + text_of(xs.last())
    }
}

/// How a result of the library stands to a result of values and messages:
/// the same value, or a `Generic` error with the same message.
pub open spec fn agrees(r: Result<Expression, Error>, s: Result<Sexp, Seq<char>>) -> bool {
    match (r, s) {
        (Ok(a), Ok(b)) => a@ == b,
        (Err(Error::Generic(m)), Err(msg)) => m@ == msg,
        _ => false,
    }
}

pub open spec fn message_of(e: Error) -> Seq<char> {
    match e {
        Error::UnbalancedParens(_) => "Unbalanced parens, need {} more"@,
        Error::SyntaxError(_, _) => "Syntax error at line {}, column {}"@,
        Error::Generic(m) => m@,
    }
}

/// Appends `t` to `s`.
fn push_all(s: &mut String, t: &String)
    ensures
        final(s)@ == old(s)@ + t@,
{
    s.append(t.as_str());
}

impl Expression {
    /// A copy of this expression with the same view.
    pub fn duplicate(&self) -> (r: Expression)
        ensures
            r@ == self@,
        decreases self,
    {
        match self {
            Expression::Symbol(s) => Expression::Symbol(s.clone()),
            Expression::Number(n) => Expression::Number(*n),
            Expression::List(v) => Expression::List(duplicate_all(v)),
            Expression::Function(p) => Expression::Function(*p),
            Expression::Boolean(b) => Expression::Boolean(*b),
            Expression::Lambda(l) => Expression::Lambda(
                Lambda { params: Box::new(l.params.duplicate()), body: Box::new(l.body.duplicate()) },
            ),
        }
    }

    /// The printed form: symbols and literals as written, lists as
    /// `(item,item,...)`, built-in and user functions as fixed placeholders.
    pub fn to_text(&self) -> (r: String)
        ensures
            r@ == text_of(self@),
        decreases self,
    {
        match self {
            Expression::Symbol(s) => s.clone(),
            Expression::Number(n) => {
                let mut r = String::new();
                push_decimal(&mut r, *n);
                assert(r@ =~= decimal(*n as int));
                r
            },
            Expression::List(v) => list_text(v),
            Expression::Function(_) => String::from_str("Function {}"),
            Expression::Boolean(b) => if *b {
                String::from_str("true")
            } else {
                String::from_str("false")
            },
            Expression::Lambda(_) => String::from_str("Lambda {}"),
        }
    }
}

/// The printed form of the list `v`.
fn list_text(v: &Vec<Expression>) -> (r: String)
    ensures
        r@ == text_of(Sexp::List(sexps_of(v@))),
    decreases v,
{
    let mut r = String::new();
    push_char(&mut r, '(');
    let mut i: usize = 0;
    while i < v.len()
        invariant
            0 <= i <= v.len(),
            r@ == seq!['('] + joined(sexps_of(v@.subrange(0, i as int))),
        decreases v.len() - i,
    {
        let t = v[i].to_text();
        let ghost before = r@;
        if i > 0 {
            push_char(&mut r, ',');
        }
        push_all(&mut r, &t);
        proof {
            let pre = v@.subrange(0, i as int);
            assert(v@.subrange(0, i + 1) =~= pre.push(v@[i as int]));
            lemma_sexps_push(pre, v@[i as int]);
            lemma_sexps_len(pre);
            let xs = sexps_of(pre).push(sexp_of(v@[i as int]));
            assert(xs.drop_last() =~= sexps_of(pre));
            if i == 0 {
                assert(pre =~= Seq::<Expression>::empty());
            }
            assert(r@ =~= seq!['('] + joined(xs));
        }
        i = i + 1;
    }
    push_char(&mut r, ')');
    assert(v@.subrange(0, v@.len() as int) =~= v@);
    assert(r@ =~= text_of(Sexp::List(sexps_of(v@))));
    r
}

/// Copies every element of `v`.
pub fn duplicate_all(v: &Vec<Expression>) -> (r: Vec<Expression>)
    ensures
        sexps_of(r@) == sexps_of(v@),
        r@.len() == v@.len(),
        forall|i: int| 0 <= i < v@.len() ==> sexp_of(#[trigger] r@[i]) == sexp_of(v@[i]),
    decreases v,
{
    let mut r: Vec<Expression> = Vec::new();
    let mut i: usize = 0;
    while i < v.len()
        invariant
            0 <= i <= v.len(),
            r@.len() == i,
            forall|j: int| 0 <= j < i ==> sexp_of(#[trigger] r@[j]) == sexp_of(v@[j]),
        decreases v.len() - i,
    {
        let e = v[i].duplicate();
        r.push(e);
        i = i + 1;
    }
    proof {
        lemma_sexps_ext(r@, v@);
    }
    r
}

impl Clone for Expression {
    fn clone(&self) -> Self {
        self.duplicate()
    }
}

impl Clone for Lambda {
    fn clone(&self) -> Self {
        Lambda { params: Box::new(self.params.duplicate()), body: Box::new(self.body.duplicate()) }
    }
}

impl Error {
    /// The printed form of the error.
    pub fn message(&self) -> (r: String)
        ensures
            r@ == message_of(*self),
    {
        match self {
            Error::UnbalancedParens(_) => String::from_str("Unbalanced parens, need {} more"),
            Error::SyntaxError(_, _) => String::from_str("Syntax error at line {}, column {}"),
            Error::Generic(m) => m.clone(),
        }
    }
}

} // verus!
