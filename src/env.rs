//! Environments: a chain of scopes, innermost last, searched outward.
use vstd::prelude::*;
use crate::expr::{Expression, Sexp};

verus! {

/// One name bound to one value in a scope.
pub struct Binding {
    pub name: String,
    pub value: Expression,
}

/// A scope as pairs of names and values, in the order they were bound.
pub type Scope = Seq<(Seq<char>, Sexp)>;

/// A chain of scopes: the root first, the innermost last. Each scope's parent
/// is the one before it.
pub struct Environment {
    frames: Vec<Vec<Binding>>,
}

pub open spec fn scope_view(f: Seq<Binding>) -> Scope {
    f.map_values(|b: Binding| (b.name@, b.value@))
}

/// The value most recently bound to `k` in the scope `f`.
pub open spec fn scope_get(f: Scope, k: Seq<char>) -> Option<Sexp>
    decreases f.len(),
{
    if f.len() == 0 {
        None
    } else if f.last().0 == k {
        Some(f.last().1)
    } else {
        scope_get(f.drop_last(), k)
    }
}

/// Looks `k` up in the innermost scope first, then outward.
pub open spec fn env_get(fs: Seq<Scope>, k: Seq<char>) -> Option<Sexp>
    decreases fs.len(),
{
    if fs.len() == 0 {
        None
    } else {
        match scope_get(fs.last(), k) {
            Some(v) => Some(v),
            None => env_get(fs.drop_last(), k),
        }
    }
}

/// Binds `k` to `v` in the innermost scope, over any earlier binding there.
pub open spec fn env_define(fs: Seq<Scope>, k: Seq<char>, v: Sexp) -> Seq<Scope> {
    fs.update(fs.len() - 1, fs.last().push((k, v)))
}

pub open spec fn opt_view(r: Option<Expression>) -> Option<Sexp> {
    match r {
        Some(e) => Some(e@),
        None => None,
    }
}

impl View for Environment {
    type V = Seq<Scope>;

    closed spec fn view(&self) -> Seq<Scope> {
        self.frames@.map_values(|f: Vec<Binding>| scope_view(f@))
    }
}

fn scope_find(f: &Vec<Binding>, key: &String) -> (r: Option<Expression>)
    ensures
        opt_view(r) == scope_get(scope_view(f@), key@),
{
    let ghost fv = scope_view(f@);
    let mut j: usize = f.len();
    assert(fv.subrange(0, j as int) =~= fv);
    while j > 0
        invariant
            j <= f@.len(),
            fv == scope_view(f@),
            scope_get(fv, key@) == scope_get(fv.subrange(0, j as int), key@),
        decreases j,
    {
        let ghost pre = fv.subrange(0, j as int);
        assert(pre.drop_last() =~= fv.subrange(0, j - 1));
        if f[j - 1].name == *key {
            return Some(f[j - 1].value.duplicate());
        }
        j = j - 1;
    }
    assert(fv.subrange(0, 0) =~= Seq::<(Seq<char>, Sexp)>::empty());
    None
}

impl Environment {
    /// Every environment has at least its root scope.
    pub open spec fn wf(&self) -> bool {
        self@.len() > 0
    }

    /// An environment with one empty root scope.
    pub fn new() -> (r: Environment)
        ensures
            r@ == seq![Seq::<(Seq<char>, Sexp)>::empty()],
            r.wf(),
    {
        let mut frames: Vec<Vec<Binding>> = Vec::new();
        frames.push(Vec::new());
        let r = Environment { frames };
        assert(r@[0] =~= Seq::<(Seq<char>, Sexp)>::empty());
        assert(r@ =~= seq![Seq::<(Seq<char>, Sexp)>::empty()]);
        r
    }

    /// Looks `key` up, innermost scope first.
    pub fn get(&self, key: &String) -> (r: Option<Expression>)
        ensures
            opt_view(r) == env_get(self@, key@),
    {
        let ghost fs = self@;
        let mut i: usize = self.frames.len();
        assert(fs.subrange(0, i as int) =~= fs);
        while i > 0
            invariant
                i <= self.frames@.len(),
                fs == self@,
                env_get(fs, key@) == env_get(fs.subrange(0, i as int), key@),
            decreases i,
        {
            let ghost pre = fs.subrange(0, i as int);
            assert(pre.drop_last() =~= fs.subrange(0, i - 1));
            let found = scope_find(&self.frames[i - 1], key);
            if found.is_some() {
                return found;
            }
            i = i - 1;
        }
        assert(fs.subrange(0, 0) =~= Seq::<Scope>::empty());
        None
    }

    /// Binds `key` to `value` in the innermost scope.
    pub fn define(&mut self, key: String, value: Expression)
        requires
            old(self).wf(),
        ensures
            final(self)@ == env_define(old(self)@, key@, value@),
            final(self).wf(),
    {
        let ghost k = key@;
        let ghost v = value@;
        let mut frame = self.frames.pop().unwrap();
        let ghost before = frame@;
        frame.push(Binding { name: key, value });
        assert(scope_view(frame@) =~= scope_view(before).push((k, v)));
        self.frames.push(frame);
        assert(old(self)@.last() == scope_view(before));
        assert(final(self)@ =~= env_define(old(self)@, key@, value@));
    }

    /// Opens a new innermost scope holding `frame`.
    pub fn push_scope(&mut self, frame: Vec<Binding>)
        ensures
            final(self)@ == old(self)@.push(scope_view(frame@)),
    {
        self.frames.push(frame);
        assert(final(self)@ =~= old(self)@.push(scope_view(frame@)));
    }

    /// Closes the innermost scope.
    pub fn pop_scope(&mut self)
        requires
            old(self)@.len() > 1,
        ensures
            final(self)@ == old(self)@.drop_last(),
            final(self).wf(),
    {
        self.frames.pop();
        assert(final(self)@ =~= old(self)@.drop_last());
    }
}

} // verus!
