//! The primitive library: sums, differences and chained comparisons over
//! numbers.
use vstd::prelude::*;
use crate::expr::{Error, Expression, Primitive, Sexp, lemma_sexps_index, sexps_of};

verus! {

/// The numbers that `xs` holds, when every item is a number.
pub open spec fn numbers_of(xs: Seq<Sexp>) -> Option<Seq<i64>> {
    if forall|i: int| 0 <= i < xs.len() ==> #[trigger] xs[i] is Num {
        Some(Seq::new(xs.len(), |i: int| xs[i]->Num_0))
    } else {
        None
    }
}

pub open spec fn sum_of(ns: Seq<i64>) -> int
    decreases ns.len(),
{
    if ns.len() == 0 {
        0
    } else {
        sum_of(ns.drop_last()) + ns.last()
    }
}

pub open spec fn fits(n: int) -> bool {
    i64::MIN <= n <= i64::MAX
}

/// The relation that a comparison primitive checks between neighbours.
pub open spec fn holds(p: Primitive, a: i64, b: i64) -> bool {
    match p {
        Primitive::Equal => a == b,
        Primitive::Greater => a > b,
        Primitive::GreaterEqual => a >= b,
        Primitive::Less => a < b,
        Primitive::LessEqual => a <= b,
        _ => false,
    }
}

/// Every pair of neighbours in `ns` stands in the relation of `p`.
pub open spec fn chained(p: Primitive, ns: Seq<i64>) -> bool {
    forall|i: int| 0 <= i < ns.len() - 1 ==> holds(p, #[trigger] ns[i], ns[i + 1])
}

/// What a primitive returns on already evaluated arguments.
pub open spec fn apply_spec(p: Primitive, xs: Seq<Sexp>) -> Result<Sexp, Seq<char>> {
    match numbers_of(xs) {
        None => Err("expected a number"@),
        Some(ns) => match p {
            Primitive::Add => if fits(sum_of(ns)) {
                Ok(Sexp::Num(sum_of(ns) as i64))
            } else {
                Err("number out of range"@)
            },
            Primitive::Sub => if ns.len() == 0 {
                Err("expected at least one number"@)
            } else if fits(ns[0] - sum_of(ns.drop_first())) {
                Ok(Sexp::Num((ns[0] - sum_of(ns.drop_first())) as i64))
            } else {
                Err("number out of range"@)
            },
            _ => if ns.len() == 0 {
                Err("Expected at least one number"@)
            } else {
                Ok(Sexp::Bool(chained(p, ns)))
            },
        },
    }
}

/// The number that `exp` holds.
pub fn parse_single_float(exp: &Expression) -> (r: Result<i64, Error>)
    ensures
        match exp@ {
            Sexp::Num(n) => r == Ok::<i64, Error>(n),
            _ => r matches Err(Error::Generic(m)) && m@ == "expected a number"@,
        },
{
    match exp {
        Expression::Number(n) => Ok(*n),
        _ => Err(Error::Generic(String::from_str("expected a number"))),
    }
}

/// The numbers that `args` holds, when every item is a number.
pub fn parse_list_of_floats(args: &[Expression]) -> (r: Result<Vec<i64>, Error>)
    ensures
        match numbers_of(sexps_of(args@)) {
            Some(ns) => r matches Ok(v) && v@ == ns,
            None => r matches Err(Error::Generic(m)) && m@ == "expected a number"@,
        },
{
    let ghost xs = sexps_of(args@);
    proof {
        crate::expr::lemma_sexps_len(args@);
    }
    let mut out: Vec<i64> = Vec::new();
    let mut i: usize = 0;
    while i < args.len()
        invariant
            i <= args@.len(),
            xs == sexps_of(args@),
            xs.len() == args@.len(),
            out@.len() == i,
            forall|j: int| 0 <= j < i ==> #[trigger] xs[j] is Num && xs[j]->Num_0 == out@[j],
        decreases args@.len() - i,
    {
        proof {
            lemma_sexps_index(args@, i as int);
        }
        match parse_single_float(&args[i]) {
            Ok(n) => out.push(n),
            Err(e) => {
                assert(!(xs[i as int] is Num));
                return Err(e);
            },
        }
        i = i + 1;
    }
    assert(out@ =~= Seq::new(xs.len(), |j: int| xs[j]->Num_0));
    Ok(out)
}

/// The sum of `ns[from..]`.
fn sum_from(ns: &Vec<i64>, from: usize) -> (r: i128)
    requires
        from <= ns@.len(),
    ensures
        r == sum_of(ns@.subrange(from as int, ns@.len() as int)),
        -(ns@.len() - from) * 0x8000_0000_0000_0000 <= r <= (ns@.len() - from)
            * 0x8000_0000_0000_0000,
{
    let mut acc: i128 = 0;
    let mut i: usize = from;
    assert(ns@.subrange(from as int, from as int) =~= Seq::<i64>::empty());
    while i < ns.len()
        invariant
            from <= i <= ns@.len(),
            acc == sum_of(ns@.subrange(from as int, i as int)),
            -(i - from) * 0x8000_0000_0000_0000 <= acc <= (i - from) * 0x8000_0000_0000_0000,
        decreases ns@.len() - i,
    {
        assert(ns@.subrange(from as int, i + 1).drop_last() =~= ns@.subrange(from as int, i as int));
        let x = ns[i];
        let ghost k: int = i - from;
        assert(k + 1 <= ns@.len() < 0x1_0000_0000_0000_0000);
        assert(-(k + 1) * 0x8000_0000_0000_0000 <= acc + x <= (k + 1) * 0x8000_0000_0000_0000)
            by (nonlinear_arith)
            requires
                -k * 0x8000_0000_0000_0000 <= acc <= k * 0x8000_0000_0000_0000,
                -0x8000_0000_0000_0000 <= x < 0x8000_0000_0000_0000,
        ;
        assert((k + 1) * 0x8000_0000_0000_0000 < 0x7fff_ffff_ffff_ffff_ffff_ffff_ffff_ffff)
            by (nonlinear_arith)
            requires
                k + 1 < 0x1_0000_0000_0000_0000,
        ;
        acc = acc + x as i128;
        i = i + 1;
    }
    acc
}

/// Whether every pair of neighbours in `ns` stands in the relation of `p`.
fn check_chain(p: Primitive, ns: &Vec<i64>) -> (r: bool)
    ensures
        r == chained(p, ns@),
{
    let mut i: usize = 0;
    while ns.len() > 0 && i < ns.len() - 1
        invariant
            forall|j: int| 0 <= j < i ==> holds(p, #[trigger] ns@[j], ns@[j + 1]),
            i <= ns@.len(),
        decreases ns@.len() - i,
    {
        let a = ns[i];
        let b = ns[i + 1];
        let ok = match p {
            Primitive::Equal => a == b,
            Primitive::Greater => a > b,
            Primitive::GreaterEqual => a >= b,
            Primitive::Less => a < b,
            Primitive::LessEqual => a <= b,
            _ => false,
        };
        if !ok {
            return false;
        }
        i = i + 1;
    }
    true
}

/// Applies the primitive `p` to already evaluated arguments.
pub fn apply_primitive(p: Primitive, args: &[Expression]) -> (r: Result<Expression, Error>)
    ensures
        crate::expr::agrees(r, apply_spec(p, sexps_of(args@))),
{
    let ns = match parse_list_of_floats(args) {
        Ok(ns) => ns,
        Err(e) => {
            return Err(e);
        },
    };
    proof {
        crate::expr::lemma_sexps_len(args@);
    }
    let n = ns.len();
    assert((n as int) < 0x1_0000_0000_0000_0000);
    match p {
        Primitive::Add => {
            let s = sum_from(&ns, 0);
            assert(ns@.subrange(0, n as int) =~= ns@);
            if -0x8000_0000_0000_0000 <= s && s <= 0x7fff_ffff_ffff_ffff {
                Ok(Expression::Number(s as i64))
            } else {
                Err(Error::Generic(String::from_str("number out of range")))
            }
        },
        Primitive::Sub => {
            if n == 0 {
                return Err(Error::Generic(String::from_str("expected at least one number")));
            }
            let s = sum_from(&ns, 1);
            assert(ns@.subrange(1, n as int) =~= ns@.drop_first());
            let ghost m: int = n - 1;
            let ghost f: int = ns[0] as int;
            assert(-(m + 1) * 0x8000_0000_0000_0000 <= f - s <= (m + 1) * 0x8000_0000_0000_0000)
                by (nonlinear_arith)
                requires
                    -m * 0x8000_0000_0000_0000 <= s <= m * 0x8000_0000_0000_0000,
                    -0x8000_0000_0000_0000 <= f < 0x8000_0000_0000_0000,
            ;
            assert((m + 1) * 0x8000_0000_0000_0000 < 0x7fff_ffff_ffff_ffff_ffff_ffff_ffff_ffff)
                by (nonlinear_arith)
                requires
                    m + 1 < 0x1_0000_0000_0000_0000,
            ;
            let d = ns[0] as i128 - s;
            if -0x8000_0000_0000_0000 <= d && d <= 0x7fff_ffff_ffff_ffff {
                Ok(Expression::Number(d as i64))
            } else {
                Err(Error::Generic(String::from_str("number out of range")))
            }
        },
        _ => {
            if n == 0 {
                return Err(Error::Generic(String::from_str("Expected at least one number")));
            }
            Ok(Expression::Boolean(check_chain(p, &ns)))
        },
    }
}

} // verus!
