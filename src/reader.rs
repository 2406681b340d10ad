//! The reader: from tokens to one expression tree, and the checks that
//! turn expressions into numbers or parameter names.
use vstd::prelude::*;
use crate::expr::{Error, Expression, Sexp, lemma_sexps_push, sexps_of};
use crate::lexer::token_views;

verus! {

pub open spec fn is_digit(c: char) -> bool {
    '0' <= c && c <= '9'
}

pub open spec fn all_digits(t: Seq<char>) -> bool {
    forall|i: int| 0 <= i < t.len() ==> is_digit(#[trigger] t[i])
}

/// The value of a string of decimal digits.
pub open spec fn digits_value(t: Seq<char>) -> int
    decreases t.len(),
{
    if t.len() == 0 {
        0
    } else {
        digits_value(t.drop_last()) * 10 + (t.last() as int - '0' as int)
    }
}

pub open spec fn has_sign(t: Seq<char>) -> bool {
    t.len() > 0 && (t[0] == '-' || t[0] == '+')
}

/// The digits of a numeral, after its sign if it has one.
pub open spec fn numeral_body(t: Seq<char>) -> Seq<char> {
    if has_sign(t) {
        t.drop_first()
    } else {
        t
    }
}

pub open spec fn signed_value(t: Seq<char>) -> int {
    if has_sign(t) && t[0] == '-' {
        -digits_value(numeral_body(t))
    } else {
        digits_value(numeral_body(t))
    }
}

/// A numeral: an optional sign and at least one digit, whose value fits in
/// a 64-bit signed integer.
pub open spec fn is_numeral(t: Seq<char>) -> bool {
    numeral_body(t).len() > 0 && all_digits(numeral_body(t)) && i64::MIN <= signed_value(t)
        <= i64::MAX
}

/// The value that an atom token reads as.
pub open spec fn atom_of(t: Seq<char>) -> Sexp {
    if t == "true"@ {
        Sexp::Bool(true)
    } else if t == "false"@ {
        Sexp::Bool(false)
    } else if is_numeral(t) {
        Sexp::Num(signed_value(t) as i64)
    } else {
        Sexp::Sym(t)
    }
}

/// Reads one expression from the start of `t`: its value and how many tokens
/// it took.
pub open spec fn parse_spec(t: Seq<Seq<char>>) -> Result<(Sexp, nat), Seq<char>>
    decreases t.len(), 0nat,
{
    if t.len() == 0 {
        Err("Could not get token from expression"@)
    } else if t[0] == "("@ {
        match items_spec(t.drop_first(), Seq::empty()) {
            Ok((e, k)) => Ok((e, k + 1)),
            Err(m) => Err(m),
        }
    } else if t[0] == ")"@ {
        Err("Unexpected `)`"@)
    } else {
        Ok((atom_of(t[0]), 1))
    }
}

/// Reads the items of a list whose `(` has been taken, after the items
/// `acc`, up to and with its `)`.
pub open spec fn items_spec(t: Seq<Seq<char>>, acc: Seq<Sexp>) -> Result<(Sexp, nat), Seq<char>>
    decreases t.len(), 1nat,
{
    if t.len() == 0 {
        Err("Could not find closing `)`"@)
    } else if t[0] == ")"@ {
        Ok((Sexp::List(acc), 1))
    } else {
        match parse_spec(t) {
            Err(m) => Err(m),
            Ok((e, k)) => if 0 < k <= t.len() {
                match items_spec(t.skip(k as int), acc.push(e)) {
                    Ok((l, k2)) => Ok((l, k + k2)),
                    Err(m) => Err(m),
                }
            } else {
                Err(Seq::empty())
            },
        }
    }
}

pub proof fn lemma_parse_bounds(t: Seq<Seq<char>>)
    ensures
        parse_spec(t) matches Ok((_, k)) ==> 1 <= k <= t.len(),
    decreases t.len(), 0nat,
{
    if t.len() > 0 && t[0] == "("@ {
        lemma_items_bounds(t.drop_first(), Seq::empty());
    }
}

pub proof fn lemma_items_bounds(t: Seq<Seq<char>>, acc: Seq<Sexp>)
    ensures
        items_spec(t, acc) matches Ok((_, k)) ==> 1 <= k <= t.len(),
    decreases t.len(), 1nat,
{
    if t.len() > 0 && t[0] != ")"@ {
        lemma_parse_bounds(t);
        if let Ok((e, k)) = parse_spec(t) {
            lemma_items_bounds(t.skip(k as int), acc.push(e));
        }
    }
}

/// How the reader's result stands to the spec's reading of `t`: the same
/// value with the tokens after it, or a `Generic` error with the same message.
pub open spec fn read_agrees<'a>(
    r: Result<(Expression, &'a [String]), Error>,
    s: Result<(Sexp, nat), Seq<char>>,
    t: Seq<String>,
) -> bool {
    match (r, s) {
        (Ok((e, rest)), Ok((v, k))) => e@ == v && rest@ == t.skip(k as int),
        (Err(Error::Generic(m)), Err(msg)) => m@ == msg,
        _ => false,
    }
}

/// A reading whose token count is raised by `n`.
pub open spec fn moved(s: Result<(Sexp, nat), Seq<char>>, n: nat) -> Result<(Sexp, nat), Seq<char>> {
    match s {
        Ok((v, k)) => Ok((v, k + n)),
        Err(m) => Err(m),
    }
}

fn generic(msg: &str) -> (e: Error)
    ensures
        e matches Error::Generic(m) && m@ == msg@,
{
    Error::Generic(String::from_str(msg))
}

fn is_text(t: &String, w: &str) -> (r: bool)
    ensures
        r == (t@ == w@),
{
    *t == String::from_str(w)
}

proof fn lemma_digits_grow(t: Seq<char>, j: int)
    requires
        0 <= j <= t.len(),
        all_digits(t),
    ensures
        digits_value(t.subrange(0, j)) <= digits_value(t),
        0 <= digits_value(t.subrange(0, j)),
    decreases t.len() - j,
{
    if j < t.len() {
        lemma_digits_grow(t, j + 1);
        assert(t.subrange(0, j + 1).drop_last() =~= t.subrange(0, j));
        assert(t.subrange(0, j + 1).last() == t[j]);
    } else {
        assert(t.subrange(0, j) =~= t);
        lemma_digits_nonneg(t);
    }
}

proof fn lemma_digits_nonneg(t: Seq<char>)
    requires
        all_digits(t),
    ensures
        0 <= digits_value(t),
    decreases t.len(),
{
    if t.len() > 0 {
        lemma_digits_nonneg(t.drop_last());
    }
}

/// The value of a numeral token, or `None` for any other token.
pub fn numeral_value(token: &str) -> (r: Option<i64>)
    ensures
        r == (if is_numeral(token@) {
            Some(signed_value(token@) as i64)
        } else {
            None::<i64>
        }),
{
    let n = token.unicode_len();
    let ghost t = token@;
    if n == 0 {
        return None;
    }
    let first = token.get_char(0);
    let signed = first == '-' || first == '+';
    let start: usize = if signed { 1 } else { 0 };
    if start == n {
        return None;
    }
    let ghost body = numeral_body(t);
    assert(body =~= t.subrange(start as int, n as int));
    let mut acc: i128 = 0;
    let mut i: usize = start;
    while i < n
        invariant
            start <= i <= n,
            n == t.len(),
            t == token@,
            body == t.subrange(start as int, n as int),
            body == numeral_body(t),
            all_digits(t.subrange(start as int, i as int)),
            acc == digits_value(t.subrange(start as int, i as int)),
            0 <= acc <= 0x8000_0000_0000_0000,
        decreases n - i,
    {
        let c = token.get_char(i);
        if !('0' <= c && c <= '9') {
            assert(body[i - start] == c);
            assert(!is_digit(body[i - start]));
            assert(!all_digits(body));
            return None;
        }
        let ghost pre = t.subrange(start as int, i as int);
        assert(t.subrange(start as int, i + 1).drop_last() =~= pre);
        assert(t.subrange(start as int, i + 1).last() == c);
        acc = acc * 10 + (c as u32 - '0' as u32) as i128;
        assert(acc == digits_value(t.subrange(start as int, i + 1)));
        assert(all_digits(t.subrange(start as int, i + 1)));
        if acc > 0x8000_0000_0000_0000 {
            proof {
                let j = i + 1 - start;
                assert(body.subrange(0, j) =~= t.subrange(start as int, i + 1));
                if all_digits(body) {
                    lemma_digits_grow(body, j);
                    assert(digits_value(body) > 0x8000_0000_0000_0000);
                }
                assert(!is_numeral(t));
            }
            return None;
        }
        i = i + 1;
    }
    assert(t.subrange(start as int, n as int) =~= body);
    if first == '-' {
        Some((-acc) as i64)
    } else if acc <= 0x7fff_ffff_ffff_ffff {
        Some(acc as i64)
    } else {
        None
    }
}

/// Reads an atom: `true` and `false` are booleans, numerals are numbers,
/// and anything else is a symbol.
pub fn parse_atom(token: &String) -> (r: Expression)
    ensures
        r@ == atom_of(token@),
{
    if is_text(token, "true") {
        Expression::Boolean(true)
    } else if is_text(token, "false") {
        Expression::Boolean(false)
    } else {
        match numeral_value(token.as_str()) {
            Some(v) => Expression::Number(v),
            None => Expression::Symbol(token.clone()),
        }
    }
}

/// Reads one expression from the start of `tokens` and hands back the
/// tokens that it did not take.
pub fn parse(tokens: &[String]) -> (r: Result<(Expression, &[String]), Error>)
    ensures
        read_agrees(r, parse_spec(token_views(tokens@)), tokens@),
        r matches Ok((_, rest)) ==> rest@.len() < tokens@.len(),
    decreases tokens@.len(), 0nat,
{
    if tokens.len() == 0 {
        return Err(generic("Could not get token from expression"));
    }
    let rest = &tokens[1..tokens.len()];
    assert(rest@ =~= tokens@.drop_first());
    if is_text(&tokens[0], "(") {
        let r = read_seq(rest);
        proof {
            assert(token_views(tokens@).drop_first() =~= token_views(rest@));
            if let Ok((_, k)) = items_spec(token_views(rest@), Seq::empty()) {
                lemma_items_bounds(token_views(rest@), Seq::empty());
                assert(tokens@.drop_first().skip(k as int) =~= tokens@.skip(k as int + 1));
            }
        }
        r
    } else if is_text(&tokens[0], ")") {
        Err(generic("Unexpected `)`"))
    } else {
        Ok((parse_atom(&tokens[0]), rest))
    }
}

/// Reads the items of a list whose `(` has been taken, up to and with its
/// `)`, and hands back the tokens after it.
pub fn read_seq(tokens: &[String]) -> (r: Result<(Expression, &[String]), Error>)
    ensures
        read_agrees(r, items_spec(token_views(tokens@), Seq::empty()), tokens@),
        r matches Ok((_, rest)) ==> rest@.len() < tokens@.len(),
    decreases tokens@.len(), 1nat,
{
    let mut expressions: Vec<Expression> = Vec::new();
    let mut local: &[String] = tokens;
    let ghost used: int = 0;
    assert(tokens@.skip(0) =~= tokens@);
    loop
        invariant
            0 <= used <= tokens@.len(),
            local@ == tokens@.skip(used),
            used == 0 || local@.len() < tokens@.len(),
            items_spec(token_views(tokens@), Seq::empty()) == moved(
                items_spec(token_views(local@), sexps_of(expressions@)),
                used as nat,
            ),
        decreases local@.len(),
    {
        if local.len() == 0 {
            return Err(generic("Could not find closing `)`"));
        }
        let rest = &local[1..local.len()];
        if is_text(&local[0], ")") {
            assert(tokens@.skip(used + 1) =~= rest@);
            return Ok((Expression::List(expressions), rest));
        }
        let ghost before = token_views(local@);
        let ghost lv = local@;
        let ghost acc = expressions@;
        proof {
            lemma_parse_bounds(before);
        }
        match parse(local) {
            Err(e) => {
                return Err(e);
            },
            Ok((expression, next)) => {
                proof {
                    let k = (parse_spec(before)->Ok_0).1;
                    assert(tokens@.skip(used + k) =~= lv.skip(k as int));
                    assert(token_views(lv.skip(k as int)) =~= before.skip(k as int));
                    lemma_sexps_push(acc, expression);
                    let inner = items_spec(before.skip(k as int), sexps_of(acc).push(expression@));
                    assert(items_spec(before, sexps_of(acc)) == match inner {
                        Ok((l, k2)) => Ok((l, k + k2)),
                        Err(m) => Err(m),
                    });
                    used = used + k;
                }
                expressions.push(expression);
                local = next;
            },
        }
    }
}

} // verus!
