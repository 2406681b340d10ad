//! Reading what was written: a tree that the reader produced, written out
//! token by token, reads back as the same tree.
use vstd::prelude::*;
use crate::expr::{Sexp, text_of};
use crate::lexer::{flush, is_paren, is_space, lex, tokens_of};
use crate::reader::{
    all_digits, atom_of, digits_value, has_sign, is_numeral, items_spec, numeral_body, parse_spec,
    signed_value,
};
use crate::text::{decimal, digit_char, digits};

verus! {

pub open spec fn is_atom_char(c: char) -> bool {
    !is_space(c) && !is_paren(c)
}

/// A token that is neither a parenthesis nor holds whitespace.
pub open spec fn is_atom_token(t: Seq<char>) -> bool {
    t.len() > 0 && forall|i: int| 0 <= i < t.len() ==> is_atom_char(#[trigger] t[i])
}

/// A token as the lexer makes them.
pub open spec fn well_formed(t: Seq<char>) -> bool {
    t == seq!['('] || t == seq![')'] || is_atom_token(t)
}

pub open spec fn all_well_formed(ts: Seq<Seq<char>>) -> bool {
    forall|i: int| 0 <= i < ts.len() ==> well_formed(#[trigger] ts[i])
}

/// A tree that the reader can produce.
pub open spec fn readable(e: Sexp) -> bool
    decreases e,
{
    match e {
        Sexp::Sym(s) => is_atom_token(s) && atom_of(s) == Sexp::Sym(s),
        Sexp::Num(_) => true,
        Sexp::Bool(_) => true,
        Sexp::List(xs) => all_readable(xs),
        _ => false,
    }
}

pub open spec fn all_readable(xs: Seq<Sexp>) -> bool
    decreases xs,
{
    if xs.len() == 0 {
        true
    } else {
        readable(xs[0]) && all_readable(xs.drop_first())
    }
}

/// The tokens that write out a tree.
pub open spec fn flat(e: Sexp) -> Seq<Seq<char>>
    decreases e,
{
    match e {
        Sexp::Sym(s) => seq![s],
        Sexp::Num(n) => seq![decimal(n as int)],
        Sexp::Bool(b) => seq![if b { "true"@ } else { "false"@ }],
        Sexp::List(xs) => seq![seq!['(']] + flat_all(xs) + seq![seq![')']],
        _ => Seq::empty(),
    }
}

pub open spec fn flat_all(xs: Seq<Sexp>) -> Seq<Seq<char>>
    decreases xs,
{
    if xs.len() == 0 {
        Seq::empty()
    } else {
        flat(xs[0]) + flat_all(xs.drop_first())
    }
}

/// The printed form with list items separated by single spaces in place
/// of commas.
pub open spec fn spaced_text(e: Sexp) -> Seq<char>
    decreases e,
{
    match e {
        Sexp::List(xs) => seq!['('] + spaced_items(xs) + seq![')'],
        _ => text_of(e),
    }
}

pub open spec fn spaced_items(xs: Seq<Sexp>) -> Seq<char>
    decreases xs,
{
    if xs.len() == 0 {
        Seq::empty()
    } else if xs.len() == 1 {
        spaced_text(xs[0])
    } else {
        spaced_text(xs[0]) + seq![' '] + spaced_items(xs.drop_first())
    }
}

/// Text that is empty or starts where a token ends.
pub open spec fn starts_at_boundary(r: Seq<char>) -> bool {
    r.len() == 0 || is_paren(r[0]) || is_space(r[0])
}

proof fn lemma_digit_char(d: nat)
    requires
        d < 10,
    ensures
        digit_char(d) as int == '0' as int + d,
        crate::reader::is_digit(digit_char(d)),
{
}

proof fn lemma_digits_read(n: nat)
    ensures
        digits(n).len() > 0,
        all_digits(digits(n)),
        digits_value(digits(n)) == n,
    decreases n,
{
    if n >= 10 {
        lemma_digits_read(n / 10);
        lemma_digit_char(n % 10);
        let d = digits(n);
        assert(d.drop_last() =~= digits(n / 10));
        assert(d.last() == digit_char(n % 10));
        assert(digits_value(d) == digits_value(digits(n / 10)) * 10 + (n % 10));
        assert forall|i: int| 0 <= i < d.len() implies crate::reader::is_digit(#[trigger] d[i]) by {
            if i < d.len() - 1 {
                assert(d[i] == digits(n / 10)[i]);
            }
        }
    } else {
        lemma_digit_char(n);
        let d = digits(n);
        assert(d =~= seq![digit_char(n)]);
        assert(d.drop_last() =~= Seq::<char>::empty());
        assert(digits_value(d) == digits_value(d.drop_last()) * 10 + (d.last() as int - '0' as int));
        assert forall|i: int| 0 <= i < d.len() implies crate::reader::is_digit(#[trigger] d[i]) by {}
    }
}

/// A decimal numeral reads back as its number.
proof fn lemma_decimal_reads(n: i64)
    ensures
        atom_of(decimal(n as int)) == Sexp::Num(n),
        is_atom_token(decimal(n as int)),
{
    reveal_strlit("true");
    reveal_strlit("false");
    let t = decimal(n as int);
    if n < 0 {
        let m = (-(n as int)) as nat;
        lemma_digits_read(m);
        assert(t[0] == '-');
        assert(t.drop_first() =~= digits(m));
        assert(numeral_body(t) == digits(m));
        assert(t != "true"@ && t != "false"@);
        assert forall|i: int| 0 <= i < t.len() implies is_atom_char(#[trigger] t[i]) by {
            if i > 0 {
                assert(t[i] == digits(m)[i - 1]);
            }
        }
    } else {
        lemma_digits_read(n as nat);
        assert(crate::reader::is_digit(t[0]));
        assert(!has_sign(t));
        assert(t != "true"@ && t != "false"@);
        assert forall|i: int| 0 <= i < t.len() implies is_atom_char(#[trigger] t[i]) by {
            assert(crate::reader::is_digit(t[i]));
        }
    }
    assert(is_numeral(t));
    assert(signed_value(t) == n);
}

proof fn lemma_paren_texts()
    ensures
        "("@ == seq!['('],
        ")"@ == seq![')'],
{
    reveal_strlit("(");
    reveal_strlit(")");
    assert("("@ =~= seq!['(']);
    assert(")"@ =~= seq![')']);
}

proof fn lemma_first_token(e: Sexp)
    requires
        readable(e),
    ensures
        flat(e).len() > 0,
        flat(e)[0] != ")"@,
        flat(e)[0] == "("@ <==> e is List,
{
    lemma_paren_texts();
    reveal_strlit("true");
    reveal_strlit("false");
    match e {
        Sexp::Sym(s) => {
            assert(is_atom_char(s[0]));
            assert(flat(e)[0] == s);
            assert(s[0] != '(' && s[0] != ')');
            assert(s != ")"@) by {
                if s == ")"@ {
                    assert(s[0] == ")"@[0]);
                }
            }
            assert(s != "("@) by {
                if s == "("@ {
                    assert(s[0] == "("@[0]);
                }
            }
        },
        Sexp::Num(n) => {
            lemma_decimal_reads(n);
            let d = decimal(n as int);
            assert(flat(e)[0] == d);
            assert(is_atom_char(d[0]));
            assert(d != ")"@ && d != "("@) by {
                if d == ")"@ {
                    assert(d[0] == ")"@[0]);
                }
                if d == "("@ {
                    assert(d[0] == "("@[0]);
                }
            }
        },
        Sexp::Bool(b) => {
            let w: Seq<char> = if b { "true"@ } else { "false"@ };
            assert(flat(e)[0] == w);
            assert(w != ")"@ && w != "("@) by {
                if w == ")"@ {
                    assert(w[0] == ")"@[0]);
                }
                if w == "("@ {
                    assert(w[0] == "("@[0]);
                }
            }
        },
        Sexp::List(xs) => {
            assert(flat(e)[0] == seq!['(']);
            assert(seq!['('] != ")"@) by {
                assert(seq!['('][0] != ")"@[0]);
            }
        },
        _ => {},
    }
}

/// Reading the tokens of a readable tree gives the tree back and takes
/// exactly its tokens.
pub proof fn lemma_read_flat(e: Sexp, rest: Seq<Seq<char>>)
    requires
        readable(e),
    ensures
        parse_spec(flat(e) + rest) == Ok::<(Sexp, nat), Seq<char>>((e, flat(e).len())),
    decreases e,
{
    lemma_paren_texts();
    lemma_first_token(e);
    let t = flat(e) + rest;
    match e {
        Sexp::List(xs) => {
            assert(t[0] == seq!['(']);
            assert(t.drop_first() =~= flat_all(xs) + seq![seq![')']] + rest);
            lemma_read_items(xs, rest, Seq::empty());
            assert(Seq::<Sexp>::empty() + xs =~= xs);
            assert(t[0] == "("@);
            assert(items_spec(t.drop_first(), Seq::empty()) == Ok::<(Sexp, nat), Seq<char>>(
                (Sexp::List(xs), flat_all(xs).len() + 1),
            ));
            assert(flat(e).len() == flat_all(xs).len() + 2);
            assert(t.len() > 0);
            assert(parse_spec(t) == Ok::<(Sexp, nat), Seq<char>>((Sexp::List(xs), flat(e).len())));
        },
        _ => {
            if let Sexp::Num(n) = e {
                lemma_decimal_reads(n);
            }
            reveal_strlit("true");
            reveal_strlit("false");
            assert(t[0] == flat(e)[0]);
            assert(t[0] != "("@ && t[0] != ")"@);
            assert(atom_of(t[0]) == e);
            assert(flat(e).len() == 1);
        },
    }
}

proof fn lemma_read_items(xs: Seq<Sexp>, rest: Seq<Seq<char>>, acc: Seq<Sexp>)
    requires
        all_readable(xs),
    ensures
        items_spec(flat_all(xs) + seq![seq![')']] + rest, acc) == Ok::<(Sexp, nat), Seq<char>>(
            (Sexp::List(acc + xs), flat_all(xs).len() + 1),
        ),
    decreases xs,
{
    lemma_paren_texts();
    let t = flat_all(xs) + seq![seq![')']] + rest;
    if xs.len() == 0 {
        assert(acc + xs =~= acc);
        assert(t[0] == seq![')']);
    } else {
        let e = xs[0];
        let tail = flat_all(xs.drop_first()) + seq![seq![')']] + rest;
        assert(t =~= flat(e) + tail);
        lemma_first_token(e);
        lemma_read_flat(e, tail);
        let k = flat(e).len();
        assert(t.skip(k as int) =~= tail);
        lemma_read_items(xs.drop_first(), rest, acc.push(e));
        assert(acc.push(e) + xs.drop_first() =~= acc + xs);
    }
}

/// What the reader produces from well-formed tokens is readable.
pub proof fn lemma_parsed_readable(t: Seq<Seq<char>>)
    requires
        all_well_formed(t),
    ensures
        parse_spec(t) matches Ok((e, _)) ==> readable(e),
    decreases t.len(), 0nat,
{
    lemma_paren_texts();
    if t.len() > 0 {
        if t[0] == "("@ {
            lemma_items_readable(t.drop_first(), Seq::empty());
        } else if t[0] != ")"@ {
            assert(well_formed(t[0]));
            if atom_of(t[0]) is Sym {
                assert(is_atom_token(t[0]));
            }
        }
    }
}

proof fn lemma_items_readable(t: Seq<Seq<char>>, acc: Seq<Sexp>)
    requires
        all_well_formed(t),
        all_readable(acc),
    ensures
        items_spec(t, acc) matches Ok((e, _)) ==> readable(e),
    decreases t.len(), 1nat,
{
    lemma_paren_texts();
    if t.len() > 0 && t[0] != ")"@ {
        lemma_parsed_readable(t);
        crate::reader::lemma_parse_bounds(t);
        if let Ok((e, k)) = parse_spec(t) {
            lemma_all_readable_push(acc, e);
            assert forall|i: int| 0 <= i < t.skip(k as int).len() implies well_formed(
                #[trigger] t.skip(k as int)[i],
            ) by {
                assert(t.skip(k as int)[i] == t[i + k]);
            }
            lemma_items_readable(t.skip(k as int), acc.push(e));
        }
    }
}

proof fn lemma_all_readable_push(xs: Seq<Sexp>, e: Sexp)
    requires
        all_readable(xs),
        readable(e),
    ensures
        all_readable(xs.push(e)),
    decreases xs.len(),
{
    let ys = xs.push(e);
    if xs.len() > 0 {
        lemma_all_readable_push(xs.drop_first(), e);
        assert(ys[0] == xs[0]);
        assert(readable(xs[0]));
        assert(ys.drop_first() =~= xs.drop_first().push(e));
        assert(all_readable(ys.drop_first()));
        assert(readable(ys[0]));
    } else {
        assert(ys[0] == e);
        assert(ys.drop_first() =~= Seq::<Sexp>::empty());
        assert(all_readable(ys.drop_first()));
    }
}

proof fn lemma_lex_well_formed(s: Seq<char>, cur: Seq<char>)
    requires
        forall|i: int| 0 <= i < cur.len() ==> is_atom_char(#[trigger] cur[i]),
    ensures
        all_well_formed(lex(s, cur)),
    decreases s.len(),
{
    if s.len() > 0 {
        let c = s[0];
        if is_paren(c) || is_space(c) {
            lemma_lex_well_formed(s.drop_first(), Seq::empty());
        } else {
            lemma_lex_well_formed(s.drop_first(), cur.push(c));
        }
    }
}

proof fn lemma_lex_boundary(r: Seq<char>, cur: Seq<char>)
    requires
        starts_at_boundary(r),
    ensures
        lex(r, cur) == flush(cur) + lex(r, Seq::empty()),
{
    if r.len() > 0 {
        let c = r[0];
        if is_paren(c) {
            assert(lex(r, cur) =~= flush(cur) + (flush(Seq::empty()) + seq![seq![c]] + lex(
                r.drop_first(),
                Seq::empty(),
            )));
        } else {
            assert(lex(r, cur) =~= flush(cur) + (flush(Seq::empty()) + lex(
                r.drop_first(),
                Seq::empty(),
            )));
        }
    } else {
        assert(flush(cur) + Seq::<Seq<char>>::empty() =~= flush(cur));
    }
}

proof fn lemma_lex_atom(a: Seq<char>, r: Seq<char>, cur: Seq<char>)
    requires
        forall|i: int| 0 <= i < a.len() ==> is_atom_char(#[trigger] a[i]),
        starts_at_boundary(r),
    ensures
        lex(a + r, cur) == flush(cur + a) + lex(r, Seq::empty()),
    decreases a.len(),
{
    if a.len() == 0 {
        assert(a + r =~= r);
        assert(cur + a =~= cur);
        lemma_lex_boundary(r, cur);
    } else {
        let s = a + r;
        assert(s[0] == a[0]);
        assert(s.drop_first() =~= a.drop_first() + r);
        lemma_lex_atom(a.drop_first(), r, cur.push(a[0]));
        assert(cur.push(a[0]) + a.drop_first() =~= cur + a);
    }
}

/// The printed form of a readable tree, before a token boundary, splits
/// into the tree's tokens.
proof fn lemma_lex_text(e: Sexp, r: Seq<char>)
    requires
        readable(e),
        starts_at_boundary(r),
    ensures
        lex(spaced_text(e) + r, Seq::empty()) == flat(e) + lex(r, Seq::empty()),
    decreases e,
{
    reveal_strlit("true");
    reveal_strlit("false");
    match e {
        Sexp::List(xs) => {
            let s = spaced_text(e) + r;
            assert(s[0] == '(');
            assert(s.drop_first() =~= spaced_items(xs) + seq![')'] + r);
            lemma_lex_items(xs, r);
            assert(lex(s, Seq::empty()) =~= flush(Seq::empty()) + seq![seq!['(']] + lex(
                s.drop_first(),
                Seq::empty(),
            ));
            assert(lex(s, Seq::empty()) =~= flat(e) + lex(r, Seq::empty()));
        },
        _ => {
            if let Sexp::Num(n) = e {
                lemma_decimal_reads(n);
            }
            let a = spaced_text(e);
            assert(a == flat(e)[0]);
            assert(forall|i: int| 0 <= i < a.len() ==> is_atom_char(#[trigger] a[i]));
            lemma_lex_atom(a, r, Seq::empty());
            assert(Seq::<char>::empty() + a =~= a);
            assert(flush(a) =~= flat(e));
        },
    }
}

proof fn lemma_lex_items(xs: Seq<Sexp>, r: Seq<char>)
    requires
        all_readable(xs),
    ensures
        lex(spaced_items(xs) + seq![')'] + r, Seq::empty()) == flat_all(xs) + seq![seq![')']]
            + lex(r, Seq::empty()),
    decreases xs,
{
    let close = seq![')'] + r;
    assert(close[0] == ')');
    assert(close.drop_first() =~= r);
    assert(lex(close, Seq::empty()) =~= flush(Seq::empty()) + seq![seq![')']] + lex(
        r,
        Seq::empty(),
    ));
    if xs.len() == 0 {
        assert(spaced_items(xs) + seq![')'] + r =~= close);
        assert(flat_all(xs) + seq![seq![')']] + lex(r, Seq::empty()) =~= lex(close, Seq::empty()));
    } else if xs.len() == 1 {
        assert(spaced_items(xs) + seq![')'] + r =~= spaced_text(xs[0]) + close);
        lemma_lex_text(xs[0], close);
        assert(flat_all(xs.drop_first()) =~= Seq::<Seq<char>>::empty());
        assert(flat_all(xs) =~= flat(xs[0]));
        assert(flat(xs[0]) + lex(close, Seq::empty()) =~= flat_all(xs) + seq![seq![')']] + lex(
            r,
            Seq::empty(),
        ));
    } else {
        let tail = spaced_items(xs.drop_first()) + seq![')'] + r;
        let gap = seq![' '] + tail;
        assert(spaced_items(xs) + seq![')'] + r =~= spaced_text(xs[0]) + gap);
        lemma_lex_text(xs[0], gap);
        assert(gap[0] == ' ');
        assert(gap.drop_first() =~= tail);
        assert(lex(gap, Seq::empty()) =~= flush(Seq::empty()) + lex(tail, Seq::empty()));
        lemma_lex_items(xs.drop_first(), r);
        assert(flat(xs[0]) + lex(gap, Seq::empty()) =~= flat_all(xs) + seq![seq![')']] + lex(
            r,
            Seq::empty(),
        ));
    }
}

/// Round trip: what the reader makes of the tokens of any text, printed
/// with spaces between list items, splits and reads back as the same tree,
/// and every token is taken.
pub proof fn lemma_round_trip(x: Seq<char>)
    requires
        parse_spec(tokens_of(x)) is Ok,
    ensures
        ({
            let e = (parse_spec(tokens_of(x))->Ok_0).0;
            let again = tokens_of(spaced_text(e));
            parse_spec(again) == Ok::<(Sexp, nat), Seq<char>>((e, again.len()))
        }),
{
    lemma_lex_well_formed(x, Seq::empty());
    lemma_parsed_readable(tokens_of(x));
    let e = (parse_spec(tokens_of(x))->Ok_0).0;
    lemma_lex_text(e, Seq::empty());
    assert(spaced_text(e) + Seq::<char>::empty() =~= spaced_text(e));
    assert(flat(e) + lex(Seq::<char>::empty(), Seq::empty()) =~= flat(e));
    lemma_read_flat(e, Seq::empty());
    assert(flat(e) + Seq::<Seq<char>>::empty() =~= flat(e));
}

} // verus!
