//! Splitting source text into tokens.
use vstd::prelude::*;

verus! {

/// The characters with the Unicode `White_Space` property.
pub open spec fn is_space(c: char) -> bool {
    let u = c as u32;
    (0x09 <= u && u <= 0x0d) || u == 0x20 || u == 0x85 || u == 0xa0 || u == 0x1680
        || (0x2000 <= u && u <= 0x200a) || u == 0x2028 || u == 0x2029 || u == 0x202f
        || u == 0x205f || u == 0x3000
}

pub open spec fn is_paren(c: char) -> bool {
    c == '(' || c == ')'
}

/// The pending atom as a token list: nothing when it is empty.
pub open spec fn flush(cur: Seq<char>) -> Seq<Seq<char>> {
    if cur.len() == 0 {
        Seq::empty()
    } else {
        seq![cur]
    }
}

/// Tokens of `s`, given the atom `cur` read so far: each parenthesis is a token
/// of its own, whitespace separates, every other run of characters is an atom.
pub open spec fn lex(s: Seq<char>, cur: Seq<char>) -> Seq<Seq<char>>
    decreases s.len(),
{
    if s.len() == 0 {
        flush(cur)
    } else {
        let c = s[0];
        if is_paren(c) {
            flush(cur) + seq![seq![c]] + lex(s.drop_first(), Seq::empty())
        } else if is_space(c) {
            flush(cur) + lex(s.drop_first(), Seq::empty())
        } else {
            lex(s.drop_first(), cur.push(c))
        }
    }
}

pub open spec fn tokens_of(s: Seq<char>) -> Seq<Seq<char>> {
    lex(s, Seq::empty())
}

pub open spec fn token_views(v: Seq<String>) -> Seq<Seq<char>> {
    v.map_values(|t: String| t@)
}

pub fn is_space_char(c: char) -> (r: bool)
    ensures
        r == is_space(c),
{
    let u = c as u32;
    (0x09 <= u && u <= 0x0d) || u == 0x20 || u == 0x85 || u == 0xa0 || u == 0x1680 || (0x2000
        <= u && u <= 0x200a) || u == 0x2028 || u == 0x2029 || u == 0x202f || u == 0x205f || u
        == 0x3000
}

fn paren_token(c: char) -> (r: String)
    requires
        is_paren(c),
    ensures
        r@ == seq![c],
{
    if c == '(' {
        let r = String::from_str("(");
        proof {
            reveal_strlit("(");
        }
        r
    } else {
        let r = String::from_str(")");
        proof {
            reveal_strlit(")");
        }
        r
    }
}

/// Splits `expression` into tokens: `(` and `)` stand alone, and the rest is
/// cut at whitespace, with no empty tokens.
pub fn tokenize(expression: String) -> (r: Vec<String>)
    ensures
        token_views(r@) == tokens_of(expression@),
{
    let text = expression.as_str();
    let n = text.unicode_len();
    let ghost s = text@;
    let mut out: Vec<String> = Vec::new();
    let mut start: usize = 0;
    let mut i: usize = 0;
    proof {
        assert(s.skip(0) =~= s);
        assert(s.subrange(0, 0) =~= Seq::<char>::empty());
        assert(token_views(out@) =~= Seq::<Seq<char>>::empty());
    }
    while i < n
        invariant
            s == expression@,
            n == s.len(),
            text@ == s,
            start <= i <= n,
            token_views(out@) + lex(s.skip(i as int), s.subrange(start as int, i as int))
                == tokens_of(s),
        decreases n - i,
    {
        let c = text.get_char(i);
        let ghost cur = s.subrange(start as int, i as int);
        let ghost prev = out@;
        proof {
            assert(s.skip(i as int)[0] == c);
            assert(s.skip(i as int).drop_first() =~= s.skip(i + 1));
        }
        if c == '(' || c == ')' || is_space_char(c) {
            if start < i {
                let atom = text.substring_char(start, i).to_owned();
                out.push(atom);
            }
            assert(token_views(out@) =~= token_views(prev) + flush(cur));
            let ghost mid = out@;
            if c == '(' || c == ')' {
                out.push(paren_token(c));
                assert(token_views(out@) =~= token_views(mid) + seq![seq![c]]);
            }
            proof {
                assert(lex(s.skip(i as int), cur) == flush(cur) + (if is_paren(c) {
                    seq![seq![c]] + lex(s.skip(i + 1), Seq::empty())
                } else {
                    lex(s.skip(i + 1), Seq::empty())
                })) by {
                    if is_paren(c) {
                        assert(flush(cur) + seq![seq![c]] + lex(s.skip(i + 1), Seq::empty())
                            =~= flush(cur) + (seq![seq![c]] + lex(s.skip(i + 1), Seq::empty())));
                    }
                };
                assert(s.subrange(i + 1, i + 1) =~= Seq::<char>::empty());
            }
            start = i + 1;
        } else {
            proof {
                assert(s.subrange(start as int, i + 1) =~= cur.push(c));
            }
        }
        i = i + 1;
    }
    let ghost prev = out@;
    if start < n {
        let atom = text.substring_char(start, n).to_owned();
        out.push(atom);
    }
    proof {
        assert(s.skip(n as int) =~= Seq::<char>::empty());
        assert(token_views(out@) =~= token_views(prev) + flush(s.subrange(start as int, n as int)));
    }
    out
}

} // verus!
