//! Printing a formula in plain ASCII and reading the text back gives the formula again.
use vstd::prelude::*;

use crate::parser::{
    after, closes, delta, depth_of, enclosed, lemma_after_after, lex, name_len, op_prec, parse,
    parse_text, split, ParseError, Token,
};
use crate::property::{
    is_name, is_name_char, wrapped, Formula, CONJONCTION, DISJONCTION, EQUIVALENCE,
    IMPLICATION,
};
use crate::symbols::{ReprConf, Sym};

verus! {

/// The tokens `t`, between parentheses when `wrap` holds.
pub open spec fn wrap_tokens(t: Seq<Token>, wrap: bool) -> Seq<Token> {
    if wrap {
        seq![Token::Open] + t + seq![Token::Close]
    } else {
        t
    }
}

/// The tokens of a formula printed in plain ASCII.
pub open spec fn plain_tokens(f: Formula) -> Seq<Token>
    decreases f,
{
    match f {
        Formula::False => seq![Token::False],
        Formula::Var(n) => seq![Token::Name(n)],
        Formula::And(l, r) => wrap_tokens(plain_tokens(*l), l.precedence(false) >= CONJONCTION)
            + seq![Token::And] + wrap_tokens(plain_tokens(*r), r.precedence(false) > CONJONCTION),
        Formula::Or(l, r) => wrap_tokens(plain_tokens(*l), l.precedence(false) >= DISJONCTION)
            + seq![Token::Or] + wrap_tokens(plain_tokens(*r), r.precedence(false) > DISJONCTION),
        Formula::Imp(l, r) => wrap_tokens(plain_tokens(*l), l.precedence(false) >= IMPLICATION)
            + seq![Token::Imp] + wrap_tokens(plain_tokens(*r), r.precedence(false) > IMPLICATION),
        Formula::Iff(l, r) => wrap_tokens(plain_tokens(*l), l.precedence(false) >= EQUIVALENCE)
            + seq![Token::Iff] + wrap_tokens(plain_tokens(*r), r.precedence(false) > EQUIVALENCE),
    }
}

/// The operator symbol and token of a binary formula.
pub open spec fn operator(f: Formula) -> (Sym, Token) {
    match f {
        Formula::And(_, _) => (Sym::Conjonction, Token::And),
        Formula::Or(_, _) => (Sym::Disjonction, Token::Or),
        Formula::Imp(_, _) => (Sym::Implication, Token::Imp),
        _ => (Sym::Equivalence, Token::Iff),
    }
}

/// A binary formula, printed plainly and as tokens, is its two operands around its
/// operator.
proof fn lemma_binary_parts(f: Formula)
    requires
        f.is_binary(),
    ensures
        ({
            let (l, r, p) = (f.left(), f.right(), f.precedence(false));
            let (sym, tok) = operator(f);
            &&& f.shown(ReprConf::plain()) == wrapped(
                l.shown(ReprConf::plain()),
                l.precedence(false) >= p,
                ReprConf::plain(),
            ) + sym.lexeme() + wrapped(
                r.shown(ReprConf::plain()),
                r.precedence(false) > p,
                ReprConf::plain(),
            )
            &&& plain_tokens(f) == wrap_tokens(plain_tokens(l), l.precedence(false) >= p) + seq![
                tok,
            ] + wrap_tokens(plain_tokens(r), r.precedence(false) > p)
            &&& op_prec(tok) == p
            &&& tok !is Not
            &&& p > 0
        }),
        decreases_to!(f => f.left()),
        decreases_to!(f => f.right()),
{
    match f {
        Formula::And(l, r) => {
            assert(decreases_to!(f => *l));
            assert(decreases_to!(f => *r));
        },
        Formula::Or(l, r) => {
            assert(decreases_to!(f => *l));
            assert(decreases_to!(f => *r));
        },
        Formula::Imp(l, r) => {
            assert(decreases_to!(f => *l));
            assert(decreases_to!(f => *r));
        },
        Formula::Iff(l, r) => {
            assert(decreases_to!(f => *l));
            assert(decreases_to!(f => *r));
        },
        _ => {},
    }
}

/// Characters other than parentheses leave the search for a closing `)` as it was.
proof fn lemma_closes_skip(u: Seq<char>, v: Seq<char>, d: nat)
    requires
        forall|i: int| 0 <= i < u.len() ==> u[i] != '(' && u[i] != ')',
    ensures
        closes(u + v, d) == closes(v, d),
    decreases u.len(),
{
    if u.len() > 0 {
        assert((u + v).drop_first() == u.drop_first() + v);
        assert((u + v)[0] == u[0]);
        lemma_closes_skip(u.drop_first(), v, d);
    }
}

/// A name holds no parenthesis.
proof fn lemma_name_chars(n: Seq<char>)
    requires
        is_name(n),
    ensures
        forall|i: int| 0 <= i < n.len() ==> #[trigger] is_name_char(n[i]),
        forall|i: int| 0 <= i < n.len() ==> n[i] != '(' && n[i] != ')',
{
    assert forall|i: int| 0 <= i < n.len() implies #[trigger] is_name_char(n[i]) by {
        if i > 0 {
            assert(is_name_char(n[i]));
        }
    }
    assert forall|i: int| 0 <= i < n.len() implies n[i] != '(' && n[i] != ')' by {
        assert(is_name_char(n[i]));
    }
}

/// A printed formula closes every group it opens.
proof fn lemma_closes_shown(f: Formula, v: Seq<char>, d: nat)
    requires
        f.well_named(),
    ensures
        closes(f.shown(ReprConf::plain()) + v, d) == closes(v, d),
    decreases f, 0nat,
{
    match f {
        Formula::False => {
            assert(f.shown(ReprConf::plain()) == seq!['!']);
            lemma_closes_skip(seq!['!'], v, d);
        },
        Formula::Var(n) => {
            lemma_name_chars(n);
            lemma_closes_skip(n, v, d);
        },
        _ => {
            lemma_binary_parts(f);
            let (l, r, p) = (f.left(), f.right(), f.precedence(false));
            let sym = operator(f).0;
            let wl = wrapped(l.shown(ReprConf::plain()), l.precedence(false) >= p, ReprConf::plain());
            let wr = wrapped(r.shown(ReprConf::plain()), r.precedence(false) > p, ReprConf::plain());
            assert(f.shown(ReprConf::plain()) + v == wl + (sym.lexeme() + (wr + v)));
            lemma_closes_operand(l, l.precedence(false) >= p, sym.lexeme() + (wr + v), d);
            lemma_closes_skip(sym.lexeme(), wr + v, d);
            lemma_closes_operand(r, r.precedence(false) > p, v, d);
        },
    }
}

/// An operand, wrapped or not, closes every group it opens.
proof fn lemma_closes_operand(x: Formula, wrap: bool, v: Seq<char>, d: nat)
    requires
        x.well_named(),
    ensures
        closes(wrapped(x.shown(ReprConf::plain()), wrap, ReprConf::plain()) + v, d) == closes(v, d),
    decreases x, 1nat,
{
    let xs = x.shown(ReprConf::plain());
    if wrap {
        let s = wrapped(xs, wrap, ReprConf::plain()) + v;
        assert(s == seq!['('] + xs + seq![')'] + v);
        assert(s[0] == '(');
        assert(s.drop_first() == xs + (seq![')'] + v));
        lemma_closes_shown(x, seq![')'] + v, d + 1);
        assert((seq![')'] + v)[0] == ')');
        assert((seq![')'] + v).drop_first() == v);
    } else {
        lemma_closes_shown(x, v, d);
    }
}

/// The run of name characters at the start of `n + b` is `n`.
proof fn lemma_name_len_concat(n: Seq<char>, b: Seq<char>)
    requires
        forall|i: int| 0 <= i < n.len() ==> #[trigger] is_name_char(n[i]),
        b.len() == 0 || !is_name_char(b[0]),
    ensures
        name_len(n + b) == n.len(),
    decreases n.len(),
{
    if n.len() > 0 {
        assert((n + b).drop_first() == n.drop_first() + b);
        assert((n + b)[0] == n[0]);
        assert forall|i: int| 0 <= i < n.drop_first().len() implies #[trigger] is_name_char(
            n.drop_first()[i],
        ) by {
            assert(n.drop_first()[i] == n[i + 1]);
        }
        lemma_name_len_concat(n.drop_first(), b);
    } else {
        assert(n + b == b);
    }
}

/// The lexer reads the text of an operator symbol as its token.
proof fn lemma_lex_symbol(f: Formula, b: Seq<char>, d: nat)
    requires
        f.is_binary(),
    ensures
        lex(operator(f).0.lexeme() + b, d) == after(seq![operator(f).1], lex(b, d)),
{
    reveal(lex);
    let s = operator(f).0.lexeme() + b;
    let k = operator(f).0.lexeme().len() as int;
    assert(s.skip(k) == b);
    assert(s[0] == operator(f).0.lexeme()[0]);
    assert(s[1] == operator(f).0.lexeme()[1]);
    if k == 3 {
        assert(s[2] == operator(f).0.lexeme()[2]);
    }
}

/// The lexer reads `!` as the false token.
proof fn lemma_lex_false(b: Seq<char>, d: nat)
    ensures
        lex(Formula::False.shown(ReprConf::plain()) + b, d) == after(
            plain_tokens(Formula::False),
            lex(b, d),
        ),
{
    reveal(lex);
    let s = Formula::False.shown(ReprConf::plain()) + b;
    assert(Formula::False.shown(ReprConf::plain()) == seq!['!']);
    assert(s[0] == '!');
    assert(s.drop_first() == b);
}

/// The lexer reads a name whole when what follows does not continue it.
proof fn lemma_lex_name(n: Seq<char>, b: Seq<char>, d: nat)
    requires
        is_name(n),
        b.len() == 0 || !is_name_char(b[0]),
    ensures
        lex(Formula::Var(n).shown(ReprConf::plain()) + b, d) == after(
            plain_tokens(Formula::Var(n)),
            lex(b, d),
        ),
{
    reveal(lex);
    let s = n + b;
    assert(Formula::Var(n).shown(ReprConf::plain()) == n);
    lemma_name_chars(n);
    lemma_name_len_concat(n, b);
    assert(s[0] == n[0]);
    assert(s.take(n.len() as int) == n);
    assert(s.skip(n.len() as int) == b);
}

/// Reading back the plain text of a formula followed by `b` gives its tokens, then
/// those of `b`, where `b` does not continue a name.
proof fn lemma_lex_shown(f: Formula, b: Seq<char>, d: nat)
    requires
        f.well_named(),
        b.len() == 0 || !is_name_char(b[0]),
    ensures
        lex(f.shown(ReprConf::plain()) + b, d) == after(plain_tokens(f), lex(b, d)),
    decreases f, 2nat,
{
    match f {
        Formula::False => lemma_lex_false(b, d),
        Formula::Var(n) => lemma_lex_name(n, b, d),
        _ => lemma_lex_binary(f, b, d),
    }
}

/// [`lemma_lex_shown`] for a binary formula.
proof fn lemma_lex_binary(f: Formula, b: Seq<char>, d: nat)
    requires
        f.is_binary(),
        f.well_named(),
        b.len() == 0 || !is_name_char(b[0]),
    ensures
        lex(f.shown(ReprConf::plain()) + b, d) == after(plain_tokens(f), lex(b, d)),
    decreases f, 1nat,
{
    let s = f.shown(ReprConf::plain()) + b;
    lemma_binary_parts(f);
    let (l, r, p) = (f.left(), f.right(), f.precedence(false));
    let (sym, tok) = operator(f);
    let (wl, wr) = (l.precedence(false) >= p, r.precedence(false) > p);
    let ls = wrapped(l.shown(ReprConf::plain()), wl, ReprConf::plain());
    let rs = wrapped(r.shown(ReprConf::plain()), wr, ReprConf::plain());
    let b2 = rs + b;
    let b1 = sym.lexeme() + b2;
    assert(s == ls + b1);
    assert(b1[0] == sym.lexeme()[0]);
    lemma_lex_operand(l, wl, b1, d);
    lemma_lex_symbol(f, b2, d);
    lemma_lex_operand(r, wr, b, d);
    lemma_after_after(seq![tok], wrap_tokens(plain_tokens(r), wr), lex(b, d));
    lemma_after_after(
        wrap_tokens(plain_tokens(l), wl),
        seq![tok] + wrap_tokens(plain_tokens(r), wr),
        lex(b, d),
    );
    assert(wrap_tokens(plain_tokens(l), wl) + (seq![tok] + wrap_tokens(plain_tokens(r), wr))
        == plain_tokens(f));
}

/// [`lemma_lex_shown`] for an operand, wrapped or not.
proof fn lemma_lex_operand(x: Formula, wrap: bool, b: Seq<char>, d: nat)
    requires
        x.well_named(),
        b.len() == 0 || !is_name_char(b[0]),
    ensures
        lex(wrapped(x.shown(ReprConf::plain()), wrap, ReprConf::plain()) + b, d) == after(
            wrap_tokens(plain_tokens(x), wrap),
            lex(b, d),
        ),
    decreases x, 3nat,
{
    let xs = x.shown(ReprConf::plain());
    if wrap {
        reveal(lex);
        let s = wrapped(xs, wrap, ReprConf::plain()) + b;
        let c = seq![')'] + b;
        assert(s == seq!['('] + xs + seq![')'] + b);
        assert(s[0] == '(');
        assert(s.drop_first() == xs + c);
        lemma_closes_shown(x, c, 0);
        assert(c[0] == ')');
        assert(c.drop_first() == b);
        lemma_lex_shown(x, c, d + 1);
        lemma_after_after(plain_tokens(x), seq![Token::Close], lex(b, d));
        lemma_after_after(seq![Token::Open], plain_tokens(x) + seq![Token::Close], lex(b, d));
        assert(seq![Token::Open] + (plain_tokens(x) + seq![Token::Close]) == wrap_tokens(
            plain_tokens(x),
            wrap,
        ));
    } else {
        lemma_lex_shown(x, b, d);
    }
}

/// Depth adds up over a concatenation.
proof fn lemma_depth_concat(a: Seq<Token>, b: Seq<Token>)
    ensures
        depth_of(a + b) == depth_of(a) + depth_of(b),
    decreases b.len(),
{
    if b.len() == 0 {
        assert(a + b == a);
    } else {
        assert((a + b).drop_last() == a + b.drop_last());
        assert((a + b).last() == b.last());
        lemma_depth_concat(a, b.drop_last());
    }
}

/// The depth of a single token is its step.
proof fn lemma_depth_single(x: Token)
    ensures
        depth_of(seq![x]) == delta(x),
{
    assert(seq![x].drop_last() =~= Seq::<Token>::empty());
    assert(depth_of(seq![x].drop_last()) == 0);
}

/// The tokens `t` close every group they open, never close one they did not open, and
/// each operator outside every group binds at most as loosely as `p`, and is no `~`.
pub open spec fn shaped(t: Seq<Token>, p: u8) -> bool {
    &&& depth_of(t) == 0
    &&& forall|i: int| 0 <= i <= t.len() ==> depth_of(#[trigger] t.take(i)) >= 0
    &&& forall|i: int|
        0 <= i < t.len() && depth_of(#[trigger] t.take(i)) == 0 ==> op_prec(t[i]) <= p
            && t[i] !is Not
}

/// Between parentheses, tokens of that shape form one group, with nothing outside it
/// but the `(`.
proof fn lemma_wrap_shape(t: Seq<Token>, p: u8)
    requires
        shaped(t, p),
        t.len() > 0,
    ensures
        enclosed(wrap_tokens(t, true)),
        shaped(wrap_tokens(t, true), 0),
        wrap_tokens(t, true).len() >= 3,
        wrap_tokens(t, true).subrange(1, wrap_tokens(t, true).len() - 1) == t,
{
    let w = wrap_tokens(t, true);
    let o = seq![Token::Open];
    lemma_depth_single(Token::Open);
    lemma_depth_single(Token::Close);
    lemma_depth_concat(o, t);
    lemma_depth_concat(o + t, seq![Token::Close]);
    assert forall|i: int| 1 <= i < w.len() implies depth_of(#[trigger] w.take(i)) > 0 by {
        assert(w.take(i) == o + t.take(i - 1));
        lemma_depth_concat(o, t.take(i - 1));
    }
    assert forall|i: int| 0 <= i <= w.len() implies depth_of(#[trigger] w.take(i)) >= 0 by {
        if i == 0 {
            assert(w.take(0).len() == 0);
        } else if i == w.len() {
            assert(w.take(i) == w);
        }
    }
    assert forall|i: int| 0 <= i < w.len() && depth_of(#[trigger] w.take(i)) == 0 implies op_prec(
        w[i],
    ) <= 0 && w[i] !is Not by {
        if i > 0 {
            assert(depth_of(w.take(i)) > 0);
        }
    }
    assert(w.subrange(1, w.len() - 1) == t);
    assert(w.last() == Token::Close);
}

/// An operand, wrapped or not, keeps its shape; wrapped, nothing in it binds at the top.
proof fn lemma_operand_shape(t: Seq<Token>, p: u8, wrap: bool)
    requires
        shaped(t, p),
        t.len() > 0,
    ensures
        shaped(wrap_tokens(t, wrap), if wrap {
            0
        } else {
            p
        }),
        wrap_tokens(t, wrap).len() > 0,
{
    if wrap {
        lemma_wrap_shape(t, p);
    }
}

/// The depths along `a + [op] + b`, for `a` and `b` that close every group they open.
proof fn lemma_joined_depths(a: Seq<Token>, op: Token, b: Seq<Token>)
    requires
        depth_of(a) == 0,
        depth_of(b) == 0,
        delta(op) == 0,
    ensures
        ({
            let u = a + seq![op] + b;
            &&& depth_of(u) == 0
            &&& forall|i: int| 0 <= i <= a.len() ==> #[trigger] u.take(i) == a.take(i)
            &&& forall|j: int|
                0 <= j <= b.len() ==> depth_of(#[trigger] u.take(a.len() + 1 + j)) == depth_of(
                    b.take(j),
                )
        }),
{
    let u = a + seq![op] + b;
    let m = a.len() as int;
    lemma_depth_single(op);
    lemma_depth_concat(a, seq![op]);
    lemma_depth_concat(a + seq![op], b);
    assert forall|i: int| 0 <= i <= a.len() implies #[trigger] u.take(i) == a.take(i) by {}
    assert forall|j: int| 0 <= j <= b.len() implies depth_of(#[trigger] u.take(m + 1 + j))
        == depth_of(b.take(j)) by {
        assert(u.take(m + 1 + j) == (a + seq![op]) + b.take(j));
        lemma_depth_concat(a + seq![op], b.take(j));
    }
}

/// [`split`] picks `m` where `m` is outside every group, binds as loosely as `p`, every
/// operator outside the groups before it binds tighter and none after it looser.
proof fn lemma_split_at(t: Seq<Token>, m: int, p: u8, k: int)
    requires
        0 <= m < t.len(),
        0 <= k <= t.len(),
        depth_of(t.take(m)) == 0,
        op_prec(t[m]) == p,
        p > 0,
        forall|i: int| 0 <= i < m && depth_of(#[trigger] t.take(i)) == 0 ==> op_prec(t[i]) < p,
        forall|i: int|
            m < i < t.len() && depth_of(#[trigger] t.take(i)) == 0 ==> op_prec(t[i]) <= p,
    ensures
        k <= m ==> (split(t, k) matches Some(j) ==> 0 <= j < k && op_prec(t[j]) < p),
        k > m ==> split(t, k) == Some(m),
    decreases k,
{
    if k > 0 {
        lemma_split_at(t, m, p, k - 1);
    }
}

/// An operand parses back to itself, wrapped or not.
proof fn lemma_parse_operand(x: Formula, wrap: bool)
    requires
        shaped(plain_tokens(x), x.precedence(false)),
        plain_tokens(x).len() > 0,
        parse(plain_tokens(x)) == Ok::<Formula, ParseError>(x),
    ensures
        parse(wrap_tokens(plain_tokens(x), wrap)) == Ok::<Formula, ParseError>(x),
{
    if wrap {
        lemma_wrap_shape(plain_tokens(x), x.precedence(false));
    }
}

/// The plain tokens of a formula have the shape that the parser relies on, and parse
/// back to the formula.
#[verifier::rlimit(80)]
proof fn lemma_parse_tokens(f: Formula)
    ensures
        shaped(plain_tokens(f), f.precedence(false)),
        plain_tokens(f).len() > 0,
        parse(plain_tokens(f)) == Ok::<Formula, ParseError>(f),
    decreases f,
{
    match f {
        Formula::False => lemma_atom_shape(f),
        Formula::Var(_) => lemma_atom_shape(f),
        _ => {
            lemma_binary_parts(f);
            let (l, r, p) = (f.left(), f.right(), f.precedence(false));
            let tok = operator(f).1;
            lemma_parse_tokens(l);
            lemma_parse_tokens(r);
            let (wl, wr) = (l.precedence(false) >= p, r.precedence(false) > p);
            let pa: u8 = if wl {
                0
            } else {
                l.precedence(false)
            };
            let pb: u8 = if wr {
                0
            } else {
                r.precedence(false)
            };
            let a = wrap_tokens(plain_tokens(l), wl);
            let b = wrap_tokens(plain_tokens(r), wr);
            lemma_operand_shape(plain_tokens(l), l.precedence(false), wl);
            lemma_operand_shape(plain_tokens(r), r.precedence(false), wr);
            let t = a + seq![tok] + b;
            assert(t == plain_tokens(f));
            lemma_joined_depths(a, tok, b);
            let m = a.len() as int;
            assert(t.take(m) == a.take(m));
            assert(a.take(m) == a);
            assert forall|i: int| 0 <= i < m && depth_of(#[trigger] t.take(i)) == 0 implies op_prec(
                t[i],
            ) < p && t[i] !is Not by {
                assert(t.take(i) == a.take(i));
                assert(t[i] == a[i]);
            }
            assert forall|i: int|
                m < i < t.len() && depth_of(#[trigger] t.take(i)) == 0 implies op_prec(t[i]) <= p
                && t[i] !is Not by {
                let j = i - m - 1;
                assert(t.take(m + 1 + j) == t.take(i));
                assert(depth_of(b.take(j)) == 0);
                assert(t[i] == b[j]);
            }
            assert forall|i: int| 0 <= i <= t.len() implies depth_of(#[trigger] t.take(i)) >= 0 by {
                if i <= m {
                    assert(t.take(i) == a.take(i));
                } else {
                    let j = i - m - 1;
                    assert(t.take(m + 1 + j) == t.take(i));
                    assert(depth_of(b.take(j)) >= 0);
                }
            }
            assert(t[m] == tok);
            lemma_split_at(t, m, p, t.len() as int);
            assert(!enclosed(t)) by {
                assert(depth_of(t.take(m)) == 0);
            }
            assert(t.take(m) == a);
            assert(t.skip(m + 1) == b);
            lemma_parse_operand(l, wl);
            lemma_parse_operand(r, wr);
            assert(t.len() >= 3);
        },
    }
}

/// A constant or a variable is one token, which parses back to it.
proof fn lemma_atom_shape(f: Formula)
    requires
        f is False || f is Var,
    ensures
        shaped(plain_tokens(f), f.precedence(false)),
        plain_tokens(f).len() > 0,
        parse(plain_tokens(f)) == Ok::<Formula, ParseError>(f),
{
    let t = plain_tokens(f);
    assert(t.len() == 1);
    lemma_depth_single(t[0]);
    assert(t == seq![t[0]]);
    assert forall|i: int| 0 <= i <= t.len() implies depth_of(#[trigger] t.take(i)) >= 0 by {
        if i == 0 {
            assert(t.take(0).len() == 0);
        } else {
            assert(t.take(1) == t);
        }
    }
}

/// Printing a formula in plain ASCII and reading the text back gives the formula again,
/// for every formula whose variables carry names that the lexer accepts.
pub proof fn lemma_parse_print(f: Formula)
    requires
        f.well_named(),
    ensures
        parse_text(f.shown(ReprConf::plain())) == Ok::<Formula, ParseError>(f),
{
    lemma_lex_shown(f, seq![], 0);
    assert(f.shown(ReprConf::plain()) + seq![] == f.shown(ReprConf::plain()));
    reveal(lex);
    assert(lex(seq![], 0) == Ok::<Seq<Token>, ParseError>(seq![]));
    assert(plain_tokens(f) + seq![] == plain_tokens(f));
    lemma_parse_tokens(f);
}

} // verus!
