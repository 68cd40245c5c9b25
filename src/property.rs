use vstd::prelude::*;

use crate::symbols::{ReprConf, Sym};
use crate::text::{push_str, string_of};

verus! {

/// A propositional formula, eg: `A/\B->B`.
///
/// Negation has no variant of its own: `~P` is `P -> !`.
#[derive(Debug)]
pub enum Prop {
    False,
    Variable(String),
    Conjonction(Box<Prop>, Box<Prop>),
    Disjonction(Box<Prop>, Box<Prop>),
    Implication(Box<Prop>, Box<Prop>),
    Equivalence(Box<Prop>, Box<Prop>),
}

/// The mathematical value of a [`Prop`]: the same tree, with each name as its characters.
pub enum Formula {
    False,
    Var(Seq<char>),
    And(Box<Formula>, Box<Formula>),
    Or(Box<Formula>, Box<Formula>),
    Imp(Box<Formula>, Box<Formula>),
    Iff(Box<Formula>, Box<Formula>),
}

impl Prop {
    /// The formula that `self` holds.
    pub open spec fn model(&self) -> Formula
        decreases self,
    {
        match self {
            Prop::False => Formula::False,
            Prop::Variable(n) => Formula::Var(n@),
            Prop::Conjonction(l, r) => Formula::And(Box::new(l.model()), Box::new(r.model())),
            Prop::Disjonction(l, r) => Formula::Or(Box::new(l.model()), Box::new(r.model())),
            Prop::Implication(l, r) => Formula::Imp(Box::new(l.model()), Box::new(r.model())),
            Prop::Equivalence(l, r) => Formula::Iff(Box::new(l.model()), Box::new(r.model())),
        }
    }
}

impl View for Prop {
    type V = Formula;

    open spec fn view(&self) -> Formula {
        self.model()
    }
}

/// The loosest binding comes last: atoms, negation, conjunction, disjunction,
/// implication, equivalence.
pub const ATOMIC: u8 = 0;
pub const NEGATION: u8 = 1;
pub const CONJONCTION: u8 = 2;
pub const DISJONCTION: u8 = 3;
pub const IMPLICATION: u8 = 4;
pub const EQUIVALENCE: u8 = 5;

/// `n` is a name that the lexer reads back whole: `[A-Za-z][A-Za-z0-9_]*`.
pub open spec fn is_name(n: Seq<char>) -> bool {
    &&& n.len() > 0
    &&& is_alpha(n[0])
    &&& forall|i: int| 0 < i < n.len() ==> #[trigger] is_name_char(n[i])
}

pub open spec fn is_alpha(c: char) -> bool {
    ('A' <= c && c <= 'Z') || ('a' <= c && c <= 'z')
}

pub open spec fn is_name_char(c: char) -> bool {
    is_alpha(c) || ('0' <= c && c <= '9') || c == '_'
}

impl Formula {
    /// A formula with a binary connective at its top.
    pub open spec fn is_binary(self) -> bool {
        self is And || self is Or || self is Imp || self is Iff
    }

    /// The left operand of a binary formula.
    pub open spec fn left(self) -> Formula {
        match self {
            Formula::And(l, _) => *l,
            Formula::Or(l, _) => *l,
            Formula::Imp(l, _) => *l,
            Formula::Iff(l, _) => *l,
            _ => self,
        }
    }

    /// The right operand of a binary formula.
    pub open spec fn right(self) -> Formula {
        match self {
            Formula::And(_, r) => *r,
            Formula::Or(_, r) => *r,
            Formula::Imp(_, r) => *r,
            Formula::Iff(_, r) => *r,
            _ => self,
        }
    }

    /// `P -> !`, the negation of `P`.
    pub open spec fn not(self) -> Formula {
        Formula::Imp(Box::new(self), Box::new(Formula::False))
    }

    /// Every variable of the formula is written with a name that the lexer reads back.
    pub open spec fn well_named(self) -> bool
        decreases self,
    {
        match self {
            Formula::False => true,
            Formula::Var(n) => is_name(n),
            Formula::And(l, r) => l.well_named() && r.well_named(),
            Formula::Or(l, r) => l.well_named() && r.well_named(),
            Formula::Imp(l, r) => l.well_named() && r.well_named(),
            Formula::Iff(l, r) => l.well_named() && r.well_named(),
        }
    }

    /// How loosely the top connective binds; with `negation`, `P -> !` counts as a negation.
    pub open spec fn precedence(self, negation: bool) -> u8 {
        match self {
            Formula::False => ATOMIC,
            Formula::Var(_) => ATOMIC,
            Formula::And(_, _) => CONJONCTION,
            Formula::Or(_, _) => DISJONCTION,
            Formula::Imp(_, r) => if negation && *r == Formula::False {
                NEGATION
            } else {
                IMPLICATION
            },
            Formula::Iff(_, _) => EQUIVALENCE,
        }
    }
}


/// `x` between parentheses.
pub open spec fn parenthesized(x: Seq<char>, conf: ReprConf) -> Seq<char> {
    Sym::OpenParenthesis.shown(conf) + x + Sym::CloseParenthesis.shown(conf)
}

/// `x`, between parentheses when `wrap` holds.
pub open spec fn wrapped(x: Seq<char>, wrap: bool, conf: ReprConf) -> Seq<char> {
    if wrap {
        parenthesized(x, conf)
    } else {
        x
    }
}

/// The colour codes of a variable name in formatted output.
pub open spec fn name_color(emphazis: bool) -> Seq<char> {
    if emphazis {
        seq!['\x1b', '[', '9', '6', 'm']
    } else {
        seq!['\x1b', '[', '9', '2', 'm']
    }
}

pub open spec fn color_reset() -> Seq<char> {
    seq!['\x1b', '[', '0', 'm']
}

/// A name as printed: coloured when the output is formatted.
pub open spec fn name_shown(n: Seq<char>, conf: ReprConf) -> Seq<char> {
    if conf.formated {
        name_color(conf.emphazis) + n + color_reset()
    } else {
        n
    }
}

impl Formula {
    /// The text of the formula. A left operand is put between parentheses when it binds
    /// as loosely as the operator or more, a right operand only when it binds more
    /// loosely, so that chains of one operator nest to the right.
    pub open spec fn shown(self, conf: ReprConf) -> Seq<char>
        decreases self,
    {
        match self {
            Formula::False => Sym::False.shown(conf),
            Formula::Var(n) => name_shown(n, conf),
            Formula::And(l, r) => binary_text(
                l.shown(conf),
                l.precedence(conf.negation) >= CONJONCTION,
                Sym::Conjonction,
                r.shown(conf),
                r.precedence(conf.negation) > CONJONCTION,
                conf,
            ),
            Formula::Or(l, r) => binary_text(
                l.shown(conf),
                l.precedence(conf.negation) >= DISJONCTION,
                Sym::Disjonction,
                r.shown(conf),
                r.precedence(conf.negation) > DISJONCTION,
                conf,
            ),
            Formula::Imp(l, r) => if conf.negation && *r == Formula::False {
                Sym::Negation.shown(conf) + wrapped(
                    l.shown(conf),
                    l.precedence(true) > NEGATION,
                    conf,
                )
            } else {
                binary_text(
                    l.shown(conf),
                    l.precedence(conf.negation) >= IMPLICATION,
                    Sym::Implication,
                    r.shown(conf),
                    r.precedence(conf.negation) > IMPLICATION,
                    conf,
                )
            },
            Formula::Iff(l, r) => binary_text(
                l.shown(conf),
                l.precedence(conf.negation) >= EQUIVALENCE,
                Sym::Equivalence,
                r.shown(conf),
                r.precedence(conf.negation) > EQUIVALENCE,
                conf,
            ),
        }
    }
}

/// `l sym r`, each operand between parentheses where its flag asks for them.
pub open spec fn binary_text(
    l: Seq<char>,
    wrap_l: bool,
    sym: Sym,
    r: Seq<char>,
    wrap_r: bool,
    conf: ReprConf,
) -> Seq<char> {
    wrapped(l, wrap_l, conf) + sym.shown(conf) + wrapped(r, wrap_r, conf)
}

impl Prop {
    /// Structural comparison of two formulas.
    pub fn same(&self, other: &Prop) -> (r: bool)
        ensures
            r == (self@ == other@),
        decreases self,
    {
        match self {
            Prop::False => match other {
                Prop::False => true,
                _ => false,
            },
            Prop::Variable(a) => match other {
                Prop::Variable(b) => a.eq(b),
                _ => false,
            },
            Prop::Conjonction(a, b) => match other {
                Prop::Conjonction(c, d) => a.same(c) && b.same(d),
                _ => false,
            },
            Prop::Disjonction(a, b) => match other {
                Prop::Disjonction(c, d) => a.same(c) && b.same(d),
                _ => false,
            },
            Prop::Implication(a, b) => match other {
                Prop::Implication(c, d) => a.same(c) && b.same(d),
                _ => false,
            },
            Prop::Equivalence(a, b) => match other {
                Prop::Equivalence(c, d) => a.same(c) && b.same(d),
                _ => false,
            },
        }
    }

    /// A copy of the formula.
    pub fn copy(&self) -> (r: Prop)
        ensures
            r@ == self@,
        decreases self,
    {
        match self {
            Prop::False => Prop::False,
            Prop::Variable(n) => Prop::Variable(n.clone()),
            Prop::Conjonction(a, b) => Prop::Conjonction(Box::new(a.copy()), Box::new(b.copy())),
            Prop::Disjonction(a, b) => Prop::Disjonction(Box::new(a.copy()), Box::new(b.copy())),
            Prop::Implication(a, b) => Prop::Implication(Box::new(a.copy()), Box::new(b.copy())),
            Prop::Equivalence(a, b) => Prop::Equivalence(Box::new(a.copy()), Box::new(b.copy())),
        }
    }

    /// Builds the `Variable` variant.
    pub fn var(name: &str) -> (r: Self)
        ensures
            r@ == Formula::Var(name@),
    {
        Prop::Variable(name.to_owned())
    }

    /// Builds the `Conjonction` variant.
    pub fn and(&self, rhs: &Self) -> (r: Self)
        ensures
            r@ == Formula::And(Box::new(self@), Box::new(rhs@)),
    {
        Prop::Conjonction(Box::new(self.copy()), Box::new(rhs.copy()))
    }

    /// Builds the `Disjonction` variant.
    pub fn or(&self, rhs: &Self) -> (r: Self)
        ensures
            r@ == Formula::Or(Box::new(self@), Box::new(rhs@)),
    {
        Prop::Disjonction(Box::new(self.copy()), Box::new(rhs.copy()))
    }

    /// Builds the `Implication` variant.
    pub fn implies(&self, rhs: &Self) -> (r: Self)
        ensures
            r@ == Formula::Imp(Box::new(self@), Box::new(rhs@)),
    {
        Prop::Implication(Box::new(self.copy()), Box::new(rhs.copy()))
    }

    /// Builds the negation of `self`, `self -> !`.
    pub fn negate(&self) -> (r: Self)
        ensures
            r@ == self@.not(),
    {
        self.implies(&Prop::False)
    }

    /// Wraps the formula to print it in plain ASCII.
    pub fn repr(&self) -> (r: PropRepr)
        ensures
            r.prop == self,
            r.conf == ReprConf::plain(),
    {
        self.repr_conf(ReprConf::default())
    }

    /// Wraps the formula to print it under `conf`.
    pub fn repr_conf(&self, conf: ReprConf) -> (r: PropRepr)
        ensures
            r.prop == self,
            r.conf == conf,
    {
        PropRepr { prop: self, conf }
    }

    /// `self` is the constant `!`.
    pub fn is_false(&self) -> (r: bool)
        ensures
            r == (self@ == Formula::False),
    {
        match self {
            Prop::False => true,
            _ => false,
        }
    }

    /// How loosely the top connective binds.
    fn precedence(&self, negation: bool) -> (r: u8)
        ensures
            r == self@.precedence(negation),
    {
        match self {
            Prop::False => ATOMIC,
            Prop::Variable(_) => ATOMIC,
            Prop::Conjonction(_, _) => CONJONCTION,
            Prop::Disjonction(_, _) => DISJONCTION,
            Prop::Implication(_, rhs) => {
                let rhs_false = match &**rhs {
                    Prop::False => true,
                    _ => false,
                };
                assert(rhs_false <==> rhs@ == Formula::False) by {
                    reveal_with_fuel(Prop::model, 2);
                }
                if negation && rhs_false {
                    NEGATION
                } else {
                    IMPLICATION
                }
            },
            Prop::Equivalence(_, _) => EQUIVALENCE,
        }
    }
}

/// A formula to be printed between parentheses.
pub struct Paren<'a>(pub &'a Prop, pub ReprConf);

impl<'a> Paren<'a> {
    /// Appends the formula between parentheses.
    pub fn fmt(&self, out: &mut Vec<char>)
        ensures
            final(out)@ == old(out)@ + parenthesized(self.0@.shown(self.1), self.1),
        decreases self.0, 4nat,
    {
        Sym::OpenParenthesis.fmt(self.1, out);
        write_prop(self.0, self.1, out);
        Sym::CloseParenthesis.fmt(self.1, out);
    }
}

/// Appends `x`, between parentheses when `wrap` holds.
fn write_operand(x: &Prop, wrap: bool, conf: ReprConf, out: &mut Vec<char>)
    ensures
        final(out)@ == old(out)@ + wrapped(x@.shown(conf), wrap, conf),
    decreases x, 5nat,
{
    if wrap {
        Paren(x, conf).fmt(out);
    } else {
        write_prop(x, conf, out);
    }
}

/// Appends a variable name, coloured when the output is formatted.
fn write_name(name: &String, conf: ReprConf, out: &mut Vec<char>)
    ensures
        final(out)@ == old(out)@ + name_shown(name@, conf),
{
    if conf.formated {
        if conf.emphazis {
            proof {
                reveal_strlit("\x1b[96m");
            }
            push_str(out, "\x1b[96m");
        } else {
            proof {
                reveal_strlit("\x1b[92m");
            }
            push_str(out, "\x1b[92m");
        }
        push_str(out, name.as_str());
        proof {
            reveal_strlit("\x1b[0m");
        }
        push_str(out, "\x1b[0m");
        assert(out@ == old(out)@ + name_shown(name@, conf));
    } else {
        push_str(out, name.as_str());
    }
}

/// Appends the text of `p` under `conf`.
pub fn write_prop(p: &Prop, conf: ReprConf, out: &mut Vec<char>)
    ensures
        final(out)@ == old(out)@ + p@.shown(conf),
    decreases p, 2nat,
{
    match p {
        Prop::False => Sym::False.fmt(conf, out),
        Prop::Variable(name) => write_name(name, conf, out),
        Prop::Conjonction(_, _) => write_binary(p, CONJONCTION, Sym::Conjonction, conf, out),
        Prop::Disjonction(_, _) => write_binary(p, DISJONCTION, Sym::Disjonction, conf, out),
        Prop::Implication(l, r) => {
            if conf.negation && r.is_false() {
                Sym::Negation.fmt(conf, out);
                let wrap = l.precedence(conf.negation) > NEGATION;
                write_operand(l, wrap, conf, out);
                assert(out@ == old(out)@ + p@.shown(conf));
            } else {
                write_binary(p, IMPLICATION, Sym::Implication, conf, out);
            }
        },
        Prop::Equivalence(_, _) => write_binary(p, EQUIVALENCE, Sym::Equivalence, conf, out),
    }
}

/// Appends `l sym r` for the binary formula `p`, whose operator has precedence `prec`.
fn write_binary(p: &Prop, prec: u8, sym: Sym, conf: ReprConf, out: &mut Vec<char>)
    requires
        p@.is_binary(),
    ensures
        final(out)@ == old(out)@ + binary_text(
            p@.left().shown(conf),
            p@.left().precedence(conf.negation) >= prec,
            sym,
            p@.right().shown(conf),
            p@.right().precedence(conf.negation) > prec,
            conf,
        ),
    decreases p, 1nat,
{
    let (l, r) = match p {
        Prop::Conjonction(l, r) => (l, r),
        Prop::Disjonction(l, r) => (l, r),
        Prop::Implication(l, r) => (l, r),
        Prop::Equivalence(l, r) => (l, r),
        _ => {
            assert(false);
            return;
        },
    };
    assert(l@ == p@.left() && r@ == p@.right());
    let ghost start = out@;
    let wrap_l = l.precedence(conf.negation) >= prec;
    write_operand(l, wrap_l, conf, out);
    let ghost mid = out@;
    sym.fmt(conf, out);
    let wrap_r = r.precedence(conf.negation) > prec;
    write_operand(r, wrap_r, conf, out);
    assert(out@ == start + (wrapped(l@.shown(conf), wrap_l, conf) + sym.shown(conf) + wrapped(
        r@.shown(conf),
        wrap_r,
        conf,
    )));
}

/// A formula together with the options it is printed with.
#[derive(Clone, Copy)]
pub struct PropRepr<'a> {
    pub prop: &'a Prop,
    pub conf: ReprConf,
}

impl<'a> PropRepr<'a> {
    /// The text that this printer writes.
    pub open spec fn text(&self) -> Seq<char> {
        self.prop@.shown(self.conf)
    }

    /// The same printer with terminal highlighting on.
    pub fn formated(self) -> (r: Self)
        ensures
            r.prop == self.prop,
            r.conf == (ReprConf { formated: true, ..self.conf }),
    {
        PropRepr { prop: self.prop, conf: ReprConf { formated: true, ..self.conf } }
    }

    /// The same printer with the Unicode spellings on.
    pub fn unicode(self) -> (r: Self)
        ensures
            r.prop == self.prop,
            r.conf == (ReprConf { unicode: true, ..self.conf }),
    {
        PropRepr { prop: self.prop, conf: ReprConf { unicode: true, ..self.conf } }
    }

    /// The same printer with `P -> !` shown as `~P`.
    pub fn negation(self) -> (r: Self)
        ensures
            r.prop == self.prop,
            r.conf == (ReprConf { negation: true, ..self.conf }),
    {
        PropRepr { prop: self.prop, conf: ReprConf { negation: true, ..self.conf } }
    }

    /// The characters of the printed formula.
    pub fn chars(&self) -> (r: Vec<char>)
        ensures
            r@ == self.text(),
    {
        let mut out: Vec<char> = Vec::new();
        write_prop(self.prop, self.conf, &mut out);
        out
    }

    /// The printed formula.
    pub fn to_string(&self) -> (r: String)
        ensures
            r@ == self.text(),
    {
        let out = self.chars();
        string_of(out.as_slice())
    }

    /// The width of the printed formula, in characters, without escape codes.
    pub fn len(&self) -> (r: usize)
        ensures
            r == self.prop@.shown(ReprConf { formated: false, ..self.conf }).len(),
    {
        let plain = PropRepr { prop: self.prop, conf: ReprConf { formated: false, ..self.conf } };
        plain.chars().len()
    }

    /// The printed formula has no characters.
    pub fn is_empty(&self) -> (r: bool)
        ensures
            r == (self.prop@.shown(ReprConf { formated: false, ..self.conf }).len() == 0),
    {
        self.len() == 0
    }
}

impl Clone for Prop {
    fn clone(&self) -> (r: Self)
        ensures
            r@ == self@,
    {
        self.copy()
    }
}

impl PartialEq for Prop {
    fn eq(&self, other: &Prop) -> (r: bool) {
        self.same(other)
    }
}

impl vstd::std_specs::cmp::PartialEqSpecImpl for Prop {
    open spec fn obeys_eq_spec() -> bool {
        true
    }

    open spec fn eq_spec(&self, other: &Prop) -> bool {
        self@ == other@
    }
}

} // verus!
