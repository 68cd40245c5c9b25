use vstd::prelude::*;

use crate::property::{write_prop, Formula, Prop};
use crate::symbols::{ReprConf, Sym};
use crate::text::string_of;

verus! {

/// The formulas that a list of [`Prop`]s holds.
pub open spec fn formulas(ps: Seq<Prop>) -> Seq<Formula> {
    ps.map_values(|p: Prop| p@)
}

/// The mathematical value of a [`Sequent`]: `hypotheses |- conclusion`.
pub struct Entailment {
    pub hypotheses: Seq<Formula>,
    pub conclusion: Formula,
}

/// An ordered list of hypotheses and one conclusion: a claim to be proved.
#[derive(Debug)]
pub struct Sequent {
    hypotheses: Vec<Prop>,
    conclusion: Prop,
}

impl View for Sequent {
    type V = Entailment;

    closed spec fn view(&self) -> Entailment {
        Entailment { hypotheses: formulas(self.hypotheses@), conclusion: self.conclusion@ }
    }
}

/// A copy of each formula of `ps`.
pub fn copy_props(ps: &[Prop]) -> (r: Vec<Prop>)
    ensures
        formulas(r@) == formulas(ps@),
        r@.len() == ps@.len(),
{
    let mut out: Vec<Prop> = Vec::new();
    let mut i: usize = 0;
    while i < ps.len()
        invariant
            i <= ps@.len(),
            formulas(out@) == formulas(ps@.subrange(0, i as int)),
            out@.len() == i,
        decreases ps@.len() - i,
    {
        let ghost prev = out@;
        let c = ps[i].copy();
        out.push(c);
        i = i + 1;
        assert(formulas(out@) =~= formulas(prev).push(c@));
        assert(formulas(ps@.subrange(0, i as int)) =~= formulas(ps@.subrange(0, i - 1)).push(
            ps@[i - 1]@,
        ));
    }
    assert(ps@.subrange(0, ps@.len() as int) == ps@);
    out
}

impl Sequent {
    pub fn new(hypotheses: Vec<Prop>, conclusion: Prop) -> (r: Self)
        ensures
            r@ == (Entailment { hypotheses: formulas(hypotheses@), conclusion: conclusion@ }),
    {
        Sequent { hypotheses, conclusion }
    }

    /// Wraps the sequent to print it in plain ASCII.
    pub fn repr(&self) -> (r: SequentRepr)
        ensures
            r.sequent == self,
            r.conf == ReprConf::plain(),
    {
        self.repr_conf(ReprConf::default())
    }

    /// Wraps the sequent to print it under `conf`.
    pub fn repr_conf(&self, conf: ReprConf) -> (r: SequentRepr)
        ensures
            r.sequent == self,
            r.conf == conf,
    {
        SequentRepr { sequent: self, conf }
    }

    pub fn hypotheses(&self) -> (r: &[Prop])
        ensures
            formulas(r@) == self@.hypotheses,
    {
        self.hypotheses.as_slice()
    }

    pub fn conclusion(&self) -> (r: &Prop)
        ensures
            r@ == self@.conclusion,
    {
        &self.conclusion
    }

    /// A copy of the sequent.
    pub fn copy(&self) -> (r: Sequent)
        ensures
            r@ == self@,
    {
        Sequent { hypotheses: copy_props(self.hypotheses.as_slice()), conclusion: self.conclusion.copy() }
    }
}

impl Clone for Sequent {
    fn clone(&self) -> (r: Self)
        ensures
            r@ == self@,
    {
        self.copy()
    }
}

/// The hypotheses as printed: separated by a comma and a space.
pub open spec fn hypotheses_shown(hs: Seq<Formula>, conf: ReprConf) -> Seq<char>
    decreases hs.len(),
{
    if hs.len() == 0 {
        seq![]
    } else if hs.len() == 1 {
        hs[0].shown(conf)
    } else {
        hypotheses_shown(hs.drop_last(), conf) + Sym::Comma.shown(conf) + seq![' '] + hs.last().shown(
            conf,
        )
    }
}

impl Entailment {
    /// The text of the sequent: `H1, H2 |- C`, or `|- C` without hypotheses; the
    /// conclusion is emphasized.
    pub open spec fn shown(self, conf: ReprConf) -> Seq<char> {
        let hs = hypotheses_shown(self.hypotheses, conf);
        let hs = if self.hypotheses.len() == 0 {
            hs
        } else {
            hs + seq![' ']
        };
        hs + Sym::Sequent.shown(conf) + seq![' '] + self.conclusion.shown(
            ReprConf { emphazis: true, ..conf },
        )
    }
}

/// A sequent together with the options it is printed with.
#[derive(Clone, Copy)]
pub struct SequentRepr<'a> {
    pub sequent: &'a Sequent,
    pub conf: ReprConf,
}

impl<'a> SequentRepr<'a> {
    /// The text that this printer writes.
    pub open spec fn text(&self) -> Seq<char> {
        self.sequent@.shown(self.conf)
    }

    /// The same printer with terminal highlighting on.
    pub fn formated(self) -> (r: Self)
        ensures
            r.sequent == self.sequent,
            r.conf == (ReprConf { formated: true, ..self.conf }),
    {
        SequentRepr { sequent: self.sequent, conf: ReprConf { formated: true, ..self.conf } }
    }

    /// The same printer with the Unicode spellings on.
    pub fn unicode(self) -> (r: Self)
        ensures
            r.sequent == self.sequent,
            r.conf == (ReprConf { unicode: true, ..self.conf }),
    {
        SequentRepr { sequent: self.sequent, conf: ReprConf { unicode: true, ..self.conf } }
    }

    /// The same printer with `P -> !` shown as `~P`.
    pub fn negation(self) -> (r: Self)
        ensures
            r.sequent == self.sequent,
            r.conf == (ReprConf { negation: true, ..self.conf }),
    {
        SequentRepr { sequent: self.sequent, conf: ReprConf { negation: true, ..self.conf } }
    }

    /// Appends the printed sequent to `out`.
    pub fn write_to(&self, out: &mut Vec<char>)
        ensures
            final(out)@ == old(out)@ + self.text(),
    {
        let conf = self.conf;
        let hs = &self.sequent.hypotheses;
        let ghost hf = self.sequent@.hypotheses;
        let ghost start = out@;
        let mut i: usize = 0;
        while i < hs.len()
            invariant
                i <= hs@.len(),
                hf == formulas(hs@),
                out@ == start + hypotheses_shown(hf.subrange(0, i as int), conf),
            decreases hs@.len() - i,
        {
            let ghost before = out@;
            if i > 0 {
                Sym::Comma.fmt(conf, out);
                out.push(' ');
            }
            write_prop(&hs[i], conf, out);
            i = i + 1;
            proof {
                let sub = hf.subrange(0, i as int);
                assert(sub.drop_last() == hf.subrange(0, i - 1));
                assert(sub.last() == hs@[i - 1]@);
                if i > 1 {
                    assert(out@ == before + Sym::Comma.shown(conf) + seq![' '] + hs@[i - 1]@.shown(
                        conf,
                    ));
                } else {
                    assert(hf.subrange(0, 0).len() == 0);
                }
            }
        }
        assert(hf.subrange(0, hs@.len() as int) == hf);
        if hs.len() > 0 {
            out.push(' ');
        }
        Sym::Sequent.fmt(conf, out);
        out.push(' ');
        write_prop(&self.sequent.conclusion, ReprConf { emphazis: true, ..conf }, out);
    }

    /// The characters of the printed sequent.
    pub fn chars(&self) -> (r: Vec<char>)
        ensures
            r@ == self.text(),
    {
        let mut out: Vec<char> = Vec::new();
        self.write_to(&mut out);
        assert(out@ == seq![] + self.text());
        out
    }

    /// The printed sequent.
    pub fn to_string(&self) -> (r: String)
        ensures
            r@ == self.text(),
    {
        let out = self.chars();
        string_of(out.as_slice())
    }

    /// The width of the printed sequent, in characters, without escape codes.
    pub fn len(&self) -> (r: usize)
        ensures
            r == self.sequent@.shown(ReprConf { formated: false, ..self.conf }).len(),
    {
        let plain = SequentRepr {
            sequent: self.sequent,
            conf: ReprConf { formated: false, ..self.conf },
        };
        plain.chars().len()
    }

    /// The printed sequent has no characters.
    pub fn is_empty(&self) -> (r: bool)
        ensures
            r == (self.sequent@.shown(ReprConf { formated: false, ..self.conf }).len() == 0),
    {
        self.len() == 0
    }
}

} // verus!
