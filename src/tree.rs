use vstd::prelude::*;

use crate::property::{Formula, Prop};
use crate::prove_by::ProveBy;
use crate::sequent::{copy_props, formulas, Entailment, Sequent};
use crate::symbols::{ReprConf, Sym};

verus! {

/// A rule attached to a goal, with the proofs of the premises it leaves.
#[derive(Debug)]
pub enum Rule {
    Hypothesis(Vec<Proof>),
    ImplicationIntroduction(Vec<Proof>),
    ImplicationIntroductions(Vec<Proof>),
    ModusPonens(Vec<Proof>),
    WeakModusPonens(Vec<Proof>),
    DisjonctionIntroductionLeft(Vec<Proof>),
    DisjonctionIntroductionRight(Vec<Proof>),
    DisjonctionElimination(Vec<Proof>),
    DisjonctionWeakElimination(Vec<Proof>),
    Exfalso(Vec<Proof>),
    EquivalenceIntroduction(Vec<Proof>),
    EquivalenceWeakElimination(Vec<Proof>),
    ConjonctionIntroduction(Vec<Proof>),
    ConjonctionElimination(Vec<Proof>),
    ConjonctionWeakElimination(Vec<Proof>),
    Weaken(Vec<Proof>),
}

/// A goal, and the rule that justifies it once one has been applied.
#[derive(Debug)]
pub struct Proof {
    pub sequent: Sequent,
    pub rule: Option<Box<Rule>>,
}

/// The sequent `h |- c`.
pub open spec fn goal(h: Seq<Formula>, c: Formula) -> Entailment {
    Entailment { hypotheses: h, conclusion: c }
}

/// `h` without the hypotheses whose index is listed in `idx`.
pub open spec fn without(h: Seq<Formula>, idx: Seq<usize>) -> Seq<Formula>
    decreases h.len(),
{
    if h.len() == 0 {
        h
    } else {
        let rest = without(h.drop_last(), idx);
        if idx.contains((h.len() - 1) as usize) {
            rest
        } else {
            rest.push(h.last())
        }
    }
}

/// `h |- c` with every leading implication of `c` moved into the hypotheses.
pub open spec fn stripped(h: Seq<Formula>, c: Formula) -> Entailment
    decreases c,
{
    match c {
        Formula::Imp(p, q) => stripped(h.push(*p), *q),
        _ => goal(h, c),
    }
}

/// The rule that `by` applies to the goal `s`, named by its symbol, with the premises
/// it leaves in order; `None` where its precondition fails.
pub open spec fn applied(s: Entailment, by: ProveBy) -> Option<(Sym, Seq<Entailment>)> {
    let h = s.hypotheses;
    let c = s.conclusion;
    match by {
        ProveBy::Hypothesis => if h.contains(c) {
            Some((Sym::RuleHypothesis, seq![]))
        } else {
            None
        },
        ProveBy::ImplicationIntroduction => implication_introduction(h, c),
        ProveBy::ImplicationIntroductions => Some(
            (Sym::RuleImplicationIntroductions, seq![stripped(h, c)]),
        ),
        ProveBy::ModusPonens(b) => Some(
            (
                Sym::RuleModusPonens,
                seq![goal(h, Formula::Imp(Box::new(b@), Box::new(c))), goal(h, b@)],
            ),
        ),
        ProveBy::DisjonctionIntroductionLeft => match c {
            Formula::Or(p, _) => Some((Sym::RuleDisjonctionIntroductionLeft, seq![goal(h, *p)])),
            _ => None,
        },
        ProveBy::DisjonctionIntroductionRight => match c {
            Formula::Or(_, q) => Some((Sym::RuleDisjonctionIntroductionRight, seq![goal(h, *q)])),
            _ => None,
        },
        ProveBy::Exfalso => Some((Sym::RuleExfalso, seq![goal(h, Formula::False)])),
        ProveBy::DisjonctionElimination(a, b) => Some(
            (
                Sym::RuleDisjonctionElimination,
                seq![
                    goal(h, Formula::Or(Box::new(a@), Box::new(b@))),
                    goal(h.push(a@), c),
                    goal(h.push(b@), c),
                ],
            ),
        ),
        ProveBy::Introduction => match c {
            Formula::Iff(p, q) => Some(
                (
                    Sym::RuleEquivalenceIntroduction,
                    seq![
                        goal(h, Formula::Imp(p, q)),
                        goal(h, Formula::Imp(q, p)),
                    ],
                ),
            ),
            Formula::And(_, _) => conjonction_introduction(h, c),
            Formula::Imp(_, _) => implication_introduction(h, c),
            _ => None,
        },
        ProveBy::Eliminate(i) => if i < h.len() {
            match h[i as int] {
                Formula::Iff(p, q) => Some(
                    (
                        Sym::RuleEquivalenceWeakElimination,
                        seq![
                            goal(
                                h.update(i as int, Formula::Imp(p, q)).insert(
                                    i + 1,
                                    Formula::Imp(q, p),
                                ),
                                c,
                            ),
                        ],
                    ),
                ),
                Formula::And(p, q) => Some(
                    (
                        Sym::RuleConjonctionWeakElimination,
                        seq![goal(h.update(i as int, *p).insert(i + 1, *q), c)],
                    ),
                ),
                Formula::Imp(p, q) => if *q == c {
                    Some((Sym::RuleWeakModusPonens, seq![goal(h, *p)]))
                } else {
                    None
                },
                Formula::Or(p, q) => Some(
                    (
                        Sym::RuleDisjonctionWeakElimination,
                        seq![goal(h.update(i as int, *p), c), goal(h.update(i as int, *q), c)],
                    ),
                ),
                _ => None,
            }
        } else {
            None
        },
        ProveBy::ConjonctionIntroduction => conjonction_introduction(h, c),
        ProveBy::ConjonctionElimination(a, b) => Some(
            (
                Sym::RuleConjonctionElimination,
                seq![
                    goal(h, Formula::And(Box::new(a@), Box::new(b@))),
                    goal(h.push(a@).push(b@), c),
                ],
            ),
        ),
        ProveBy::Weaken(idx) => if idx@.len() > 0 && (forall|k: int|
            0 <= k < idx@.len() ==> #[trigger] idx@[k] < h.len()) {
            Some((Sym::RuleWeaken, seq![goal(without(h, idx@), c)]))
        } else {
            None
        },
    }
}

/// `h |- P -> Q` leaves `h, P |- Q`.
pub open spec fn implication_introduction(h: Seq<Formula>, c: Formula) -> Option<
    (Sym, Seq<Entailment>),
> {
    match c {
        Formula::Imp(p, q) => Some((Sym::RuleImplicationIntroduction, seq![goal(h.push(*p), *q)])),
        _ => None,
    }
}

/// `h |- P /\ Q` leaves `h |- P` and `h |- Q`.
pub open spec fn conjonction_introduction(h: Seq<Formula>, c: Formula) -> Option<
    (Sym, Seq<Entailment>),
> {
    match c {
        Formula::And(p, q) => Some(
            (Sym::RuleConjonctionIntroduction, seq![goal(h, *p), goal(h, *q)]),
        ),
        _ => None,
    }
}

impl Rule {
    /// The proofs of the premises.
    pub open spec fn premises(&self) -> Seq<Proof> {
        match self {
            Rule::Hypothesis(v) => v@,
            Rule::ImplicationIntroduction(v) => v@,
            Rule::ImplicationIntroductions(v) => v@,
            Rule::ModusPonens(v) => v@,
            Rule::WeakModusPonens(v) => v@,
            Rule::DisjonctionIntroductionLeft(v) => v@,
            Rule::DisjonctionIntroductionRight(v) => v@,
            Rule::DisjonctionElimination(v) => v@,
            Rule::DisjonctionWeakElimination(v) => v@,
            Rule::Exfalso(v) => v@,
            Rule::EquivalenceIntroduction(v) => v@,
            Rule::EquivalenceWeakElimination(v) => v@,
            Rule::ConjonctionIntroduction(v) => v@,
            Rule::ConjonctionElimination(v) => v@,
            Rule::ConjonctionWeakElimination(v) => v@,
            Rule::Weaken(v) => v@,
        }
    }

    /// The symbol that labels the rule.
    pub open spec fn symbol(&self) -> Sym {
        match self {
            Rule::Hypothesis(_) => Sym::RuleHypothesis,
            Rule::ImplicationIntroduction(_) => Sym::RuleImplicationIntroduction,
            Rule::ImplicationIntroductions(_) => Sym::RuleImplicationIntroductions,
            Rule::ModusPonens(_) => Sym::RuleModusPonens,
            Rule::WeakModusPonens(_) => Sym::RuleWeakModusPonens,
            Rule::DisjonctionIntroductionLeft(_) => Sym::RuleDisjonctionIntroductionLeft,
            Rule::DisjonctionIntroductionRight(_) => Sym::RuleDisjonctionIntroductionRight,
            Rule::DisjonctionElimination(_) => Sym::RuleDisjonctionElimination,
            Rule::DisjonctionWeakElimination(_) => Sym::RuleDisjonctionWeakElimination,
            Rule::Exfalso(_) => Sym::RuleExfalso,
            Rule::EquivalenceIntroduction(_) => Sym::RuleEquivalenceIntroduction,
            Rule::EquivalenceWeakElimination(_) => Sym::RuleEquivalenceWeakElimination,
            Rule::ConjonctionIntroduction(_) => Sym::RuleConjonctionIntroduction,
            Rule::ConjonctionElimination(_) => Sym::RuleConjonctionElimination,
            Rule::ConjonctionWeakElimination(_) => Sym::RuleConjonctionWeakElimination,
            Rule::Weaken(_) => Sym::RuleWeaken,
        }
    }

    /// The rule is labelled `sym` and its premises are the goals `goals`, none of them
    /// proved yet.
    pub open spec fn opens(&self, sym: Sym, goals: Seq<Entailment>) -> bool {
        &&& self.symbol() == sym
        &&& self.premises().len() == goals.len()
        &&& forall|k: int|
            0 <= k < goals.len() ==> (#[trigger] self.premises()[k]).sequent@ == goals[k]
                && self.premises()[k].rule is None
    }

    /// The rule labelled `sym` whose premises are these proofs.
    fn labelled(sym: Sym, v: Vec<Proof>) -> (r: Rule)
        requires
            sym == Sym::RuleHypothesis || sym == Sym::RuleImplicationIntroduction || sym
                == Sym::RuleImplicationIntroductions || sym == Sym::RuleModusPonens || sym
                == Sym::RuleWeakModusPonens || sym == Sym::RuleDisjonctionIntroductionLeft || sym
                == Sym::RuleDisjonctionIntroductionRight || sym == Sym::RuleDisjonctionElimination
                || sym == Sym::RuleDisjonctionWeakElimination || sym == Sym::RuleExfalso || sym
                == Sym::RuleEquivalenceIntroduction || sym == Sym::RuleEquivalenceWeakElimination
                || sym == Sym::RuleConjonctionIntroduction || sym
                == Sym::RuleConjonctionElimination || sym == Sym::RuleConjonctionWeakElimination
                || sym == Sym::RuleWeaken,
        ensures
            r.symbol() == sym,
            r.premises() == v@,
    {
        match sym {
            Sym::RuleHypothesis => Rule::Hypothesis(v),
            Sym::RuleImplicationIntroduction => Rule::ImplicationIntroduction(v),
            Sym::RuleImplicationIntroductions => Rule::ImplicationIntroductions(v),
            Sym::RuleModusPonens => Rule::ModusPonens(v),
            Sym::RuleWeakModusPonens => Rule::WeakModusPonens(v),
            Sym::RuleDisjonctionIntroductionLeft => Rule::DisjonctionIntroductionLeft(v),
            Sym::RuleDisjonctionIntroductionRight => Rule::DisjonctionIntroductionRight(v),
            Sym::RuleDisjonctionElimination => Rule::DisjonctionElimination(v),
            Sym::RuleDisjonctionWeakElimination => Rule::DisjonctionWeakElimination(v),
            Sym::RuleExfalso => Rule::Exfalso(v),
            Sym::RuleEquivalenceIntroduction => Rule::EquivalenceIntroduction(v),
            Sym::RuleEquivalenceWeakElimination => Rule::EquivalenceWeakElimination(v),
            Sym::RuleConjonctionIntroduction => Rule::ConjonctionIntroduction(v),
            Sym::RuleConjonctionElimination => Rule::ConjonctionElimination(v),
            Sym::RuleConjonctionWeakElimination => Rule::ConjonctionWeakElimination(v),
            _ => Rule::Weaken(v),
        }
    }
}

/// `c` is one of the hypotheses `hs`.
fn holds(hs: &[Prop], c: &Prop) -> (r: bool)
    ensures
        r == formulas(hs@).contains(c@),
{
    let mut i: usize = 0;
    while i < hs.len()
        invariant
            i <= hs@.len(),
            forall|k: int| 0 <= k < i ==> hs@[k]@ != c@,
        decreases hs@.len() - i,
    {
        if hs[i].same(c) {
            assert(formulas(hs@)[i as int] == c@);
            return true;
        }
        i = i + 1;
    }
    assert(!formulas(hs@).contains(c@)) by {
        if formulas(hs@).contains(c@) {
            let k = choose|k: int| 0 <= k < formulas(hs@).len() && formulas(hs@)[k] == c@;
            assert(hs@[k]@ == c@);
        }
    }
    false
}

/// A copy of `hs` with `x` added at the end.
fn pushed(hs: &[Prop], x: &Prop) -> (r: Vec<Prop>)
    ensures
        formulas(r@) == formulas(hs@).push(x@),
        r@.len() == hs@.len() + 1,
{
    let mut v = copy_props(hs);
    let ghost prev = v@;
    let c = x.copy();
    v.push(c);
    assert(formulas(v@) =~= formulas(prev).push(x@));
    v
}

/// A copy of `hs` with the formula at `i` replaced by `x`.
fn replaced(hs: &[Prop], i: usize, x: Prop) -> (r: Vec<Prop>)
    requires
        i < hs@.len(),
    ensures
        formulas(r@) == formulas(hs@).update(i as int, x@),
        r@.len() == hs@.len(),
{
    let mut v = copy_props(hs);
    let ghost prev = v@;
    v.set(i, x);
    assert(formulas(v@) =~= formulas(prev).update(i as int, x@));
    v
}

/// `v` with `x` inserted at `i`.
fn inserted(v: Vec<Prop>, i: usize, x: Prop) -> (r: Vec<Prop>)
    requires
        i <= v@.len(),
    ensures
        formulas(r@) == formulas(v@).insert(i as int, x@),
        r@.len() == v@.len() + 1,
{
    let mut v = v;
    let ghost prev = v@;
    v.insert(i, x);
    assert(formulas(v@) =~= formulas(prev).insert(i as int, x@));
    v
}

/// `k` is listed in `idx`.
fn listed(idx: &[usize], k: usize) -> (r: bool)
    ensures
        r == idx@.contains(k),
{
    let mut i: usize = 0;
    while i < idx.len()
        invariant
            i <= idx@.len(),
            forall|j: int| 0 <= j < i ==> idx@[j] != k,
        decreases idx@.len() - i,
    {
        if idx[i] == k {
            return true;
        }
        i = i + 1;
    }
    false
}

/// Every index of `idx` is below `n`.
fn all_below(idx: &[usize], n: usize) -> (r: bool)
    ensures
        r == forall|j: int| 0 <= j < idx@.len() ==> #[trigger] idx@[j] < n,
{
    let mut k: usize = 0;
    while k < idx.len()
        invariant
            k <= idx@.len(),
            forall|j: int| 0 <= j < k ==> #[trigger] idx@[j] < n,
        decreases idx@.len() - k,
    {
        if idx[k] >= n {
            return false;
        }
        k = k + 1;
    }
    true
}

/// A copy of `hs` without the hypotheses whose index is listed in `idx`.
fn kept(hs: &[Prop], idx: &[usize]) -> (r: Vec<Prop>)
    ensures
        formulas(r@) == without(formulas(hs@), idx@),
{
    let mut v: Vec<Prop> = Vec::new();
    let mut i: usize = 0;
    while i < hs.len()
        invariant
            i <= hs@.len(),
            formulas(v@) == without(formulas(hs@).subrange(0, i as int), idx@),
        decreases hs@.len() - i,
    {
        let ghost prev = v@;
        let ghost sub = formulas(hs@).subrange(0, i + 1);
        assert(sub.drop_last() == formulas(hs@).subrange(0, i as int));
        if !listed(idx, i) {
            let c = hs[i].copy();
            v.push(c);
            assert(formulas(v@) =~= formulas(prev).push(c@));
        }
        i = i + 1;
    }
    assert(formulas(hs@).subrange(0, hs@.len() as int) == formulas(hs@));
    v
}

/// Moves every leading implication of `c` into `hs`; returns what is left of `c`.
fn strip(hs: &mut Vec<Prop>, c: &Prop) -> (r: Prop)
    ensures
        stripped(formulas(old(hs)@), c@) == goal(formulas(final(hs)@), r@),
    decreases c,
{
    match c {
        Prop::Implication(p, q) => {
            let ghost prev = hs@;
            let x = p.copy();
            hs.push(x);
            assert(formulas(hs@) =~= formulas(prev).push(p@));
            strip(hs, q)
        },
        _ => c.copy(),
    }
}

impl Proof {
    /// An unproved goal.
    pub fn not_proven(s: Sequent) -> (r: Self)
        ensures
            r.sequent == s,
            r.rule is None,
    {
        Proof { sequent: s, rule: None }
    }
}

/// The unproved goal `h |- c`.
fn leaf(h: Vec<Prop>, c: Prop) -> (r: Proof)
    ensures
        r.sequent@ == goal(formulas(h@), c@),
        r.rule is None,
{
    Proof::not_proven(Sequent::new(h, c))
}

impl Rule {
    /// The rule that `p` applies to `s`, with its premises unproved; `None` where its
    /// precondition fails.
    pub fn from(s: &Sequent, p: ProveBy) -> (r: Option<Rule>)
        ensures
            match applied(s@, p) {
                Some((sym, goals)) => r matches Some(rule) && rule.opens(sym, goals),
                None => r is None,
            },
    {
        let h = s.hypotheses();
        let c = s.conclusion();
        match p {
            ProveBy::Hypothesis => {
                if holds(h, c) {
                    let v: Vec<Proof> = Vec::new();
                    Some(Rule::labelled(Sym::RuleHypothesis, v))
                } else {
                    None
                }
            },
            ProveBy::ImplicationIntroduction => Rule::implication_introduction(s),
            ProveBy::ImplicationIntroductions => {
                let mut hs = copy_props(h);
                let rest = strip(&mut hs, c);
                let v = vec![leaf(hs, rest)];
                Some(Rule::labelled(Sym::RuleImplicationIntroductions, v))
            },
            ProveBy::ModusPonens(b) => {
                let v = vec![leaf(copy_props(h), b.implies(c)), leaf(copy_props(h), b)];
                Some(Rule::labelled(Sym::RuleModusPonens, v))
            },
            ProveBy::DisjonctionIntroductionLeft => match c {
                Prop::Disjonction(l, _) => {
                    let v = vec![leaf(copy_props(h), l.copy())];
                    Some(Rule::labelled(Sym::RuleDisjonctionIntroductionLeft, v))
                },
                _ => None,
            },
            ProveBy::DisjonctionIntroductionRight => match c {
                Prop::Disjonction(_, r) => {
                    let v = vec![leaf(copy_props(h), r.copy())];
                    Some(Rule::labelled(Sym::RuleDisjonctionIntroductionRight, v))
                },
                _ => None,
            },
            ProveBy::Exfalso => {
                let v = vec![leaf(copy_props(h), Prop::False)];
                Some(Rule::labelled(Sym::RuleExfalso, v))
            },
            ProveBy::DisjonctionElimination(a, b) => {
                let v = vec![
                    leaf(copy_props(h), a.or(&b)),
                    leaf(pushed(h, &a), c.copy()),
                    leaf(pushed(h, &b), c.copy()),
                ];
                Some(Rule::labelled(Sym::RuleDisjonctionElimination, v))
            },
            ProveBy::Introduction => match c {
                Prop::Equivalence(l, r) => {
                    let v = vec![leaf(copy_props(h), l.implies(r)), leaf(copy_props(h), r.implies(l))];
                    Some(Rule::labelled(Sym::RuleEquivalenceIntroduction, v))
                },
                Prop::Conjonction(_, _) => Rule::conjonction_introduction(s),
                Prop::Implication(_, _) => Rule::implication_introduction(s),
                _ => None,
            },
            ProveBy::Eliminate(i) => {
                if i < h.len() {
                    Rule::elimination(s, i)
                } else {
                    None
                }
            },
            ProveBy::ConjonctionIntroduction => Rule::conjonction_introduction(s),
            ProveBy::ConjonctionElimination(a, b) => {
                let hab = pushed(h, &a);
                let n = hab.len();
                let hab = inserted(hab, n, b.copy());
                assert(formulas(h@).push(a@).insert(n as int, b@) =~= formulas(h@).push(a@).push(b@));
                let v = vec![leaf(copy_props(h), a.and(&b)), leaf(hab, c.copy())];
                Some(Rule::labelled(Sym::RuleConjonctionElimination, v))
            },
            ProveBy::Weaken(idx) => {
                if idx.len() == 0 {
                    return None;
                }
                if !all_below(idx.as_slice(), h.len()) {
                    return None;
                }
                let v = vec![leaf(kept(h, idx.as_slice()), c.copy())];
                Some(Rule::labelled(Sym::RuleWeaken, v))
            },
        }
    }

    /// Implication introduction on `s`.
    fn implication_introduction(s: &Sequent) -> (r: Option<Rule>)
        ensures
            match implication_introduction(s@.hypotheses, s@.conclusion) {
                Some((sym, goals)) => r matches Some(rule) && rule.opens(sym, goals),
                None => r is None,
            },
    {
        match s.conclusion() {
            Prop::Implication(l, r) => {
                let v = vec![leaf(pushed(s.hypotheses(), l), r.copy())];
                Some(Rule::labelled(Sym::RuleImplicationIntroduction, v))
            },
            _ => None,
        }
    }

    /// Conjunction introduction on `s`.
    fn conjonction_introduction(s: &Sequent) -> (r: Option<Rule>)
        ensures
            match conjonction_introduction(s@.hypotheses, s@.conclusion) {
                Some((sym, goals)) => r matches Some(rule) && rule.opens(sym, goals),
                None => r is None,
            },
    {
        match s.conclusion() {
            Prop::Conjonction(l, r) => {
                let h = s.hypotheses();
                let v = vec![leaf(copy_props(h), l.copy()), leaf(copy_props(h), r.copy())];
                Some(Rule::labelled(Sym::RuleConjonctionIntroduction, v))
            },
            _ => None,
        }
    }

    /// The elimination rule for the hypothesis at `i` of `s`.
    fn elimination(s: &Sequent, i: usize) -> (r: Option<Rule>)
        requires
            i < s@.hypotheses.len(),
        ensures
            match applied(s@, ProveBy::Eliminate(i)) {
                Some((sym, goals)) => r matches Some(rule) && rule.opens(sym, goals),
                None => r is None,
            },
    {
        let h = s.hypotheses();
        let c = s.conclusion();
        assert(h@[i as int]@ == s@.hypotheses[i as int]);
        match &h[i] {
            Prop::Equivalence(l, r) => {
                let hs = replaced(h, i, l.implies(r));
                let hs = inserted(hs, i + 1, r.implies(l));
                let v = vec![leaf(hs, c.copy())];
                Some(Rule::labelled(Sym::RuleEquivalenceWeakElimination, v))
            },
            Prop::Conjonction(l, r) => {
                let hs = replaced(h, i, l.copy());
                let hs = inserted(hs, i + 1, r.copy());
                let v = vec![leaf(hs, c.copy())];
                Some(Rule::labelled(Sym::RuleConjonctionWeakElimination, v))
            },
            Prop::Implication(l, r) => {
                if r.same(c) {
                    let v = vec![leaf(copy_props(h), l.copy())];
                    Some(Rule::labelled(Sym::RuleWeakModusPonens, v))
                } else {
                    None
                }
            },
            Prop::Disjonction(l, r) => {
                let v = vec![leaf(replaced(h, i, l.copy()), c.copy()), leaf(replaced(h, i, r.copy()), c.copy())];
                Some(Rule::labelled(Sym::RuleDisjonctionWeakElimination, v))
            },
            _ => None,
        }
    }
}

impl Rule {
    /// The proofs of the premises.
    pub fn hypotheses(&self) -> (r: &[Proof])
        ensures
            r@ == self.premises(),
    {
        match self {
            Rule::Hypothesis(v) => v.as_slice(),
            Rule::ImplicationIntroduction(v) => v.as_slice(),
            Rule::ImplicationIntroductions(v) => v.as_slice(),
            Rule::ModusPonens(v) => v.as_slice(),
            Rule::WeakModusPonens(v) => v.as_slice(),
            Rule::DisjonctionIntroductionLeft(v) => v.as_slice(),
            Rule::DisjonctionIntroductionRight(v) => v.as_slice(),
            Rule::DisjonctionElimination(v) => v.as_slice(),
            Rule::DisjonctionWeakElimination(v) => v.as_slice(),
            Rule::Exfalso(v) => v.as_slice(),
            Rule::EquivalenceIntroduction(v) => v.as_slice(),
            Rule::EquivalenceWeakElimination(v) => v.as_slice(),
            Rule::ConjonctionIntroduction(v) => v.as_slice(),
            Rule::ConjonctionElimination(v) => v.as_slice(),
            Rule::ConjonctionWeakElimination(v) => v.as_slice(),
            Rule::Weaken(v) => v.as_slice(),
        }
    }

    /// The proofs of the premises, to be changed in place.
    pub fn hypotheses_mut(&mut self) -> (r: &mut Vec<Proof>)
        ensures
            r@ == old(self).premises(),
            final(self).symbol() == old(self).symbol(),
            final(self).premises() == final(r)@,
    {
        match self {
            Rule::Hypothesis(v) => v,
            Rule::ImplicationIntroduction(v) => v,
            Rule::ImplicationIntroductions(v) => v,
            Rule::ModusPonens(v) => v,
            Rule::WeakModusPonens(v) => v,
            Rule::DisjonctionIntroductionLeft(v) => v,
            Rule::DisjonctionIntroductionRight(v) => v,
            Rule::DisjonctionElimination(v) => v,
            Rule::DisjonctionWeakElimination(v) => v,
            Rule::Exfalso(v) => v,
            Rule::EquivalenceIntroduction(v) => v,
            Rule::EquivalenceWeakElimination(v) => v,
            Rule::ConjonctionIntroduction(v) => v,
            Rule::ConjonctionElimination(v) => v,
            Rule::ConjonctionWeakElimination(v) => v,
            Rule::Weaken(v) => v,
        }
    }

    /// The symbol that labels the rule.
    pub fn get_symbol(&self) -> (r: Sym)
        ensures
            r == self.symbol(),
    {
        match self {
            Rule::Hypothesis(_) => Sym::RuleHypothesis,
            Rule::ImplicationIntroduction(_) => Sym::RuleImplicationIntroduction,
            Rule::ImplicationIntroductions(_) => Sym::RuleImplicationIntroductions,
            Rule::ModusPonens(_) => Sym::RuleModusPonens,
            Rule::WeakModusPonens(_) => Sym::RuleWeakModusPonens,
            Rule::DisjonctionIntroductionLeft(_) => Sym::RuleDisjonctionIntroductionLeft,
            Rule::DisjonctionIntroductionRight(_) => Sym::RuleDisjonctionIntroductionRight,
            Rule::DisjonctionElimination(_) => Sym::RuleDisjonctionElimination,
            Rule::DisjonctionWeakElimination(_) => Sym::RuleDisjonctionWeakElimination,
            Rule::Exfalso(_) => Sym::RuleExfalso,
            Rule::EquivalenceIntroduction(_) => Sym::RuleEquivalenceIntroduction,
            Rule::EquivalenceWeakElimination(_) => Sym::RuleEquivalenceWeakElimination,
            Rule::ConjonctionIntroduction(_) => Sym::RuleConjonctionIntroduction,
            Rule::ConjonctionElimination(_) => Sym::RuleConjonctionElimination,
            Rule::ConjonctionWeakElimination(_) => Sym::RuleConjonctionWeakElimination,
            Rule::Weaken(_) => Sym::RuleWeaken,
        }
    }
}

impl Proof {
    /// The proofs of the premises of the rule attached here, none where no rule is.
    pub open spec fn premises(&self) -> Seq<Proof> {
        match self.rule {
            Some(rule) => rule.premises(),
            None => seq![],
        }
    }

    /// Every goal of the tree has a rule attached.
    pub open spec fn complete(&self) -> bool
        decreases self,
    {
        match self.rule {
            None => false,
            Some(rule) => forall|k: int|
                0 <= k < rule.premises().len() ==> (#[trigger] rule.premises()[k]).complete(),
        }
    }

    /// The path to the first unproved goal in a depth-first, left-to-right walk that
    /// starts at premise `k`, or at this node itself when it is unproved.
    pub open spec fn open_from(&self, k: int) -> Option<Seq<int>>
        decreases self, self.premises().len() - k,
    {
        match self.rule {
            None => Some(seq![]),
            Some(rule) => if 0 <= k < rule.premises().len() {
                match rule.premises()[k].open_from(0) {
                    Some(p) => Some(seq![k] + p),
                    None => self.open_from(k + 1),
                }
            } else {
                None
            },
        }
    }

    /// The path of child indices from the root to the next goal to prove: the first
    /// node without a rule in pre-order, left to right.
    pub open spec fn open_path(&self) -> Option<Seq<int>> {
        self.open_from(0)
    }

    /// The node at the end of `path`.
    pub open spec fn node_at(&self, path: Seq<int>) -> Proof
        decreases path.len(),
    {
        if path.len() == 0 {
            *self
        } else {
            self.premises()[path[0]].node_at(path.drop_first())
        }
    }

    /// `node` is `self` with the rule that `by` applies to its goal attached.
    pub open spec fn proved_by(&self, by: ProveBy, node: Proof) -> bool {
        &&& self.rule is None
        &&& node.sequent == self.sequent
        &&& applied(self.sequent@, by) matches Some((sym, goals))
        &&& node.rule matches Some(rule)
        &&& rule.opens(sym, goals)
    }
}

/// `new` is `old` with the node at `path` replaced by `node`, everything else kept.
pub open spec fn replaced_at(old: Proof, new: Proof, path: Seq<int>, node: Proof) -> bool
    decreases path.len(),
{
    if path.len() == 0 {
        new == node
    } else {
        &&& new.sequent == old.sequent
        &&& old.rule is Some
        &&& new.rule is Some
        &&& new.rule->0.symbol() == old.rule->0.symbol()
        &&& new.premises().len() == old.premises().len()
        &&& 0 <= path[0] < old.premises().len()
        &&& forall|k: int|
            0 <= k < old.premises().len() && k != path[0] ==> #[trigger] new.premises()[k]
                == old.premises()[k]
        &&& replaced_at(
            old.premises()[path[0]],
            new.premises()[path[0]],
            path.drop_first(),
            node,
        )
    }
}


/// The node at the end of the path that [`Proof::open_from`] finds has no rule.
proof fn lemma_open_from_unproved(p: Proof, k: int)
    requires
        p.open_from(k) is Some,
    ensures
        p.node_at(p.open_from(k)->0).rule is None,
    decreases p, p.premises().len() - k,
{
    let path = p.open_from(k)->0;
    match p.rule {
        None => {},
        Some(rule) => {
            let c = rule.premises()[k];
            lemma_premise_smaller(p, k);
            match c.open_from(0) {
                Some(q) => {
                    lemma_open_from_unproved(c, 0);
                    assert(path.drop_first() == q);
                },
                None => {
                    lemma_open_from_unproved(p, k + 1);
                },
            }
        },
    }
}

/// The next goal to prove has no rule.
pub proof fn lemma_open_path_unproved(p: Proof)
    requires
        p.open_path() is Some,
    ensures
        p.node_at(p.open_path()->0).rule is None,
{
    lemma_open_from_unproved(p, 0);
}

/// With a rule attached, no goal is open from premise `k` on exactly when the premises
/// from `k` on are complete.
proof fn lemma_open_from_none(p: Proof, k: int)
    requires
        p.rule is Some,
        0 <= k <= p.premises().len(),
    ensures
        p.open_from(k) is None <==> forall|j: int|
            k <= j < p.premises().len() ==> (#[trigger] p.premises()[j]).complete(),
    decreases p, p.premises().len() - k,
{
    if k < p.premises().len() {
        lemma_premise_smaller(p, k);
        lemma_complete_iff_no_open_goal(p.premises()[k]);
        lemma_open_from_none(p, k + 1);
    }
}

/// A proof tree is complete exactly when the navigator finds no goal left to prove.
pub proof fn lemma_complete_iff_no_open_goal(p: Proof)
    ensures
        p.complete() <==> p.open_path() is None,
    decreases p, p.premises().len() + 1,
{
    if p.rule is Some {
        lemma_open_from_none(p, 0);
    }
}

/// After a replacement at `path`, the node there is the one put in.
proof fn lemma_replaced_node(old: Proof, new: Proof, path: Seq<int>, node: Proof)
    requires
        replaced_at(old, new, path, node),
    ensures
        new.node_at(path) == node,
    decreases path.len(),
{
    if path.len() > 0 {
        lemma_replaced_node(
            old.premises()[path[0]],
            new.premises()[path[0]],
            path.drop_first(),
            node,
        );
    }
}

/// A premise is smaller than the node it hangs from.
pub(crate) proof fn lemma_premise_smaller(p: Proof, k: int)
    requires
        0 <= k < p.premises().len(),
    ensures
        decreases_to!(p => p.premises()[k]),
{
    assert(decreases_to!(p => p.rule));
    assert(decreases_to!(p.rule => p.rule->0));
    let rule: Rule = *p.rule->0;
    match rule {
        Rule::Hypothesis(v) => {
            assert(decreases_to!(rule => v));
            assert(decreases_to!(v => v@));
            assert(decreases_to!(v@ => v@[k]));
        },
        Rule::ImplicationIntroduction(v) => {
            assert(decreases_to!(rule => v));
            assert(decreases_to!(v => v@));
            assert(decreases_to!(v@ => v@[k]));
        },
        Rule::ImplicationIntroductions(v) => {
            assert(decreases_to!(rule => v));
            assert(decreases_to!(v => v@));
            assert(decreases_to!(v@ => v@[k]));
        },
        Rule::ModusPonens(v) => {
            assert(decreases_to!(rule => v));
            assert(decreases_to!(v => v@));
            assert(decreases_to!(v@ => v@[k]));
        },
        Rule::WeakModusPonens(v) => {
            assert(decreases_to!(rule => v));
            assert(decreases_to!(v => v@));
            assert(decreases_to!(v@ => v@[k]));
        },
        Rule::DisjonctionIntroductionLeft(v) => {
            assert(decreases_to!(rule => v));
            assert(decreases_to!(v => v@));
            assert(decreases_to!(v@ => v@[k]));
        },
        Rule::DisjonctionIntroductionRight(v) => {
            assert(decreases_to!(rule => v));
            assert(decreases_to!(v => v@));
            assert(decreases_to!(v@ => v@[k]));
        },
        Rule::DisjonctionElimination(v) => {
            assert(decreases_to!(rule => v));
            assert(decreases_to!(v => v@));
            assert(decreases_to!(v@ => v@[k]));
        },
        Rule::DisjonctionWeakElimination(v) => {
            assert(decreases_to!(rule => v));
            assert(decreases_to!(v => v@));
            assert(decreases_to!(v@ => v@[k]));
        },
        Rule::Exfalso(v) => {
            assert(decreases_to!(rule => v));
            assert(decreases_to!(v => v@));
            assert(decreases_to!(v@ => v@[k]));
        },
        Rule::EquivalenceIntroduction(v) => {
            assert(decreases_to!(rule => v));
            assert(decreases_to!(v => v@));
            assert(decreases_to!(v@ => v@[k]));
        },
        Rule::EquivalenceWeakElimination(v) => {
            assert(decreases_to!(rule => v));
            assert(decreases_to!(v => v@));
            assert(decreases_to!(v@ => v@[k]));
        },
        Rule::ConjonctionIntroduction(v) => {
            assert(decreases_to!(rule => v));
            assert(decreases_to!(v => v@));
            assert(decreases_to!(v@ => v@[k]));
        },
        Rule::ConjonctionElimination(v) => {
            assert(decreases_to!(rule => v));
            assert(decreases_to!(v => v@));
            assert(decreases_to!(v@ => v@[k]));
        },
        Rule::ConjonctionWeakElimination(v) => {
            assert(decreases_to!(rule => v));
            assert(decreases_to!(v => v@));
            assert(decreases_to!(v@ => v@[k]));
        },
        Rule::Weaken(v) => {
            assert(decreases_to!(rule => v));
            assert(decreases_to!(v => v@));
            assert(decreases_to!(v@ => v@[k]));
        },
    }
}

impl Proof {
    /// Every goal of the tree has a rule attached.
    pub fn is_complete(&self) -> (r: bool)
        ensures
            r == self.complete(),
        decreases self,
    {
        match &self.rule {
            None => false,
            Some(rule) => {
                let ps = rule.hypotheses();
                let mut i: usize = 0;
                while i < ps.len()
                    invariant
                        i <= ps@.len(),
                        ps@ == rule.premises(),
                        self.rule == Some(*rule),
                        forall|k: int| 0 <= k < i ==> (#[trigger] ps@[k]).complete(),
                    decreases ps@.len() - i,
                {
                    proof {
                        lemma_premise_smaller(*self, i as int);
                    }
                    if !ps[i].is_complete() {
                        return false;
                    }
                    i = i + 1;
                }
                true
            },
        }
    }

    /// The next goal to prove, `None` once the tree is complete.
    pub fn next_not_proven(&self) -> (r: Option<&Proof>)
        ensures
            match self.open_path() {
                None => r is None,
                Some(path) => r == Some(&self.node_at(path)),
            },
        decreases self,
    {
        match &self.rule {
            None => {
                assert(self.node_at(seq![]) == *self);
                Some(self)
            },
            Some(rule) => {
                let ps = rule.hypotheses();
                let mut i: usize = 0;
                while i < ps.len()
                    invariant
                        i <= ps@.len(),
                        ps@ == rule.premises(),
                        self.rule == Some(*rule),
                        self.open_from(i as int) == self.open_path(),
                    decreases ps@.len() - i,
                {
                    match ps[i].next_not_proven() {
                        Some(n) => {
                            proof {
                                let p = ps@[i as int].open_path()->0;
                                assert((seq![i as int] + p).drop_first() == p);
                            }
                            return Some(n);
                        },
                        None => {},
                    }
                    i = i + 1;
                }
                None
            },
        }
    }
}

impl Proof {
    /// Attaches the rule that `p` applies to this goal. Fails, leaving the node as it
    /// was, where a rule is already attached or the rule's precondition does not hold.
    pub fn prove_by(&mut self, p: ProveBy) -> (r: bool)
        ensures
            r == (old(self).rule is None && applied(old(self).sequent@, p) is Some),
            r ==> old(self).proved_by(p, *final(self)),
            !r ==> *final(self) == *old(self),
    {
        if self.rule.is_some() {
            return false;
        }
        match Rule::from(&self.sequent, p) {
            Some(rule) => {
                self.rule = Some(Box::new(rule));
                true
            },
            None => false,
        }
    }

    /// The goal `s` proved by `p`, with its premises unproved; `None` where the rule
    /// does not apply.
    pub fn new(s: Sequent, p: ProveBy) -> (r: Option<Self>)
        ensures
            match r {
                Some(n) => Proof { sequent: s, rule: None }.proved_by(p, n),
                None => applied(s@, p) is None,
            },
    {
        let mut n = Proof::not_proven(s);
        if n.prove_by(p) {
            Some(n)
        } else {
            None
        }
    }

    /// The next goal to prove, to be changed in place; `None` once the tree is complete.
    pub fn next_not_proven_mut(&mut self) -> (r: Option<&mut Proof>)
        ensures
            old(self).open_path() is None ==> r is None && *final(self) == *old(self),
            old(self).open_path() is Some ==> r is Some && *r->0 == old(self).node_at(
                old(self).open_path()->0,
            ) && replaced_at(*old(self), *final(self), old(self).open_path()->0, *final(r->0)),
        decreases *old(self),
    {
        if self.rule.is_none() {
            assert(old(self).node_at(seq![]) == *old(self));
            return Some(self);
        }
        let i = match self.first_open_premise() {
            Some(i) => i,
            None => return None,
        };
        let ghost path = self.open_path()->0;
        proof {
            assert(path.len() > 0);
            assert(path[0] == i as int);
            assert(path =~= seq![i as int] + path.drop_first());
        }
        match &mut self.rule {
            Some(rule) => {
                let ps = rule.hypotheses_mut();
                ps[i].next_not_proven_mut()
            },
            None => None,
        }
    }

    /// The index of the first premise that holds an unproved goal.
    fn first_open_premise(&self) -> (r: Option<usize>)
        requires
            self.rule is Some,
        ensures
            match self.open_path() {
                None => r is None,
                Some(path) => r is Some && r->0 as int == path[0] && path.len() > 0 && 0 <= path[0]
                    < self.premises().len() && self.premises()[path[0]].open_path() == Some(
                    path.drop_first(),
                ),
            },
    {
        let ps = match &self.rule {
            Some(rule) => rule.hypotheses(),
            None => return None,
        };
        let mut i: usize = 0;
        while i < ps.len()
            invariant
                i <= ps@.len(),
                ps@ == self.premises(),
                self.rule is Some,
                self.open_from(i as int) == self.open_path(),
            decreases ps@.len() - i,
        {
            if ps[i].next_not_proven().is_some() {
                proof {
                    let p = ps@[i as int].open_path()->0;
                    assert((seq![i as int] + p).drop_first() == p);
                }
                return Some(i);
            }
            i = i + 1;
        }
        None
    }

    /// Attaches the rule that `p` applies to the next goal to prove. Fails, leaving the
    /// tree as it was, where the tree is complete or the rule does not apply there.
    pub fn prove_next_by(&mut self, p: ProveBy) -> (r: bool)
        ensures
            old(self).open_path() is None ==> !r,
            old(self).open_path() matches Some(path) ==> {
                &&& r == (applied(old(self).node_at(path).sequent@, p) is Some)
                &&& r ==> replaced_at(*old(self), *final(self), path, final(self).node_at(path))
                &&& r ==> old(self).node_at(path).proved_by(p, final(self).node_at(path))
            },
            !r ==> *final(self) == *old(self),
    {
        let rule = match self.next_not_proven() {
            None => return false,
            Some(n) => match Rule::from(&n.sequent, p) {
                None => return false,
                Some(rule) => rule,
            },
        };
        let ghost path = self.open_path()->0;
        proof {
            lemma_open_path_unproved(*self);
        }
        let ghost mut put = *self;
        match self.next_not_proven_mut() {
            Some(n) => {
                n.rule = Some(Box::new(rule));
                proof {
                    put = *n;
                }
            },
            None => {},
        }
        proof {
            lemma_replaced_node(*old(self), *self, path, put);
        }
        true
    }

    /// Wraps the proof to print it under `conf`.
    pub fn repr_conf(&self, conf: ReprConf) -> (r: ProofRepr)
        ensures
            r.proof == self,
            r.conf == conf,
    {
        ProofRepr { proof: self, conf }
    }
}

/// `a` and `b` are the same proof tree: equal sequents, the same rules, premises that
/// agree one by one. Below zero, `k` compares the nodes themselves; from zero on, their
/// premises from `k` on.
pub open spec fn agree(a: Proof, b: Proof, k: int) -> bool
    decreases a, a.premises().len() - k,
    via agree_decreases
{
    if k < 0 {
        &&& a.sequent@ == b.sequent@
        &&& match (a.rule, b.rule) {
            (None, None) => true,
            (Some(x), Some(y)) => x.symbol() == y.symbol() && x.premises().len()
                == y.premises().len(),
            _ => false,
        }
        &&& agree(a, b, 0)
    } else if k >= a.premises().len() {
        true
    } else {
        agree(a.premises()[k], b.premises()[k], -1) && agree(a, b, k + 1)
    }
}

#[via_fn]
proof fn agree_decreases(a: Proof, b: Proof, k: int) {
    if 0 <= k < a.premises().len() {
        lemma_premise_smaller(a, k);
    }
}

impl Rule {
    /// The symbol of a rule is the label of a rule.
    proof fn lemma_symbol_is_rule(&self)
        ensures
            ({
                let sym = self.symbol();
                sym == Sym::RuleHypothesis || sym == Sym::RuleImplicationIntroduction || sym
                    == Sym::RuleImplicationIntroductions || sym == Sym::RuleModusPonens || sym
                    == Sym::RuleWeakModusPonens || sym == Sym::RuleDisjonctionIntroductionLeft
                    || sym == Sym::RuleDisjonctionIntroductionRight || sym
                    == Sym::RuleDisjonctionElimination || sym
                    == Sym::RuleDisjonctionWeakElimination || sym == Sym::RuleExfalso || sym
                    == Sym::RuleEquivalenceIntroduction || sym
                    == Sym::RuleEquivalenceWeakElimination || sym
                    == Sym::RuleConjonctionIntroduction || sym == Sym::RuleConjonctionElimination
                    || sym == Sym::RuleConjonctionWeakElimination || sym == Sym::RuleWeaken
            }),
    {
    }
}

impl Proof {
    /// A copy of the proof tree.
    pub fn copy(&self) -> (r: Proof)
        ensures
            agree(*self, r, -1),
        decreases self,
    {
        let sequent = self.sequent.copy();
        match &self.rule {
            None => {
                let r = Proof { sequent, rule: None };
                assert(agree(*self, r, 0));
                r
            },
            Some(rule) => {
                let ps = rule.hypotheses();
                let mut v: Vec<Proof> = Vec::new();
                let mut i: usize = 0;
                while i < ps.len()
                    invariant
                        i <= ps@.len(),
                        ps@ == self.premises(),
                        self.rule == Some(*rule),
                        v@.len() == i,
                        forall|j: int| 0 <= j < i ==> agree(ps@[j], #[trigger] v@[j], -1),
                    decreases ps@.len() - i,
                {
                    proof {
                        lemma_premise_smaller(*self, i as int);
                    }
                    v.push(ps[i].copy());
                    i = i + 1;
                }
                proof {
                    rule.lemma_symbol_is_rule();
                }
                let copied = Rule::labelled(rule.get_symbol(), v);
                let r = Proof { sequent, rule: Some(Box::new(copied)) };
                proof {
                    lemma_agree_from(*self, r, 0);
                }
                r
            },
        }
    }
}

/// Premises that agree one by one from `k` on make the nodes agree from `k` on.
proof fn lemma_agree_from(a: Proof, b: Proof, k: int)
    requires
        0 <= k <= a.premises().len(),
        a.premises().len() == b.premises().len(),
        forall|j: int| k <= j < a.premises().len() ==> agree(a.premises()[j], #[trigger] b.premises()[j], -1),
    ensures
        agree(a, b, k),
    decreases a.premises().len() - k,
{
    if k < a.premises().len() {
        lemma_agree_from(a, b, k + 1);
    }
}

impl Clone for Proof {
    fn clone(&self) -> (r: Self)
        ensures
            agree(*self, r, -1),
    {
        self.copy()
    }
}

/// `q` leads from the root of `p` to one of its nodes.
pub open spec fn has_path(p: Proof, q: Seq<int>) -> bool
    decreases q.len(),
{
    q.len() == 0 || (0 <= q[0] < p.premises().len() && has_path(p.premises()[q[0]], q.drop_first()))
}

/// The node at `q` comes before the node at `path` in a depth-first, left-to-right
/// walk: it is an ancestor of it, or it lies in an earlier branch.
pub open spec fn precedes(q: Seq<int>, path: Seq<int>) -> bool
    decreases q.len(),
{
    if q.len() == 0 {
        path.len() > 0
    } else if path.len() == 0 {
        false
    } else if q[0] < path[0] {
        true
    } else if q[0] == path[0] {
        precedes(q.drop_first(), path.drop_first())
    } else {
        false
    }
}

/// Every node of a complete tree has a rule.
proof fn lemma_complete_nodes(p: Proof, q: Seq<int>)
    requires
        p.complete(),
        has_path(p, q),
    ensures
        p.node_at(q).rule is Some,
    decreases q.len(),
{
    if q.len() > 0 {
        let c = p.premises()[q[0]];
        assert(c.complete());
        lemma_complete_nodes(c, q.drop_first());
    }
}

/// Where [`Proof::open_from`] finds a goal under premise `j`, the premises from `k`
/// up to `j` are complete, and the goal is the one that premise `j`'s walk finds.
proof fn lemma_open_from_parts(p: Proof, k: int)
    requires
        0 <= k,
        p.rule is Some,
        p.open_from(k) is Some,
    ensures
        ({
            let path = p.open_from(k)->0;
            &&& path.len() > 0
            &&& k <= path[0] < p.premises().len()
            &&& p.premises()[path[0]].open_path() == Some(path.drop_first())
            &&& forall|i: int| k <= i < path[0] ==> (#[trigger] p.premises()[i]).complete()
        }),
    decreases p.premises().len() - k,
{
    let c = p.premises()[k];
    match c.open_from(0) {
        Some(q) => {
            assert((seq![k] + q).drop_first() == q);
        },
        None => {
            lemma_complete_iff_no_open_goal(c);
            lemma_open_from_parts(p, k + 1);
        },
    }
}

/// The next goal to prove is the first node without a rule in a depth-first,
/// left-to-right walk of the tree: every node before it has a rule.
pub proof fn lemma_open_path_is_first(p: Proof, q: Seq<int>)
    requires
        p.open_path() is Some,
        has_path(p, q),
        precedes(q, p.open_path()->0),
    ensures
        p.node_at(q).rule is Some,
    decreases q.len(),
{
    let path = p.open_path()->0;
    if p.rule is None {
        assert(path.len() == 0);
    } else {
        lemma_open_from_parts(p, 0);
        if q.len() > 0 {
            let c = p.premises()[q[0]];
            if q[0] < path[0] {
                lemma_complete_nodes(c, q.drop_first());
            } else {
                lemma_open_path_is_first(c, q.drop_first());
            }
        }
    }
}

/// Why a rule could not be attached.
#[derive(Clone, Copy, Debug, PartialEq, Eq, Structural)]
pub enum RuleError {
    /// The goal already has a rule.
    AlreadyProved,
    /// No goal is left to prove.
    Complete,
    /// The conclusion is not among the hypotheses.
    NotAHypothesis,
    /// The conclusion or the hypothesis has another connective than the rule needs.
    WrongConnective,
    /// No hypothesis has that index.
    IndexOutOfRange,
    /// No index was given.
    EmptyIndexSet,
    /// The implication's consequent is not the conclusion.
    ConsequentMismatch,
}

/// Why `by` does not apply to the goal `s`; `None` where it does.
pub open spec fn refusal(s: Entailment, by: ProveBy) -> Option<RuleError> {
    let h = s.hypotheses;
    let c = s.conclusion;
    match by {
        ProveBy::Hypothesis => if h.contains(c) {
            None
        } else {
            Some(RuleError::NotAHypothesis)
        },
        ProveBy::ImplicationIntroduction => if c is Imp {
            None
        } else {
            Some(RuleError::WrongConnective)
        },
        ProveBy::DisjonctionIntroductionLeft | ProveBy::DisjonctionIntroductionRight => if c is Or {
            None
        } else {
            Some(RuleError::WrongConnective)
        },
        ProveBy::Introduction => if c is Iff || c is And || c is Imp {
            None
        } else {
            Some(RuleError::WrongConnective)
        },
        ProveBy::ConjonctionIntroduction => if c is And {
            None
        } else {
            Some(RuleError::WrongConnective)
        },
        ProveBy::Eliminate(i) => if i >= h.len() {
            Some(RuleError::IndexOutOfRange)
        } else {
            match h[i as int] {
                Formula::Imp(_, q) => if *q == c {
                    None
                } else {
                    Some(RuleError::ConsequentMismatch)
                },
                Formula::Iff(_, _) | Formula::And(_, _) | Formula::Or(_, _) => None,
                _ => Some(RuleError::WrongConnective),
            }
        },
        ProveBy::Weaken(idx) => if idx@.len() == 0 {
            Some(RuleError::EmptyIndexSet)
        } else if forall|k: int| 0 <= k < idx@.len() ==> #[trigger] idx@[k] < h.len() {
            None
        } else {
            Some(RuleError::IndexOutOfRange)
        },
        _ => None,
    }
}

/// A rule is refused exactly when it does not apply.
pub proof fn lemma_refusal_iff_not_applied(s: Entailment, by: ProveBy)
    ensures
        refusal(s, by) is None <==> applied(s, by) is Some,
{
}

impl Rule {
    /// Why `p` does not apply to `s`; `None` where it does.
    pub fn refusal(s: &Sequent, p: &ProveBy) -> (r: Option<RuleError>)
        ensures
            r == refusal(s@, *p),
    {
        let h = s.hypotheses();
        let c = s.conclusion();
        match p {
            ProveBy::Hypothesis => if holds(h, c) {
                None
            } else {
                Some(RuleError::NotAHypothesis)
            },
            ProveBy::ImplicationIntroduction => match c {
                Prop::Implication(_, _) => None,
                _ => Some(RuleError::WrongConnective),
            },
            ProveBy::DisjonctionIntroductionLeft | ProveBy::DisjonctionIntroductionRight => match c {
                Prop::Disjonction(_, _) => None,
                _ => Some(RuleError::WrongConnective),
            },
            ProveBy::Introduction => match c {
                Prop::Equivalence(_, _) | Prop::Conjonction(_, _) | Prop::Implication(_, _) => None,
                _ => Some(RuleError::WrongConnective),
            },
            ProveBy::ConjonctionIntroduction => match c {
                Prop::Conjonction(_, _) => None,
                _ => Some(RuleError::WrongConnective),
            },
            ProveBy::Eliminate(i) => {
                let i = *i;
                if i >= h.len() {
                    return Some(RuleError::IndexOutOfRange);
                }
                assert(h@[i as int]@ == s@.hypotheses[i as int]);
                match &h[i] {
                    Prop::Implication(_, q) => if q.same(c) {
                        None
                    } else {
                        Some(RuleError::ConsequentMismatch)
                    },
                    Prop::Equivalence(_, _) | Prop::Conjonction(_, _) | Prop::Disjonction(_, _) => None,
                    _ => Some(RuleError::WrongConnective),
                }
            },
            ProveBy::Weaken(idx) => {
                if idx.len() == 0 {
                    Some(RuleError::EmptyIndexSet)
                } else if all_below(idx.as_slice(), h.len()) {
                    None
                } else {
                    Some(RuleError::IndexOutOfRange)
                }
            },
            _ => None,
        }
    }
}

impl Proof {
    /// Attaches the rule that `p` applies to this goal, or says why it cannot; a
    /// refusal leaves the node as it was.
    pub fn apply(&mut self, p: ProveBy) -> (r: Result<(), RuleError>)
        ensures
            old(self).rule is Some ==> r == Err::<(), RuleError>(RuleError::AlreadyProved),
            old(self).rule is None ==> match refusal(old(self).sequent@, p) {
                Some(e) => r == Err::<(), RuleError>(e),
                None => r is Ok,
            },
            r is Ok ==> old(self).proved_by(p, *final(self)),
            r is Err ==> *final(self) == *old(self),
    {
        if self.rule.is_some() {
            return Err(RuleError::AlreadyProved);
        }
        match Rule::refusal(&self.sequent, &p) {
            Some(e) => Err(e),
            None => {
                proof {
                    lemma_refusal_iff_not_applied(self.sequent@, p);
                }
                if self.prove_by(p) {
                    Ok(())
                } else {
                    Err(RuleError::AlreadyProved)
                }
            },
        }
    }

    /// Attaches the rule that `p` applies to the next goal to prove, or says why it
    /// cannot; a refusal leaves the tree as it was.
    pub fn apply_next(&mut self, p: ProveBy) -> (r: Result<(), RuleError>)
        ensures
            old(self).open_path() is None ==> r == Err::<(), RuleError>(RuleError::Complete),
            old(self).open_path() matches Some(path) ==> {
                &&& match refusal(old(self).node_at(path).sequent@, p) {
                    Some(e) => r == Err::<(), RuleError>(e),
                    None => r is Ok,
                }
                &&& r is Ok ==> replaced_at(*old(self), *final(self), path, final(self).node_at(path))
                &&& r is Ok ==> old(self).node_at(path).proved_by(p, final(self).node_at(path))
            },
            r is Err ==> *final(self) == *old(self),
    {
        let reason = match self.next_not_proven() {
            None => return Err(RuleError::Complete),
            Some(n) => Rule::refusal(&n.sequent, &p),
        };
        match reason {
            Some(e) => Err(e),
            None => {
                proof {
                    let path = self.open_path()->0;
                    lemma_refusal_iff_not_applied(self.node_at(path).sequent@, p);
                }
                if self.prove_next_by(p) {
                    Ok(())
                } else {
                    Err(RuleError::Complete)
                }
            },
        }
    }
}

/// A proof together with the options it is printed with.
pub struct ProofRepr<'a> {
    pub proof: &'a Proof,
    pub conf: ReprConf,
}

} // verus!
