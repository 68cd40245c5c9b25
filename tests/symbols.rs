use prove::{Paren, Prop, ReprConf, Sym};

#[test]
fn ascii_and_unicode_spellings() {
    assert_eq!(Sym::Conjonction.lex(), "/\\");
    assert_eq!(Sym::Equivalence.lex(), "<->");
    assert_eq!(Sym::Conjonction.repr(true), "\u{2227}");
    assert_eq!(Sym::Conjonction.repr(false), "/\\");
    assert_eq!(Sym::Equivalence.repr(true), "<->");
    assert_eq!(Sym::RuleImplicationIntroduction.repr(true), "\u{2794}i");
    assert_eq!(Sym::RuleDisjonctionIntroductionLeft.len(false), 5);
    assert_eq!(Sym::Implication.len(true), 1);
}

#[test]
fn only_parentheses_and_separators_are_coloured() {
    assert_eq!(Sym::OpenParenthesis.color(true), Some(("\u{1b}[2m", "\u{1b}[0m")));
    assert_eq!(Sym::Comma.color(true), Some(("\u{1b}[1m", "\u{1b}[0m")));
    assert_eq!(Sym::Conjonction.color(true), None);
    assert_eq!(Sym::Comma.color(false), None);
    let mut out = Vec::new();
    Sym::Sequent.fmt(ReprConf { negation: false, formated: true, unicode: true, emphazis: false }, &mut out);
    assert_eq!(out.iter().collect::<String>(), "\u{1b}[1m\u{22a2}\u{1b}[0m");
}

#[test]
fn paren_wraps_a_formula() {
    let p = Prop::var("A").implies(&Prop::var("B"));
    let mut out = Vec::new();
    Paren(&p, ReprConf::default()).fmt(&mut out);
    assert_eq!(out.iter().collect::<String>(), "(A->B)");
}

#[test]
fn default_configuration_is_plain() {
    let c = ReprConf::default();
    assert!(!c.negation && !c.formated && !c.unicode && !c.emphazis);
}
