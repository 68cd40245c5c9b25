use prove::{ParseError, Prop, ReprConf, Sequent};

fn parse(s: &str) -> Prop {
    s.parse::<Prop>().unwrap()
}

fn plain(p: &Prop) -> String {
    p.repr().to_string()
}

#[test]
fn implication_nests_to_the_right() {
    let (a, b, c) = (Prop::var("A"), Prop::var("B"), Prop::var("C"));
    assert_eq!(parse("A->B->C"), a.implies(&b.implies(&c)));
}

#[test]
fn conjunction_nests_to_the_right() {
    let (a, b, c) = (Prop::var("A"), Prop::var("B"), Prop::var("C"));
    assert_eq!(parse("A/\\B/\\C"), a.and(&b.and(&c)));
}

#[test]
fn disjunction_nests_to_the_right() {
    let (a, b, c) = (Prop::var("A"), Prop::var("B"), Prop::var("C"));
    assert_eq!(parse("A\\/B\\/C"), a.or(&b.or(&c)));
}

#[test]
fn negation_is_implication_of_false() {
    let a = Prop::var("A");
    let n = parse("~A");
    assert_eq!(n, a.implies(&Prop::False));
    assert_eq!(n, a.negate());
    assert_eq!(n.repr().negation().to_string(), "~A");
    assert_eq!(plain(&n), "A->!");
}

#[test]
fn precedence_splits_at_the_loosest_operator() {
    let (a, b, c) = (Prop::var("A"), Prop::var("B"), Prop::var("C"));
    assert_eq!(parse("A/\\B->C"), a.and(&b).implies(&c));
    assert_eq!(parse("A\\/B/\\C"), a.or(&b.and(&c)));
    assert_eq!(parse("A<->B->C"), Prop::Equivalence(Box::new(a.clone()), Box::new(b.implies(&c))));
    assert_eq!(parse("(A->B)->C"), a.implies(&b).implies(&c));
    assert_eq!(parse(" ( A ) "), a);
}

#[test]
fn printing_puts_parentheses_only_where_needed() {
    let (a, b, c) = (Prop::var("A"), Prop::var("B"), Prop::var("C"));
    assert_eq!(plain(&a.implies(&b.implies(&c))), "A->B->C");
    assert_eq!(plain(&a.implies(&b).implies(&c)), "(A->B)->C");
    assert_eq!(plain(&a.and(&b).or(&c)), "A/\\B\\/C");
    assert_eq!(plain(&a.or(&b).and(&c)), "(A\\/B)/\\C");
    assert_eq!(plain(&a.negate().negate()), "(A->!)->!");
    assert_eq!(a.negate().negate().repr().negation().to_string(), "~~A");
    assert_eq!(a.and(&b).negate().repr().negation().to_string(), "~(A/\\B)");
}

#[test]
fn unicode_spellings() {
    let (a, b) = (Prop::var("A"), Prop::var("B"));
    let p = a.and(&b).implies(&Prop::False);
    assert_eq!(p.repr().unicode().to_string(), "A\u{2227}B\u{2794}\u{22a5}");
    assert_eq!(p.repr().unicode().len(), 5);
}

#[test]
fn formatted_output_keeps_the_plain_width() {
    let a = Prop::var("A");
    let r = a.repr().formated();
    assert_eq!(r.to_string(), "\u{1b}[92mA\u{1b}[0m");
    assert_eq!(r.len(), 1);
    assert!(!r.is_empty());
}

#[test]
fn print_then_parse_gives_the_formula_back() {
    let (a, b, c) = (Prop::var("A"), Prop::var("Bb_1"), Prop::var("c"));
    let samples = vec![
        Prop::False,
        a.clone(),
        a.implies(&b).implies(&c),
        a.implies(&b.implies(&c)),
        a.and(&b).or(&c.negate()),
        Prop::Equivalence(Box::new(a.or(&b)), Box::new(a.and(&b).implies(&c))),
        Prop::Equivalence(Box::new(Prop::Equivalence(Box::new(a.clone()), Box::new(b.clone()))), Box::new(c.clone())),
        a.negate().negate(),
    ];
    for f in samples {
        assert_eq!(parse(&plain(&f)), f);
    }
}

#[test]
fn lexing_errors() {
    assert_eq!("A $ B".parse::<Prop>(), Err(ParseError::UnexpectedCharacter));
    assert_eq!("A -".parse::<Prop>(), Err(ParseError::UnexpectedEndOfStream));
    assert_eq!("A - B".parse::<Prop>(), Err(ParseError::UnexpectedCharacter));
    assert_eq!("A <-".parse::<Prop>(), Err(ParseError::UnexpectedEndOfStream));
    assert_eq!("(A->B".parse::<Prop>(), Err(ParseError::ClosingParenthesisExpected));
    assert_eq!("A)".parse::<Prop>(), Err(ParseError::UnexpectedClosingParenthesis));
}

#[test]
fn syntax_errors() {
    assert_eq!("".parse::<Prop>(), Err(ParseError::EmptyExpression));
    assert_eq!("()".parse::<Prop>(), Err(ParseError::EmptyExpression));
    assert_eq!("A->".parse::<Prop>(), Err(ParseError::EmptyExpression));
    assert_eq!("A ~B".parse::<Prop>(), Err(ParseError::NegationNotBinary));
    assert_eq!("A B".parse::<Prop>(), Err(ParseError::OperatorNotFound));
    assert_eq!(ParseError::OperatorNotFound.message(), "operator not found");
}

#[test]
fn sequents_parse_and_print() {
    let s: Sequent = "A, B->C |- C".parse().unwrap();
    assert_eq!(s.hypotheses().len(), 2);
    assert_eq!(s.hypotheses()[1], Prop::var("B").implies(&Prop::var("C")));
    assert_eq!(*s.conclusion(), Prop::var("C"));
    assert_eq!(s.repr().to_string(), "A, B->C |- C");
    assert_eq!(s.repr().len(), 12);
    let t: Sequent = "|- A->A".parse().unwrap();
    assert_eq!(t.hypotheses().len(), 0);
    assert_eq!(t.repr().to_string(), "|- A->A");
    let u: Sequent = "  |- A".parse().unwrap();
    assert_eq!(u.repr().to_string(), "|- A");
    assert_eq!(u.repr_conf(ReprConf { negation: false, formated: false, unicode: true, emphazis: false }).to_string(), "\u{22a2} A");
}

#[test]
fn sequent_errors() {
    assert_eq!("A |- B |- C".parse::<Sequent>().unwrap_err(), ParseError::SequentSymbol);
    assert_eq!("A, B".parse::<Sequent>().unwrap_err(), ParseError::SequentSymbol);
    assert_eq!("A, |- B".parse::<Sequent>().unwrap_err(), ParseError::EmptyExpression);
    assert_eq!("A |- ".parse::<Sequent>().unwrap_err(), ParseError::EmptyExpression);
}
