use prove::{Proof, Prop, ProveBy, RuleError, Sequent};

fn seq(s: &str) -> Sequent {
    s.parse().unwrap()
}

fn goal(s: &str) -> Proof {
    Proof::not_proven(seq(s))
}

fn text(s: &Sequent) -> String {
    s.repr().to_string()
}

fn prop(s: &str) -> Prop {
    s.parse().unwrap()
}

/// The premises that `by` leaves on the goal `s`, printed.
fn premises(s: &str, by: ProveBy) -> Option<Vec<String>> {
    let p = Proof::new(seq(s), by)?;
    let rule = p.rule.as_ref().unwrap();
    Some(rule.hypotheses().iter().map(|c| text(&c.sequent)).collect())
}

#[test]
fn hypothesis_closes_a_goal_found_among_the_hypotheses() {
    let mut p = goal("A |- A");
    assert!(p.prove_by(ProveBy::Hypothesis));
    assert_eq!(p.rule.as_ref().unwrap().hypotheses().len(), 0);
    assert!(p.is_complete());
    assert!(p.next_not_proven().is_none());
}

#[test]
fn implication_introduction_then_hypothesis() {
    let mut p = goal("|- A->A");
    assert!(p.prove_next_by(ProveBy::ImplicationIntroduction));
    assert_eq!(text(&p.next_not_proven().unwrap().sequent), "A |- A");
    assert!(!p.is_complete());
    assert!(p.prove_next_by(ProveBy::Hypothesis));
    assert!(p.is_complete());
    assert!(p.next_not_proven().is_none());
}

#[test]
fn weaken_then_hypothesis() {
    let mut p = goal("A, B |- A");
    assert!(p.prove_next_by(ProveBy::Weaken(vec![1])));
    assert_eq!(text(&p.next_not_proven().unwrap().sequent), "A |- A");
    assert!(p.prove_next_by(ProveBy::Hypothesis));
    assert!(p.is_complete());
}

#[test]
fn disjunction_elimination_by_cases() {
    let mut p = goal("P\\/Q, P->R, Q->R |- R");
    assert!(p.prove_next_by(ProveBy::Eliminate(0)));
    let cases: Vec<String> = p.rule.as_ref().unwrap().hypotheses().iter().map(|c| text(&c.sequent)).collect();
    assert_eq!(cases, vec!["P, P->R, Q->R |- R", "Q, P->R, Q->R |- R"]);
    assert!(p.prove_next_by(ProveBy::Eliminate(1)));
    assert_eq!(text(&p.next_not_proven().unwrap().sequent), "P, P->R, Q->R |- P");
    assert!(p.prove_next_by(ProveBy::Hypothesis));
    assert_eq!(text(&p.next_not_proven().unwrap().sequent), "Q, P->R, Q->R |- R");
    assert!(p.prove_next_by(ProveBy::Eliminate(2)));
    assert!(p.prove_next_by(ProveBy::Hypothesis));
    assert!(p.is_complete());
}

#[test]
fn failed_hypothesis_leaves_the_goal_open() {
    let mut p = goal("A |- B");
    let before = p.repr_conf(Default::default()).to_string();
    assert!(!p.prove_next_by(ProveBy::Hypothesis));
    assert!(p.rule.is_none());
    assert!(!p.is_complete());
    assert_eq!(text(&p.next_not_proven().unwrap().sequent), "A |- B");
    assert_eq!(p.repr_conf(Default::default()).to_string(), before);
}

#[test]
fn failed_rules_leave_the_tree_as_it_was() {
    let mut p = goal("A, B |- A/\\B");
    assert!(p.prove_next_by(ProveBy::ConjonctionIntroduction));
    let before = p.repr_conf(Default::default()).to_string();
    assert!(!p.prove_next_by(ProveBy::ImplicationIntroduction));
    assert!(!p.prove_next_by(ProveBy::Eliminate(7)));
    assert!(!p.prove_next_by(ProveBy::Weaken(vec![])));
    assert!(!p.prove_next_by(ProveBy::Weaken(vec![0, 2])));
    assert!(!p.prove_next_by(ProveBy::DisjonctionIntroductionLeft));
    assert_eq!(p.repr_conf(Default::default()).to_string(), before);
    assert_eq!(text(&p.next_not_proven().unwrap().sequent), "A, B |- A");
}

#[test]
fn a_proved_goal_keeps_its_rule() {
    let mut p = goal("A |- A");
    assert!(p.prove_by(ProveBy::Hypothesis));
    assert!(!p.prove_by(ProveBy::Exfalso));
    assert!(p.is_complete());
}

#[test]
fn complete_tree_refuses_more_rules() {
    let mut p = goal("A |- A");
    assert!(p.prove_next_by(ProveBy::Hypothesis));
    assert!(!p.prove_next_by(ProveBy::Hypothesis));
    assert!(p.next_not_proven_mut().is_none());
}

#[test]
fn navigator_goes_depth_first_from_the_left() {
    let mut p = goal("A, B |- (A/\\B)/\\(B/\\A)");
    assert!(p.prove_next_by(ProveBy::ConjonctionIntroduction));
    assert_eq!(text(&p.next_not_proven().unwrap().sequent), "A, B |- A/\\B");
    assert!(p.prove_next_by(ProveBy::ConjonctionIntroduction));
    assert_eq!(text(&p.next_not_proven().unwrap().sequent), "A, B |- A");
    assert!(p.prove_next_by(ProveBy::Hypothesis));
    assert_eq!(text(&p.next_not_proven().unwrap().sequent), "A, B |- B");
    assert!(p.prove_next_by(ProveBy::Hypothesis));
    assert_eq!(text(&p.next_not_proven().unwrap().sequent), "A, B |- B/\\A");
    let n = p.next_not_proven_mut().unwrap();
    assert!(n.prove_by(ProveBy::ConjonctionIntroduction));
    assert_eq!(text(&p.next_not_proven().unwrap().sequent), "A, B |- B");
}

#[test]
fn schema_hypothesis() {
    assert_eq!(premises("A, B |- B", ProveBy::Hypothesis), Some(vec![]));
    assert_eq!(premises("A |- B", ProveBy::Hypothesis), None);
}

#[test]
fn schema_implication_introduction() {
    assert_eq!(premises("C |- A->B", ProveBy::ImplicationIntroduction), Some(vec!["C, A |- B".to_string()]));
    assert_eq!(premises("|- A/\\B", ProveBy::ImplicationIntroduction), None);
}

#[test]
fn schema_chained_implication_introduction() {
    assert_eq!(premises("C |- A->B->D", ProveBy::ImplicationIntroductions), Some(vec!["C, A, B |- D".to_string()]));
    assert_eq!(premises("|- ~A", ProveBy::ImplicationIntroductions), Some(vec!["A |- !".to_string()]));
    assert_eq!(premises("C |- D", ProveBy::ImplicationIntroductions), Some(vec!["C |- D".to_string()]));
}

#[test]
fn schema_modus_ponens() {
    assert_eq!(
        premises("H |- C", ProveBy::ModusPonens(prop("B"))),
        Some(vec!["H |- B->C".to_string(), "H |- B".to_string()])
    );
}

#[test]
fn schema_weak_modus_ponens() {
    assert_eq!(premises("A->C, X |- C", ProveBy::Eliminate(0)), Some(vec!["A->C, X |- A".to_string()]));
    assert_eq!(premises("A->D |- C", ProveBy::Eliminate(0)), None);
}

#[test]
fn schema_disjunction_introduction() {
    assert_eq!(premises("H |- A\\/B", ProveBy::DisjonctionIntroductionLeft), Some(vec!["H |- A".to_string()]));
    assert_eq!(premises("H |- A\\/B", ProveBy::DisjonctionIntroductionRight), Some(vec!["H |- B".to_string()]));
    assert_eq!(premises("H |- A", ProveBy::DisjonctionIntroductionRight), None);
}

#[test]
fn schema_disjunction_elimination() {
    assert_eq!(
        premises("H |- C", ProveBy::DisjonctionElimination(prop("A"), prop("B"))),
        Some(vec!["H |- A\\/B".to_string(), "H, A |- C".to_string(), "H, B |- C".to_string()])
    );
}

#[test]
fn schema_disjunction_weak_elimination() {
    assert_eq!(
        premises("X, A\\/B, Y |- C", ProveBy::Eliminate(1)),
        Some(vec!["X, A, Y |- C".to_string(), "X, B, Y |- C".to_string()])
    );
}

#[test]
fn schema_conjunction_rules() {
    assert_eq!(premises("H |- A/\\B", ProveBy::ConjonctionIntroduction), Some(vec!["H |- A".to_string(), "H |- B".to_string()]));
    assert_eq!(premises("H |- A/\\B", ProveBy::Introduction), Some(vec!["H |- A".to_string(), "H |- B".to_string()]));
    assert_eq!(
        premises("H |- C", ProveBy::ConjonctionElimination(prop("A"), prop("B"))),
        Some(vec!["H |- A/\\B".to_string(), "H, A, B |- C".to_string()])
    );
    assert_eq!(premises("X, A/\\B, Y |- C", ProveBy::Eliminate(1)), Some(vec!["X, A, B, Y |- C".to_string()]));
}

#[test]
fn schema_equivalence_rules() {
    assert_eq!(
        premises("H |- A<->B", ProveBy::Introduction),
        Some(vec!["H |- A->B".to_string(), "H |- B->A".to_string()])
    );
    assert_eq!(premises("A<->B, Y |- C", ProveBy::Eliminate(0)), Some(vec!["A->B, B->A, Y |- C".to_string()]));
}

#[test]
fn schema_generic_introduction() {
    assert_eq!(premises("H |- A->B", ProveBy::Introduction), Some(vec!["H, A |- B".to_string()]));
    assert_eq!(premises("H |- A\\/B", ProveBy::Introduction), None);
    assert_eq!(premises("H |- A", ProveBy::Introduction), None);
    assert_eq!(premises("H |- !", ProveBy::Introduction), None);
}

#[test]
fn schema_generic_elimination_failures() {
    assert_eq!(premises("A |- C", ProveBy::Eliminate(0)), None);
    assert_eq!(premises("! |- C", ProveBy::Eliminate(0)), None);
    assert_eq!(premises("A |- C", ProveBy::Eliminate(1)), None);
}

#[test]
fn schema_exfalso_and_weaken() {
    assert_eq!(premises("H |- C", ProveBy::Exfalso), Some(vec!["H |- !".to_string()]));
    assert_eq!(premises("A, B, C, D |- E", ProveBy::Weaken(vec![2, 0, 2])), Some(vec!["B, D |- E".to_string()]));
    assert_eq!(premises("A |- E", ProveBy::Weaken(vec![1])), None);
    assert_eq!(premises("A |- E", ProveBy::Weaken(vec![])), None);
}

#[test]
fn a_copy_is_a_separate_snapshot() {
    let mut p = goal("|- A->A");
    assert!(p.prove_next_by(ProveBy::ImplicationIntroduction));
    let snapshot = p.clone();
    assert!(p.prove_next_by(ProveBy::Hypothesis));
    assert!(p.is_complete());
    assert!(!snapshot.is_complete());
    assert_eq!(text(&snapshot.next_not_proven().unwrap().sequent), "A |- A");
}

#[test]
fn new_proves_or_refuses() {
    assert!(Proof::new(seq("A |- A"), ProveBy::Hypothesis).unwrap().is_complete());
    assert!(Proof::new(seq("A |- B"), ProveBy::Hypothesis).is_none());
}

#[test]
fn refusals_say_why() {
    assert_eq!(goal("A |- B").apply(ProveBy::Hypothesis), Err(RuleError::NotAHypothesis));
    assert_eq!(goal("A |- B").apply(ProveBy::ImplicationIntroduction), Err(RuleError::WrongConnective));
    assert_eq!(goal("A |- B").apply(ProveBy::Introduction), Err(RuleError::WrongConnective));
    assert_eq!(goal("A |- B").apply(ProveBy::Eliminate(3)), Err(RuleError::IndexOutOfRange));
    assert_eq!(goal("A |- B").apply(ProveBy::Eliminate(0)), Err(RuleError::WrongConnective));
    assert_eq!(goal("A->C |- B").apply(ProveBy::Eliminate(0)), Err(RuleError::ConsequentMismatch));
    assert_eq!(goal("A |- B").apply(ProveBy::Weaken(vec![])), Err(RuleError::EmptyIndexSet));
    assert_eq!(goal("A |- B").apply(ProveBy::Weaken(vec![0, 1])), Err(RuleError::IndexOutOfRange));
    let mut p = goal("A |- A");
    assert_eq!(p.apply(ProveBy::Hypothesis), Ok(()));
    assert_eq!(p.apply(ProveBy::Hypothesis), Err(RuleError::AlreadyProved));
    assert_eq!(p.apply_next(ProveBy::Hypothesis), Err(RuleError::Complete));
}

#[test]
fn apply_next_works_on_the_next_goal() {
    let mut p = goal("A |- A/\\A");
    assert_eq!(p.apply_next(ProveBy::Introduction), Ok(()));
    assert_eq!(p.apply_next(ProveBy::Exfalso), Ok(()));
    assert_eq!(text(&p.next_not_proven().unwrap().sequent), "A |- !");
    assert_eq!(p.apply_next(ProveBy::Hypothesis), Err(RuleError::NotAHypothesis));
    assert_eq!(text(&p.next_not_proven().unwrap().sequent), "A |- !");
}
