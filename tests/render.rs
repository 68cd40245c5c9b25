use prove::{Proof, ProveBy, ReprConf, Sequent};

fn goal(s: &str) -> Proof {
    Proof::not_proven(s.parse::<Sequent>().unwrap())
}

fn draw(p: &Proof) -> String {
    p.repr_conf(ReprConf::default()).to_string().unwrap()
}

#[test]
fn an_open_goal_is_its_sequent() {
    assert_eq!(draw(&goal("A |- B")), "A |- B\n");
}

#[test]
fn hypothesis_draws_a_bare_line() {
    let mut p = goal("A |- A");
    assert!(p.prove_by(ProveBy::Hypothesis));
    assert_eq!(draw(&p), "\u{2500}\u{2500}\u{2500}\u{2500}\u{2500}\u{2500}h\nA |- A \n");
}

#[test]
fn premise_is_centred_over_its_conclusion() {
    let mut p = goal("|- A->A");
    assert!(p.prove_next_by(ProveBy::ImplicationIntroduction));
    let line = "\u{2500}".repeat(7);
    assert_eq!(draw(&p), format!("A |- A    \n{}->i\n|- A->A   \n", line));
    let block = p.repr_conf(ReprConf::default()).render().unwrap();
    assert_eq!(block.height, 3);
    assert_eq!(block.width, 10);
    assert_eq!(block.bottom_x, 0);
    assert_eq!(block.bottom_width, 7);
}

#[test]
fn premises_stand_side_by_side_four_apart() {
    let mut p = goal("A, B |- A/\\B");
    assert!(p.prove_next_by(ProveBy::ConjonctionIntroduction));
    let out = draw(&p);
    let rows: Vec<&str> = out.lines().collect();
    assert_eq!(rows.len(), 3);
    assert_eq!(rows[0], "A, B |- A    A, B |- B   ");
    assert!(rows[1].starts_with(&"\u{2500}".repeat(22)));
    assert!(rows[1].ends_with("/\\i"));
    assert_eq!(rows[2], "     A, B |- A/\\B        ");
}
