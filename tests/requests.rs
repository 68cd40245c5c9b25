use prove::{Command, CommandError, ParseError, Prop, ProveBy};

fn prop(s: &str) -> Prop {
    s.parse().unwrap()
}

#[test]
fn rule_names() {
    assert!(matches!("h".parse::<ProveBy>(), Ok(ProveBy::Hypothesis)));
    assert!(matches!("ii".parse::<ProveBy>(), Ok(ProveBy::ImplicationIntroduction)));
    assert!(matches!("iis".parse::<ProveBy>(), Ok(ProveBy::ImplicationIntroductions)));
    assert!(matches!("i".parse::<ProveBy>(), Ok(ProveBy::Introduction)));
    assert!(matches!("ci".parse::<ProveBy>(), Ok(ProveBy::ConjonctionIntroduction)));
    assert!(matches!("dil".parse::<ProveBy>(), Ok(ProveBy::DisjonctionIntroductionLeft)));
    assert!(matches!("dir".parse::<ProveBy>(), Ok(ProveBy::DisjonctionIntroductionRight)));
    assert!(matches!("xf".parse::<ProveBy>(), Ok(ProveBy::Exfalso)));
    assert!(matches!("h  ".parse::<ProveBy>(), Ok(ProveBy::Hypothesis)));
    assert_eq!(" h".parse::<ProveBy>().unwrap_err(), CommandError::UnknownRule);
}

#[test]
fn rule_arguments() {
    match "mp A->B".parse::<ProveBy>() {
        Ok(ProveBy::ModusPonens(a)) => assert_eq!(a, prop("A->B")),
        r => panic!("{:?}", r),
    }
    assert!(matches!("e 2".parse::<ProveBy>(), Ok(ProveBy::Eliminate(2))));
    assert!(matches!("e +12".parse::<ProveBy>(), Ok(ProveBy::Eliminate(12))));
    match "de A, B/\\C".parse::<ProveBy>() {
        Ok(ProveBy::DisjonctionElimination(a, b)) => {
            assert_eq!(a, prop("A"));
            assert_eq!(b, prop("B/\\C"));
        },
        r => panic!("{:?}", r),
    }
    match "ce A,B".parse::<ProveBy>() {
        Ok(ProveBy::ConjonctionElimination(a, b)) => {
            assert_eq!(a, prop("A"));
            assert_eq!(b, prop("B"));
        },
        r => panic!("{:?}", r),
    }
    match "aff 1 3".parse::<ProveBy>() {
        Ok(ProveBy::Weaken(v)) => assert_eq!(v, vec![1, 3]),
        r => panic!("{:?}", r),
    }
    match "aff".parse::<ProveBy>() {
        Ok(ProveBy::Weaken(v)) => assert!(v.is_empty()),
        r => panic!("{:?}", r),
    }
}

#[test]
fn rule_request_errors() {
    assert_eq!("foo".parse::<ProveBy>().unwrap_err(), CommandError::UnknownRule);
    assert_eq!("h A".parse::<ProveBy>().unwrap_err(), CommandError::UnexpectedArgument);
    assert_eq!("mp A, B".parse::<ProveBy>().unwrap_err(), CommandError::UnexpectedArgument);
    assert_eq!("e x".parse::<ProveBy>().unwrap_err(), CommandError::NotANumber);
    assert_eq!("e 99999999999999999999999".parse::<ProveBy>().unwrap_err(), CommandError::NotANumber);
    assert_eq!("aff 1 x".parse::<ProveBy>().unwrap_err(), CommandError::NotANumber);
    assert_eq!("mp".parse::<ProveBy>().unwrap_err(), CommandError::Formula(ParseError::EmptyExpression));
    assert_eq!("de A".parse::<ProveBy>().unwrap_err(), CommandError::Formula(ParseError::EmptyExpression));
}

#[test]
fn short_commands() {
    assert!(matches!("h".parse::<Command>(), Ok(Command::Hypothesis)));
    assert!(matches!("i".parse::<Command>(), Ok(Command::IntroImplication)));
    assert!(matches!("ii".parse::<Command>(), Ok(Command::IntrosImplication)));
    assert!(matches!("f".parse::<Command>(), Ok(Command::Exfalso)));
    assert!(matches!("ci".parse::<Command>(), Ok(Command::IntroConjonction)));
    assert!(matches!("dil".parse::<Command>(), Ok(Command::IntroDisjonctionL)));
    assert!(matches!("dir".parse::<Command>(), Ok(Command::IntroDisjonctionR)));
    match "mp A->B".parse::<Command>() {
        Ok(Command::ModusPonens(a)) => assert_eq!(a, prop("A->B")),
        r => panic!("{:?}", r),
    }
    match "de A,B".parse::<Command>() {
        Ok(Command::ElimDisjonction(a, b)) => {
            assert_eq!(a, prop("A"));
            assert_eq!(b, prop("B"));
        },
        r => panic!("{:?}", r),
    }
    match "ce A, B".parse::<Command>() {
        Ok(Command::ElimConjonction(a, b)) => {
            assert_eq!(a, prop("A"));
            assert_eq!(b, prop("B"));
        },
        r => panic!("{:?}", r),
    }
    match "af 0 2".parse::<Command>() {
        Ok(Command::Weakened(v)) => assert_eq!(v, vec![0, 2]),
        r => panic!("{:?}", r),
    }
    assert!(matches!("ap 3".parse::<Command>(), Ok(Command::Apply(3))));
}

#[test]
fn short_command_errors() {
    assert_eq!("zz".parse::<Command>().unwrap_err(), CommandError::UnknownRule);
    assert_eq!("h A".parse::<Command>().unwrap_err(), CommandError::Arity(0));
    assert_eq!("mp A, B".parse::<Command>().unwrap_err(), CommandError::Arity(1));
    assert_eq!("de A".parse::<Command>().unwrap_err(), CommandError::Arity(2));
    assert_eq!("ap 1 2".parse::<Command>().unwrap_err(), CommandError::Arity(1));
    assert_eq!("ap x".parse::<Command>().unwrap_err(), CommandError::NotANumber);
    assert_eq!("h ".parse::<Command>().unwrap_err(), CommandError::Formula(ParseError::EmptyExpression));
}
