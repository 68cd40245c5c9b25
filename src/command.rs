use vstd::prelude::*;

use crate::parser::{parse_chars, parse_text};
use crate::property::{Formula, Prop};
use crate::prove_by::{is_word, numbers, parse_numbers, CommandError};
use crate::text::{
    chars_of, index_of, pieces, position, split_at_first, split_chars, sub_chars, trim, trimmed,
};

verus! {

/// A proof step as the short command language names it.
#[derive(Debug)]
pub enum Command {
    Hypothesis,
    IntroImplication,
    IntrosImplication,
    ElimDisjonction(Prop, Prop),
    Exfalso,
    ModusPonens(Prop),
    IntroConjonction,
    ElimConjonction(Prop, Prop),
    IntroDisjonctionL,
    IntroDisjonctionR,
    Weakened(Vec<usize>),
    Apply(usize),
}

/// The mathematical value of a [`Command`].
pub enum Step {
    Hypothesis,
    IntroImplication,
    IntrosImplication,
    ElimDisjonction(Formula, Formula),
    Exfalso,
    ModusPonens(Formula),
    IntroConjonction,
    ElimConjonction(Formula, Formula),
    IntroDisjonctionL,
    IntroDisjonctionR,
    Weakened(Seq<usize>),
    Apply(usize),
}

impl View for Command {
    type V = Step;

    open spec fn view(&self) -> Step {
        match self {
            Command::Hypothesis => Step::Hypothesis,
            Command::IntroImplication => Step::IntroImplication,
            Command::IntrosImplication => Step::IntrosImplication,
            Command::ElimDisjonction(a, b) => Step::ElimDisjonction(a@, b@),
            Command::Exfalso => Step::Exfalso,
            Command::ModusPonens(a) => Step::ModusPonens(a@),
            Command::IntroConjonction => Step::IntroConjonction,
            Command::ElimConjonction(a, b) => Step::ElimConjonction(a@, b@),
            Command::IntroDisjonctionL => Step::IntroDisjonctionL,
            Command::IntroDisjonctionR => Step::IntroDisjonctionR,
            Command::Weakened(v) => Step::Weakened(v@),
            Command::Apply(i) => Step::Apply(*i),
        }
    }
}

/// The formulas of the texts `ps`, read from the first.
pub open spec fn formula_list(ps: Seq<Seq<char>>) -> Result<Seq<Formula>, CommandError>
    decreases ps.len(),
{
    if ps.len() == 0 {
        Ok(seq![])
    } else {
        match parse_text(ps[0]) {
            Err(e) => Err(CommandError::Formula(e)),
            Ok(f) => match formula_list(ps.drop_first()) {
                Ok(fs) => Ok(seq![f] + fs),
                Err(e) => Err(e),
            },
        }
    }
}

/// The formula arguments of a command: the comma-separated formulas after its first
/// space; none without a space.
pub open spec fn prop_args(s: Seq<char>) -> Result<Seq<Formula>, CommandError> {
    if index_of(s, ' ') is None {
        Ok(seq![])
    } else {
        formula_list(pieces(split_at_first(s, ' ').1, ','))
    }
}

/// The index arguments of a command: the space-separated numbers after its first
/// space; none without a space.
pub open spec fn index_args(s: Seq<char>) -> Result<Seq<usize>, CommandError> {
    if index_of(s, ' ') is None {
        Ok(seq![])
    } else {
        numbers(pieces(trim(split_at_first(s, ' ').1), ' ').map_values(|p: Seq<char>| trim(p)))
    }
}

/// A command that takes no argument.
pub open spec fn bare(s: Seq<char>, step: Step) -> Result<Step, CommandError> {
    match prop_args(s) {
        Err(e) => Err(e),
        Ok(args) => if args.len() == 0 {
            Ok(step)
        } else {
            Err(CommandError::Arity(0))
        },
    }
}

/// The command that the text `s` spells: a name up to the first space, then its
/// arguments.
pub open spec fn command_text(s: Seq<char>) -> Result<Step, CommandError> {
    let name = split_at_first(s, ' ').0;
    if name == "h"@ {
        bare(s, Step::Hypothesis)
    } else if name == "i"@ {
        bare(s, Step::IntroImplication)
    } else if name == "ii"@ {
        bare(s, Step::IntrosImplication)
    } else if name == "f"@ {
        bare(s, Step::Exfalso)
    } else if name == "ci"@ {
        bare(s, Step::IntroConjonction)
    } else if name == "dil"@ {
        bare(s, Step::IntroDisjonctionL)
    } else if name == "dir"@ {
        bare(s, Step::IntroDisjonctionR)
    } else if name == "de"@ || name == "ce"@ {
        match prop_args(s) {
            Err(e) => Err(e),
            Ok(args) => if args.len() == 2 {
                Ok(
                    if name == "de"@ {
                        Step::ElimDisjonction(args[0], args[1])
                    } else {
                        Step::ElimConjonction(args[0], args[1])
                    },
                )
            } else {
                Err(CommandError::Arity(2))
            },
        }
    } else if name == "mp"@ {
        match prop_args(s) {
            Err(e) => Err(e),
            Ok(args) => if args.len() == 1 {
                Ok(Step::ModusPonens(args[0]))
            } else {
                Err(CommandError::Arity(1))
            },
        }
    } else if name == "af"@ {
        match index_args(s) {
            Err(e) => Err(e),
            Ok(ns) => Ok(Step::Weakened(ns)),
        }
    } else if name == "ap"@ {
        match index_args(s) {
            Err(e) => Err(e),
            Ok(ns) => if ns.len() == 1 {
                Ok(Step::Apply(ns[0]))
            } else {
                Err(CommandError::Arity(1))
            },
        }
    } else {
        Err(CommandError::UnknownRule)
    }
}

/// The name of a command: its text up to the first space.
fn parse_name(buffer: &Vec<char>) -> (r: Vec<char>)
    ensures
        r@ == split_at_first(buffer@, ' ').0,
{
    match position(buffer, ' ') {
        Some(pos) => {
            let r = sub_chars(buffer, 0, pos);
            assert(r@ == buffer@.take(pos as int));
            r
        },
        None => {
            let r = sub_chars(buffer, 0, buffer.len());
            assert(r@ == buffer@);
            r
        },
    }
}

/// The formulas of the pieces `ps`.
fn parse_formulas(ps: &Vec<Vec<char>>) -> (r: Result<Vec<Prop>, CommandError>)
    ensures
        match formula_list(ps@.map_values(|p: Vec<char>| p@)) {
            Ok(fs) => r matches Ok(v) && v@.map_values(|p: Prop| p@) == fs,
            Err(e) => r matches Err(e2) && e2 == e,
        },
{
    let ghost all = ps@.map_values(|p: Vec<char>| p@);
    let mut out: Vec<Prop> = Vec::new();
    let mut i: usize = 0;
    assert(all.skip(0) == all);
    while i < ps.len()
        invariant
            i <= ps@.len(),
            all == ps@.map_values(|p: Vec<char>| p@),
            formula_list(all) == (match formula_list(all.skip(i as int)) {
                Ok(fs) => Ok(out@.map_values(|p: Prop| p@) + fs),
                Err(e) => Err(e),
            }),
        decreases ps@.len() - i,
    {
        assert(all.skip(i as int)[0] == ps@[i as int]@);
        assert(all.skip(i as int).drop_first() == all.skip(i + 1));
        match parse_chars(&ps[i]) {
            Err(e) => return Err(CommandError::Formula(e)),
            Ok(p) => {
                let ghost before = out@.map_values(|p: Prop| p@);
                let ghost pv = p@;
                out.push(p);
                assert(out@.map_values(|p: Prop| p@) =~= before + seq![pv]);
                proof {
                    match formula_list(all.skip(i + 1)) {
                        Ok(fs) => assert(before + (seq![pv] + fs) == before + seq![pv] + fs),
                        Err(_) => {},
                    }
                }
            },
        }
        i = i + 1;
    }
    assert(all.skip(i as int).len() == 0);
    assert(out@.map_values(|p: Prop| p@) + Seq::<Formula>::empty() == out@.map_values(
        |p: Prop| p@,
    ));
    Ok(out)
}

/// The formula arguments of a command.
fn props(buffer: &Vec<char>) -> (r: Result<Vec<Prop>, CommandError>)
    ensures
        match prop_args(buffer@) {
            Ok(fs) => r matches Ok(v) && v@.map_values(|p: Prop| p@) == fs,
            Err(e) => r matches Err(e2) && e2 == e,
        },
{
    match position(buffer, ' ') {
        Some(pos) => {
            let args = sub_chars(buffer, pos, buffer.len());
            assert(args@ == buffer@.skip(pos as int));
            parse_formulas(&split_chars(&args, ','))
        },
        None => {
            let v: Vec<Prop> = Vec::new();
            assert(v@.map_values(|p: Prop| p@) =~= Seq::<Formula>::empty());
            Ok(v)
        },
    }
}

/// The index arguments of a command.
fn indexes(buffer: &Vec<char>) -> (r: Result<Vec<usize>, CommandError>)
    ensures
        match index_args(buffer@) {
            Ok(ns) => r matches Ok(v) && v@ == ns,
            Err(e) => r matches Err(e2) && e2 == e,
        },
{
    match position(buffer, ' ') {
        Some(pos) => {
            let args = sub_chars(buffer, pos, buffer.len());
            assert(args@ == buffer@.skip(pos as int));
            let parts = split_chars(&trimmed(&args), ' ');
            let mut cleaned: Vec<Vec<char>> = Vec::new();
            let mut k: usize = 0;
            while k < parts.len()
                invariant
                    k <= parts@.len(),
                    cleaned@.len() == k,
                    forall|j: int| 0 <= j < k ==> (#[trigger] cleaned@[j])@ == trim(parts@[j]@),
                decreases parts@.len() - k,
            {
                cleaned.push(trimmed(&parts[k]));
                k = k + 1;
            }
            let ghost want = pieces(trim(args@), ' ').map_values(|p: Seq<char>| trim(p));
            assert(cleaned@.map_values(|p: Vec<char>| p@) =~= want);
            parse_numbers(&cleaned)
        },
        None => Ok(Vec::new()),
    }
}

/// A command that takes no argument.
fn bare_command(buffer: &Vec<char>, c: Command) -> (r: Result<Command, CommandError>)
    ensures
        match bare(buffer@, c@) {
            Ok(q) => r matches Ok(p) && p@ == q,
            Err(e) => r matches Err(e2) && e2 == e,
        },
{
    match props(buffer) {
        Err(e) => Err(e),
        Ok(args) => {
            if args.len() == 0 {
                Ok(c)
            } else {
                Err(CommandError::Arity(0))
            }
        },
    }
}

impl Command {
    /// Reads a command: a name up to the first space, then its arguments.
    pub fn from_text(s: &str) -> (r: Result<Command, CommandError>)
        ensures
            match command_text(s@) {
                Ok(q) => r matches Ok(p) && p@ == q,
                Err(e) => r matches Err(e2) && e2 == e,
            },
    {
        let cs = chars_of(s);
        let name = parse_name(&cs);
        if is_word(&name, "h") {
            bare_command(&cs, Command::Hypothesis)
        } else if is_word(&name, "i") {
            bare_command(&cs, Command::IntroImplication)
        } else if is_word(&name, "ii") {
            bare_command(&cs, Command::IntrosImplication)
        } else if is_word(&name, "f") {
            bare_command(&cs, Command::Exfalso)
        } else if is_word(&name, "ci") {
            bare_command(&cs, Command::IntroConjonction)
        } else if is_word(&name, "dil") {
            bare_command(&cs, Command::IntroDisjonctionL)
        } else if is_word(&name, "dir") {
            bare_command(&cs, Command::IntroDisjonctionR)
        } else if is_word(&name, "de") || is_word(&name, "ce") {
            let disjonction = is_word(&name, "de");
            match props(&cs) {
                Err(e) => Err(e),
                Ok(args) => {
                    if args.len() == 2 {
                        let a = args[0].copy();
                        let b = args[1].copy();
                        if disjonction {
                            Ok(Command::ElimDisjonction(a, b))
                        } else {
                            Ok(Command::ElimConjonction(a, b))
                        }
                    } else {
                        Err(CommandError::Arity(2))
                    }
                },
            }
        } else if is_word(&name, "mp") {
            match props(&cs) {
                Err(e) => Err(e),
                Ok(args) => {
                    if args.len() == 1 {
                        Ok(Command::ModusPonens(args[0].copy()))
                    } else {
                        Err(CommandError::Arity(1))
                    }
                },
            }
        } else if is_word(&name, "af") {
            match indexes(&cs) {
                Err(e) => Err(e),
                Ok(ns) => Ok(Command::Weakened(ns)),
            }
        } else if is_word(&name, "ap") {
            match indexes(&cs) {
                Err(e) => Err(e),
                Ok(ns) => {
                    if ns.len() == 1 {
                        Ok(Command::Apply(ns[0]))
                    } else {
                        Err(CommandError::Arity(1))
                    }
                },
            }
        } else {
            Err(CommandError::UnknownRule)
        }
    }
}

impl std::str::FromStr for Command {
    type Err = CommandError;

    fn from_str(s: &str) -> Result<Command, CommandError> {
        Command::from_text(s)
    }
}

} // verus!
