use vstd::prelude::*;

use crate::parser::{parse_chars, parse_text, ParseError};
use crate::property::{Formula, Prop};
use crate::text::{
    chars_of, decimal, parse_usize, pieces, split_chars, split_once, split_once_chars, trim,
    trimmed,
};

verus! {

/// A request to justify a goal by one rule of the calculus.
#[derive(Debug)]
pub enum ProveBy {
    Hypothesis,
    ImplicationIntroduction,
    /// The introduction rule that the conclusion's connective calls for.
    Introduction,
    ModusPonens(Prop),
    DisjonctionIntroductionLeft,
    DisjonctionIntroductionRight,
    Exfalso,
    ImplicationIntroductions,
    DisjonctionElimination(Prop, Prop),
    /// The elimination rule that the connective of the hypothesis at this index calls for.
    Eliminate(usize),
    ConjonctionIntroduction,
    ConjonctionElimination(Prop, Prop),
    /// Drop the hypotheses at these indices.
    Weaken(Vec<usize>),
}

/// The mathematical value of a [`ProveBy`].
pub enum Request {
    Hypothesis,
    ImplicationIntroduction,
    Introduction,
    ModusPonens(Formula),
    DisjonctionIntroductionLeft,
    DisjonctionIntroductionRight,
    Exfalso,
    ImplicationIntroductions,
    DisjonctionElimination(Formula, Formula),
    Eliminate(usize),
    ConjonctionIntroduction,
    ConjonctionElimination(Formula, Formula),
    Weaken(Seq<usize>),
}

impl View for ProveBy {
    type V = Request;

    open spec fn view(&self) -> Request {
        match self {
            ProveBy::Hypothesis => Request::Hypothesis,
            ProveBy::ImplicationIntroduction => Request::ImplicationIntroduction,
            ProveBy::Introduction => Request::Introduction,
            ProveBy::ModusPonens(a) => Request::ModusPonens(a@),
            ProveBy::DisjonctionIntroductionLeft => Request::DisjonctionIntroductionLeft,
            ProveBy::DisjonctionIntroductionRight => Request::DisjonctionIntroductionRight,
            ProveBy::Exfalso => Request::Exfalso,
            ProveBy::ImplicationIntroductions => Request::ImplicationIntroductions,
            ProveBy::DisjonctionElimination(a, b) => Request::DisjonctionElimination(a@, b@),
            ProveBy::Eliminate(i) => Request::Eliminate(*i),
            ProveBy::ConjonctionIntroduction => Request::ConjonctionIntroduction,
            ProveBy::ConjonctionElimination(a, b) => Request::ConjonctionElimination(a@, b@),
            ProveBy::Weaken(v) => Request::Weaken(v@),
        }
    }
}

/// Why a rule request could not be read.
#[derive(Clone, Copy, Debug, PartialEq, Eq, Structural)]
pub enum CommandError {
    /// No rule goes by that name.
    UnknownRule,
    /// More arguments than the rule takes.
    UnexpectedArgument,
    /// An index that is not a number.
    NotANumber,
    /// A formula argument that does not parse.
    Formula(ParseError),
    /// Not as many arguments as the command takes, which is this many.
    Arity(u8),
}

/// Nothing but white space is left.
pub open spec fn at_end(s: Seq<char>) -> bool {
    trim(s).len() == 0
}

/// A formula argument ended by a comma, and what follows the comma.
pub open spec fn arg_prop(s: Seq<char>) -> Result<(Formula, Seq<char>), CommandError> {
    let (l, r) = split_once(s, ',');
    match parse_text(l) {
        Ok(f) => Ok((f, r)),
        Err(e) => Err(CommandError::Formula(e)),
    }
}

/// An index argument ended by a space, and what follows the space.
pub open spec fn arg_num(s: Seq<char>) -> Result<(usize, Seq<char>), CommandError> {
    let (l, r) = split_once(s, ' ');
    match decimal(l) {
        Some(n) => Ok((n, r)),
        None => Err(CommandError::NotANumber),
    }
}

/// The numbers of the texts `ps`, each as [`decimal`] reads it.
pub open spec fn numbers(ps: Seq<Seq<char>>) -> Result<Seq<usize>, CommandError>
    decreases ps.len(),
{
    if ps.len() == 0 {
        Ok(seq![])
    } else {
        match decimal(ps[0]) {
            None => Err(CommandError::NotANumber),
            Some(n) => match numbers(ps.drop_first()) {
                Ok(ns) => Ok(seq![n] + ns),
                Err(e) => Err(e),
            },
        }
    }
}

/// `r` where nothing but white space is left in `args`.
pub open spec fn ending(args: Seq<char>, r: Request) -> Result<Request, CommandError> {
    if at_end(args) {
        Ok(r)
    } else {
        Err(CommandError::UnexpectedArgument)
    }
}

/// The request that the text `s` spells: a rule name, then its arguments.
pub open spec fn request_text(s: Seq<char>) -> Result<Request, CommandError> {
    let (name, args) = split_once(s, ' ');
    if name == "h"@ {
        ending(args, Request::Hypothesis)
    } else if name == "ii"@ {
        ending(args, Request::ImplicationIntroduction)
    } else if name == "ci"@ {
        ending(args, Request::ConjonctionIntroduction)
    } else if name == "iis"@ {
        ending(args, Request::ImplicationIntroductions)
    } else if name == "i"@ {
        ending(args, Request::Introduction)
    } else if name == "dil"@ {
        ending(args, Request::DisjonctionIntroductionLeft)
    } else if name == "dir"@ {
        ending(args, Request::DisjonctionIntroductionRight)
    } else if name == "xf"@ {
        ending(args, Request::Exfalso)
    } else if name == "mp"@ {
        match arg_prop(args) {
            Err(e) => Err(e),
            Ok((a, rest)) => ending(rest, Request::ModusPonens(a)),
        }
    } else if name == "e"@ {
        match arg_num(args) {
            Err(e) => Err(e),
            Ok((i, rest)) => ending(rest, Request::Eliminate(i)),
        }
    } else if name == "de"@ || name == "ce"@ {
        match arg_prop(args) {
            Err(e) => Err(e),
            Ok((a, rest)) => match arg_prop(rest) {
                Err(e) => Err(e),
                Ok((b, rest)) => ending(
                    rest,
                    if name == "de"@ {
                        Request::DisjonctionElimination(a, b)
                    } else {
                        Request::ConjonctionElimination(a, b)
                    },
                ),
            },
        }
    } else if name == "aff"@ {
        if args.len() == 0 {
            Ok(Request::Weaken(seq![]))
        } else {
            match numbers(pieces(args, ' ')) {
                Ok(ns) => Ok(Request::Weaken(ns)),
                Err(e) => Err(e),
            }
        }
    } else {
        Err(CommandError::UnknownRule)
    }
}

/// Whether the characters `v` spell the word `w`.
pub fn is_word(v: &Vec<char>, w: &str) -> (r: bool)
    ensures
        r == (v@ == w@),
{
    let n = w.unicode_len();
    if v.len() != n {
        return false;
    }
    let mut i: usize = 0;
    while i < n
        invariant
            i <= n == w@.len() == v@.len(),
            forall|j: int| 0 <= j < i ==> v@[j] == w@[j],
        decreases n - i,
    {
        if v[i] != w.get_char(i) {
            return false;
        }
        i = i + 1;
    }
    assert(v@ == w@);
    true
}

/// Succeeds where nothing but white space is left.
fn expect_end(s: &Vec<char>) -> (r: Result<(), CommandError>)
    ensures
        r is Ok <==> at_end(s@),
        r is Err ==> r == Err::<(), CommandError>(CommandError::UnexpectedArgument),
{
    if trimmed(s).len() == 0 {
        Ok(())
    } else {
        Err(CommandError::UnexpectedArgument)
    }
}

/// A formula argument ended by a comma, and what follows the comma.
fn parse_arg_prop(s: &Vec<char>) -> (r: Result<(Prop, Vec<char>), CommandError>)
    ensures
        match arg_prop(s@) {
            Ok((f, rest)) => r matches Ok((p, v)) && p@ == f && v@ == rest,
            Err(e) => r matches Err(e2) && e2 == e,
        },
{
    let (l, r) = split_once_chars(s, ',');
    match parse_chars(&l) {
        Ok(p) => Ok((p, r)),
        Err(e) => Err(CommandError::Formula(e)),
    }
}

/// An index argument ended by a space, and what follows the space.
fn parse_arg_num(s: &Vec<char>) -> (r: Result<(usize, Vec<char>), CommandError>)
    ensures
        match arg_num(s@) {
            Ok((n, rest)) => r matches Ok((m, v)) && m == n && v@ == rest,
            Err(e) => r matches Err(e2) && e2 == e,
        },
{
    let (l, r) = split_once_chars(s, ' ');
    match parse_usize(&l) {
        Some(n) => Ok((n, r)),
        None => Err(CommandError::NotANumber),
    }
}

/// The numbers of the pieces `ps`.
pub fn parse_numbers(ps: &Vec<Vec<char>>) -> (r: Result<Vec<usize>, CommandError>)
    ensures
        match numbers(ps@.map_values(|p: Vec<char>| p@)) {
            Ok(ns) => r matches Ok(v) && v@ == ns,
            Err(e) => r matches Err(e2) && e2 == e,
        },
{
    let ghost all = ps@.map_values(|p: Vec<char>| p@);
    let mut out: Vec<usize> = Vec::new();
    let mut i: usize = 0;
    assert(all.skip(0) == all);
    while i < ps.len()
        invariant
            i <= ps@.len(),
            all == ps@.map_values(|p: Vec<char>| p@),
            numbers(all) == (match numbers(all.skip(i as int)) {
                Ok(ns) => Ok(out@ + ns),
                Err(e) => Err(e),
            }),
        decreases ps@.len() - i,
    {
        assert(all.skip(i as int)[0] == ps@[i as int]@);
        assert(all.skip(i as int).drop_first() == all.skip(i + 1));
        match parse_usize(&ps[i]) {
            None => return Err(CommandError::NotANumber),
            Some(n) => {
                let ghost before = out@;
                out.push(n);
                proof {
                    match numbers(all.skip(i + 1)) {
                        Ok(ns) => assert(before + (seq![n] + ns) == out@ + ns),
                        Err(_) => {},
                    }
                }
            },
        }
        i = i + 1;
    }
    assert(all.skip(i as int).len() == 0);
    assert(out@ + Seq::<usize>::empty() == out@);
    Ok(out)
}

/// `r` where nothing but white space is left in `args`.
fn ending_with(args: &Vec<char>, r: ProveBy) -> (out: Result<ProveBy, CommandError>)
    ensures
        match ending(args@, r@) {
            Ok(q) => out matches Ok(p) && p@ == q,
            Err(e) => out matches Err(e2) && e2 == e,
        },
{
    match expect_end(args) {
        Ok(()) => Ok(r),
        Err(e) => Err(e),
    }
}

impl ProveBy {
    /// Reads a rule request: a rule name, then its arguments.
    pub fn from_text(s: &str) -> (r: Result<ProveBy, CommandError>)
        ensures
            match request_text(s@) {
                Ok(q) => r matches Ok(p) && p@ == q,
                Err(e) => r matches Err(e2) && e2 == e,
            },
    {
        let cs = chars_of(s);
        let (name, args) = split_once_chars(&cs, ' ');
        if is_word(&name, "h") {
            ending_with(&args, ProveBy::Hypothesis)
        } else if is_word(&name, "ii") {
            ending_with(&args, ProveBy::ImplicationIntroduction)
        } else if is_word(&name, "ci") {
            ending_with(&args, ProveBy::ConjonctionIntroduction)
        } else if is_word(&name, "iis") {
            ending_with(&args, ProveBy::ImplicationIntroductions)
        } else if is_word(&name, "i") {
            ending_with(&args, ProveBy::Introduction)
        } else if is_word(&name, "dil") {
            ending_with(&args, ProveBy::DisjonctionIntroductionLeft)
        } else if is_word(&name, "dir") {
            ending_with(&args, ProveBy::DisjonctionIntroductionRight)
        } else if is_word(&name, "xf") {
            ending_with(&args, ProveBy::Exfalso)
        } else if is_word(&name, "mp") {
            match parse_arg_prop(&args) {
                Err(e) => Err(e),
                Ok((a, rest)) => ending_with(&rest, ProveBy::ModusPonens(a)),
            }
        } else if is_word(&name, "e") {
            match parse_arg_num(&args) {
                Err(e) => Err(e),
                Ok((i, rest)) => ending_with(&rest, ProveBy::Eliminate(i)),
            }
        } else if is_word(&name, "de") || is_word(&name, "ce") {
            let disjonction = is_word(&name, "de");
            match parse_arg_prop(&args) {
                Err(e) => Err(e),
                Ok((a, rest)) => match parse_arg_prop(&rest) {
                    Err(e) => Err(e),
                    Ok((b, rest)) => ending_with(
                        &rest,
                        if disjonction {
                            ProveBy::DisjonctionElimination(a, b)
                        } else {
                            ProveBy::ConjonctionElimination(a, b)
                        },
                    ),
                },
            }
        } else if is_word(&name, "aff") {
            if args.len() == 0 {
                let v: Vec<usize> = Vec::new();
                Ok(ProveBy::Weaken(v))
            } else {
                match parse_numbers(&split_chars(&args, ' ')) {
                    Ok(ns) => Ok(ProveBy::Weaken(ns)),
                    Err(e) => Err(e),
                }
            }
        } else {
            Err(CommandError::UnknownRule)
        }
    }
}

impl std::str::FromStr for ProveBy {
    type Err = CommandError;

    fn from_str(s: &str) -> Result<ProveBy, CommandError> {
        ProveBy::from_text(s)
    }
}

} // verus!
