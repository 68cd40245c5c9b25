use vstd::prelude::*;

use crate::text::push_str;

verus! {

/// Presentation options shared by the formula, sequent and proof printers.
#[derive(Clone, Copy, Debug)]
pub struct ReprConf {
    /// Print `P -> !` as `~P`.
    pub negation: bool,
    /// Surround symbols and names with terminal escape codes.
    pub formated: bool,
    /// Use the Unicode spellings of the connectives.
    pub unicode: bool,
    /// Highlight variable names with the emphasis colour.
    pub emphazis: bool,
}

impl ReprConf {
    /// Plain ASCII output: every option off.
    pub open spec fn plain() -> ReprConf {
        ReprConf { negation: false, formated: false, unicode: false, emphazis: false }
    }
}

impl Default for ReprConf {
    fn default() -> (r: Self)
        ensures
            r == ReprConf::plain(),
    {
        ReprConf { negation: false, formated: false, unicode: false, emphazis: false }
    }
}

/// Every symbol that the printers and the lexer know of.
#[derive(Clone, Copy, Debug, PartialEq, Eq, Structural)]
pub enum Sym {
    OpenParenthesis,
    CloseParenthesis,
    False,
    Conjonction,
    Disjonction,
    Negation,
    Implication,
    Equivalence,
    Sequent,
    Comma,
    RuleLine,
    RuleHypothesis,
    RuleImplicationIntroduction,
    RuleImplicationIntroductions,
    RuleModusPonens,
    RuleWeakModusPonens,
    RuleDisjonctionIntroductionLeft,
    RuleDisjonctionIntroductionRight,
    RuleExfalso,
    RuleDisjonctionElimination,
    RuleDisjonctionWeakElimination,
    RuleEquivalenceIntroduction,
    RuleEquivalenceElimination,
    RuleEquivalenceWeakElimination,
    RuleConjonctionIntroduction,
    RuleConjonctionElimination,
    RuleConjonctionWeakElimination,
    RuleWeaken,
}

impl Sym {
    /// The ASCII spelling, which is also what the lexer reads.
    pub open spec fn lexeme(self) -> Seq<char> {
        match self {
            Sym::OpenParenthesis => seq!['('],
            Sym::CloseParenthesis => seq![')'],
            Sym::Conjonction => seq!['/', '\\'],
            Sym::Disjonction => seq!['\\', '/'],
            Sym::False => seq!['!'],
            Sym::Negation => seq!['~'],
            Sym::Implication => seq!['-', '>'],
            Sym::Equivalence => seq!['<', '-', '>'],
            Sym::Sequent => seq!['|', '-'],
            Sym::Comma => seq![','],
            Sym::RuleLine => seq!['\u{2500}'],
            Sym::RuleHypothesis => seq!['h'],
            Sym::RuleImplicationIntroduction => seq!['-', '>', 'i'],
            Sym::RuleImplicationIntroductions => seq!['-', '>', 'i', '\''],
            Sym::RuleModusPonens => seq!['m', 'p'],
            Sym::RuleWeakModusPonens => seq!['m', 'p', '\''],
            Sym::RuleDisjonctionIntroductionLeft => seq!['\\', '/', 'i', ',', 'l'],
            Sym::RuleDisjonctionIntroductionRight => seq!['\\', '/', 'i', ',', 'r'],
            Sym::RuleDisjonctionElimination => seq!['\\', '/', 'e'],
            Sym::RuleDisjonctionWeakElimination => seq!['\\', '/', 'e', '\''],
            Sym::RuleExfalso => seq!['!', 'e'],
            Sym::RuleEquivalenceIntroduction => seq!['<', '-', '>', 'i'],
            Sym::RuleEquivalenceElimination => seq!['<', '-', '>', 'e'],
            Sym::RuleEquivalenceWeakElimination => seq!['<', '-', '>', 'e', '\''],
            Sym::RuleConjonctionIntroduction => seq!['/', '\\', 'i'],
            Sym::RuleConjonctionElimination => seq!['/', '\\', 'e'],
            Sym::RuleConjonctionWeakElimination => seq!['/', '\\', 'e', '\''],
            Sym::RuleWeaken => seq!['w'],
        }
    }

    /// The printed spelling, Unicode or ASCII.
    pub open spec fn spelling(self, unicode: bool) -> Seq<char> {
        if unicode {
            match self {
                Sym::False => seq!['\u{22a5}'],
                Sym::Conjonction => seq!['\u{2227}'],
                Sym::Disjonction => seq!['\u{2228}'],
                Sym::Implication => seq!['\u{2794}'],
                Sym::Sequent => seq!['\u{22a2}'],
                Sym::RuleImplicationIntroduction => seq!['\u{2794}', 'i'],
                _ => self.lexeme(),
            }
        } else {
            self.lexeme()
        }
    }

    /// The escape codes around the symbol when output is formatted.
    pub open spec fn colors(self, formated: bool) -> Option<(Seq<char>, Seq<char>)> {
        if formated {
            match self {
                Sym::OpenParenthesis | Sym::CloseParenthesis => Some(
                    (seq!['\x1b', '[', '2', 'm'], seq!['\x1b', '[', '0', 'm']),
                ),
                Sym::Sequent | Sym::Comma => Some(
                    (seq!['\x1b', '[', '1', 'm'], seq!['\x1b', '[', '0', 'm']),
                ),
                _ => None,
            }
        } else {
            None
        }
    }

    /// The symbol as the printers write it: its spelling, between its escape codes when
    /// `conf.formated` asks for them.
    pub open spec fn shown(self, conf: ReprConf) -> Seq<char> {
        match self.colors(conf.formated) {
            Some((set, unset)) => set + self.spelling(conf.unicode) + unset,
            None => self.spelling(conf.unicode),
        }
    }
}

impl Sym {
    /// The ASCII spelling of the symbol.
    pub fn lex(&self) -> (r: &'static str)
        ensures
            r@ == self.lexeme(),
    {
        match self {
            Sym::OpenParenthesis => {
                proof {
                    reveal_strlit("(");
                }
                "("
            },
            Sym::CloseParenthesis => {
                proof {
                    reveal_strlit(")");
                }
                ")"
            },
            Sym::Conjonction => {
                proof {
                    reveal_strlit("/\\");
                }
                "/\\"
            },
            Sym::Disjonction => {
                proof {
                    reveal_strlit("\\/");
                }
                "\\/"
            },
            Sym::False => {
                proof {
                    reveal_strlit("!");
                }
                "!"
            },
            Sym::Negation => {
                proof {
                    reveal_strlit("~");
                }
                "~"
            },
            Sym::Implication => {
                proof {
                    reveal_strlit("->");
                }
                "->"
            },
            Sym::Equivalence => {
                proof {
                    reveal_strlit("<->");
                }
                "<->"
            },
            Sym::Sequent => {
                proof {
                    reveal_strlit("|-");
                }
                "|-"
            },
            Sym::Comma => {
                proof {
                    reveal_strlit(",");
                }
                ","
            },
            Sym::RuleLine => {
                proof {
                    reveal_strlit("\u{2500}");
                }
                "\u{2500}"
            },
            Sym::RuleHypothesis => {
                proof {
                    reveal_strlit("h");
                }
                "h"
            },
            Sym::RuleImplicationIntroduction => {
                proof {
                    reveal_strlit("->i");
                }
                "->i"
            },
            Sym::RuleImplicationIntroductions => {
                proof {
                    reveal_strlit("->i'");
                }
                "->i'"
            },
            Sym::RuleModusPonens => {
                proof {
                    reveal_strlit("mp");
                }
                "mp"
            },
            Sym::RuleWeakModusPonens => {
                proof {
                    reveal_strlit("mp'");
                }
                "mp'"
            },
            Sym::RuleDisjonctionIntroductionLeft => {
                proof {
                    reveal_strlit("\\/i,l");
                }
                "\\/i,l"
            },
            Sym::RuleDisjonctionIntroductionRight => {
                proof {
                    reveal_strlit("\\/i,r");
                }
                "\\/i,r"
            },
            Sym::RuleDisjonctionElimination => {
                proof {
                    reveal_strlit("\\/e");
                }
                "\\/e"
            },
            Sym::RuleDisjonctionWeakElimination => {
                proof {
                    reveal_strlit("\\/e'");
                }
                "\\/e'"
            },
            Sym::RuleExfalso => {
                proof {
                    reveal_strlit("!e");
                }
                "!e"
            },
            Sym::RuleEquivalenceIntroduction => {
                proof {
                    reveal_strlit("<->i");
                }
                "<->i"
            },
            Sym::RuleEquivalenceElimination => {
                proof {
                    reveal_strlit("<->e");
                }
                "<->e"
            },
            Sym::RuleEquivalenceWeakElimination => {
                proof {
                    reveal_strlit("<->e'");
                }
                "<->e'"
            },
            Sym::RuleConjonctionIntroduction => {
                proof {
                    reveal_strlit("/\\i");
                }
                "/\\i"
            },
            Sym::RuleConjonctionElimination => {
                proof {
                    reveal_strlit("/\\e");
                }
                "/\\e"
            },
            Sym::RuleConjonctionWeakElimination => {
                proof {
                    reveal_strlit("/\\e'");
                }
                "/\\e'"
            },
            Sym::RuleWeaken => {
                proof {
                    reveal_strlit("w");
                }
                "w"
            },
        }
    }

    /// The spelling of the symbol, Unicode where `unicode` asks for it and one exists.
    pub fn repr(&self, unicode: bool) -> (r: &'static str)
        ensures
            r@ == self.spelling(unicode),
    {
        if unicode {
            match self {
                Sym::False => {
                    proof {
                        reveal_strlit("\u{22a5}");
                    }
                    "\u{22a5}"
                },
                Sym::Conjonction => {
                    proof {
                        reveal_strlit("\u{2227}");
                    }
                    "\u{2227}"
                },
                Sym::Disjonction => {
                    proof {
                        reveal_strlit("\u{2228}");
                    }
                    "\u{2228}"
                },
                Sym::Implication => {
                    proof {
                        reveal_strlit("\u{2794}");
                    }
                    "\u{2794}"
                },
                Sym::Sequent => {
                    proof {
                        reveal_strlit("\u{22a2}");
                    }
                    "\u{22a2}"
                },
                Sym::RuleImplicationIntroduction => {
                    proof {
                        reveal_strlit("\u{2794}i");
                    }
                    "\u{2794}i"
                },
                _ => self.lex(),
            }
        } else {
            self.lex()
        }
    }

    /// Appends the symbol as printed under `conf`.
    pub fn fmt(&self, conf: ReprConf, out: &mut Vec<char>)
        ensures
            final(out)@ == old(out)@ + self.shown(conf),
    {
        match self.color(conf.formated) {
            Some((set, unset)) => {
                push_str(out, set);
                push_str(out, self.repr(conf.unicode));
                push_str(out, unset);
            },
            None => push_str(out, self.repr(conf.unicode)),
        }
    }

    /// The number of characters of the printed spelling.
    pub fn len(&self, unicode: bool) -> (r: usize)
        ensures
            r == self.spelling(unicode).len(),
    {
        self.repr(unicode).unicode_len()
    }

    /// The escape codes that open and close the symbol in formatted output, if any.
    pub fn color(&self, formated: bool) -> (r: Option<(&'static str, &'static str)>)
        ensures
            r matches Some((a, b)) ==> self.colors(formated) == Some((a@, b@)),
            r is None <==> self.colors(formated) is None,
    {
        if formated {
            match self {
                Sym::OpenParenthesis | Sym::CloseParenthesis => {
                    proof {
                        reveal_strlit("\x1b[2m");
                        reveal_strlit("\x1b[0m");
                    }
                    Some(("\x1b[2m", "\x1b[0m"))
                },
                Sym::Sequent | Sym::Comma => {
                    proof {
                        reveal_strlit("\x1b[1m");
                        reveal_strlit("\x1b[0m");
                    }
                    Some(("\x1b[1m", "\x1b[0m"))
                },
                _ => None,
            }
        } else {
            None
        }
    }
}

} // verus!
