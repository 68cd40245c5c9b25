//! Natural-deduction proofs of propositional sequents: formulas, their parser and
//! printer, the rule calculus, proof trees and their rendering as text.
pub mod command;
pub mod parser;
pub mod property;
pub mod render;
pub mod round_trip;
pub mod prove_by;
pub mod sequent;
pub mod symbols;
pub mod text;
pub mod tree;

pub use command::{Command, Step};
pub use parser::ParseError;
pub use property::{Formula, Paren, Prop, PropRepr};
pub use render::{Grid, ProofRender};
pub use prove_by::{CommandError, ProveBy, Request};
pub use sequent::{Entailment, Sequent, SequentRepr};
pub use symbols::{ReprConf, Sym};
pub use tree::{Proof, ProofRepr, Rule, RuleError};

