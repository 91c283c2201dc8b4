//! EQL statements.

use vstd::prelude::*;

verus! {

/// The tier named in a statement.
#[derive(Debug, Clone, Copy, PartialEq, Eq, Structural)]
pub enum Tier {
    Critical,
    Personal,
    Noise,
}

/// The upper-case name of a tier, as statements spell it.
pub open spec fn tier_name(t: Tier) -> Seq<char> {
    match t {
        Tier::Critical => "CRITICAL"@,
        Tier::Personal => "PERSONAL"@,
        Tier::Noise => "NOISE"@,
    }
}

impl Tier {
    /// The upper-case name of the tier.
    pub fn name(&self) -> (s: &'static str)
        ensures
            s@ == tier_name(*self),
    {
        match self {
            Tier::Critical => "CRITICAL",
            Tier::Personal => "PERSONAL",
            Tier::Noise => "NOISE",
        }
    }
}

/// A parsed statement.
#[derive(Debug, Clone, PartialEq)]
pub enum Statement {
    Write { id: String, tier: Tier, payload: String },
    Read { id: String },
    List { tier: Option<Tier> },
    Delete { id: String },
    Audit { id: Option<String> },
}

/// The mathematical value of a statement.
pub enum StatementView {
    Write { id: Seq<char>, tier: Tier, payload: Seq<char> },
    Read { id: Seq<char> },
    List { tier: Option<Tier> },
    Delete { id: Seq<char> },
    Audit { id: Option<Seq<char>> },
}

impl View for Statement {
    type V = StatementView;

    open spec fn view(&self) -> StatementView {
        match self {
            Statement::Write { id, tier, payload } => StatementView::Write { id: id@, tier: *tier, payload: payload@ },
            Statement::Read { id } => StatementView::Read { id: id@ },
            Statement::List { tier } => StatementView::List { tier: *tier },
            Statement::Delete { id } => StatementView::Delete { id: id@ },
            Statement::Audit { id } => StatementView::Audit {
                id: match id {
                    Some(s) => Some(s@),
                    None => None,
                },
            },
        }
    }
}

} // verus!
