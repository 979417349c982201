//! The S-expression tree handed to the compiler by a reader.
use vstd::prelude::*;

verus! {

/// Provenance of a node: the source file it was read from and its span.
#[derive(Clone, Copy, Debug, PartialEq, Eq)]
pub struct Source {
    pub file: u32,
    pub start: usize,
    pub end: usize,
}

/// A parsed S-expression; every node carries its provenance.
#[derive(Debug)]
pub enum Sexpr {
    List { source: Source, list: Vec<Sexpr> },
    Symbol { source: Source, symbol: String },
    String { source: Source, string: String },
    Char { source: Source, value: char },
    Int { source: Source, value: i64 },
    Bool { source: Source, value: bool },
    Nil { source: Source },
}

impl Sexpr {
    pub open spec fn spec_source(&self) -> Source {
        match self {
            Sexpr::List { source, .. } => *source,
            Sexpr::Symbol { source, .. } => *source,
            Sexpr::String { source, .. } => *source,
            Sexpr::Char { source, .. } => *source,
            Sexpr::Int { source, .. } => *source,
            Sexpr::Bool { source, .. } => *source,
            Sexpr::Nil { source } => *source,
        }
    }

    /// The provenance handle of this node.
    #[verifier::when_used_as_spec(spec_source)]
    pub fn source(&self) -> (r: Source)
        ensures
            r == self.spec_source(),
    {
        match self {
            Sexpr::List { source, .. } => *source,
            Sexpr::Symbol { source, .. } => *source,
            Sexpr::String { source, .. } => *source,
            Sexpr::Char { source, .. } => *source,
            Sexpr::Int { source, .. } => *source,
            Sexpr::Bool { source, .. } => *source,
            Sexpr::Nil { source } => *source,
        }
    }
}

} // verus!
