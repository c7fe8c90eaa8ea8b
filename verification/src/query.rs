use vstd::prelude::*;
use crate::interner::Symbol;
use crate::span::FileId;

verus! {

/// The central query database: the syntax layer hands out sources and
/// parsed trees, the semantic layer resolved symbols.
pub trait Database {
    /// The source text of a file.
    fn get_source(&self, file_id: FileId) -> String;

    /// The root CST node of a file.
    fn parse_cst(&self, file_id: FileId) -> CstNodeIdx;

    /// The definition a symbol resolves to.
    fn resolve_symbol(&self, symbol: Symbol) -> SymbolIdx;
}

/// Index of a CST node handed out by a query database.
#[derive(Clone, Copy, Debug, PartialEq, Eq, Hash, Structural)]
pub struct CstNodeIdx(pub u32);

/// Index of a resolved symbol handed out by a query database.
#[derive(Clone, Copy, Debug, PartialEq, Eq, Hash, Structural)]
pub struct SymbolIdx(pub u32);

/// Opaque identifier for a query in the database.
#[derive(Clone, Copy, Debug, PartialEq, Eq, Hash, Structural)]
pub struct QueryId(pub u32);

/// Marker trait for input queries.
pub trait InputQuery: 'static + Clone {
}

} // verus!
