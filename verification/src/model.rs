//! Mathematical model of the abstract syntax.
//!
//! The executable data types in `types` view into these ghost types, and the
//! recognizer's and materializer's contracts are stated over them.

use vstd::prelude::*;

use crate::types::AttributeType;

verus! {

/// An attribute list at the spec level: ordered `(key, value)` pairs,
/// duplicates permitted and preserved.
pub type SpecAttrs = Seq<(Seq<char>, Seq<char>)>;

/// A statement of the abstract syntax, at the spec level.
///
/// Only `Node` and `Edge` are ever produced by the recognizer; the other
/// variants mirror the reserved cases of the executable `Stmt` type.
#[verifier::ext_equal]
#[allow(inconsistent_fields)]
pub enum SpecStmt {
    Node { id: Seq<char>, attrs: SpecAttrs },
    Edge { from: Seq<char>, to: Seq<char>, attrs: SpecAttrs },
    Attr { scope: AttributeType, attrs: SpecAttrs },
    Assign { key: Seq<char>, value: Seq<char> },
    SubGraph { id: Option<Seq<char>>, stmts: Seq<SpecStmt> },
}

/// A parsed graph document, at the spec level.
#[verifier::ext_equal]
pub struct SpecGraph {
    pub is_strict: bool,
    pub is_directed: bool,
    pub id: Option<Seq<char>>,
    pub stmts: Seq<SpecStmt>,
}

} // verus!
