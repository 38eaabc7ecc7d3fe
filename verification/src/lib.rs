//! A recognizer for a simplified subset of the DOT graph-description
//! language, together with a materializer that turns the recognized abstract
//! syntax into a `petgraph` graph.
//!
//! The grammar is stated in `grammar` as specification functions over
//! character sequences; the executable recognizer in `parser` is proved to
//! return exactly what they describe. The materializer in `types` is proved
//! to build the graph that the statement sequence prescribes.

use vstd::prelude::*;

pub mod grammar;
pub mod model;
pub mod parser;
pub mod pgraph;
pub mod types;

use crate::parser::ParseError;
use crate::types::GraphAST;

verus! {

/// Parse the full text of one graph description.
///
/// Succeeds exactly on input that conforms to the grammar, returning the
/// descriptor the grammar assigns to it; fails with a positional syntax
/// error otherwise.
pub fn parse(s: &str) -> (r: Result<GraphAST, ParseError>)
    ensures
        r is Ok <==> crate::grammar::spec_parse_graph(s@) is Some,
        r is Ok ==> r->Ok_0@ == crate::grammar::spec_parse_graph(s@)->0,
        r is Err ==> r->Err_0.position <= s@.len(),
{
    crate::parser::parse(s)
}

} // verus!

