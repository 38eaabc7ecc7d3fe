//! The abstract-syntax data model: a graph descriptor and its statements.

use vstd::prelude::*;

use crate::model::{SpecAttrs, SpecGraph, SpecStmt};
use crate::pgraph::{
    digraph_add_edge, digraph_add_node, digraph_edges, digraph_new, digraph_nodes, index_limit,
    ungraph_add_edge, ungraph_add_node, ungraph_edges, ungraph_new, ungraph_nodes, LabeledDigraph,
    LabeledUngraph,
};

verus! {

broadcast use vstd::std_specs::vec::group_vec_axioms;

/// The scope of a default-attribute statement (a reserved statement form).
#[derive(Eq, PartialEq, Debug)]
pub enum AttributeType {
    Graph,
    Node,
    Edge,
}

/// An ordered association list of `(key, value)` pairs. Duplicate keys are
/// permitted and preserved; no map semantics.
pub type Attributes = Vec<(String, String)>;

/// A single statement of a graph description.
///
/// The recognizer only ever produces `Node` and `Edge`. `Attr`, `Assign` and
/// `SubGraph` are reserved extension points: they belong to the abstract-syntax
/// vocabulary but are never constructed by this version of the recognizer, and
/// the materializer deliberately skips them.
#[derive(Eq, PartialEq, Debug)]
pub enum Stmt {
    Node(String, Attributes),
    Edge(String, String, Attributes),
    Attr(AttributeType, Attributes),
    Assign(String, String),
    SubGraph(Option<String>, Vec<Stmt>),
}

/// The parsed document: flags, an optional graph identifier, and the ordered
/// statement sequence. Statement order is declaration order and is preserved
/// end to end.
#[derive(Debug)]
pub struct GraphAST {
    pub is_strict: bool,
    pub is_directed: bool,
    pub id: Option<String>,
    pub stmt: Vec<Stmt>,
}

/// View of an attribute list: the sequence of its pairs' character sequences.
pub open spec fn spec_attrs_of(a: Seq<(String, String)>) -> SpecAttrs {
    a.map_values(|p: (String, String)| (p.0@, p.1@))
}

/// View of one statement.
pub open spec fn spec_stmt_of(s: Stmt) -> SpecStmt
    decreases s,
{
    match s {
        Stmt::Node(id, attrs) => SpecStmt::Node { id: id@, attrs: spec_attrs_of(attrs@) },
        Stmt::Edge(from, to, attrs) => SpecStmt::Edge {
            from: from@,
            to: to@,
            attrs: spec_attrs_of(attrs@),
        },
        Stmt::Attr(scope, attrs) => SpecStmt::Attr { scope, attrs: spec_attrs_of(attrs@) },
        Stmt::Assign(key, value) => SpecStmt::Assign { key: key@, value: value@ },
        Stmt::SubGraph(id, stmts) => SpecStmt::SubGraph {
            id: match id {
                Some(n) => Some(n@),
                None => None,
            },
            stmts: spec_stmts_of(stmts@),
        },
    }
}

/// View of a statement sequence, element by element, order preserved.
pub open spec fn spec_stmts_of(v: Seq<Stmt>) -> Seq<SpecStmt>
    decreases v,
{
    if v.len() == 0 {
        Seq::empty()
    } else {
        seq![spec_stmt_of(v[0])] + spec_stmts_of(v.drop_first())
    }
}

impl View for Stmt {
    type V = SpecStmt;

    open spec fn view(&self) -> SpecStmt {
        spec_stmt_of(*self)
    }
}

impl View for GraphAST {
    type V = SpecGraph;

    open spec fn view(&self) -> SpecGraph {
        SpecGraph {
            is_strict: self.is_strict,
            is_directed: self.is_directed,
            id: match &self.id {
                Some(n) => Some(n@),
                None => None,
            },
            stmts: spec_stmts_of(self.stmt@),
        }
    }
}

/// The view of a statement sequence indexes element by element.
pub proof fn lemma_spec_stmts_of_index(v: Seq<Stmt>)
    ensures
        spec_stmts_of(v).len() == v.len(),
        forall|k: int| 0 <= k < v.len() ==> spec_stmts_of(v)[k] == spec_stmt_of(v[k]),
    decreases v,
{
    if v.len() > 0 {
        lemma_spec_stmts_of_index(v.drop_first());
    }
}

/// Viewing distributes over appending one statement.
pub proof fn lemma_spec_stmts_of_push(v: Seq<Stmt>, s: Stmt)
    ensures
        spec_stmts_of(v.push(s)) =~= spec_stmts_of(v) + seq![spec_stmt_of(s)],
    decreases v,
{
    lemma_spec_stmts_of_index(v.push(s));
    lemma_spec_stmts_of_index(v);
}

// ---------------------------------------------------------------------------
// Materialization
// ---------------------------------------------------------------------------

/// The state reached after materializing a prefix of the statements: the
/// node labels added so far, in index order, and the edges added so far, as
/// index pairs in insertion order.
#[verifier::ext_equal]
pub struct MatState {
    pub nodes: Seq<Seq<char>>,
    pub edges: Seq<(int, int)>,
}

/// The sequence of views of a label vector.
pub open spec fn labels_of(v: Seq<String>) -> Seq<Seq<char>> {
    v.map_values(|s: String| s@)
}

/// The node index the materializer's transient mapping assigns to `id`: the
/// index of the latest node declared with that label, if any. Re-declaring
/// an id makes a second, distinct node, and later edges resolve to the
/// latest one.
pub open spec fn spec_last_index(nodes: Seq<Seq<char>>, id: Seq<char>) -> Option<int>
    decreases nodes.len(),
{
    if nodes.len() == 0 {
        None
    } else if nodes.last() == id {
        Some(nodes.len() - 1)
    } else {
        spec_last_index(nodes.drop_last(), id)
    }
}

pub proof fn lemma_last_index_bounds(nodes: Seq<Seq<char>>, id: Seq<char>)
    ensures
        match spec_last_index(nodes, id) {
            Some(ix) => 0 <= ix < nodes.len(),
            None => true,
        },
    decreases nodes.len(),
{
    if nodes.len() > 0 && !(nodes.last() == id) {
        lemma_last_index_bounds(nodes.drop_last(), id);
    }
}

/// One materialization step. A node statement appends a node; an edge
/// statement connects the indices its endpoint ids resolve to, and fails
/// when an endpoint was never declared; the reserved statement forms are
/// deliberate no-ops.
pub open spec fn spec_mat_step(st: MatState, s: SpecStmt) -> Option<MatState> {
    match s {
        SpecStmt::Node { id, attrs } => Some(
            MatState { nodes: st.nodes.push(id), edges: st.edges },
        ),
        SpecStmt::Edge { from, to, attrs } => match spec_last_index(st.nodes, from) {
            Some(a) => match spec_last_index(st.nodes, to) {
                Some(b) => Some(MatState { nodes: st.nodes, edges: st.edges.push((a, b)) }),
                None => None,
            },
            None => None,
        },
        SpecStmt::Attr { scope, attrs } => Some(st),
        SpecStmt::Assign { key, value } => Some(st),
        SpecStmt::SubGraph { id, stmts } => Some(st),
    }
}

/// The nodes and edges that materializing the whole statement sequence
/// yields, or `None` when some edge endpoint was never declared by a prior
/// node statement.
pub open spec fn spec_materialize(stmts: Seq<SpecStmt>) -> Option<MatState>
    decreases stmts.len(),
{
    if stmts.len() == 0 {
        Some(MatState { nodes: Seq::empty(), edges: Seq::empty() })
    } else {
        match spec_materialize(stmts.drop_last()) {
            Some(st) => spec_mat_step(st, stmts.last()),
            None => None,
        }
    }
}

/// Materialization succeeds and its result stays within the concrete
/// graph's index capacity.
pub open spec fn spec_mat_fits(stmts: Seq<SpecStmt>) -> bool {
    &&& spec_materialize(stmts) is Some
    &&& spec_materialize(stmts)->0.nodes.len() <= index_limit()
    &&& spec_materialize(stmts)->0.edges.len() <= index_limit()
}

/// Materializing a prefix of a sequence that materializes succeeds too, and
/// yields no more nodes or edges than the whole.
pub proof fn lemma_mat_prefix(stmts: Seq<SpecStmt>, k: int)
    requires
        0 <= k <= stmts.len(),
        spec_materialize(stmts) is Some,
    ensures
        spec_materialize(stmts.take(k)) is Some,
        spec_materialize(stmts.take(k))->0.nodes.len() <= spec_materialize(stmts)->0.nodes.len(),
        spec_materialize(stmts.take(k))->0.edges.len() <= spec_materialize(stmts)->0.edges.len(),
    decreases stmts.len(),
{
    if k == stmts.len() {
        assert(stmts.take(k) =~= stmts);
    } else {
        let d = stmts.drop_last();
        assert(stmts.take(k) =~= d.take(k));
        lemma_mat_prefix(d, k);
    }
}

/// The index of the latest label equal to `id`, scanning from the end; the
/// executable form of the materializer's transient mapping.
fn find_last(labels: &Vec<String>, id: &String) -> (r: Option<usize>)
    ensures
        match r {
            Some(ix) => spec_last_index(labels_of(labels@), id@) == Some(ix as int) && ix
                < labels@.len(),
            None => spec_last_index(labels_of(labels@), id@) is None,
        },
{
    let ghost ns = labels_of(labels@);
    let mut k = labels.len();
    proof {
        assert(ns.take(labels@.len() as int) =~= ns);
    }
    while k > 0
        invariant
            k <= labels@.len(),
            ns == labels_of(labels@),
            spec_last_index(ns, id@) == spec_last_index(ns.take(k as int), id@),
        decreases k,
    {
        proof {
            assert(ns.take(k as int).last() == ns[k - 1]);
            assert(ns[k - 1] == labels@[k - 1]@);
        }
        let l = &labels[k - 1];
        if l.eq(id) {
            return Some(k - 1);
        }
        proof {
            assert(ns.take(k as int).drop_last() =~= ns.take(k - 1));
        }
        k = k - 1;
    }
    proof {
        assert(ns.take(0).len() == 0);
    }
    None
}

impl GraphAST {
    /// Materialize the statement sequence as a directed graph with the
    /// default constructors: each node's label is its textual id and each
    /// edge carries a unit payload.
    ///
    /// `None` when the descriptor is undirected (the caller must pick the
    /// entry point matching `is_directed`), when an edge endpoint was never
    /// declared by a prior node statement (a dangling reference is reported
    /// as a recoverable failure rather than a crash), or when the result
    /// would not fit the concrete graph's index type.
    pub fn to_directed_graph(&self) -> (r: Option<LabeledDigraph>)
        ensures
            r is Some <==> self.is_directed && spec_mat_fits(self@.stmts),
            r is Some ==> digraph_nodes(r->0) == spec_materialize(self@.stmts)->0.nodes,
            r is Some ==> digraph_edges(r->0) == spec_materialize(self@.stmts)->0.edges,
    {
        if !self.is_directed {
            return None;
        }
        let ghost stmts = spec_stmts_of(self.stmt@);
        proof {
            lemma_spec_stmts_of_index(self.stmt@);
        }
        let mut g = digraph_new();
        let mut labels: Vec<String> = Vec::new();
        let mut ecount: usize = 0;
        let n = self.stmt.len();
        let mut k: usize = 0;
        proof {
            assert(stmts.take(0) =~= Seq::<SpecStmt>::empty());
            assert(labels_of(labels@) =~= Seq::<Seq<char>>::empty());
        }
        while k < n
            invariant
                k <= n,
                n == self.stmt@.len(),
                stmts == spec_stmts_of(self.stmt@),
                stmts.len() == n,
                forall|t: int| 0 <= t < n ==> stmts[t] == spec_stmt_of(self.stmt@[t]),
                digraph_nodes(g) == labels_of(labels@),
                ecount as int == digraph_edges(g).len(),
                spec_materialize(stmts.take(k as int)) == Some(
                    MatState { nodes: labels_of(labels@), edges: digraph_edges(g) },
                ),
                labels_of(labels@).len() <= index_limit(),
                digraph_edges(g).len() <= index_limit(),
            decreases n - k,
        {
            let ghost pre = MatState { nodes: labels_of(labels@), edges: digraph_edges(g) };
            proof {
                assert(stmts.take(k + 1).drop_last() =~= stmts.take(k as int));
                assert(stmts.take(k + 1).last() == stmts[k as int]);
            }
            let st = &self.stmt[k];
            match st {
                Stmt::Node(id, _attrs) => {
                    if labels.len() >= 0xffff_ffff {
                        proof {
                            if spec_mat_fits(stmts) {
                                lemma_mat_prefix(stmts, k + 1);
                            }
                        }
                        return None;
                    }
                    let ghost labels0 = labels@;
                    digraph_add_node(&mut g, id.clone());
                    labels.push(id.clone());
                    proof {
                        assert(labels_of(labels@) =~= labels_of(labels0).push(id@));
                    }
                },
                Stmt::Edge(from, to, _attrs) => {
                    let a_opt = find_last(&labels, from);
                    let b_opt = find_last(&labels, to);
                    match (a_opt, b_opt) {
                        (Some(a), Some(b)) => {
                            if ecount >= 0xffff_ffff {
                                proof {
                                    if spec_mat_fits(stmts) {
                                        lemma_mat_prefix(stmts, k + 1);
                                    }
                                }
                                return None;
                            }
                            digraph_add_edge(&mut g, a, b);
                            ecount = ecount + 1;
                        },
                        (Some(_a), None) => {
                            proof {
                                if spec_materialize(stmts) is Some {
                                    lemma_mat_prefix(stmts, k + 1);
                                }
                            }
                            return None;
                        },
                        (None, Some(_b)) => {
                            proof {
                                if spec_materialize(stmts) is Some {
                                    lemma_mat_prefix(stmts, k + 1);
                                }
                            }
                            return None;
                        },
                        (None, None) => {
                            proof {
                                if spec_materialize(stmts) is Some {
                                    lemma_mat_prefix(stmts, k + 1);
                                }
                            }
                            return None;
                        },
                    }
                },
                Stmt::Attr(_scope, _attrs) => {
                    // reserved statement form: a deliberate no-op
                },
                Stmt::Assign(_key, _value) => {
                    // reserved statement form: a deliberate no-op
                },
                Stmt::SubGraph(_id, _stmts) => {
                    // reserved statement form: a deliberate no-op
                },
            }
            k = k + 1;
        }
        proof {
            assert(stmts.take(n as int) =~= stmts);
        }
        Some(g)
    }

    /// Materialize the statement sequence as an undirected graph with the
    /// default constructors, under the same contract as the directed entry
    /// point with the direction reversed.
    pub fn to_undirected_graph(&self) -> (r: Option<LabeledUngraph>)
        ensures
            r is Some <==> !self.is_directed && spec_mat_fits(self@.stmts),
            r is Some ==> ungraph_nodes(r->0) == spec_materialize(self@.stmts)->0.nodes,
            r is Some ==> ungraph_edges(r->0) == spec_materialize(self@.stmts)->0.edges,
    {
        if self.is_directed {
            return None;
        }
        let ghost stmts = spec_stmts_of(self.stmt@);
        proof {
            lemma_spec_stmts_of_index(self.stmt@);
        }
        let mut g = ungraph_new();
        let mut labels: Vec<String> = Vec::new();
        let mut ecount: usize = 0;
        let n = self.stmt.len();
        let mut k: usize = 0;
        proof {
            assert(stmts.take(0) =~= Seq::<SpecStmt>::empty());
            assert(labels_of(labels@) =~= Seq::<Seq<char>>::empty());
        }
        while k < n
            invariant
                k <= n,
                n == self.stmt@.len(),
                stmts == spec_stmts_of(self.stmt@),
                stmts.len() == n,
                forall|t: int| 0 <= t < n ==> stmts[t] == spec_stmt_of(self.stmt@[t]),
                ungraph_nodes(g) == labels_of(labels@),
                ecount as int == ungraph_edges(g).len(),
                spec_materialize(stmts.take(k as int)) == Some(
                    MatState { nodes: labels_of(labels@), edges: ungraph_edges(g) },
                ),
                labels_of(labels@).len() <= index_limit(),
                ungraph_edges(g).len() <= index_limit(),
            decreases n - k,
        {
            let ghost pre = MatState { nodes: labels_of(labels@), edges: ungraph_edges(g) };
            proof {
                assert(stmts.take(k + 1).drop_last() =~= stmts.take(k as int));
                assert(stmts.take(k + 1).last() == stmts[k as int]);
            }
            let st = &self.stmt[k];
            match st {
                Stmt::Node(id, _attrs) => {
                    if labels.len() >= 0xffff_ffff {
                        proof {
                            if spec_mat_fits(stmts) {
                                lemma_mat_prefix(stmts, k + 1);
                            }
                        }
                        return None;
                    }
                    let ghost labels0 = labels@;
                    ungraph_add_node(&mut g, id.clone());
                    labels.push(id.clone());
                    proof {
                        assert(labels_of(labels@) =~= labels_of(labels0).push(id@));
                    }
                },
                Stmt::Edge(from, to, _attrs) => {
                    let a_opt = find_last(&labels, from);
                    let b_opt = find_last(&labels, to);
                    match (a_opt, b_opt) {
                        (Some(a), Some(b)) => {
                            if ecount >= 0xffff_ffff {
                                proof {
                                    if spec_mat_fits(stmts) {
                                        lemma_mat_prefix(stmts, k + 1);
                                    }
                                }
                                return None;
                            }
                            ungraph_add_edge(&mut g, a, b);
                            ecount = ecount + 1;
                        },
                        (Some(_a), None) => {
                            proof {
                                if spec_materialize(stmts) is Some {
                                    lemma_mat_prefix(stmts, k + 1);
                                }
                            }
                            return None;
                        },
                        (None, Some(_b)) => {
                            proof {
                                if spec_materialize(stmts) is Some {
                                    lemma_mat_prefix(stmts, k + 1);
                                }
                            }
                            return None;
                        },
                        (None, None) => {
                            proof {
                                if spec_materialize(stmts) is Some {
                                    lemma_mat_prefix(stmts, k + 1);
                                }
                            }
                            return None;
                        },
                    }
                },
                Stmt::Attr(_scope, _attrs) => {
                    // reserved statement form: a deliberate no-op
                },
                Stmt::Assign(_key, _value) => {
                    // reserved statement form: a deliberate no-op
                },
                Stmt::SubGraph(_id, _stmts) => {
                    // reserved statement form: a deliberate no-op
                },
            }
            k = k + 1;
        }
        proof {
            assert(stmts.take(n as int) =~= stmts);
        }
        Some(g)
    }
}

} // verus!
