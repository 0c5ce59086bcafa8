use vstd::prelude::*;
use crate::context::{filter_vars, is_var_edge, lemma_out_edge_in, out_edge, vars_of, ContextVarNode};
use crate::store::incoming_of;
use crate::graph::{
    builtin_pos, builtins_ok, edge_ok, edges_ok, intern, lemma_builtin_pos, Builtin, ContextEdge, Edge,
    GraphEdge, Node,
};

verus! {

/// The versions met when following `Prev` edges back from `n`.
pub open spec fn prev_walk(edges: Seq<GraphEdge>, n: usize) -> Seq<usize>
    decreases n,
{
    match out_edge(edges, n, Edge::Context(ContextEdge::Prev)) {
        Some(m) => if m < n {
            seq![n].add(prev_walk(edges, m))
        } else {
            seq![n]
        },
        None => seq![n],
    }
}

/// Following `Prev` edges back from any version visits ever older nodes, so
/// never the same node twice, each step along a `Prev` edge, and stops at a
/// node without an outgoing `Prev` edge: the declaration.
pub proof fn lemma_prev_chain_acyclic(nodes: Seq<Node>, edges: Seq<GraphEdge>, n: usize)
    requires
        edges_ok(nodes, edges),
    ensures
        prev_walk(edges, n).len() >= 1,
        prev_walk(edges, n)[0] == n,
        forall|i: int, j: int|
            0 <= i < j < prev_walk(edges, n).len() ==> prev_walk(edges, n)[j] < prev_walk(edges, n)[i],
        forall|i: int|
            0 <= i < prev_walk(edges, n).len() - 1 ==> out_edge(
                edges,
                #[trigger] prev_walk(edges, n)[i],
                Edge::Context(ContextEdge::Prev),
            ) == Some(prev_walk(edges, n)[i + 1]),
        out_edge(edges, prev_walk(edges, n).last(), Edge::Context(ContextEdge::Prev)) is None,
    decreases n,
{
    let k = Edge::Context(ContextEdge::Prev);
    lemma_out_edge_in(edges, n, k);
    match out_edge(edges, n, k) {
        Some(m) => {
            let i = choose|i: int| 0 <= i < edges.len() && #[trigger] edges[i] == (GraphEdge { source: n, target: m, kind: k });
            assert(edge_ok(nodes, edges[i]));
            lemma_prev_chain_acyclic(nodes, edges, m);
            lemma_walk_below(edges, m);
            let w = prev_walk(edges, n);
            let t = prev_walk(edges, m);
            assert(w == seq![n].add(t));
            assert forall|i: int, j: int| 0 <= i < j < w.len() implies w[j] < w[i] by {
                if i == 0 {
                    assert(w[j] == t[j - 1]);
                } else {
                    assert(w[i] == t[i - 1] && w[j] == t[j - 1]);
                }
            }
            assert forall|i: int| 0 <= i < w.len() - 1 implies out_edge(edges, #[trigger] w[i], k) == Some(w[i + 1]) by {
                if i > 0 {
                    assert(w[i] == t[i - 1] && w[i + 1] == t[i]);
                }
            }
            assert(w.last() == t.last());
        },
        None => {},
    }
}

proof fn lemma_walk_below(edges: Seq<GraphEdge>, n: usize)
    ensures
        forall|i: int| 0 <= i < prev_walk(edges, n).len() ==> #[trigger] prev_walk(edges, n)[i] <= n,
    decreases n,
{
    if let Some(m) = out_edge(edges, n, Edge::Context(ContextEdge::Prev)) {
        if m < n {
            lemma_walk_below(edges, m);
            let w = prev_walk(edges, n);
            assert forall|i: int| 0 <= i < w.len() implies #[trigger] w[i] <= n by {
                if i > 0 {
                    assert(w[i] == prev_walk(edges, m)[i - 1]);
                }
            }
        }
    }
}

proof fn lemma_incoming_has(edges: Seq<GraphEdge>, n: usize, k: int)
    requires
        0 <= k < edges.len(),
        edges[k].target == n,
    ensures
        incoming_of(edges, n).contains((edges[k].source, edges[k].kind)),
    decreases edges.len(),
{
    let x = (edges[k].source, edges[k].kind);
    let rest = incoming_of(edges.drop_last(), n);
    if k == edges.len() - 1 {
        assert(incoming_of(edges, n)[0] == x);
    } else {
        assert(edges.drop_last()[k] == edges[k]);
        lemma_incoming_has(edges.drop_last(), n, k);
        let i = choose|i: int| 0 <= i < rest.len() && rest[i] == x;
        if edges.last().target == n {
            assert(incoming_of(edges, n)[i + 1] == x);
        } else {
            assert(incoming_of(edges, n)[i] == x);
        }
    }
}

proof fn lemma_filter_has(s: Seq<(usize, Edge)>, src: usize)
    requires
        s.contains((src, Edge::Context(ContextEdge::Variable))),
    ensures
        filter_vars(s).contains(ContextVarNode(src)),
    decreases s.len(),
{
    let x = (src, Edge::Context(ContextEdge::Variable));
    if s.last() == x {
        assert(filter_vars(s).last() == ContextVarNode(src));
        assert(filter_vars(s)[filter_vars(s).len() - 1] == ContextVarNode(src));
    } else {
        let i = choose|i: int| 0 <= i < s.len() && s[i] == x;
        assert(i < s.len() - 1);
        assert(s.drop_last()[i] == x);
        lemma_filter_has(s.drop_last(), src);
        let f0 = filter_vars(s.drop_last());
        let j = choose|j: int| 0 <= j < f0.len() && f0[j] == ContextVarNode(src);
        assert(filter_vars(s)[j] == f0[j]);
    }
}

/// Every variable attached to a scope by a `Variable` edge is among the
/// scope's variables.
pub proof fn lemma_attached_vars_listed(edges: Seq<GraphEdge>, ctx: usize, k: int)
    requires
        0 <= k < edges.len(),
        is_var_edge(edges[k], ctx),
    ensures
        vars_of(edges, ctx).contains(ContextVarNode(edges[k].source)),
{
    lemma_incoming_has(edges, ctx, k);
    lemma_filter_has(incoming_of(edges, ctx), edges[k].source);
}

/// Interning keeps the table sound.
pub proof fn lemma_intern_ok(nodes: Seq<Node>, table: Seq<(Builtin, usize)>, b: Builtin)
    requires
        builtins_ok(nodes, table),
        nodes.len() < usize::MAX,
    ensures
        builtins_ok(intern(nodes, table, b).0, intern(nodes, table, b).1),
        intern(nodes, table, b).2 < intern(nodes, table, b).0.len(),
        intern(nodes, table, b).0.len() <= nodes.len() + 1,
        intern(nodes, table, b).0[intern(nodes, table, b).2 as int] == Node::Builtin(b),
{
    lemma_builtin_pos(table, b);
    if builtin_pos(table, b) is None {
        let n1 = nodes.push(Node::Builtin(b));
        let t1 = table.push((b, nodes.len() as usize));
        assert forall|i: int| 0 <= i < t1.len() implies {
            &&& (#[trigger] t1[i]).1 < n1.len()
            &&& n1[t1[i].1 as int] is Builtin
            &&& n1[t1[i].1 as int]->Builtin_0 == t1[i].0
        } by {
            if i < table.len() {
                assert(t1[i] == table[i]);
            }
        }
        assert forall|i: int, j: int| 0 <= i < t1.len() && 0 <= j < t1.len() && i != j implies #[trigger] t1[i].0
            != #[trigger] t1[j].0 by {
            if i < table.len() {
                assert(t1[i] == table[i]);
            }
            if j < table.len() {
                assert(t1[j] == table[j]);
            }
        }
    } else {
        let p = builtin_pos(table, b)->Some_0;
        assert(table[p].1 < nodes.len());
    }
}

/// Interning the same builtin twice in a row gives the same node; interning
/// two different builtins gives two different nodes.
pub proof fn lemma_builtin_interning(nodes: Seq<Node>, table: Seq<(Builtin, usize)>, b1: Builtin, b2: Builtin)
    requires
        builtins_ok(nodes, table),
        nodes.len() + 1 < usize::MAX,
    ensures
        ({
            let (n1, t1, r1) = intern(nodes, table, b1);
            let (n2, t2, r2) = intern(n1, t1, b2);
            (r1 == r2) == (b1 == b2)
        }),
{
    lemma_intern_ok(nodes, table, b1);
    let (n1, t1, r1) = intern(nodes, table, b1);
    lemma_intern_ok(n1, t1, b2);
    let (n2, t2, r2) = intern(n1, t1, b2);
    lemma_builtin_pos(t1, b2);
    if builtin_pos(t1, b2) is Some {
        // `n1` stays the same, so both ids name nodes of `n1`.
        assert(n2 == n1);
    } else {
        assert(r2 == n1.len());
    }
}

} // verus!
