use vstd::prelude::*;
use crate::store::{
    store_add_edge, store_add_node, store_edge_count, store_edge_endpoints, store_edge_weight, store_edges,
    store_new, store_node_count, store_node_weight, store_nodes, GraphStore,
};

verus! {

/// A source span: file number and byte offsets.
#[derive(Debug, Clone, Copy, PartialEq, Eq, Structural)]
pub struct Loc {
    pub file: usize,
    pub start: usize,
    pub end: usize,
}

/// Edge kinds between contexts and the values that live in them.
#[derive(Debug, Clone, Copy, PartialEq, Eq, Structural)]
pub enum ContextEdge {
    Context,
    Subcontext,
    Call,
    Variable,
    InheritedVariable,
    AttrAccess,
    Index,
    IndexAccess,
    Assign,
    StorageAssign,
    MemoryAssign,
    Prev,
    Return,
    Range,
}

/// Edge kinds of the whole graph.
#[derive(Debug, Clone, Copy, PartialEq, Eq, Structural)]
pub enum Edge {
    Context(ContextEdge),
    FunctionParam,
    FunctionReturn,
}

/// Which end of a range a deferred bound refers to.
#[derive(Debug, Clone, Copy, PartialEq, Eq, Structural)]
pub enum DynamicRangeSide {
    Min,
    Max,
}

/// One end of a value range: a number, or the same end of another node's range.
#[derive(Debug, Clone, Copy, PartialEq, Eq, Structural)]
pub enum RangeElem {
    Concrete(i128),
    Dynamic(usize, DynamicRangeSide, Loc),
}

#[derive(Debug, Clone, Copy, PartialEq, Eq, Structural)]
pub struct SolcRange {
    pub min: RangeElem,
    pub max: RangeElem,
}

/// Elementary types, interned once per analysis.
#[derive(Debug, Clone, Copy, PartialEq, Eq, Structural)]
pub enum Builtin {
    Address,
    Bool,
    String,
    DynamicBytes,
    Bytes(u8),
    Int(u16),
    Uint(u16),
}

/// The operator that produced a temporary.
#[derive(Debug, Clone, Copy, PartialEq, Eq, Structural)]
pub enum Op {
    Add,
    Sub,
    Mul,
    Div,
    Mod,
    Eq,
    Lt,
    Gt,
    Lte,
    Gte,
}

/// One immutable version of a variable or of an intermediate value.
#[derive(Debug, Clone)]
pub struct ContextVar {
    /// The variable's name; `None` for a literal or a temporary.
    pub name: Option<String>,
    pub tmp_num: Option<usize>,
    /// For a temporary made by an operator: that operator.
    pub op: Option<Op>,
    pub loc: Option<Loc>,
    pub range: Option<SolcRange>,
}

#[derive(Debug, Clone)]
pub struct Function {
    pub name: String,
    pub loc: Loc,
}

/// A declared parameter or return slot of a function; an unnamed one is not
/// turned into a variable.
#[derive(Debug, Clone)]
pub struct FunctionParam {
    pub name: Option<String>,
    pub loc: Loc,
}

/// A scope: its counter for temporaries and its span.
#[derive(Debug, Clone, Copy, PartialEq, Eq, Structural)]
pub struct Context {
    pub tmp_var_ctr: usize,
    pub loc: Loc,
}

impl Context {
    pub fn new(loc: Loc) -> (r: Context)
        ensures
            r.tmp_var_ctr == 0,
            r.loc == loc,
    {
        Context { tmp_var_ctr: 0, loc }
    }
}

#[derive(Debug, Clone)]
pub enum Node {
    Context(Context),
    ContextVar(ContextVar),
    Function(Function),
    FunctionParam(FunctionParam),
    FunctionReturn(FunctionParam),
    Builtin(Builtin),
}

#[derive(Debug, Clone, Copy, PartialEq, Eq, Structural)]
pub struct GraphEdge {
    pub source: usize,
    pub target: usize,
    pub kind: Edge,
}

/// The kinds of node the graph holds.
#[derive(Debug, Clone, Copy, PartialEq, Eq, Structural)]
pub enum NodeKind {
    Context,
    ContextVar,
    Function,
    FunctionParam,
    FunctionReturn,
    Builtin,
}

/// The kind of node `n` is.
pub open spec fn kind_of(n: Node) -> NodeKind {
    match n {
        Node::Context(_) => NodeKind::Context,
        Node::ContextVar(_) => NodeKind::ContextVar,
        Node::Function(_) => NodeKind::Function,
        Node::FunctionParam(_) => NodeKind::FunctionParam,
        Node::FunctionReturn(_) => NodeKind::FunctionReturn,
        Node::Builtin(_) => NodeKind::Builtin,
    }
}

/// The kind of node `i`, or `None` when there is no such node.
pub open spec fn kind_at(nodes: Seq<Node>, i: usize) -> Option<NodeKind> {
    if i < nodes.len() {
        Some(kind_of(nodes[i as int]))
    } else {
        None
    }
}

/// Expression kinds the builder gives no meaning to.
#[derive(Debug, Clone, Copy, PartialEq, Eq, Structural)]
pub enum ConstructKind {
    ArraySubscript,
    MemberAccess,
    NonElementaryType,
    Other,
}

/// Errors of the context and expression builders.
#[derive(Debug, Clone, Copy, PartialEq, Eq, Structural)]
pub enum BuildError {
    /// The node at this index is not of the kind the caller expected; the
    /// kind found, or `None` when there is no such node.
    NodeKindMismatch(usize, Option<NodeKind>),
    /// A context has no owning function.
    MissingEnclosingFunction,
    /// An expression kind without semantics here, and its span.
    UnsupportedConstruct(ConstructKind, Loc),
    /// An expression that had to give a value gave none.
    EmptyEvaluationResult(Loc),
    /// An identifier that names no variable or function in scope.
    UnknownIdentifier(Loc),
    /// A context's counter of temporaries is at its largest value.
    CounterExhausted(usize),
}

/// The shared graph: nodes and edges in insertion order, and the table of
/// interned builtins.
pub struct Analyzer {
    pub graph: GraphStore,
    pub builtins: Vec<(Builtin, usize)>,
}

/// What an analyzer holds, as values: its nodes, its edges and its table of
/// builtins.
pub struct GraphView {
    pub nodes: Seq<Node>,
    pub edges: Seq<GraphEdge>,
    pub builtins: Seq<(Builtin, usize)>,
}

impl View for Analyzer {
    type V = GraphView;

    open spec fn view(&self) -> GraphView {
        GraphView { nodes: store_nodes(self.graph), edges: store_edges(self.graph), builtins: self.builtins@ }
    }
}

/// Edges that must point back to an older node.
pub open spec fn points_back(k: Edge) -> bool {
    k == Edge::Context(ContextEdge::Prev) || k == Edge::Context(ContextEdge::Subcontext)
        || k == Edge::Context(ContextEdge::Context)
}

pub open spec fn edge_ok(nodes: Seq<Node>, e: GraphEdge) -> bool {
    &&& e.source < nodes.len()
    &&& e.target < nodes.len()
    &&& points_back(e.kind) ==> e.target < e.source
}

pub open spec fn edges_ok(nodes: Seq<Node>, edges: Seq<GraphEdge>) -> bool {
    forall|i: int| 0 <= i < edges.len() ==> #[trigger] edge_ok(nodes, edges[i])
}

pub open spec fn builtins_ok(nodes: Seq<Node>, table: Seq<(Builtin, usize)>) -> bool {
    &&& forall|i: int|
        0 <= i < table.len() ==> {
            &&& (#[trigger] table[i]).1 < nodes.len()
            &&& nodes[table[i].1 as int] is Builtin
            &&& nodes[table[i].1 as int]->Builtin_0 == table[i].0
        }
    &&& forall|i: int, j: int|
        0 <= i < table.len() && 0 <= j < table.len() && i != j ==> #[trigger] table[i].0
            != #[trigger] table[j].0
}

/// The position of `b` in the builtin table, if it is there.
pub open spec fn builtin_pos(table: Seq<(Builtin, usize)>, b: Builtin) -> Option<int>
    decreases table.len(),
{
    if table.len() == 0 {
        None
    } else if table.last().0 == b {
        Some(table.len() - 1)
    } else {
        builtin_pos(table.drop_last(), b)
    }
}

/// Interning `b` into `table` over `nodes`: the nodes, the table and the
/// node id afterwards.
pub open spec fn intern(nodes: Seq<Node>, table: Seq<(Builtin, usize)>, b: Builtin) -> (Seq<Node>, Seq<(Builtin, usize)>, usize) {
    match builtin_pos(table, b) {
        Some(p) => (nodes, table, table[p].1),
        None => (nodes.push(Node::Builtin(b)), table.push((b, nodes.len() as usize)), nodes.len() as usize),
    }
}

/// Nodes only grow, and only a context's counter of temporaries changes.
pub open spec fn node_kept(a: Node, b: Node) -> bool {
    a == b || (a is Context && b is Context && a->Context_0.loc == b->Context_0.loc)
}

pub open spec fn extends(nodes0: Seq<Node>, edges0: Seq<GraphEdge>, nodes1: Seq<Node>, edges1: Seq<GraphEdge>) -> bool {
    &&& nodes0.len() <= nodes1.len()
    &&& edges0.len() <= edges1.len()
    &&& edges1.subrange(0, edges0.len() as int) == edges0
    &&& forall|i: int| 0 <= i < nodes0.len() ==> node_kept(#[trigger] nodes0[i], nodes1[i])
}

pub proof fn lemma_extends_refl(nodes: Seq<Node>, edges: Seq<GraphEdge>)
    ensures
        extends(nodes, edges, nodes, edges),
{
    assert(edges.subrange(0, edges.len() as int) == edges);
}

pub proof fn lemma_extends_trans(
    n0: Seq<Node>,
    e0: Seq<GraphEdge>,
    n1: Seq<Node>,
    e1: Seq<GraphEdge>,
    n2: Seq<Node>,
    e2: Seq<GraphEdge>,
)
    requires
        extends(n0, e0, n1, e1),
        extends(n1, e1, n2, e2),
    ensures
        extends(n0, e0, n2, e2),
{
    assert(e2.subrange(0, e0.len() as int) == e1.subrange(0, e0.len() as int));
    assert forall|i: int| 0 <= i < n0.len() implies node_kept(#[trigger] n0[i], n2[i]) by {
        assert(node_kept(n0[i], n1[i]));
        assert(node_kept(n1[i], n2[i]));
    }
}

pub proof fn lemma_builtin_pos(table: Seq<(Builtin, usize)>, b: Builtin)
    ensures
        builtin_pos(table, b) is Some ==> {
            let p = builtin_pos(table, b)->Some_0;
            0 <= p < table.len() && table[p].0 == b
        },
        builtin_pos(table, b) is None ==> forall|i: int| 0 <= i < table.len() ==> #[trigger] table[i].0 != b,
    decreases table.len(),
{
    if table.len() > 0 {
        lemma_builtin_pos(table.drop_last(), b);
        assert forall|i: int| 0 <= i < table.len() - 1 implies table.drop_last()[i] == table[i] by {}
    }
}

impl Analyzer {
    pub open spec fn nodes(&self) -> Seq<Node> {
        store_nodes(self.graph)
    }

    pub open spec fn edges(&self) -> Seq<GraphEdge> {
        store_edges(self.graph)
    }

    pub open spec fn wf(&self) -> bool {
        &&& edges_ok(self.nodes(), self.edges())
        &&& builtins_ok(self.nodes(), self.builtins@)
    }

    pub open spec fn grew_from(&self, old: &Analyzer) -> bool {
        extends(old.nodes(), old.edges(), self.nodes(), self.edges())
    }

    pub fn new() -> (r: Analyzer)
        ensures
            r.wf(),
            r.nodes().len() == 0,
            r.edges().len() == 0,
            r.builtins@.len() == 0,
    {
        Analyzer { graph: store_new(), builtins: Vec::new() }
    }

    /// Appends a node; builtins enter only through the interning table.
    pub fn add_node(&mut self, n: Node) -> (r: usize)
        requires
            old(self).wf(),
            !(n is Builtin),
        ensures
            final(self).wf(),
            r == old(self).nodes().len(),
            final(self).nodes() == old(self).nodes().push(n),
            final(self).edges() == old(self).edges(),
            final(self).builtins@ == old(self).builtins@,
    {
        let r = store_add_node(&mut self.graph, n);
        proof {
            assert forall|i: int| 0 <= i < self.edges().len() implies #[trigger] edge_ok(self.nodes(), self.edges()[i]) by {
                assert(edge_ok(old(self).nodes(), self.edges()[i]));
            }
            assert forall|i: int| 0 <= i < self.builtins@.len() implies
                (#[trigger] self.builtins@[i]).1 < self.nodes().len() by {}
        }
        r
    }

    /// Appends an edge between two existing nodes.
    pub fn add_edge(&mut self, source: usize, target: usize, kind: Edge)
        requires
            old(self).wf(),
            edge_ok(old(self).nodes(), GraphEdge { source, target, kind }),
        ensures
            final(self).wf(),
            final(self).nodes() == old(self).nodes(),
            final(self).edges() == old(self).edges().push(GraphEdge { source, target, kind }),
            final(self).builtins@ == old(self).builtins@,
    {
        store_add_edge(&mut self.graph, source, target, kind);
        proof {
            assert forall|i: int| 0 <= i < self.edges().len() implies #[trigger] edge_ok(self.nodes(), self.edges()[i]) by {
                if i < old(self).edges().len() {
                    assert(edge_ok(old(self).nodes(), old(self).edges()[i]));
                }
            }
        }
    }

    pub fn node_count(&self) -> (r: usize)
        ensures
            r == self.nodes().len(),
    {
        store_node_count(&self.graph)
    }

    pub fn edge_count(&self) -> (r: usize)
        ensures
            r == self.edges().len(),
    {
        store_edge_count(&self.graph)
    }

    pub fn node(&self, i: usize) -> (r: Option<&Node>)
        ensures
            i < self.nodes().len() ==> r == Some(&self.nodes()[i as int]),
            i >= self.nodes().len() ==> r is None,
    {
        store_node_weight(&self.graph, i)
    }

    pub fn node_kind(&self, i: usize) -> (r: Option<NodeKind>)
        ensures
            r == kind_at(self.nodes(), i),
    {
        match self.node(i) {
            Some(Node::Context(_)) => Some(NodeKind::Context),
            Some(Node::ContextVar(_)) => Some(NodeKind::ContextVar),
            Some(Node::Function(_)) => Some(NodeKind::Function),
            Some(Node::FunctionParam(_)) => Some(NodeKind::FunctionParam),
            Some(Node::FunctionReturn(_)) => Some(NodeKind::FunctionReturn),
            Some(Node::Builtin(_)) => Some(NodeKind::Builtin),
            None => None,
        }
    }

    pub fn edge_at(&self, i: usize) -> (r: GraphEdge)
        requires
            i < self.edges().len(),
        ensures
            r == self.edges()[i as int],
    {
        let (source, target) = store_edge_endpoints(&self.graph, i).unwrap();
        let kind = store_edge_weight(&self.graph, i).unwrap();
        GraphEdge { source, target, kind }
    }

    pub fn edge(&self, i: usize) -> (r: Option<GraphEdge>)
        ensures
            i < self.edges().len() ==> r == Some(self.edges()[i as int]),
            i >= self.edges().len() ==> r is None,
    {
        match (store_edge_endpoints(&self.graph, i), store_edge_weight(&self.graph, i)) {
            (Some((source, target)), Some(kind)) => Some(GraphEdge { source, target, kind }),
            _ => None,
        }
    }

    /// The node of builtin `b`: the one already registered, or a new one that
    /// is registered now.
    pub fn resolve_builtin(&mut self, b: Builtin) -> (r: usize)
        requires
            old(self).wf(),
        ensures
            final(self).wf(),
            final(self).edges() == old(self).edges(),
            builtin_pos(old(self).builtins@, b) is Some ==> {
                &&& r == old(self).builtins@[builtin_pos(old(self).builtins@, b)->Some_0].1
                &&& final(self).nodes() == old(self).nodes()
                &&& final(self).builtins@ == old(self).builtins@
            },
            builtin_pos(old(self).builtins@, b) is None ==> {
                &&& r == old(self).nodes().len()
                &&& final(self).nodes() == old(self).nodes().push(Node::Builtin(b))
                &&& final(self).builtins@ == old(self).builtins@.push((b, r))
            },
            final(self).nodes()[r as int] == Node::Builtin(b),
            r < final(self).nodes().len(),
            (final(self).nodes(), final(self).builtins@, r) == intern(old(self).nodes(), old(self).builtins@, b),
    {
        let n = self.builtins.len();
        let mut i: usize = n;
        proof {
            lemma_builtin_pos(self.builtins@, b);
            assert(self.builtins@.subrange(0, n as int) == self.builtins@);
        }
        while i > 0
            invariant
                i <= n == self.builtins@.len(),
                self.wf(),
                builtin_pos(self.builtins@.subrange(0, i as int), b) == builtin_pos(self.builtins@, b),
            decreases i,
        {
            let (k, idx) = self.builtins[i - 1];
            proof {
                let s = self.builtins@.subrange(0, i as int);
                assert(s.drop_last() == self.builtins@.subrange(0, i - 1));
            }
            if k == b {
                proof {
                    assert(builtins_ok(self.nodes(), self.builtins@));
                    assert(self.builtins@[i - 1].1 < self.nodes().len());
                }
                return idx;
            }
            i = i - 1;
        }
        let r = store_add_node(&mut self.graph, Node::Builtin(b));
        self.builtins.push((b, r));
        proof {
            lemma_builtin_pos(old(self).builtins@, b);
            assert forall|j: int| 0 <= j < self.edges().len() implies #[trigger] edge_ok(self.nodes(), self.edges()[j]) by {
                assert(edge_ok(old(self).nodes(), self.edges()[j]));
            }
            let t = self.builtins@;
            assert forall|j: int| 0 <= j < t.len() implies {
                &&& (#[trigger] t[j]).1 < self.nodes().len()
                &&& self.nodes()[t[j].1 as int] is Builtin
                &&& self.nodes()[t[j].1 as int]->Builtin_0 == t[j].0
            } by {
                if j < t.len() - 1 {
                    assert(t[j] == old(self).builtins@[j]);
                }
            }
            assert forall|j: int, l: int|
                0 <= j < t.len() && 0 <= l < t.len() && j != l implies #[trigger] t[j].0 != #[trigger] t[l].0 by {
                if j < t.len() - 1 {
                    assert(t[j] == old(self).builtins@[j]);
                }
                if l < t.len() - 1 {
                    assert(t[l] == old(self).builtins@[l]);
                }
            }
        }
        r
    }
}

} // verus!
