use vstd::prelude::*;
use crate::semantics::tmp_step;
use crate::store::{incoming_of, store_incoming, store_set_node_weight};
use crate::graph::{
    edges_ok, edge_ok, kind_at, lemma_extends_refl, Analyzer, BuildError, Context, ContextEdge, ContextVar, DynamicRangeSide, Edge, GraphEdge,
    Loc, Node, RangeElem, SolcRange,
};

verus! {

/// A handle to a scope node.
#[derive(Debug, Clone, Copy, PartialEq, Eq, Structural)]
pub struct ContextNode(pub usize);

/// A handle to one version of a variable.
#[derive(Debug, Clone, Copy, PartialEq, Eq, Structural)]
pub struct ContextVarNode(pub usize);

/// A handle to a function node.
#[derive(Debug, Clone, Copy, PartialEq, Eq, Structural)]
pub struct FunctionNode(pub usize);

pub open spec fn is_var_edge(e: GraphEdge, ctx: usize) -> bool {
    e.target == ctx && e.kind == Edge::Context(ContextEdge::Variable)
}

/// The sources of the `Variable` edges among `s`, in the order of `s`.
pub open spec fn filter_vars(s: Seq<(usize, Edge)>) -> Seq<ContextVarNode>
    decreases s.len(),
{
    if s.len() == 0 {
        Seq::empty()
    } else {
        let rest = filter_vars(s.drop_last());
        if s.last().1 == Edge::Context(ContextEdge::Variable) {
            rest.push(ContextVarNode(s.last().0))
        } else {
            rest
        }
    }
}

/// The variables attached to `ctx`, in the order the graph walks the edges
/// into it: newest first.
pub open spec fn vars_of(edges: Seq<GraphEdge>, ctx: usize) -> Seq<ContextVarNode> {
    filter_vars(incoming_of(edges, ctx))
}

pub open spec fn has_name(nodes: Seq<Node>, i: usize, name: Seq<char>) -> bool {
    &&& i < nodes.len()
    &&& nodes[i as int] is ContextVar
    &&& nodes[i as int]->ContextVar_0.name is Some
    &&& nodes[i as int]->ContextVar_0.name->Some_0@ == name
}

/// The first of `s` that is a variable called `name`.
pub open spec fn first_named(nodes: Seq<Node>, s: Seq<ContextVarNode>, name: Seq<char>) -> Option<ContextVarNode>
    decreases s.len(),
{
    if s.len() == 0 {
        None
    } else if has_name(nodes, s[0].0, name) {
        Some(s[0])
    } else {
        first_named(nodes, s.drop_first(), name)
    }
}

/// The target of the first edge of kind `k` that leaves `src`.
pub open spec fn out_edge(edges: Seq<GraphEdge>, src: usize, k: Edge) -> Option<usize>
    decreases edges.len(),
{
    if edges.len() == 0 {
        None
    } else if edges[0].source == src && edges[0].kind == k {
        Some(edges[0].target)
    } else {
        out_edge(edges.drop_first(), src, k)
    }
}

/// The source of the last `Prev` edge into `v`: the version written after it.
pub open spec fn next_version(edges: Seq<GraphEdge>, v: usize) -> Option<usize>
    decreases edges.len(),
{
    if edges.len() == 0 {
        None
    } else if edges.last().target == v && edges.last().kind == Edge::Context(ContextEdge::Prev) {
        Some(edges.last().source)
    } else {
        next_version(edges.drop_last(), v)
    }
}

/// The newest version of `v`, reached by following `Prev` edges forward.
pub open spec fn latest(nodes: Seq<Node>, edges: Seq<GraphEdge>, v: usize) -> usize
    decreases nodes.len() - v,
{
    match next_version(edges, v) {
        Some(n) => if v < n < nodes.len() {
            latest(nodes, edges, n)
        } else {
            v
        },
        None => v,
    }
}

/// The function that owns scope `c`: the target of its `Context` edge, or
/// that of the scope its `Subcontext` edge leads to.
pub open spec fn owner_fn(edges: Seq<GraphEdge>, c: usize) -> Option<usize>
    decreases c,
{
    match out_edge(edges, c, Edge::Context(ContextEdge::Context)) {
        Some(f) => Some(f),
        None => match out_edge(edges, c, Edge::Context(ContextEdge::Subcontext)) {
            Some(p) => if p < c {
                owner_fn(edges, p)
            } else {
                None
            },
            None => None,
        },
    }
}

/// `v` with its location replaced: the data of a new version.
pub open spec fn moved(v: ContextVar, loc: Loc) -> ContextVar {
    ContextVar { loc: Some(loc), ..v }
}

/// The range a write of `rhs` installs: its known range, or bounds deferred
/// to `rhs` itself.
pub open spec fn assigned_range(rhs_node: ContextVar, rhs: usize, loc: Loc) -> SolcRange {
    match rhs_node.range {
        Some(r) => r,
        None => SolcRange {
            min: RangeElem::Dynamic(rhs, DynamicRangeSide::Min, loc),
            max: RangeElem::Dynamic(rhs, DynamicRangeSide::Max, loc),
        },
    }
}

proof fn lemma_out_edge_step(edges: Seq<GraphEdge>, i: int, src: usize, k: Edge)
    requires
        0 <= i < edges.len(),
    ensures
        out_edge(edges.subrange(i, edges.len() as int), src, k) == if edges[i].source == src
            && edges[i].kind == k {
            Some(edges[i].target)
        } else {
            out_edge(edges.subrange(i + 1, edges.len() as int), src, k)
        },
{
    assert(edges.subrange(i, edges.len() as int).drop_first() == edges.subrange(i + 1, edges.len() as int));
}

pub proof fn lemma_out_edge_in(edges: Seq<GraphEdge>, src: usize, k: Edge)
    ensures
        out_edge(edges, src, k) is Some ==> exists|i: int|
            0 <= i < edges.len() && #[trigger] edges[i] == (GraphEdge {
                source: src,
                target: out_edge(edges, src, k)->Some_0,
                kind: k,
            }),
    decreases edges.len(),
{
    if edges.len() > 0 && !(edges[0].source == src && edges[0].kind == k) {
        lemma_out_edge_in(edges.drop_first(), src, k);
        if out_edge(edges, src, k) is Some {
            let i = choose|i: int|
                0 <= i < edges.drop_first().len() && #[trigger] edges.drop_first()[i] == (GraphEdge {
                    source: src,
                    target: out_edge(edges, src, k)->Some_0,
                    kind: k,
                });
            assert(edges[i + 1] == edges.drop_first()[i]);
        }
    }
}

proof fn lemma_no_incoming(nodes: Seq<Node>, edges: Seq<GraphEdge>, n: usize)
    requires
        edges_ok(nodes, edges),
        n >= nodes.len(),
    ensures
        incoming_of(edges, n) == Seq::<(usize, Edge)>::empty(),
    decreases edges.len(),
{
    if edges.len() > 0 {
        assert(edge_ok(nodes, edges[edges.len() - 1]));
        assert forall|i: int| 0 <= i < edges.drop_last().len() implies #[trigger] edge_ok(nodes, edges.drop_last()[i]) by {
            assert(edge_ok(nodes, edges[i]));
        }
        lemma_no_incoming(nodes, edges.drop_last(), n);
    }
}

proof fn lemma_first_named_step(nodes: Seq<Node>, s: Seq<ContextVarNode>, i: int, name: Seq<char>)
    requires
        0 <= i < s.len(),
    ensures
        first_named(nodes, s.subrange(i, s.len() as int), name) == if has_name(nodes, s[i].0, name) {
            Some(s[i])
        } else {
            first_named(nodes, s.subrange(i + 1, s.len() as int), name)
        },
{
    assert(s.subrange(i, s.len() as int).drop_first() == s.subrange(i + 1, s.len() as int));
}

/// Finds the first edge of kind `k` leaving `src`.
pub(crate) fn find_out_edge(a: &Analyzer, src: usize, k: Edge) -> (r: Option<usize>)
    ensures
        r == out_edge(a.edges(), src, k),
{
    let n = a.edge_count();
    let mut i: usize = 0;
    assert(a.edges().subrange(0, n as int) == a.edges());
    while i < n
        invariant
            i <= n == a.edges().len(),
            out_edge(a.edges().subrange(i as int, n as int), src, k) == out_edge(a.edges(), src, k),
        decreases n - i,
    {
        proof {
            lemma_out_edge_step(a.edges(), i as int, src, k);
        }
        let e = a.edge_at(i);
        if e.source == src && e.kind == k {
            return Some(e.target);
        }
        i = i + 1;
    }
    None
}

/// Finds the version written right after `v`.
fn find_next_version(a: &Analyzer, v: usize) -> (r: Option<usize>)
    ensures
        r == next_version(a.edges(), v),
{
    let n = a.edge_count();
    let mut i: usize = n;
    assert(a.edges().subrange(0, n as int) == a.edges());
    while i > 0
        invariant
            i <= n == a.edges().len(),
            next_version(a.edges().subrange(0, i as int), v) == next_version(a.edges(), v),
        decreases i,
    {
        assert(a.edges().subrange(0, i as int).drop_last() == a.edges().subrange(0, i - 1));
        let e = a.edge_at(i - 1);
        if e.target == v && e.kind == Edge::Context(ContextEdge::Prev) {
            return Some(e.source);
        }
        i = i - 1;
    }
    None
}

impl ContextVarNode {
    /// Follows `Prev` edges forward to the newest version.
    pub fn latest_version(&self, analyzer: &Analyzer) -> (r: ContextVarNode)
        ensures
            r.0 == latest(analyzer.nodes(), analyzer.edges(), self.0),
    {
        let mut cur = self.0;
        loop
            invariant
                latest(analyzer.nodes(), analyzer.edges(), cur) == latest(analyzer.nodes(), analyzer.edges(), self.0),
            decreases analyzer.nodes().len() - cur,
        {
            match find_next_version(analyzer, cur) {
                Some(n) => {
                    if cur < n && n < analyzer.node_count() {
                        cur = n;
                    } else {
                        return ContextVarNode(cur);
                    }
                },
                None => {
                    return ContextVarNode(cur);
                },
            }
        }
    }
}

impl ContextNode {
    /// The function that owns this scope, found through its ancestors.
    pub fn associated_fn(&self, analyzer: &Analyzer) -> (r: Option<FunctionNode>)
        ensures
            r == match owner_fn(analyzer.edges(), self.0) {
                Some(f) => Some(FunctionNode(f)),
                None => None,
            },
    {
        let mut cur = self.0;
        loop
            invariant
                owner_fn(analyzer.edges(), cur) == owner_fn(analyzer.edges(), self.0),
            decreases cur,
        {
            match find_out_edge(analyzer, cur, Edge::Context(ContextEdge::Context)) {
                Some(f) => {
                    return Some(FunctionNode(f));
                },
                None => {},
            }
            match find_out_edge(analyzer, cur, Edge::Context(ContextEdge::Subcontext)) {
                Some(p) => {
                    if p < cur {
                        cur = p;
                    } else {
                        return None;
                    }
                },
                None => {
                    return None;
                },
            }
        }
    }

    /// The name of the function that owns this scope.
    pub fn associated_fn_name(&self, analyzer: &Analyzer) -> (r: Result<String, BuildError>)
        ensures
            owner_fn(analyzer.edges(), self.0) is None ==> r == Err::<String, BuildError>(
                BuildError::MissingEnclosingFunction,
            ),
            owner_fn(analyzer.edges(), self.0) matches Some(f) ==> {
                if f < analyzer.nodes().len() && analyzer.nodes()[f as int] is Function {
                    r is Ok && r->Ok_0@ == analyzer.nodes()[f as int]->Function_0.name@
                } else {
                    r == Err::<String, BuildError>(BuildError::NodeKindMismatch(f, kind_at(analyzer.nodes(), f)))
                }
            },
    {
        match self.associated_fn(analyzer) {
            None => Err(BuildError::MissingEnclosingFunction),
            Some(f) => match analyzer.node(f.0) {
                Some(Node::Function(func)) => Ok(func.name.clone()),
                _ => Err(BuildError::NodeKindMismatch(f.0, analyzer.node_kind(f.0))),
            },
        }
    }

    /// The scope's data; fails when the node is not a scope.
    pub fn underlying<'a>(&self, analyzer: &'a Analyzer) -> (r: Result<&'a Context, BuildError>)
        ensures
            self.0 < analyzer.nodes().len() && analyzer.nodes()[self.0 as int] is Context ==> r == Ok::<
                &Context,
                BuildError,
            >(&analyzer.nodes()[self.0 as int]->Context_0),
            !(self.0 < analyzer.nodes().len() && analyzer.nodes()[self.0 as int] is Context) ==> r
                == Err::<&Context, BuildError>(BuildError::NodeKindMismatch(self.0, kind_at(analyzer.nodes(), self.0))),
    {
        match analyzer.node(self.0) {
            Some(Node::Context(c)) => Ok(c),
            _ => Err(BuildError::NodeKindMismatch(self.0, analyzer.node_kind(self.0))),
        }
    }

    /// The variables attached to this scope, newest edge first.
    pub fn vars(&self, analyzer: &Analyzer) -> (r: Vec<ContextVarNode>)
        requires
            analyzer.wf(),
        ensures
            r@ == vars_of(analyzer.edges(), self.0),
    {
        let mut r: Vec<ContextVarNode> = Vec::new();
        if self.0 >= analyzer.node_count() {
            proof {
                lemma_no_incoming(analyzer.nodes(), analyzer.edges(), self.0);
            }
            return r;
        }
        let inc = store_incoming(&analyzer.graph, self.0);
        let n = inc.len();
        let mut i: usize = 0;
        while i < n
            invariant
                i <= n == inc@.len(),
                r@ == filter_vars(inc@.subrange(0, i as int)),
            decreases n - i,
        {
            assert(inc@.subrange(0, i + 1).drop_last() == inc@.subrange(0, i as int));
            let (source, kind) = inc[i];
            if kind == Edge::Context(ContextEdge::Variable) {
                r.push(ContextVarNode(source));
            }
            i = i + 1;
        }
        assert(inc@.subrange(0, n as int) == inc@);
        r
    }

    /// The first variable of this scope called `name`.
    pub fn var_by_name(&self, analyzer: &Analyzer, name: &str) -> (r: Option<ContextVarNode>)
        requires
            analyzer.wf(),
        ensures
            r == first_named(analyzer.nodes(), vars_of(analyzer.edges(), self.0), name@),
    {
        let wanted = name.to_owned();
        let vs = self.vars(analyzer);
        let n = vs.len();
        let mut i: usize = 0;
        assert(vs@.subrange(0, n as int) == vs@);
        while i < n
            invariant
                i <= n == vs@.len(),
                vs@ == vars_of(analyzer.edges(), self.0),
                wanted@ == name@,
                first_named(analyzer.nodes(), vs@.subrange(i as int, n as int), name@) == first_named(
                    analyzer.nodes(),
                    vs@,
                    name@,
                ),
            decreases n - i,
        {
            proof {
                lemma_first_named_step(analyzer.nodes(), vs@, i as int, name@);
            }
            let v = vs[i];
            match analyzer.node(v.0) {
                Some(Node::ContextVar(cv)) => {
                    if let Some(nm) = &cv.name {
                        if *nm == wanted {
                            return Some(v);
                        }
                    }
                    if false {
                        return Some(v);
                    }
                },
                _ => {},
            }
            i = i + 1;
        }
        None
    }

    /// The newest version of the first variable of this scope called `name`.
    pub fn latest_var_by_name(&self, analyzer: &Analyzer, name: &str) -> (r: Option<ContextVarNode>)
        requires
            analyzer.wf(),
        ensures
            r == match first_named(analyzer.nodes(), vars_of(analyzer.edges(), self.0), name@) {
                Some(v) => Some(ContextVarNode(latest(analyzer.nodes(), analyzer.edges(), v.0))),
                None => None,
            },
    {
        if let Some(var) = self.var_by_name(analyzer, name) {
            Some(var.latest_version(analyzer))
        } else {
            None
        }
    }

    /// Hands out the scope's next temporary number and advances its counter.
    pub fn new_tmp(&self, analyzer: &mut Analyzer) -> (r: Result<usize, BuildError>)
        requires
            old(analyzer).wf(),
        ensures
            final(analyzer).wf(),
            final(analyzer).edges() == old(analyzer).edges(),
            final(analyzer).builtins@ == old(analyzer).builtins@,
            final(analyzer).nodes().len() == old(analyzer).nodes().len(),
            final(analyzer).grew_from(old(analyzer)),
            (final(analyzer)@, r) == tmp_step(old(analyzer)@, self.0),
            !(self.0 < old(analyzer).nodes().len() && old(analyzer).nodes()[self.0 as int] is Context) ==> {
                &&& r == Err::<usize, BuildError>(BuildError::NodeKindMismatch(self.0, kind_at(old(analyzer).nodes(), self.0)))
                &&& final(analyzer).nodes() == old(analyzer).nodes()
            },
            self.0 < old(analyzer).nodes().len() && old(analyzer).nodes()[self.0 as int] is Context ==> {
                let c = old(analyzer).nodes()[self.0 as int]->Context_0;
                if c.tmp_var_ctr == usize::MAX {
                    &&& r == Err::<usize, BuildError>(BuildError::CounterExhausted(self.0))
                    &&& final(analyzer).nodes() == old(analyzer).nodes()
                } else {
                    &&& r == Ok::<usize, BuildError>(c.tmp_var_ctr)
                    &&& final(analyzer).nodes() == old(analyzer).nodes().update(
                        self.0 as int,
                        Node::Context(Context { tmp_var_ctr: (c.tmp_var_ctr + 1) as usize, loc: c.loc }),
                    )
                }
            },
    {
        proof {
            lemma_extends_refl(analyzer.nodes(), analyzer.edges());
        }
        let (ctr, loc) = match analyzer.node(self.0) {
            Some(Node::Context(c)) => (c.tmp_var_ctr, c.loc),
            _ => {
                return Err(BuildError::NodeKindMismatch(self.0, analyzer.node_kind(self.0)));
            },
        };
        if ctr == usize::MAX {
            return Err(BuildError::CounterExhausted(self.0));
        }
        store_set_node_weight(&mut analyzer.graph, self.0, Node::Context(Context { tmp_var_ctr: ctr + 1, loc }));
        proof {
            let a = &*analyzer;
            assert forall|i: int| 0 <= i < a.edges().len() implies #[trigger] edge_ok(a.nodes(), a.edges()[i]) by {
                assert(edge_ok(old(analyzer).nodes(), a.edges()[i]));
            }
            assert forall|i: int| 0 <= i < a.builtins@.len() implies {
                &&& (#[trigger] a.builtins@[i]).1 < a.nodes().len()
                &&& a.nodes()[a.builtins@[i].1 as int] is Builtin
                &&& a.nodes()[a.builtins@[i].1 as int]->Builtin_0 == a.builtins@[i].0
            } by {}
        }
        Ok(ctr)
    }
}

} // verus!
