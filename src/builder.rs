use vstd::prelude::*;
use crate::ast::{Expression, Identifier, Statement};
use crate::context::{
    find_out_edge,     assigned_range, first_named, latest, moved, out_edge, vars_of, ContextNode, ContextVarNode,
};
use crate::semantics::{op_of, seed, seed_upto, eval_stmt, eval_stmts, lemma_stmts_stop, assign_eval, eval, eval_args, lemma_args_stop, parts_step, op_step, push_node, values, var_node, write_step};
use crate::store::store_set_node_weight;
use crate::graph::{
    builtin_pos, edge_ok, extends, kind_at, ConstructKind, lemma_extends_refl, lemma_extends_trans, node_kept, Analyzer, BuildError,
    Context, ContextEdge, ContextVar, Edge, GraphEdge, Loc, Node, Op, RangeElem, SolcRange,
};

verus! {

pub open spec fn is_cvar(nodes: Seq<Node>, i: usize) -> bool {
    i < nodes.len() && nodes[i as int] is ContextVar
}

/// What an identifier resolves to through the chain of scopes: the newest
/// version of the first variable of that name, nearest scope first.
pub open spec fn scope_lookup(nodes: Seq<Node>, edges: Seq<GraphEdge>, c: usize, name: Seq<char>) -> Option<usize>
    decreases c,
{
    match first_named(nodes, vars_of(edges, c), name) {
        Some(v) => Some(latest(nodes, edges, v.0)),
        None => match out_edge(edges, c, Edge::Context(ContextEdge::Subcontext)) {
            Some(p) => if p < c {
                scope_lookup(nodes, edges, p, name)
            } else {
                None
            },
            None => None,
        },
    }
}

pub open spec fn is_fn_named(n: Node, name: Seq<char>) -> bool {
    n is Function && n->Function_0.name@ == name
}

/// The first function node called `name`, among the first `k` nodes.
pub open spec fn fn_named(nodes: Seq<Node>, k: int, name: Seq<char>) -> Option<usize>
    decreases k,
{
    if k <= 0 {
        None
    } else {
        match fn_named(nodes, k - 1, name) {
            Some(f) => Some(f),
            None => if is_fn_named(nodes[k - 1], name) {
                Some((k - 1) as usize)
            } else {
                None
            },
        }
    }
}

/// What an identifier evaluates to: a variable in scope, else a function.
pub open spec fn resolve_ident(nodes: Seq<Node>, edges: Seq<GraphEdge>, c: usize, name: Seq<char>) -> Option<usize> {
    match scope_lookup(nodes, edges, c, name) {
        Some(v) => Some(v),
        None => fn_named(nodes, nodes.len() as int, name),
    }
}

pub open spec fn unchanged(a: &Analyzer, b: &Analyzer) -> bool {
    &&& a.nodes() == b.nodes()
    &&& a.edges() == b.edges()
    &&& a.builtins@ == b.builtins@
}

pub open spec fn all_nodes(r: Seq<usize>, n: nat) -> bool {
    forall|i: int| 0 <= i < r.len() ==> #[trigger] r[i] < n
}

/// A value produced by a literal: no name, the literal's span and range.
pub open spec fn is_literal(n: Node, loc: Loc, range: Option<SolcRange>) -> bool {
    &&& n is ContextVar
    &&& n->ContextVar_0.name is None
    &&& n->ContextVar_0.tmp_num is None
    &&& n->ContextVar_0.loc == Some(loc)
    &&& n->ContextVar_0.range == range
}

pub open spec fn exact(n: i128) -> Option<SolcRange> {
    Some(SolcRange { min: RangeElem::Concrete(n), max: RangeElem::Concrete(n) })
}

/// Expression kinds that have no handler here.
pub open spec fn unsupported(e: Expression) -> Option<(ConstructKind, Loc)> {
    match e {
        Expression::ArraySubscript(l, _, _) => Some((ConstructKind::ArraySubscript, l)),
        Expression::MemberAccess(l, _, _) => Some((ConstructKind::MemberAccess, l)),
        Expression::Other(l) => Some((ConstructKind::Other, l)),
        Expression::Type(l, None) => Some((ConstructKind::NonElementaryType, l)),
        _ => None,
    }
}

/// The edge that ties a new scope `k` to its parent: `Context` under a
/// function, `Subcontext` under a scope, none under anything else.
pub open spec fn parent_link(nodes: Seq<Node>, parent: Option<usize>, k: usize) -> Option<GraphEdge> {
    match parent {
        Some(p) => if p < nodes.len() && nodes[p as int] is Function {
            Some(GraphEdge { source: k, target: p, kind: Edge::Context(ContextEdge::Context) })
        } else if p < nodes.len() && nodes[p as int] is Context {
            Some(GraphEdge { source: k, target: p, kind: Edge::Context(ContextEdge::Subcontext) })
        } else {
            None
        },
        None => None,
    }
}

/// `b` is `a` after `rhs` was written into `lhs` at `loc` and `r` came back:
/// one new version of `lhs`, linked to it by `Prev`, with the range of
/// `rhs` or bounds deferred to `rhs`.
pub open spec fn written(a: &Analyzer, b: &Analyzer, r: Result<Vec<usize>, BuildError>, loc: Loc, lhs: usize, rhs: usize) -> bool {
    let n = a.nodes().len() as usize;
    let range = assigned_range(a.nodes()[rhs as int]->ContextVar_0, rhs, loc);
    &&& r is Ok && r->Ok_0@ == seq![n]
    &&& b.nodes() == a.nodes().push(
        Node::ContextVar(ContextVar { range: Some(range), ..moved(a.nodes()[lhs as int]->ContextVar_0, loc) }),
    )
    &&& b.edges() == a.edges().push(GraphEdge { source: n, target: lhs, kind: Edge::Context(ContextEdge::Prev) })
}

/// Node `v` is the newest node, a version written at `loc`, and the newest
/// edge links it back to the version it replaces.
pub open spec fn is_write(a: &Analyzer, v: usize, loc: Loc) -> bool {
    &&& v + 1 == a.nodes().len()
    &&& a.nodes()[v as int] is ContextVar
    &&& a.nodes()[v as int]->ContextVar_0.loc == Some(loc)
    &&& a.nodes()[v as int]->ContextVar_0.range is Some
    &&& a.edges().len() > 0
    &&& a.edges().last().source == v
    &&& a.edges().last().kind == Edge::Context(ContextEdge::Prev)
}

/// The span of an assignment, plain or compound.
pub open spec fn write_loc(e: Expression) -> Option<Loc> {
    match e {
        Expression::Assign(l, _, _) => Some(l),
        Expression::AssignAdd(l, _, _) => Some(l),
        Expression::AssignSubtract(l, _, _) => Some(l),
        Expression::AssignMultiply(l, _, _) => Some(l),
        Expression::AssignDivide(l, _, _) => Some(l),
        Expression::AssignModulo(l, _, _) => Some(l),
        _ => None,
    }
}

/// The span of an arithmetic operator or a comparison.
pub open spec fn op_loc(e: Expression) -> Option<Loc> {
    match e {
        Expression::Add(l, _, _) => Some(l),
        Expression::Subtract(l, _, _) => Some(l),
        Expression::Multiply(l, _, _) => Some(l),
        Expression::Divide(l, _, _) => Some(l),
        Expression::Modulo(l, _, _) => Some(l),
        Expression::Equal(l, _, _) => Some(l),
        Expression::Less(l, _, _) => Some(l),
        Expression::More(l, _, _) => Some(l),
        Expression::LessEqual(l, _, _) => Some(l),
        Expression::MoreEqual(l, _, _) => Some(l),
        _ => None,
    }
}

/// Node `v` is the newest node: an unnamed temporary of a scope, made at
/// `loc`, with no range yet.
pub open spec fn is_temp(a: &Analyzer, v: usize, loc: Loc) -> bool {
    &&& v + 1 == a.nodes().len()
    &&& a.nodes()[v as int] is ContextVar
    &&& a.nodes()[v as int]->ContextVar_0.name is None
    &&& a.nodes()[v as int]->ContextVar_0.tmp_num is Some
    &&& a.nodes()[v as int]->ContextVar_0.loc == Some(loc)
    &&& a.nodes()[v as int]->ContextVar_0.range is None
}

/// Statement kinds that the builder leaves alone.
pub open spec fn inert_stmt(s: Statement) -> bool {
    !(s is Block || s is Expression || s is Return)
}

proof fn lemma_fn_named_step(nodes: Seq<Node>, k: int, name: Seq<char>)
    requires
        0 <= k,
    ensures
        fn_named(nodes, k + 1, name) == match fn_named(nodes, k, name) {
            Some(f) => Some(f),
            None => if is_fn_named(nodes[k], name) {
                Some(k as usize)
            } else {
                None
            },
        },
{
}

proof fn lemma_prefix_extends(n0: Seq<Node>, e0: Seq<GraphEdge>, n1: Seq<Node>, e1: Seq<GraphEdge>)
    requires
        n0.len() <= n1.len(),
        e0.len() <= e1.len(),
        n1.subrange(0, n0.len() as int) == n0,
        e1.subrange(0, e0.len() as int) == e0,
    ensures
        extends(n0, e0, n1, e1),
{
    assert forall|i: int| 0 <= i < n0.len() implies node_kept(#[trigger] n0[i], n1[i]) by {
        assert(n1.subrange(0, n0.len() as int)[i] == n1[i]);
    }
}

proof fn lemma_fn_named_more(nodes: Seq<Node>, k: int, m: int, name: Seq<char>)
    requires
        0 <= k <= m,
        fn_named(nodes, k, name) is Some,
    ensures
        fn_named(nodes, m, name) == fn_named(nodes, k, name),
    decreases m - k,
{
    if k < m {
        lemma_fn_named_more(nodes, k, m - 1, name);
    }
}

proof fn lemma_fn_named_bound(nodes: Seq<Node>, k: int, name: Seq<char>)
    requires
        0 <= k,
    ensures
        fn_named(nodes, k, name) matches Some(f) ==> f < k,
    decreases k,
{
    if k > 0 {
        lemma_fn_named_bound(nodes, k - 1, name);
    }
}

proof fn lemma_latest_bound(nodes: Seq<Node>, edges: Seq<GraphEdge>, v: usize)
    requires
        v < nodes.len(),
    ensures
        latest(nodes, edges, v) < nodes.len(),
    decreases nodes.len() - v,
{
    if let Some(n) = crate::context::next_version(edges, v) {
        if v < n < nodes.len() {
            lemma_latest_bound(nodes, edges, n);
        }
    }
}

proof fn lemma_first_named_in(nodes: Seq<Node>, s: Seq<ContextVarNode>, name: Seq<char>)
    ensures
        first_named(nodes, s, name) matches Some(v) ==> v.0 < nodes.len(),
    decreases s.len(),
{
    if s.len() > 0 {
        lemma_first_named_in(nodes, s.drop_first(), name);
    }
}

proof fn lemma_scope_lookup_bound(nodes: Seq<Node>, edges: Seq<GraphEdge>, c: usize, name: Seq<char>)
    ensures
        scope_lookup(nodes, edges, c, name) matches Some(v) ==> v < nodes.len(),
    decreases c,
{
    lemma_first_named_in(nodes, vars_of(edges, c), name);
    match first_named(nodes, vars_of(edges, c), name) {
        Some(v) => {
            lemma_latest_bound(nodes, edges, v.0);
        },
        None => {
            if let Some(p) = out_edge(edges, c, Edge::Context(ContextEdge::Subcontext)) {
                if p < c {
                    lemma_scope_lookup_bound(nodes, edges, p, name);
                }
            }
        },
    }
}

/// The operator of an arithmetic, comparison or compound-assignment
/// expression.
fn expr_op(e: &Expression) -> (r: Op)
    ensures
        r == op_of(*e),
{
    match e {
        Expression::Add(..) | Expression::AssignAdd(..) => Op::Add,
        Expression::Subtract(..) | Expression::AssignSubtract(..) => Op::Sub,
        Expression::Multiply(..) | Expression::AssignMultiply(..) => Op::Mul,
        Expression::Divide(..) | Expression::AssignDivide(..) => Op::Div,
        Expression::Modulo(..) | Expression::AssignModulo(..) => Op::Mod,
        Expression::Equal(..) => Op::Eq,
        Expression::Less(..) => Op::Lt,
        Expression::More(..) => Op::Gt,
        Expression::LessEqual(..) => Op::Lte,
        _ => Op::Gte,
    }
}

impl Analyzer {
    /// Writes a new version of `cvar` at `loc`, linked back to it by `Prev`.
    pub fn advance_var(&mut self, cvar: ContextVarNode, loc: Loc) -> (r: Result<ContextVarNode, BuildError>)
        requires
            old(self).wf(),
        ensures
            final(self).wf(),
            final(self).grew_from(old(self)),
            final(self).builtins@ == old(self).builtins@,
            r matches Ok(v) ==> v.0 as int == old(self).nodes().len(),
            !is_cvar(old(self).nodes(), cvar.0) ==> {
                &&& r == Err::<ContextVarNode, BuildError>(BuildError::NodeKindMismatch(cvar.0, kind_at(old(self).nodes(), cvar.0)))
                &&& unchanged(final(self), old(self))
            },
            is_cvar(old(self).nodes(), cvar.0) ==> {
                let n = old(self).nodes().len() as usize;
                &&& r == Ok::<ContextVarNode, BuildError>(ContextVarNode(n))
                &&& final(self).nodes() == old(self).nodes().push(
                    Node::ContextVar(moved(old(self).nodes()[cvar.0 as int]->ContextVar_0, loc)),
                )
                &&& final(self).edges() == old(self).edges().push(
                    GraphEdge { source: n, target: cvar.0, kind: Edge::Context(ContextEdge::Prev) },
                )
            },
    {
        proof {
            lemma_extends_refl(self.nodes(), self.edges());
        }
        let new_cvar = match self.node(cvar.0) {
            Some(Node::ContextVar(cv)) => ContextVar {
                name: match &cv.name {
                    Some(nm) => Some(nm.clone()),
                    None => None,
                },
                tmp_num: cv.tmp_num,
                op: cv.op,
                loc: Some(loc),
                range: cv.range,
            },
            _ => {
                return Err(BuildError::NodeKindMismatch(cvar.0, self.node_kind(cvar.0)));
            },
        };
        let n = self.add_node(Node::ContextVar(new_cvar));
        self.add_edge(n, cvar.0, Edge::Context(ContextEdge::Prev));
        proof {
            assert(self.nodes().subrange(0, old(self).nodes().len() as int) =~= old(self).nodes());
            assert(self.edges().subrange(0, old(self).edges().len() as int) =~= old(self).edges());
            lemma_prefix_extends(old(self).nodes(), old(self).edges(), self.nodes(), self.edges());
        }
        Ok(ContextVarNode(n))
    }

    /// Writes `rhs` into `lhs`: a new version of `lhs` carrying `rhs`'s range,
    /// or bounds deferred to `rhs` when it has none.
    pub fn assign_vars(&mut self, loc: Loc, lhs: ContextVarNode, rhs: ContextVarNode) -> (r: Result<ContextVarNode, BuildError>)
        requires
            old(self).wf(),
        ensures
            final(self).wf(),
            final(self).grew_from(old(self)),
            final(self).builtins@ == old(self).builtins@,
            r matches Ok(v) ==> v.0 as int == old(self).nodes().len(),
            !is_cvar(old(self).nodes(), rhs.0) ==> {
                &&& r == Err::<ContextVarNode, BuildError>(BuildError::NodeKindMismatch(rhs.0, kind_at(old(self).nodes(), rhs.0)))
                &&& unchanged(final(self), old(self))
            },
            is_cvar(old(self).nodes(), rhs.0) && !is_cvar(old(self).nodes(), lhs.0) ==> {
                &&& r == Err::<ContextVarNode, BuildError>(BuildError::NodeKindMismatch(lhs.0, kind_at(old(self).nodes(), lhs.0)))
                &&& unchanged(final(self), old(self))
            },
            is_cvar(old(self).nodes(), rhs.0) && is_cvar(old(self).nodes(), lhs.0) ==> {
                let n = old(self).nodes().len() as usize;
                let range = assigned_range(old(self).nodes()[rhs.0 as int]->ContextVar_0, rhs.0, loc);
                &&& r == Ok::<ContextVarNode, BuildError>(ContextVarNode(n))
                &&& final(self).nodes() == old(self).nodes().push(
                    Node::ContextVar(
                        ContextVar {
                            range: Some(range),
                            ..moved(old(self).nodes()[lhs.0 as int]->ContextVar_0, loc)
                        },
                    ),
                )
                &&& final(self).edges() == old(self).edges().push(
                    GraphEdge { source: n, target: lhs.0, kind: Edge::Context(ContextEdge::Prev) },
                )
            },
    {
        proof {
            lemma_extends_refl(self.nodes(), self.edges());
        }
        let range = match self.node(rhs.0) {
            Some(Node::ContextVar(cv)) => match cv.range {
                Some(rg) => rg,
                None => SolcRange {
                    min: RangeElem::Dynamic(rhs.0, crate::graph::DynamicRangeSide::Min, loc),
                    max: RangeElem::Dynamic(rhs.0, crate::graph::DynamicRangeSide::Max, loc),
                },
            },
            _ => {
                return Err(BuildError::NodeKindMismatch(rhs.0, self.node_kind(rhs.0)));
            },
        };
        let new_lhs = match self.advance_var(lhs, loc) {
            Ok(v) => v,
            Err(e) => {
                return Err(e);
            },
        };
        let updated = match self.node(new_lhs.0) {
            Some(Node::ContextVar(cv)) => ContextVar {
                name: match &cv.name {
                    Some(nm) => Some(nm.clone()),
                    None => None,
                },
                tmp_num: cv.tmp_num,
                op: cv.op,
                loc: cv.loc,
                range: Some(range),
            },
            _ => {
                return Err(BuildError::NodeKindMismatch(new_lhs.0, self.node_kind(new_lhs.0)));
            },
        };
        let ghost mid = self.nodes();
        store_set_node_weight(&mut self.graph, new_lhs.0, Node::ContextVar(updated));
        proof {
            let a = &*self;
            assert(a.nodes() == old(self).nodes().push(a.nodes().last()));
            assert forall|i: int| 0 <= i < a.edges().len() implies #[trigger] edge_ok(a.nodes(), a.edges()[i]) by {
                assert(edge_ok(mid, a.edges()[i]));
            }
            assert forall|i: int| 0 <= i < a.builtins@.len() implies {
                &&& (#[trigger] a.builtins@[i]).1 < a.nodes().len()
                &&& a.nodes()[a.builtins@[i].1 as int] is Builtin
                &&& a.nodes()[a.builtins@[i].1 as int]->Builtin_0 == a.builtins@[i].0
            } by {
                assert(mid[a.builtins@[i].1 as int] is Builtin);
            }
            assert(a.nodes().subrange(0, old(self).nodes().len() as int) =~= old(self).nodes());
            assert(a.edges().subrange(0, old(self).edges().len() as int) =~= old(self).edges());
            lemma_prefix_extends(old(self).nodes(), old(self).edges(), a.nodes(), a.edges());
        }
        Ok(new_lhs)
    }

    /// Evaluates both sides in `ctx` and writes the right one into the left.
    pub fn assign(&mut self, loc: Loc, lhs_expr: &Expression, rhs_expr: &Expression, ctx: ContextNode) -> (r: Result<Vec<usize>, BuildError>)
        requires
            old(self).wf(),
        ensures
            final(self).wf(),
            final(self).grew_from(old(self)),
            r matches Ok(v) ==> v@.len() == 1 && all_nodes(v@, final(self).nodes().len()) && is_write(
                final(self),
                v@[0],
                loc,
            ),
            (final(self)@, values(r)) == assign_eval(old(self)@, loc, *lhs_expr, *rhs_expr, ctx.0),
    {
        let lhs = self.parse_ctx_expr(lhs_expr, ctx)?;
        let ghost n1 = self.nodes();
        let ghost e1 = self.edges();
        let res = self.parse_ctx_expr(rhs_expr, ctx);
        proof {
            lemma_extends_trans(old(self).nodes(), old(self).edges(), n1, e1, self.nodes(), self.edges());
        }
        let rhs = res?;
        let ghost n2 = self.nodes();
        let ghost e2 = self.edges();
        let out = self.write_pair(loc, &lhs, &rhs);
        proof {
            lemma_extends_trans(old(self).nodes(), old(self).edges(), n2, e2, self.nodes(), self.edges());
        }
        out
    }

    /// Writes the first value of `rhs` into the first of `lhs`.
    fn write_pair(&mut self, loc: Loc, lhs: &Vec<usize>, rhs: &Vec<usize>) -> (r: Result<Vec<usize>, BuildError>)
        requires
            old(self).wf(),
        ensures
            final(self).wf(),
            final(self).grew_from(old(self)),
            r matches Ok(v) ==> v@.len() == 1 && all_nodes(v@, final(self).nodes().len()),
            lhs@.len() == 0 || rhs@.len() == 0 ==> {
                &&& r == Err::<Vec<usize>, BuildError>(BuildError::EmptyEvaluationResult(loc))
                &&& unchanged(final(self), old(self))
            },
            lhs@.len() > 0 && rhs@.len() > 0 && is_cvar(old(self).nodes(), lhs@[0]) && is_cvar(
                old(self).nodes(),
                rhs@[0],
            ) ==> written(old(self), final(self), r, loc, lhs@[0], rhs@[0]),
            r matches Ok(v) ==> is_write(final(self), v@[0], loc),
            (final(self)@, values(r)) == write_step(old(self)@, loc, lhs@, rhs@),
    {
        proof {
            lemma_extends_refl(self.nodes(), self.edges());
        }
        if lhs.len() == 0 || rhs.len() == 0 {
            return Err(BuildError::EmptyEvaluationResult(loc));
        }
        let out = self.assign_vars(loc, ContextVarNode(lhs[0]), ContextVarNode(rhs[0]))?;
        let v = vec![out.0];
        assert(v@ =~= seq![out.0]);
        Ok(v)
    }

    /// The value of an arithmetic or comparison operator: a fresh temporary of
    /// `ctx`; for a compound assignment, also written into the left operand.
    fn op_result(&mut self, loc: Loc, lhs: &Vec<usize>, ctx: ContextNode, op: Op, is_assign: bool) -> (r: Result<Vec<usize>, BuildError>)
        requires
            old(self).wf(),
        ensures
            final(self).wf(),
            final(self).grew_from(old(self)),
            r matches Ok(v) ==> v@.len() == 1 && all_nodes(v@, final(self).nodes().len()),
            is_assign && r is Ok ==> is_write(final(self), r->Ok_0@[0], loc),
            !is_assign && r is Ok ==> is_temp(final(self), r->Ok_0@[0], loc),
            (final(self)@, values(r)) == op_step(old(self)@, loc, lhs@, ctx.0, op, is_assign),
    {
        proof {
            lemma_extends_refl(self.nodes(), self.edges());
        }
        if is_assign && lhs.len() == 0 {
            return Err(BuildError::EmptyEvaluationResult(loc));
        }
        let tmp = ctx.new_tmp(self)?;
        let ghost n1 = self.nodes();
        let ghost e1 = self.edges();
        let t = self.add_node(Node::ContextVar(ContextVar { name: None, tmp_num: Some(tmp), op: Some(op), loc: Some(loc), range: None }));
        proof {
            assert(self.nodes().subrange(0, n1.len() as int) =~= n1);
            assert(self.edges().subrange(0, e1.len() as int) =~= e1);
            lemma_prefix_extends(n1, e1, self.nodes(), self.edges());
            lemma_extends_trans(old(self).nodes(), old(self).edges(), n1, e1, self.nodes(), self.edges());
        }
        if is_assign {
            let tv = vec![t];
            let ghost n2 = self.nodes();
            let ghost e2 = self.edges();
            let r = self.write_pair(loc, lhs, &tv);
            proof {
                lemma_extends_trans(old(self).nodes(), old(self).edges(), n2, e2, self.nodes(), self.edges());
            }
            r
        } else {
            let v = vec![t];
            assert(v@ =~= seq![t]);
            Ok(v)
        }
    }
}

impl Analyzer {
    /// Resolves `name` through the chain of scopes that starts at `ctx`.
    fn lookup_scope(&self, ctx: usize, name: &String) -> (r: Option<usize>)
        requires
            self.wf(),
        ensures
            r == scope_lookup(self.nodes(), self.edges(), ctx, name@),
    {
        let mut cur = ctx;
        loop
            invariant
                self.wf(),
                scope_lookup(self.nodes(), self.edges(), cur, name@) == scope_lookup(
                    self.nodes(),
                    self.edges(),
                    ctx,
                    name@,
                ),
            decreases cur,
        {
            match ContextNode(cur).latest_var_by_name(self, name.as_str()) {
                Some(v) => {
                    return Some(v.0);
                },
                None => {},
            }
            match find_out_edge(self, cur, Edge::Context(ContextEdge::Subcontext)) {
                Some(p) => {
                    if p < cur {
                        cur = p;
                    } else {
                        return None;
                    }
                },
                None => {
                    return None;
                },
            }
        }
    }

    /// The first function node called `name`.
    fn function_by_name(&self, name: &String) -> (r: Option<usize>)
        ensures
            r == fn_named(self.nodes(), self.nodes().len() as int, name@),
    {
        let n = self.node_count();
        let mut i: usize = 0;
        while i < n
            invariant
                i <= n == self.nodes().len(),
                fn_named(self.nodes(), i as int, name@) is None,
            decreases n - i,
        {
            proof {
                lemma_fn_named_step(self.nodes(), i as int, name@);
            }
            match self.node(i) {
                Some(Node::Function(f)) => {
                    if f.name == *name {
                        proof {
                            lemma_fn_named_more(self.nodes(), i as int + 1, n as int, name@);
                        }
                        return Some(i);
                    }
                },
                _ => {},
            }
            i = i + 1;
        }
        None
    }

    /// Evaluates an identifier: a variable in scope, else a function.
    fn variable(&self, ident: &Identifier, ctx: ContextNode) -> (r: Result<Vec<usize>, BuildError>)
        requires
            self.wf(),
        ensures
            match resolve_ident(self.nodes(), self.edges(), ctx.0, ident.name@) {
                Some(v) => r is Ok && r->Ok_0@ == seq![v],
                None => r == Err::<Vec<usize>, BuildError>(BuildError::UnknownIdentifier(ident.loc)),
            },
    {
        match self.lookup_scope(ctx.0, &ident.name) {
            Some(v) => Ok(vec![v]),
            None => match self.function_by_name(&ident.name) {
                Some(f) => Ok(vec![f]),
                None => Err(BuildError::UnknownIdentifier(ident.loc)),
            },
        }
    }

    /// Adds the node of a literal value.
    fn literal(&mut self, name: Option<String>, loc: Loc, range: Option<SolcRange>) -> (r: Vec<usize>)
        requires
            old(self).wf(),
        ensures
            final(self).wf(),
            final(self).grew_from(old(self)),
            final(self).edges() == old(self).edges(),
            final(self).builtins@ == old(self).builtins@,
            r@ == seq![old(self).nodes().len() as usize],
            final(self).nodes().len() == old(self).nodes().len() + 1,
            final(self)@ == push_node(old(self)@, var_node(name, None, loc, range)),
            final(self).nodes()[old(self).nodes().len() as int] == Node::ContextVar(
                ContextVar { name, tmp_num: None, op: None, loc: Some(loc), range },
            ),
    {
        let i = self.add_node(Node::ContextVar(ContextVar { name, tmp_num: None, op: None, loc: Some(loc), range }));
        proof {
            assert(self.nodes().subrange(0, old(self).nodes().len() as int) =~= old(self).nodes());
            assert(self.edges().subrange(0, old(self).edges().len() as int) =~= old(self).edges());
            lemma_prefix_extends(old(self).nodes(), old(self).edges(), self.nodes(), self.edges());
        }
        vec![i]
    }

    /// Evaluates `expr` in scope `ctx` and gives the nodes of its value.
    #[verifier::rlimit(100)]
    pub fn parse_ctx_expr(&mut self, expr: &Expression, ctx: ContextNode) -> (r: Result<Vec<usize>, BuildError>)
        requires
            old(self).wf(),
        ensures
            final(self).wf(),
            final(self).grew_from(old(self)),
            r matches Ok(v) ==> all_nodes(v@, final(self).nodes().len()),
            (final(self)@, values(r)) == eval(old(self)@, *expr, ctx.0),
            *expr matches Expression::Variable(id) ==> unchanged(final(self), old(self)) && match resolve_ident(
                old(self).nodes(),
                old(self).edges(),
                ctx.0,
                id.name@,
            ) {
                Some(v) => r is Ok && r->Ok_0@ == seq![v],
                None => r == Err::<Vec<usize>, BuildError>(BuildError::UnknownIdentifier(id.loc)),
            },
            *expr matches Expression::NumberLiteral(loc, n) ==> {
                &&& r is Ok && r->Ok_0@ == seq![old(self).nodes().len() as usize]
                &&& final(self).nodes().len() == old(self).nodes().len() + 1
                &&& is_literal(final(self).nodes().last(), loc, exact(n))
                &&& final(self).edges() == old(self).edges()
            },
            *expr matches Expression::BoolLiteral(loc, b) ==> {
                &&& r is Ok && r->Ok_0@ == seq![old(self).nodes().len() as usize]
                &&& final(self).nodes().len() == old(self).nodes().len() + 1
                &&& is_literal(final(self).nodes().last(), loc, exact(if b { 1 } else { 0 }))
                &&& final(self).edges() == old(self).edges()
            },
            *expr matches Expression::Type(_, Some(b)) ==> {
                &&& r is Ok && r->Ok_0@.len() == 1
                &&& final(self).nodes()[r->Ok_0@[0] as int] == Node::Builtin(b)
                &&& final(self).edges() == old(self).edges()
                &&& builtin_pos(old(self).builtins@, b) is Some ==> {
                    &&& unchanged(final(self), old(self))
                    &&& r->Ok_0@[0] == old(self).builtins@[builtin_pos(old(self).builtins@, b)->Some_0].1
                }
                &&& builtin_pos(old(self).builtins@, b) is None ==> r->Ok_0@[0] == old(self).nodes().len()
            },
            write_loc(*expr) is Some && r is Ok ==> r->Ok_0@.len() == 1 && is_write(
                final(self),
                r->Ok_0@[0],
                write_loc(*expr)->Some_0,
            ),
            op_loc(*expr) is Some && r is Ok ==> r->Ok_0@.len() == 1 && is_temp(
                final(self),
                r->Ok_0@[0],
                op_loc(*expr)->Some_0,
            ),
            *expr is FunctionCall && r is Ok ==> r->Ok_0@.len() <= 1,
            unsupported(*expr) matches Some((k, loc)) ==> {
                &&& r == Err::<Vec<usize>, BuildError>(BuildError::UnsupportedConstruct(k, loc))
                &&& unchanged(final(self), old(self))
            },
        decreases expr,
    {
        proof {
            lemma_extends_refl(self.nodes(), self.edges());
        }
        match expr {
            Expression::Variable(ident) => {
                let r = self.variable(ident, ctx);
                proof {
                    lemma_scope_lookup_bound(self.nodes(), self.edges(), ctx.0, ident.name@);
                    lemma_fn_named_bound(self.nodes(), self.nodes().len() as int, ident.name@);
                }
                r
            },
            Expression::NumberLiteral(loc, n) => {
                let r = self.literal(None, *loc, Some(SolcRange { min: RangeElem::Concrete(*n), max: RangeElem::Concrete(*n) }));
                Ok(r)
            },
            Expression::BoolLiteral(loc, b) => {
                let v: i128 = if *b { 1 } else { 0 };
                let r = self.literal(None, *loc, Some(SolcRange { min: RangeElem::Concrete(v), max: RangeElem::Concrete(v) }));
                Ok(r)
            },
            Expression::AddressLiteral(loc, addr) => {
                let r = self.literal(Some(addr.clone()), *loc, None);
                Ok(r)
            },
            Expression::StringLiteral(parts) => {
                let mut out: Vec<usize> = Vec::new();
                let mut i: usize = 0;
                while i < parts.len()
                    invariant
                        *expr is StringLiteral,
                        *expr matches Expression::StringLiteral(p) && p == *parts,
                        (self@, out@) == parts_step(old(self)@, parts@.subrange(0, i as int)),
                        i <= parts@.len(),
                        self.wf(),
                        self.grew_from(old(self)),
                        all_nodes(out@, self.nodes().len()),
                    decreases parts@.len() - i,
                {
                    let ghost n1 = self.nodes();
                    let ghost e1 = self.edges();
                    let part = &parts[i];
                    let v = self.literal(Some(part.string.clone()), part.loc, None);
                    out.push(v[0]);
                    proof {
                        assert(parts@.subrange(0, i + 1).drop_last() == parts@.subrange(0, i as int));
                        assert(parts@.subrange(0, i + 1).last() == parts@[i as int]);
                        lemma_extends_trans(old(self).nodes(), old(self).edges(), n1, e1, self.nodes(), self.edges());
                    }
                    i = i + 1;
                }
                assert(parts@.subrange(0, parts@.len() as int) == parts@);
                Ok(out)
            },
            Expression::Add(loc, l, r) | Expression::Subtract(loc, l, r) | Expression::Multiply(loc, l, r)
            | Expression::Divide(loc, l, r) | Expression::Modulo(loc, l, r) | Expression::Equal(loc, l, r)
            | Expression::Less(loc, l, r) | Expression::More(loc, l, r) | Expression::LessEqual(loc, l, r)
            | Expression::MoreEqual(loc, l, r) => {
                let lhs = self.parse_ctx_expr(l, ctx)?;
                let ghost n1 = self.nodes();
                let ghost e1 = self.edges();
                let res = self.parse_ctx_expr(r, ctx);
                proof {
                    lemma_extends_trans(old(self).nodes(), old(self).edges(), n1, e1, self.nodes(), self.edges());
                }
                let _rhs = res?;
                let ghost n2 = self.nodes();
                let ghost e2 = self.edges();
                let out = self.op_result(*loc, &lhs, ctx, expr_op(expr), false);
                proof {
                    lemma_extends_trans(old(self).nodes(), old(self).edges(), n2, e2, self.nodes(), self.edges());
                }
                out
            },
            Expression::AssignAdd(loc, l, r) | Expression::AssignSubtract(loc, l, r)
            | Expression::AssignMultiply(loc, l, r) | Expression::AssignDivide(loc, l, r)
            | Expression::AssignModulo(loc, l, r) => {
                let lhs = self.parse_ctx_expr(l, ctx)?;
                let ghost n1 = self.nodes();
                let ghost e1 = self.edges();
                let res = self.parse_ctx_expr(r, ctx);
                proof {
                    lemma_extends_trans(old(self).nodes(), old(self).edges(), n1, e1, self.nodes(), self.edges());
                }
                let _rhs = res?;
                let ghost n2 = self.nodes();
                let ghost e2 = self.edges();
                let out = self.op_result(*loc, &lhs, ctx, expr_op(expr), true);
                proof {
                    lemma_extends_trans(old(self).nodes(), old(self).edges(), n2, e2, self.nodes(), self.edges());
                }
                out
            },
            Expression::Assign(loc, l, r) => {
                let lhs = self.parse_ctx_expr(l, ctx)?;
                let ghost n1 = self.nodes();
                let ghost e1 = self.edges();
                let res = self.parse_ctx_expr(r, ctx);
                proof {
                    lemma_extends_trans(old(self).nodes(), old(self).edges(), n1, e1, self.nodes(), self.edges());
                }
                let rhs = res?;
                let ghost n2 = self.nodes();
                let ghost e2 = self.edges();
                let out = self.write_pair(*loc, &lhs, &rhs);
                proof {
                    lemma_extends_trans(old(self).nodes(), old(self).edges(), n2, e2, self.nodes(), self.edges());
                }
                out
            },
            Expression::Type(loc, ty) => match ty {
                Some(b) => {
                    let idx = self.resolve_builtin(*b);
                    proof {
                        assert(self.nodes().subrange(0, old(self).nodes().len() as int) =~= old(self).nodes());
                        assert(self.edges().subrange(0, old(self).edges().len() as int) =~= old(self).edges());
                        lemma_prefix_extends(old(self).nodes(), old(self).edges(), self.nodes(), self.edges());
                    }
                    let out = vec![idx];
                    assert(out@ =~= seq![idx]);
                    Ok(out)
                },
                None => Err(BuildError::UnsupportedConstruct(ConstructKind::NonElementaryType, *loc)),
            },
            Expression::FunctionCall(loc, func, args) => {
                let fs = self.parse_ctx_expr(func, ctx)?;
                if fs.len() == 0 {
                    return Err(BuildError::EmptyEvaluationResult(*loc));
                }
                let f = fs[0];
                let ghost m1 = self@;
                assert(eval(old(self)@, **func, ctx.0) == (m1, Ok::<Seq<usize>, BuildError>(fs@)));
                let is_check = match self.node(f) {
                    Some(Node::Function(fun)) => fun.name == "require".to_owned() || fun.name
                        == "assert".to_owned(),
                    _ => false,
                };
                let mut i: usize = 0;
                while i < args.len()
                    invariant
                        *expr is FunctionCall,
                        *expr matches Expression::FunctionCall(l0, f0, a) && a == *args && f0 == *func && l0 == *loc,
                        i <= args@.len(),
                        self.wf(),
                        self.grew_from(old(self)),
                        f < self.nodes().len(),
                        fs@.len() > 0,
                        f == fs@[0],
                        eval(old(self)@, **func, ctx.0) == (m1, Ok::<Seq<usize>, BuildError>(fs@)),
                        is_check == crate::semantics::is_check(m1.nodes, f),
                        (self@, Ok::<(), BuildError>(())) == eval_args(m1, args@.subrange(0, i as int), ctx.0),
                    decreases args@.len() - i,
                {
                    let ghost n1 = self.nodes();
                    let ghost e1 = self.edges();
                    proof {
                        assert(decreases_to!(*args => args[i as int]));
                        assert(decreases_to!(*expr => *args));
                    }
                    let res = self.parse_ctx_expr(&args[i], ctx);
                    proof {
                        lemma_extends_trans(old(self).nodes(), old(self).edges(), n1, e1, self.nodes(), self.edges());
                    }
                    proof {
                        assert(args@.subrange(0, i + 1).drop_last() == args@.subrange(0, i as int));
                        assert(args@.subrange(0, i + 1).last() == args@[i as int]);
                    }
                    if let Err(e) = res {
                        proof {
                            assert(eval_args(m1, args@.subrange(0, i + 1), ctx.0) == (self@, Err::<(), BuildError>(e)));
                            lemma_args_stop(m1, args@, ctx.0, i + 1, args@.len() as int);
                            assert(args@.subrange(0, args@.len() as int) == args@);
                        }
                        return Err(e);
                    }
                    i = i + 1;
                }
                assert(args@.subrange(0, args@.len() as int) == args@);
                assert(eval(old(self)@, **func, ctx.0) == (m1, Ok::<Seq<usize>, BuildError>(fs@)));
                if is_check {
                    let out: Vec<usize> = Vec::new();
                    assert(out@ =~= Seq::<usize>::empty());
                    Ok(out)
                } else {
                    let out = vec![f];
                    assert(out@ =~= seq![f]);
                    Ok(out)
                }
            },
            Expression::ArraySubscript(loc, _, _) => Err(BuildError::UnsupportedConstruct(ConstructKind::ArraySubscript, *loc)),
            Expression::MemberAccess(loc, _, _) => Err(BuildError::UnsupportedConstruct(ConstructKind::MemberAccess, *loc)),
            Expression::Other(loc) => Err(BuildError::UnsupportedConstruct(ConstructKind::Other, *loc)),
        }
    }
}

impl Analyzer {
    /// Gives scope `ctx` a fresh variable for each named parameter (or return
    /// slot) that reaches `parent` through an edge of kind `kind`.
    fn seed_from(&mut self, parent: usize, ctx: usize, kind: Edge)
        requires
            old(self).wf(),
            ctx < old(self).nodes().len(),
        ensures
            final(self).wf(),
            final(self).grew_from(old(self)),
            final(self)@ == seed(old(self)@, parent, ctx, kind),
    {
        proof {
            lemma_extends_refl(self.nodes(), self.edges());
        }
        let n0 = self.edge_count();
        let mut i: usize = 0;
        while i < n0
            invariant
                self.wf(),
                self.grew_from(old(self)),
                ctx < self.nodes().len(),
                n0 == old(self).edges().len(),
                i <= n0,
                self@ == seed_upto(old(self)@.edges, old(self)@, parent, ctx, kind, i as nat),
            decreases n0 - i,
        {
            let ghost m = self@;
            let e = self.edge_at(i);
            proof {
                assert(self.edges().subrange(0, n0 as int)[i as int] == old(self).edges()[i as int]);
            }
            if e.target == parent && e.kind == kind {
                let seeded = match self.node(e.source) {
                    Some(Node::FunctionParam(p)) => match &p.name {
                        Some(nm) => Some(ContextVar { name: Some(nm.clone()), tmp_num: None, op: None, loc: Some(p.loc), range: None }),
                        None => None,
                    },
                    Some(Node::FunctionReturn(p)) => match &p.name {
                        Some(nm) => Some(ContextVar { name: Some(nm.clone()), tmp_num: None, op: None, loc: Some(p.loc), range: None }),
                        None => None,
                    },
                    _ => None,
                };
                if let Some(cv) = seeded {
                    let ghost n1 = self.nodes();
                    let ghost e1 = self.edges();
                    let k = self.add_node(Node::ContextVar(cv));
                    self.add_edge(k, ctx, Edge::Context(ContextEdge::Variable));
                    proof {
                        assert(self.nodes().subrange(0, n1.len() as int) =~= n1);
                        assert(self.edges().subrange(0, e1.len() as int) =~= e1);
                        lemma_prefix_extends(n1, e1, self.nodes(), self.edges());
                        lemma_extends_trans(old(self).nodes(), old(self).edges(), n1, e1, self.nodes(), self.edges());
                        assert(self@ == seed_upto(old(self)@.edges, old(self)@, parent, ctx, kind, (i + 1) as nat));
                    }
                }
            }
            i = i + 1;
        }
    }

    /// Builds each statement of a block, in order, inside scope `ctx`; stops
    /// at the first error.
    fn parse_statements(&mut self, statements: &Vec<Statement>, unchecked: bool, ctx: usize) -> (r: Result<(), BuildError>)
        requires
            old(self).wf(),
            ctx < old(self).nodes().len(),
        ensures
            final(self).wf(),
            final(self).grew_from(old(self)),
            (final(self)@, r) == eval_stmts(old(self)@, statements@, ctx),
        decreases statements,
    {
        proof {
            lemma_extends_refl(self.nodes(), self.edges());
        }
        let mut i: usize = 0;
        while i < statements.len()
            invariant
                i <= statements@.len(),
                self.wf(),
                self.grew_from(old(self)),
                ctx < self.nodes().len(),
                self@ == eval_stmts(old(self)@, statements@.subrange(0, i as int), ctx).0,
                eval_stmts(old(self)@, statements@.subrange(0, i as int), ctx).1 is Ok,
            decreases statements@.len() - i,
        {
            let ghost n1 = self.nodes();
            let ghost e1 = self.edges();
            proof {
                assert(decreases_to!(*statements => statements[i as int]));
            }
            let ghost v1 = self@;
            let res = self.parse_ctx_statement(&statements[i], unchecked, Some(ctx));
            proof {
                lemma_extends_trans(old(self).nodes(), old(self).edges(), n1, e1, self.nodes(), self.edges());
            }
            proof {
                assert(statements@.subrange(0, i + 1).drop_last() == statements@.subrange(0, i as int));
                assert(statements@.subrange(0, i + 1).last() == statements@[i as int]);
                assert(eval_stmts(old(self)@, statements@.subrange(0, i + 1), ctx) == eval_stmt(
                    v1,
                    statements@[i as int],
                    Some(ctx),
                ));
            }
            if let Err(e) = res {
                proof {
                    lemma_stmts_stop(old(self)@, statements@, ctx, i + 1, statements@.len() as int);
                    assert(statements@.subrange(0, statements@.len() as int) == statements@);
                }
                return Err(e);
            }
            i = i + 1;
        }
        assert(statements@.subrange(0, statements@.len() as int) == statements@);
        proof {
            let t = eval_stmts(old(self)@, statements@, ctx).1;
            if let Ok(u) = t {
                assert(u == ());
            }
        }
        Ok(())
    }

    /// Builds the scopes of `stmt` under `parent_ctx`, a function or a scope.
    ///
    /// A block becomes a new scope, tied to its parent, and receives a
    /// variable for each named parameter and return slot whose edge points at
    /// the parent. Only a function carries such edges, so a nested block gets
    /// no copies of its own: its names resolve through the `Subcontext` chain.
    /// An expression statement ties its first value to the scope by `Call`,
    /// a return statement by `Return`. The other statement kinds change
    /// nothing. Building is not undone on failure: what was added before the
    /// error stays in the graph, which remains well formed.
    pub fn parse_ctx_statement(&mut self, stmt: &Statement, _unchecked: bool, parent_ctx: Option<usize>) -> (r: Result<(), BuildError>)
        requires
            old(self).wf(),
            parent_ctx matches Some(p) ==> p < old(self).nodes().len(),
        ensures
            final(self).wf(),
            final(self).grew_from(old(self)),
            (final(self)@, r) == eval_stmt(old(self)@, *stmt, parent_ctx),
            inert_stmt(*stmt) ==> r is Ok && unchanged(final(self), old(self)),
            *stmt matches Statement::Return(_, None) ==> r is Ok && unchanged(final(self), old(self)),
            (*stmt is Expression || *stmt is Return) && parent_ctx is None ==> r is Ok && unchanged(
                final(self),
                old(self),
            ),
            *stmt matches Statement::Block { loc, .. } ==> {
                let k = old(self).nodes().len();
                let e0 = old(self).edges().len();
                &&& final(self).nodes().len() > k
                &&& final(self).nodes()[k as int] is Context
                &&& final(self).nodes()[k as int]->Context_0.loc == loc
                &&& parent_link(old(self).nodes(), parent_ctx, k as usize) matches Some(pe) ==> {
                    &&& final(self).edges().len() > e0
                    &&& final(self).edges()[e0 as int] == pe
                }
            },
            *stmt matches Statement::Return(_, Some(_)) && parent_ctx is Some && r is Ok ==> {
                &&& final(self).edges().len() > 0
                &&& final(self).edges().last().target == parent_ctx->Some_0
                &&& final(self).edges().last().kind == Edge::Context(ContextEdge::Return)
            },
        decreases stmt,
    {
        proof {
            lemma_extends_refl(self.nodes(), self.edges());
        }
        match stmt {
            Statement::Block { loc, unchecked, statements } => {
                let k = self.add_node(Node::Context(Context::new(*loc)));
                let ghost e0 = old(self).edges().len();
                let ghost mut parent_edge: Option<GraphEdge> = None;
                if let Some(parent) = parent_ctx {
                    match self.node(parent) {
                        Some(Node::Function(_)) => {
                            self.add_edge(k, parent, Edge::Context(ContextEdge::Context));
                            proof {
                                parent_edge = Some(GraphEdge { source: k, target: parent, kind: Edge::Context(ContextEdge::Context) });
                            }
                        },
                        Some(Node::Context(_)) => {
                            self.add_edge(k, parent, Edge::Context(ContextEdge::Subcontext));
                            proof {
                                parent_edge = Some(GraphEdge { source: k, target: parent, kind: Edge::Context(ContextEdge::Subcontext) });
                            }
                        },
                        _ => {},
                    }
                }
                proof {
                    assert(self.nodes().subrange(0, old(self).nodes().len() as int) =~= old(self).nodes());
                    assert(self.edges().subrange(0, old(self).edges().len() as int) =~= old(self).edges());
                    lemma_prefix_extends(old(self).nodes(), old(self).edges(), self.nodes(), self.edges());
                }
                if let Some(parent) = parent_ctx {
                    let ghost n1 = self.nodes();
                    let ghost e1 = self.edges();
                    self.seed_from(parent, k, Edge::FunctionParam);
                    proof {
                        lemma_extends_trans(old(self).nodes(), old(self).edges(), n1, e1, self.nodes(), self.edges());
                        assert(node_kept(n1[k as int], self.nodes()[k as int]));
                        if parent_edge is Some {
                            assert(self.edges().subrange(0, e1.len() as int)[e0 as int] == e1[e0 as int]);
                        }
                    }
                    let ghost n2 = self.nodes();
                    let ghost e2 = self.edges();
                    self.seed_from(parent, k, Edge::FunctionReturn);
                    proof {
                        lemma_extends_trans(old(self).nodes(), old(self).edges(), n2, e2, self.nodes(), self.edges());
                        assert(node_kept(n2[k as int], self.nodes()[k as int]));
                        if parent_edge is Some {
                            assert(self.edges().subrange(0, e2.len() as int)[e0 as int] == e2[e0 as int]);
                        }
                    }
                }
                let ghost n1 = self.nodes();
                let ghost e1 = self.edges();
                let res = self.parse_statements(statements, *unchecked, k);
                proof {
                    lemma_extends_trans(old(self).nodes(), old(self).edges(), n1, e1, self.nodes(), self.edges());
                    assert(node_kept(n1[k as int], self.nodes()[k as int]));
                    if parent_edge is Some {
                        assert(self.edges().subrange(0, e1.len() as int)[e0 as int] == e1[e0 as int]);
                    }
                }
                res
            },
            Statement::Expression(_loc, expr) => {
                if let Some(parent) = parent_ctx {
                    let res = self.parse_ctx_expr(expr, ContextNode(parent));
                    let expr_nodes = res?;
                    if expr_nodes.len() > 0 {
                        let ghost n1 = self.nodes();
                        let ghost e1 = self.edges();
                        self.add_edge(expr_nodes[0], parent, Edge::Context(ContextEdge::Call));
                        proof {
                            assert(self.nodes().subrange(0, n1.len() as int) =~= n1);
                            assert(self.edges().subrange(0, e1.len() as int) =~= e1);
                            lemma_prefix_extends(n1, e1, self.nodes(), self.edges());
                            lemma_extends_trans(old(self).nodes(), old(self).edges(), n1, e1, self.nodes(), self.edges());
                        }
                    }
                }
                Ok(())
            },
            Statement::Return(loc, maybe_ret_expr) => {
                if let Some(ret_expr) = maybe_ret_expr {
                    if let Some(parent) = parent_ctx {
                        let res = self.parse_ctx_expr(ret_expr, ContextNode(parent));
                        let expr_nodes = res?;
                        if expr_nodes.len() == 0 {
                            return Err(BuildError::EmptyEvaluationResult(*loc));
                        }
                        let ghost n1 = self.nodes();
                        let ghost e1 = self.edges();
                        self.add_edge(expr_nodes[0], parent, Edge::Context(ContextEdge::Return));
                        proof {
                            assert(self.nodes().subrange(0, n1.len() as int) =~= n1);
                            assert(self.edges().subrange(0, e1.len() as int) =~= e1);
                            lemma_prefix_extends(n1, e1, self.nodes(), self.edges());
                            lemma_extends_trans(old(self).nodes(), old(self).edges(), n1, e1, self.nodes(), self.edges());
                        }
                    }
                }
                Ok(())
            },
            Statement::VariableDefinition(_) | Statement::Assembly(_) | Statement::Args(_) | Statement::If(_)
            | Statement::While(_) | Statement::For(_) | Statement::DoWhile(_) | Statement::Continue(_)
            | Statement::Break(_) | Statement::Revert(_) | Statement::RevertNamedArgs(_) | Statement::Emit(_)
            | Statement::Try(_) | Statement::Error(_) => Ok(()),
        }
    }
}

} // verus!
