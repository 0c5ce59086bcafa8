use vstd::prelude::*;
use crate::ast::{Expression, Statement, StringLiteral};
use crate::builder::{is_cvar, parent_link, resolve_ident};
use crate::context::{assigned_range, moved};
use crate::graph::{
    intern, kind_at, BuildError, ConstructKind, Op, Context, ContextEdge, ContextVar, Edge, FunctionParam, GraphEdge, GraphView, Loc, Node,
    RangeElem, SolcRange,
};

verus! {

/// A builder's result as values.
pub open spec fn values(r: Result<Vec<usize>, BuildError>) -> Result<Seq<usize>, BuildError> {
    match r {
        Ok(v) => Ok(v@),
        Err(e) => Err(e),
    }
}

/// Evaluating both sides of `lhs = rhs` in turn, then writing.
pub open spec fn assign_eval(v: GraphView, loc: Loc, lhs: Expression, rhs: Expression, ctx: usize) -> (GraphView, Result<Seq<usize>, BuildError>) {
    let (m1, r1) = eval(v, lhs, ctx);
    if r1 is Err {
        (m1, r1)
    } else {
        let (m2, r2) = eval(m1, rhs, ctx);
        if r2 is Err {
            (m2, r2)
        } else {
            write_step(m2, loc, r1->Ok_0, r2->Ok_0)
        }
    }
}

pub open spec fn push_node(v: GraphView, n: Node) -> GraphView {
    GraphView { nodes: v.nodes.push(n), ..v }
}

pub open spec fn push_edge(v: GraphView, source: usize, target: usize, kind: Edge) -> GraphView {
    GraphView { edges: v.edges.push(GraphEdge { source, target, kind }), ..v }
}

/// A version node with no history: name, temporary number, span and range.
pub open spec fn var_node(name: Option<String>, tmp_num: Option<usize>, loc: Loc, range: Option<SolcRange>) -> Node {
    Node::ContextVar(ContextVar { name, tmp_num, op: None, loc: Some(loc), range })
}

pub open spec fn exact_range(n: i128) -> Option<SolcRange> {
    Some(SolcRange { min: RangeElem::Concrete(n), max: RangeElem::Concrete(n) })
}

/// Taking the next temporary number of scope `c`.
pub open spec fn tmp_step(v: GraphView, c: usize) -> (GraphView, Result<usize, BuildError>) {
    if c < v.nodes.len() && v.nodes[c as int] is Context {
        let x = v.nodes[c as int]->Context_0;
        if x.tmp_var_ctr == usize::MAX {
            (v, Err(BuildError::CounterExhausted(c)))
        } else {
            (
                GraphView {
                    nodes: v.nodes.update(
                        c as int,
                        Node::Context(Context { tmp_var_ctr: (x.tmp_var_ctr + 1) as usize, loc: x.loc }),
                    ),
                    ..v
                },
                Ok(x.tmp_var_ctr),
            )
        }
    } else {
        (v, Err(BuildError::NodeKindMismatch(c, kind_at(v.nodes, c))))
    }
}

/// Writing the first value of `rhs` into the first of `lhs`.
pub open spec fn write_step(v: GraphView, loc: Loc, lhs: Seq<usize>, rhs: Seq<usize>) -> (GraphView, Result<Seq<usize>, BuildError>) {
    if lhs.len() == 0 || rhs.len() == 0 {
        (v, Err(BuildError::EmptyEvaluationResult(loc)))
    } else if !is_cvar(v.nodes, rhs[0]) {
        (v, Err(BuildError::NodeKindMismatch(rhs[0], kind_at(v.nodes, rhs[0]))))
    } else if !is_cvar(v.nodes, lhs[0]) {
        (v, Err(BuildError::NodeKindMismatch(lhs[0], kind_at(v.nodes, lhs[0]))))
    } else {
        let n = v.nodes.len() as usize;
        let range = assigned_range(v.nodes[rhs[0] as int]->ContextVar_0, rhs[0], loc);
        (
            GraphView {
                nodes: v.nodes.push(
                    Node::ContextVar(ContextVar { range: Some(range), ..moved(v.nodes[lhs[0] as int]->ContextVar_0, loc) }),
                ),
                edges: v.edges.push(GraphEdge { source: n, target: lhs[0], kind: Edge::Context(ContextEdge::Prev) }),
                builtins: v.builtins,
            },
            Ok(seq![n]),
        )
    }
}

/// The value of an operator: a new temporary of scope `ctx`; for a compound
/// assignment, also written into the first value of `lhs`.
pub open spec fn op_step(v: GraphView, loc: Loc, lhs: Seq<usize>, ctx: usize, op: Op, is_assign: bool) -> (GraphView, Result<Seq<usize>, BuildError>) {
    if is_assign && lhs.len() == 0 {
        (v, Err(BuildError::EmptyEvaluationResult(loc)))
    } else {
        let (v1, t) = tmp_step(v, ctx);
        match t {
            Err(e) => (v1, Err(e)),
            Ok(k) => {
                let n = v1.nodes.len() as usize;
                let v2 = push_node(v1, Node::ContextVar(ContextVar { name: None, tmp_num: Some(k), op: Some(op), loc: Some(loc), range: None }));
                if is_assign {
                    write_step(v2, loc, lhs, seq![n])
                } else {
                    (v2, Ok(seq![n]))
                }
            },
        }
    }
}

/// One node per part of a string literal, in order.
pub open spec fn parts_step(v: GraphView, parts: Seq<StringLiteral>) -> (GraphView, Seq<usize>)
    decreases parts.len(),
{
    if parts.len() == 0 {
        (v, Seq::empty())
    } else {
        let (m, r) = parts_step(v, parts.drop_last());
        let p = parts.last();
        (push_node(m, var_node(Some(p.string), None, p.loc, None)), r.push(m.nodes.len() as usize))
    }
}

/// The operator an expression applies; `Gte` for one that applies none.
pub open spec fn op_of(e: Expression) -> Op {
    match e {
        Expression::Add(..) | Expression::AssignAdd(..) => Op::Add,
        Expression::Subtract(..) | Expression::AssignSubtract(..) => Op::Sub,
        Expression::Multiply(..) | Expression::AssignMultiply(..) => Op::Mul,
        Expression::Divide(..) | Expression::AssignDivide(..) => Op::Div,
        Expression::Modulo(..) | Expression::AssignModulo(..) => Op::Mod,
        Expression::Equal(..) => Op::Eq,
        Expression::Less(..) => Op::Lt,
        Expression::More(..) => Op::Gt,
        Expression::LessEqual(..) => Op::Lte,
        _ => Op::Gte,
    }
}

/// A callee that installs a constraint and gives no value.
pub open spec fn is_check(nodes: Seq<Node>, f: usize) -> bool {
    f < nodes.len() && nodes[f as int] is Function && (nodes[f as int]->Function_0.name@ == "require"@
        || nodes[f as int]->Function_0.name@ == "assert"@)
}

/// Evaluating `e` in scope `ctx`: the graph afterwards and the nodes of the
/// value, or the error.
pub open spec fn eval(v: GraphView, e: Expression, ctx: usize) -> (GraphView, Result<Seq<usize>, BuildError>)
    decreases e,
{
    match e {
        Expression::Variable(id) => (v, match resolve_ident(v.nodes, v.edges, ctx, id.name@) {
            Some(x) => Ok(seq![x]),
            None => Err(BuildError::UnknownIdentifier(id.loc)),
        }),
        Expression::NumberLiteral(l, n) => (push_node(v, var_node(None, None, l, exact_range(n))), Ok(seq![v.nodes.len() as usize])),
        Expression::BoolLiteral(l, b) => (
            push_node(v, var_node(None, None, l, exact_range(if b { 1 } else { 0 }))),
            Ok(seq![v.nodes.len() as usize]),
        ),
        Expression::AddressLiteral(l, a) => (push_node(v, var_node(Some(a), None, l, None)), Ok(seq![v.nodes.len() as usize])),
        Expression::StringLiteral(parts) => {
            let (m, r) = parts_step(v, parts@);
            (m, Ok(r))
        },
        Expression::Add(l, x, y) | Expression::Subtract(l, x, y) | Expression::Multiply(l, x, y)
        | Expression::Divide(l, x, y) | Expression::Modulo(l, x, y) | Expression::Equal(l, x, y)
        | Expression::Less(l, x, y) | Expression::More(l, x, y) | Expression::LessEqual(l, x, y)
        | Expression::MoreEqual(l, x, y) => {
            let (m1, r1) = eval(v, *x, ctx);
            if r1 is Err {
                (m1, r1)
            } else {
                let (m2, r2) = eval(m1, *y, ctx);
                if r2 is Err {
                    (m2, r2)
                } else {
                    op_step(m2, l, r1->Ok_0, ctx, op_of(e), false)
                }
            }
        },
        Expression::AssignAdd(l, x, y) | Expression::AssignSubtract(l, x, y)
        | Expression::AssignMultiply(l, x, y) | Expression::AssignDivide(l, x, y)
        | Expression::AssignModulo(l, x, y) => {
            let (m1, r1) = eval(v, *x, ctx);
            if r1 is Err {
                (m1, r1)
            } else {
                let (m2, r2) = eval(m1, *y, ctx);
                if r2 is Err {
                    (m2, r2)
                } else {
                    op_step(m2, l, r1->Ok_0, ctx, op_of(e), true)
                }
            }
        },
        Expression::Assign(l, x, y) => {
            let (m1, r1) = eval(v, *x, ctx);
            if r1 is Err {
                (m1, r1)
            } else {
                let (m2, r2) = eval(m1, *y, ctx);
                if r2 is Err {
                    (m2, r2)
                } else {
                    write_step(m2, l, r1->Ok_0, r2->Ok_0)
                }
            }
        },
        Expression::Type(l, ty) => match ty {
            Some(b) => {
                let (n, t, r) = intern(v.nodes, v.builtins, b);
                (GraphView { nodes: n, edges: v.edges, builtins: t }, Ok(seq![r]))
            },
            None => (v, Err(BuildError::UnsupportedConstruct(ConstructKind::NonElementaryType, l))),
        },
        Expression::FunctionCall(l, f, args) => {
            let (m1, r1) = eval(v, *f, ctx);
            if r1 is Err {
                (m1, r1)
            } else if r1->Ok_0.len() == 0 {
                (m1, Err(BuildError::EmptyEvaluationResult(l)))
            } else {
                let fi = r1->Ok_0[0];
                let (m2, r2) = eval_args(m1, args@, ctx);
                match r2 {
                    Err(er) => (m2, Err(er)),
                    Ok(_) => (m2, Ok(if is_check(m1.nodes, fi) { Seq::empty() } else { seq![fi] })),
                }
            }
        },
        Expression::ArraySubscript(l, _, _) => (v, Err(BuildError::UnsupportedConstruct(ConstructKind::ArraySubscript, l))),
        Expression::MemberAccess(l, _, _) => (v, Err(BuildError::UnsupportedConstruct(ConstructKind::MemberAccess, l))),
        Expression::Other(l) => (v, Err(BuildError::UnsupportedConstruct(ConstructKind::Other, l))),
    }
}

/// Evaluating the arguments of a call in order, for their effect on the
/// graph; stops at the first error.
pub open spec fn eval_args(v: GraphView, args: Seq<Expression>, ctx: usize) -> (GraphView, Result<(), BuildError>)
    decreases args,
{
    if args.len() == 0 {
        (v, Ok(()))
    } else {
        let (m, r) = eval_args(v, args.drop_last(), ctx);
        if r is Err {
            (m, r)
        } else {
            let (m2, r2) = eval(m, args.last(), ctx);
            (m2, match r2 {
                Ok(_) => Ok(()),
                Err(er) => Err(er),
            })
        }
    }
}

/// The declaration a node carries, when it is a parameter or a return slot.
pub open spec fn param_of(n: Node) -> Option<FunctionParam> {
    match n {
        Node::FunctionParam(p) => Some(p),
        Node::FunctionReturn(p) => Some(p),
        _ => None,
    }
}

/// Seeding scope `ctx` from the first `i` edges of `e0`: each edge of kind
/// `kind` into `parent` from a named declaration gives a fresh variable of
/// that name and span, attached to `ctx` by `Variable`.
pub open spec fn seed_upto(e0: Seq<GraphEdge>, v: GraphView, parent: usize, ctx: usize, kind: Edge, i: nat) -> GraphView
    decreases i,
{
    if i == 0 {
        v
    } else {
        let m = seed_upto(e0, v, parent, ctx, kind, (i - 1) as nat);
        let e = e0[i - 1];
        if e.target == parent && e.kind == kind && e.source < m.nodes.len() && param_of(m.nodes[e.source as int]) is Some
            && param_of(m.nodes[e.source as int])->Some_0.name is Some {
            let p = param_of(m.nodes[e.source as int])->Some_0;
            let n = m.nodes.len() as usize;
            push_edge(push_node(m, var_node(p.name, None, p.loc, None)), n, ctx, Edge::Context(ContextEdge::Variable))
        } else {
            m
        }
    }
}

/// Seeding scope `ctx` from the edges `v` holds now.
pub open spec fn seed(v: GraphView, parent: usize, ctx: usize, kind: Edge) -> GraphView {
    seed_upto(v.edges, v, parent, ctx, kind, v.edges.len())
}

/// Building statement `s` under `parent`: the graph afterwards, and success
/// or the first error.
pub open spec fn eval_stmt(v: GraphView, s: Statement, parent: Option<usize>) -> (GraphView, Result<(), BuildError>)
    decreases s,
{
    match s {
        Statement::Block { loc, statements, .. } => {
            let k = v.nodes.len() as usize;
            let v1 = push_node(v, Node::Context(Context { tmp_var_ctr: 0, loc }));
            let v2 = match parent_link(v.nodes, parent, k) {
                Some(pe) => push_edge(v1, pe.source, pe.target, pe.kind),
                None => v1,
            };
            let v3 = match parent {
                Some(p) => seed(seed(v2, p, k, Edge::FunctionParam), p, k, Edge::FunctionReturn),
                None => v2,
            };
            eval_stmts(v3, statements@, k)
        },
        Statement::Expression(_, e) => match parent {
            None => (v, Ok(())),
            Some(p) => {
                let (m, r) = eval(v, e, p);
                match r {
                    Err(er) => (m, Err(er)),
                    Ok(rs) => if rs.len() > 0 {
                        (push_edge(m, rs[0], p, Edge::Context(ContextEdge::Call)), Ok(()))
                    } else {
                        (m, Ok(()))
                    },
                }
            },
        },
        Statement::Return(l, Some(e)) => match parent {
            None => (v, Ok(())),
            Some(p) => {
                let (m, r) = eval(v, e, p);
                match r {
                    Err(er) => (m, Err(er)),
                    Ok(rs) => if rs.len() > 0 {
                        (push_edge(m, rs[0], p, Edge::Context(ContextEdge::Return)), Ok(()))
                    } else {
                        (m, Err(BuildError::EmptyEvaluationResult(l)))
                    },
                }
            },
        },
        _ => (v, Ok(())),
    }
}

/// Building the statements of a block in scope `ctx`, in order; stops at the
/// first error.
pub open spec fn eval_stmts(v: GraphView, stmts: Seq<Statement>, ctx: usize) -> (GraphView, Result<(), BuildError>)
    decreases stmts,
{
    if stmts.len() == 0 {
        (v, Ok(()))
    } else {
        let (m, r) = eval_stmts(v, stmts.drop_last(), ctx);
        if r is Err {
            (m, r)
        } else {
            eval_stmt(m, stmts.last(), Some(ctx))
        }
    }
}

/// Once a prefix of a block fails, the later statements are not built.
pub proof fn lemma_stmts_stop(v: GraphView, s: Seq<Statement>, ctx: usize, k: int, j: int)
    requires
        0 <= k <= j <= s.len(),
        eval_stmts(v, s.subrange(0, k), ctx).1 is Err,
    ensures
        eval_stmts(v, s.subrange(0, j), ctx) == eval_stmts(v, s.subrange(0, k), ctx),
    decreases j - k,
{
    if j > k {
        lemma_stmts_stop(v, s, ctx, k, j - 1);
        assert(s.subrange(0, j).drop_last() == s.subrange(0, j - 1));
    }
}

/// Once a prefix of the arguments fails, the later ones are not evaluated.
pub proof fn lemma_args_stop(v: GraphView, s: Seq<Expression>, ctx: usize, k: int, j: int)
    requires
        0 <= k <= j <= s.len(),
        eval_args(v, s.subrange(0, k), ctx).1 is Err,
    ensures
        eval_args(v, s.subrange(0, j), ctx) == eval_args(v, s.subrange(0, k), ctx),
    decreases j - k,
{
    if j > k {
        lemma_args_stop(v, s, ctx, k, j - 1);
        assert(s.subrange(0, j).drop_last() == s.subrange(0, j - 1));
    }
}

} // verus!
