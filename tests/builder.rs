use pyrometer::ast::{Expression, Identifier, Statement, StringLiteral};
use pyrometer::context::{ContextNode, ContextVarNode};
use pyrometer::graph::{
    Analyzer, BuildError, Builtin, ConstructKind, Context, ContextEdge, ContextVar, DynamicRangeSide, Edge, Function,
    FunctionParam, Loc, Node, NodeKind, Op, RangeElem, SolcRange,
};

fn loc(start: usize, end: usize) -> Loc {
    Loc { file: 0, start, end }
}

fn var(name: &str, at: usize) -> Expression {
    Expression::Variable(Identifier { name: name.to_string(), loc: loc(at, at + 1) })
}

fn num(n: i128, at: usize) -> Expression {
    Expression::NumberLiteral(loc(at, at + 1), n)
}

/// A function `name` with the given named parameters and return slots.
fn function(a: &mut Analyzer, name: &str, params: &[&str], rets: &[&str]) -> usize {
    let f = a.add_node(Node::Function(Function { name: name.to_string(), loc: loc(0, 100) }));
    for (i, p) in params.iter().enumerate() {
        let n = a.add_node(Node::FunctionParam(FunctionParam { name: Some(p.to_string()), loc: loc(10 + i, 11 + i) }));
        a.add_edge(n, f, Edge::FunctionParam);
    }
    for (i, r) in rets.iter().enumerate() {
        let n = a.add_node(Node::FunctionReturn(FunctionParam { name: Some(r.to_string()), loc: loc(30 + i, 31 + i) }));
        a.add_edge(n, f, Edge::FunctionReturn);
    }
    f
}

fn edges(a: &Analyzer) -> Vec<(usize, usize, Edge)> {
    (0..a.edge_count()).map(|i| {
        let e = a.edge(i).unwrap();
        (e.source, e.target, e.kind)
    }).collect()
}

fn contexts(a: &Analyzer) -> Vec<usize> {
    (0..a.node_count()).filter(|&i| matches!(a.node(i), Some(Node::Context(_)))).collect()
}

fn cvar(a: &Analyzer, i: usize) -> &ContextVar {
    match a.node(i) {
        Some(Node::ContextVar(c)) => c,
        other => panic!("not a variable: {:?}", other),
    }
}

fn named_versions(a: &Analyzer, name: &str) -> Vec<usize> {
    (0..a.node_count())
        .filter(|&i| matches!(a.node(i), Some(Node::ContextVar(c)) if c.name.as_deref() == Some(name)))
        .collect()
}

/// A function whose body is one empty block; gives the body's scope.
fn body(a: &mut Analyzer, f: usize) -> usize {
    let n = a.node_count();
    let stmt = Statement::Block { loc: loc(1, 99), unchecked: false, statements: vec![] };
    a.parse_ctx_statement(&stmt, false, Some(f)).unwrap();
    n
}

#[test]
fn nesting_topology() {
    let mut a = Analyzer::new();
    let f = function(&mut a, "f", &[], &[]);
    let inner = Statement::Block {
        loc: loc(5, 20),
        unchecked: false,
        statements: vec![Statement::Expression(loc(6, 7), num(1, 6))],
    };
    let outer = Statement::Block { loc: loc(1, 30), unchecked: false, statements: vec![inner] };
    assert_eq!(a.parse_ctx_statement(&outer, false, Some(f)), Ok(()));
    let ctxs = contexts(&a);
    assert_eq!(ctxs.len(), 2);
    let (o, i) = (ctxs[0], ctxs[1]);
    let es = edges(&a);
    assert!(es.contains(&(o, f, Edge::Context(ContextEdge::Context))));
    assert!(es.contains(&(i, o, Edge::Context(ContextEdge::Subcontext))));
    assert!(!es.contains(&(i, f, Edge::Context(ContextEdge::Context))));
    assert_eq!(ContextNode(i).associated_fn(&a).map(|f| f.0), Some(f));
    assert_eq!(ContextNode(i).associated_fn_name(&a), Ok("f".to_string()));
}

#[test]
fn end_to_end_scenario() {
    let mut a = Analyzer::new();
    let f = function(&mut a, "f", &["x"], &["y"]);
    let x_plus_1 = Expression::Add(loc(44, 49), Box::new(var("x", 44)), Box::new(num(1, 48)));
    let assign = Expression::Assign(loc(40, 49), Box::new(var("x", 40)), Box::new(x_plus_1));
    let stmt = Statement::Block {
        loc: loc(38, 70),
        unchecked: false,
        statements: vec![
            Statement::Expression(loc(40, 50), assign),
            Statement::Return(loc(51, 60), Some(var("x", 58))),
        ],
    };
    assert_eq!(a.parse_ctx_statement(&stmt, false, Some(f)), Ok(()));
    let ctxs = contexts(&a);
    assert_eq!(ctxs.len(), 1);
    let ctx = ctxs[0];
    let es = edges(&a);
    assert!(es.contains(&(ctx, f, Edge::Context(ContextEdge::Context))));

    let xs = named_versions(&a, "x");
    let ys = named_versions(&a, "y");
    assert_eq!(xs.len(), 2, "the parameter and one write");
    assert_eq!(ys.len(), 1);
    let (x0, x1) = (xs[0], xs[1]);
    assert!(es.contains(&(x0, ctx, Edge::Context(ContextEdge::Variable))));
    assert!(es.contains(&(ys[0], ctx, Edge::Context(ContextEdge::Variable))));
    assert!(!es.contains(&(x1, ctx, Edge::Context(ContextEdge::Variable))));
    assert!(es.contains(&(x1, x0, Edge::Context(ContextEdge::Prev))));
    assert_eq!(es.iter().filter(|e| e.2 == Edge::Context(ContextEdge::Prev)).count(), 1);
    assert!(es.contains(&(x1, ctx, Edge::Context(ContextEdge::Return))));
    assert_eq!(cvar(&a, x1).loc, Some(loc(40, 49)));

    assert_eq!(ContextNode(ctx).vars(&a), vec![ContextVarNode(ys[0]), ContextVarNode(x0)], "newest edge first");
    assert_eq!(ContextNode(ctx).var_by_name(&a, "x"), Some(ContextVarNode(x0)));
    assert_eq!(ContextNode(ctx).latest_var_by_name(&a, "x"), Some(ContextVarNode(x1)));
    assert_eq!(ContextNode(ctx).latest_var_by_name(&a, "z"), None);
}

#[test]
fn unsupported_statement_is_inert() {
    let mut a = Analyzer::new();
    let f = function(&mut a, "f", &["x"], &[]);
    let ctx = body(&mut a, f);
    let (n, e) = (a.node_count(), a.edge_count());
    for stmt in [
        Statement::While(loc(2, 9)),
        Statement::If(loc(2, 9)),
        Statement::For(loc(2, 9)),
        Statement::Emit(loc(2, 9)),
        Statement::Try(loc(2, 9)),
        Statement::Return(loc(2, 9), None),
    ] {
        assert_eq!(a.parse_ctx_statement(&stmt, false, Some(ctx)), Ok(()));
        assert_eq!((a.node_count(), a.edge_count()), (n, e));
    }
    let block = Statement::Block { loc: loc(1, 20), unchecked: false, statements: vec![Statement::While(loc(2, 9))] };
    let mut b = Analyzer::new();
    let g = function(&mut b, "g", &[], &[]);
    assert_eq!(b.parse_ctx_statement(&block, false, Some(g)), Ok(()));
    assert_eq!(contexts(&b).len(), 1);
}

#[test]
fn builtin_interning() {
    let mut a = Analyzer::new();
    let f = function(&mut a, "f", &[], &[]);
    let ctx = ContextNode(body(&mut a, f));
    let r1 = a.parse_ctx_expr(&Expression::Type(loc(1, 8), Some(Builtin::Uint(256))), ctx).unwrap();
    let _ = a.parse_ctx_expr(&num(3, 9), ctx).unwrap();
    let r2 = a.parse_ctx_expr(&Expression::Type(loc(20, 27), Some(Builtin::Uint(256))), ctx).unwrap();
    let r3 = a.parse_ctx_expr(&Expression::Type(loc(30, 34), Some(Builtin::Bool)), ctx).unwrap();
    assert_eq!(r1.len(), 1);
    assert_eq!(r1, r2);
    assert_ne!(r1, r3);
    assert!(matches!(a.node(r1[0]), Some(Node::Builtin(Builtin::Uint(256)))));
    let builtins = (0..a.node_count()).filter(|&i| matches!(a.node(i), Some(Node::Builtin(_)))).count();
    assert_eq!(builtins, 2);
    assert_eq!(a.resolve_builtin(Builtin::Bool), r3[0]);
}

#[test]
fn deferred_range_on_assignment() {
    let mut a = Analyzer::new();
    let f = function(&mut a, "f", &["x", "y"], &[]);
    let ctx = ContextNode(body(&mut a, f));
    let y = ctx.latest_var_by_name(&a, "y").unwrap();
    assert_eq!(cvar(&a, y.0).range, None);
    let at = loc(50, 55);
    let r = a.parse_ctx_expr(&Expression::Assign(at, Box::new(var("x", 50)), Box::new(var("y", 54))), ctx).unwrap();
    assert_eq!(r.len(), 1);
    let x1 = cvar(&a, r[0]);
    assert_eq!(x1.name.as_deref(), Some("x"));
    assert_eq!(x1.loc, Some(at));
    assert_eq!(
        x1.range,
        Some(SolcRange {
            min: RangeElem::Dynamic(y.0, DynamicRangeSide::Min, at),
            max: RangeElem::Dynamic(y.0, DynamicRangeSide::Max, at),
        })
    );
}

#[test]
fn known_range_is_copied_on_assignment() {
    let mut a = Analyzer::new();
    let f = function(&mut a, "f", &["x"], &[]);
    let ctx = ContextNode(body(&mut a, f));
    let r = a.parse_ctx_expr(&Expression::Assign(loc(5, 10), Box::new(var("x", 5)), Box::new(num(7, 9))), ctx).unwrap();
    let seven = Some(SolcRange { min: RangeElem::Concrete(7), max: RangeElem::Concrete(7) });
    assert_eq!(cvar(&a, r[0]).range, seven);
    assert_eq!(ctx.latest_var_by_name(&a, "x"), Some(ContextVarNode(r[0])));
}

#[test]
fn prev_chain_ends_at_declaration() {
    let mut a = Analyzer::new();
    let f = function(&mut a, "f", &["x"], &[]);
    let ctx = ContextNode(body(&mut a, f));
    let decl = ctx.var_by_name(&a, "x").unwrap();
    for k in 0..3 {
        a.parse_ctx_expr(&Expression::Assign(loc(k, k + 5), Box::new(var("x", k)), Box::new(num(k as i128, k + 4))), ctx)
            .unwrap();
    }
    let latest = ctx.latest_var_by_name(&a, "x").unwrap();
    assert_eq!(latest, decl.latest_version(&a));
    let es = edges(&a);
    let mut seen = vec![latest.0];
    let mut cur = latest.0;
    while let Some(e) = es.iter().find(|e| e.0 == cur && e.2 == Edge::Context(ContextEdge::Prev)) {
        assert!(!seen.contains(&e.1));
        seen.push(e.1);
        cur = e.1;
    }
    assert_eq!(cur, decl.0);
    assert_eq!(seen.len(), 4);
}

#[test]
fn compound_assignment_writes_a_version() {
    let mut a = Analyzer::new();
    let f = function(&mut a, "f", &["x"], &[]);
    let ctx = ContextNode(body(&mut a, f));
    let before = named_versions(&a, "x").len();
    let sum = a.parse_ctx_expr(&Expression::Add(loc(1, 6), Box::new(var("x", 1)), Box::new(num(1, 5))), ctx).unwrap();
    assert_eq!(named_versions(&a, "x").len(), before);
    assert_eq!(cvar(&a, sum[0]).tmp_num, Some(0));
    assert_eq!(cvar(&a, sum[0]).op, Some(Op::Add));
    let r = a.parse_ctx_expr(&Expression::AssignAdd(loc(8, 14), Box::new(var("x", 8)), Box::new(num(2, 13))), ctx).unwrap();
    assert_eq!(named_versions(&a, "x").len(), before + 1);
    let tmp = match cvar(&a, r[0]).range {
        Some(SolcRange { min: RangeElem::Dynamic(t, DynamicRangeSide::Min, _), .. }) => t,
        other => panic!("unexpected range {:?}", other),
    };
    assert_eq!(cvar(&a, tmp).tmp_num, Some(1));
}

#[test]
fn comparison_gives_a_temporary() {
    let mut a = Analyzer::new();
    let f = function(&mut a, "f", &["x"], &[]);
    let ctx = ContextNode(body(&mut a, f));
    let r = a.parse_ctx_expr(&Expression::Less(loc(1, 6), Box::new(var("x", 1)), Box::new(num(9, 5))), ctx).unwrap();
    assert_eq!(r.len(), 1);
    let t = cvar(&a, r[0]);
    assert_eq!(t.tmp_num, Some(0));
    assert_eq!(t.op, Some(Op::Lt));
    assert_eq!(t.range, None);
}

#[test]
fn literals() {
    let mut a = Analyzer::new();
    let f = function(&mut a, "f", &[], &[]);
    let ctx = ContextNode(body(&mut a, f));
    let b = a.parse_ctx_expr(&Expression::BoolLiteral(loc(1, 5), true), ctx).unwrap();
    assert_eq!(cvar(&a, b[0]).range, Some(SolcRange { min: RangeElem::Concrete(1), max: RangeElem::Concrete(1) }));
    let parts = vec![
        StringLiteral { loc: loc(1, 4), string: "ab".to_string() },
        StringLiteral { loc: loc(5, 8), string: "cd".to_string() },
    ];
    let s = a.parse_ctx_expr(&Expression::StringLiteral(parts), ctx).unwrap();
    assert_eq!(s.len(), 2);
    assert_eq!(cvar(&a, s[0]).name.as_deref(), Some("ab"));
    assert_eq!(cvar(&a, s[1]).name.as_deref(), Some("cd"));
    let addr = a.parse_ctx_expr(&Expression::AddressLiteral(loc(9, 50), "0xabc".to_string()), ctx).unwrap();
    assert_eq!(cvar(&a, addr[0]).name.as_deref(), Some("0xabc"));
}

#[test]
fn calls_and_require() {
    let mut a = Analyzer::new();
    let f = function(&mut a, "f", &["x"], &[]);
    let g = function(&mut a, "g", &[], &[]);
    let _req = function(&mut a, "require", &[], &[]);
    let ctx = ContextNode(body(&mut a, f));
    let call = Expression::FunctionCall(loc(1, 5), Box::new(var("g", 1)), vec![num(1, 3)]);
    assert_eq!(a.parse_ctx_expr(&call, ctx), Ok(vec![g]));
    let check = Expression::FunctionCall(loc(1, 12), Box::new(var("require", 1)), vec![var("x", 9)]);
    assert_eq!(a.parse_ctx_expr(&check, ctx), Ok(vec![]));
    let stmt = Statement::Return(loc(0, 14), Some(check));
    assert_eq!(
        a.parse_ctx_statement(&stmt, false, Some(ctx.0)),
        Err(BuildError::EmptyEvaluationResult(loc(0, 14)))
    );
    let e = a.edge_count();
    assert_eq!(a.parse_ctx_statement(&Statement::Expression(loc(0, 14), Expression::FunctionCall(loc(1, 12), Box::new(var("require", 1)), vec![])), false, Some(ctx.0)), Ok(()));
    assert_eq!(a.edge_count(), e);
    assert_eq!(a.parse_ctx_statement(&Statement::Expression(loc(0, 6), var("x", 0)), false, Some(ctx.0)), Ok(()));
    assert_eq!(a.edge(a.edge_count() - 1).map(|e| e.kind), Some(Edge::Context(ContextEdge::Call)));
}

#[test]
fn unsupported_expression_is_an_error() {
    let mut a = Analyzer::new();
    let f = function(&mut a, "f", &["x"], &[]);
    let ctx = ContextNode(body(&mut a, f));
    let (n, e) = (a.node_count(), a.edge_count());
    let other = Expression::Other(loc(3, 5));
    assert_eq!(a.parse_ctx_expr(&other, ctx), Err(BuildError::UnsupportedConstruct(ConstructKind::Other, loc(3, 5))));
    let member = Expression::MemberAccess(loc(6, 9), Box::new(var("x", 6)), Identifier { name: "len".to_string(), loc: loc(8, 9) });
    assert_eq!(a.parse_ctx_expr(&member, ctx), Err(BuildError::UnsupportedConstruct(ConstructKind::MemberAccess, loc(6, 9))));
    assert_eq!(a.parse_ctx_expr(&Expression::Type(loc(1, 2), None), ctx), Err(BuildError::UnsupportedConstruct(ConstructKind::NonElementaryType, loc(1, 2))));
    assert_eq!((a.node_count(), a.edge_count()), (n, e));
    let stmt = Statement::Expression(loc(3, 6), Expression::Other(loc(3, 5)));
    assert_eq!(a.parse_ctx_statement(&stmt, false, Some(ctx.0)), Err(BuildError::UnsupportedConstruct(ConstructKind::Other, loc(3, 5))));
}

#[test]
fn unknown_identifier() {
    let mut a = Analyzer::new();
    let f = function(&mut a, "f", &[], &[]);
    let ctx = ContextNode(body(&mut a, f));
    assert_eq!(a.parse_ctx_expr(&var("nope", 7), ctx), Err(BuildError::UnknownIdentifier(loc(7, 8))));
}

#[test]
fn nested_scope_sees_outer_variables() {
    let mut a = Analyzer::new();
    let f = function(&mut a, "f", &["x"], &[]);
    let inner = Statement::Block {
        loc: loc(5, 20),
        unchecked: false,
        statements: vec![Statement::Return(loc(6, 15), Some(var("x", 13)))],
    };
    let outer = Statement::Block { loc: loc(1, 30), unchecked: false, statements: vec![inner] };
    assert_eq!(a.parse_ctx_statement(&outer, false, Some(f)), Ok(()));
    let ctxs = contexts(&a);
    let x = named_versions(&a, "x");
    assert_eq!(x.len(), 1, "a nested block gets no parameters of its own");
    assert!(edges(&a).contains(&(x[0], ctxs[1], Edge::Context(ContextEdge::Return))));
}

#[test]
fn temporary_counter() {
    let mut a = Analyzer::new();
    let f = function(&mut a, "f", &[], &[]);
    let ctx = ContextNode(body(&mut a, f));
    assert_eq!(ctx.new_tmp(&mut a), Ok(0));
    assert_eq!(ctx.new_tmp(&mut a), Ok(1));
    assert_eq!(ctx.underlying(&a).map(|c| c.tmp_var_ctr), Ok(2));
    assert_eq!(ContextNode(f).new_tmp(&mut a), Err(BuildError::NodeKindMismatch(f, Some(NodeKind::Function))));
    let full = a.add_node(Node::Context(Context { tmp_var_ctr: usize::MAX, loc: loc(0, 1) }));
    assert_eq!(ContextNode(full).new_tmp(&mut a), Err(BuildError::CounterExhausted(full)));
    assert_eq!(Context::new(loc(3, 4)), Context { tmp_var_ctr: 0, loc: loc(3, 4) });
}

#[test]
fn node_kind_errors() {
    let mut a = Analyzer::new();
    let f = function(&mut a, "f", &[], &[]);
    assert_eq!(a.advance_var(ContextVarNode(f), loc(0, 1)), Err(BuildError::NodeKindMismatch(f, Some(NodeKind::Function))));
    assert_eq!(ContextNode(f).underlying(&a).err(), Some(BuildError::NodeKindMismatch(f, Some(NodeKind::Function))));
    let lone = a.add_node(Node::Context(Context::new(loc(0, 1))));
    assert_eq!(ContextNode(lone).associated_fn(&a), None);
    assert_eq!(ContextNode(lone).associated_fn_name(&a), Err(BuildError::MissingEnclosingFunction));
}

#[test]
fn advance_var_keeps_data() {
    let mut a = Analyzer::new();
    let v = a.add_node(Node::ContextVar(ContextVar { name: Some("v".to_string()), tmp_num: None, op: None, loc: None, range: None }));
    let n = a.advance_var(ContextVarNode(v), loc(4, 5)).unwrap();
    assert_eq!(n, ContextVarNode(v + 1));
    assert_eq!(cvar(&a, n.0).name.as_deref(), Some("v"));
    assert_eq!(cvar(&a, n.0).loc, Some(loc(4, 5)));
    assert_eq!(edges(&a), vec![(n.0, v, Edge::Context(ContextEdge::Prev))]);
    assert_eq!(ContextVarNode(v).latest_version(&a), n);
}

#[test]
fn shadowed_parameter_resolves_to_latest() {
    let mut a = Analyzer::new();
    let f = function(&mut a, "f", &["a"], &[]);
    let ctx = ContextNode(body(&mut a, f));
    let param = ctx.var_by_name(&a, "a").unwrap();
    let r = a.parse_ctx_expr(&Expression::Assign(loc(5, 10), Box::new(var("a", 5)), Box::new(num(3, 9))), ctx).unwrap();
    assert_ne!(r[0], param.0);
    assert_eq!(ctx.var_by_name(&a, "a"), Some(param));
    assert_eq!(ctx.latest_var_by_name(&a, "a"), Some(ContextVarNode(r[0])));
    assert_eq!(a.parse_ctx_expr(&var("a", 20), ctx), Ok(vec![r[0]]));
}

#[test]
fn var_by_name_takes_newest_edge() {
    let mut a = Analyzer::new();
    let f = function(&mut a, "f", &["a"], &["a"]);
    let ctx = ContextNode(body(&mut a, f));
    let vars = ctx.vars(&a);
    assert_eq!(vars.len(), 2);
    assert_eq!(cvar(&a, vars[0].0).loc, Some(loc(30, 31)), "the return slot was attached last");
    assert_eq!(ctx.var_by_name(&a, "a"), Some(vars[0]));
}
