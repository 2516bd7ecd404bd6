use neuroscript::ir::{
    BinOp, Connection, Dim, DimExpr, Endpoint, ImplRef, NeuronBody, NeuronDef, Param, Port,
    PortRef, Program, Shape, Value,
};
use neuroscript::shape_inference::{InferenceContext, ShapeError, ShapeInferenceEngine};

fn named(n: &str) -> Dim {
    Dim::Named(n.to_string())
}

fn lit(n: usize) -> Dim {
    Dim::Literal(n)
}

fn expr(left: Dim, op: BinOp, right: Dim) -> Dim {
    Dim::Expr(Box::new(DimExpr { left, op, right }))
}

fn shape(dims: Vec<Dim>) -> Shape {
    Shape::new(dims)
}

fn port(name: &str, dims: Vec<Dim>) -> Port {
    Port { name: name.to_string(), shape: shape(dims) }
}

fn primitive(name: &str, inputs: Vec<Port>, outputs: Vec<Port>) -> NeuronDef {
    NeuronDef {
        name: name.to_string(),
        params: vec![],
        inputs,
        outputs,
        body: NeuronBody::Primitive(ImplRef { source: "core".to_string(), path: format!("nn/{}", name) }),
    }
}

fn graph(name: &str, params: Vec<Param>, inputs: Vec<Port>, outputs: Vec<Port>, conns: Vec<Connection>) -> NeuronDef {
    NeuronDef { name: name.to_string(), params, inputs, outputs, body: NeuronBody::Graph(conns) }
}

fn node(n: &str) -> Endpoint {
    Endpoint::Ref(PortRef { node: n.to_string(), port: "default".to_string() })
}

fn call(name: &str, id: usize) -> Endpoint {
    Endpoint::Call { name: name.to_string(), args: vec![], kwargs: vec![], id }
}

fn conn(source: Endpoint, destination: Endpoint) -> Connection {
    Connection { source, destination }
}

fn program(neurons: Vec<NeuronDef>) -> Program {
    Program { uses: vec![], neurons }
}

fn bound(ctx: &InferenceContext, name: &str) -> Option<usize> {
    ctx.resolved_dims.get(&name.to_string()).copied()
}

#[test]
fn unify_equal_literals() {
    let mut ctx = InferenceContext::new();
    assert!(ctx.unify(&lit(512), &lit(512)).is_ok());
    assert_eq!(bound(&ctx, "512"), None);
}

#[test]
fn unify_literal_mismatch_message() {
    let mut ctx = InferenceContext::new();
    assert_eq!(ctx.unify(&lit(3), &lit(4)), Err("Literal mismatch: 3 != 4".to_string()));
}

#[test]
fn unify_binds_name_to_literal() {
    let mut ctx = InferenceContext::new();
    assert!(ctx.unify(&named("d"), &lit(512)).is_ok());
    assert_eq!(bound(&ctx, "d"), Some(512));
    assert!(ctx.unify(&lit(512), &named("d")).is_ok());
    assert_eq!(
        ctx.unify(&lit(256), &named("d")),
        Err("Variable d already bound to 512, cannot bind to 256".to_string())
    );
    assert_eq!(bound(&ctx, "d"), Some(512));
}

#[test]
fn unify_names_propagates_binding() {
    let mut ctx = InferenceContext::new();
    ctx.unify(&named("a"), &lit(4)).unwrap();
    assert!(ctx.unify(&named("a"), &named("b")).is_ok());
    assert_eq!(bound(&ctx, "b"), Some(4));
    ctx.unify(&named("c"), &lit(7)).unwrap();
    assert!(ctx.unify(&named("d"), &named("c")).is_ok());
    assert_eq!(bound(&ctx, "d"), Some(7));
}

#[test]
fn unify_unbound_names_binds_nothing() {
    let mut ctx = InferenceContext::new();
    assert!(ctx.unify(&named("x"), &named("y")).is_ok());
    assert_eq!(bound(&ctx, "x"), None);
    assert_eq!(bound(&ctx, "y"), None);
}

#[test]
fn unify_variable_mismatch_message() {
    let mut ctx = InferenceContext::new();
    ctx.unify(&named("a"), &lit(4)).unwrap();
    ctx.unify(&named("b"), &lit(5)).unwrap();
    assert_eq!(
        ctx.unify(&named("a"), &named("b")),
        Err("Variable mismatch: a=4 != b=5".to_string())
    );
}

#[test]
fn unify_ignores_wildcards_and_expressions() {
    let mut ctx = InferenceContext::new();
    assert!(ctx.unify(&Dim::Wildcard, &lit(3)).is_ok());
    assert!(ctx.unify(&expr(named("d"), BinOp::Mul, lit(4)), &lit(3)).is_ok());
    assert!(ctx.unify(&Dim::Variadic("rest".to_string()), &named("d")).is_ok());
    assert_eq!(bound(&ctx, "d"), None);
}

#[test]
fn unify_is_symmetric_on_values() {
    let mut a = InferenceContext::new();
    let mut b = InferenceContext::new();
    a.unify(&named("n"), &lit(10)).unwrap();
    b.unify(&named("n"), &lit(10)).unwrap();
    assert!(a.unify(&named("n"), &named("m")).is_ok());
    assert!(b.unify(&named("m"), &named("n")).is_ok());
    assert_eq!(bound(&a, "m"), bound(&b, "m"));
    assert_eq!(bound(&a, "m"), Some(10));
}

#[test]
fn unify_twice_is_unify_once() {
    let mut ctx = InferenceContext::new();
    ctx.unify(&named("k"), &lit(8)).unwrap();
    assert!(ctx.unify(&named("k"), &lit(8)).is_ok());
    assert_eq!(bound(&ctx, "k"), Some(8));
}

#[test]
fn resolve_dim_evaluates_expressions() {
    let mut ctx = InferenceContext::new();
    ctx.unify(&named("dim"), &lit(512)).unwrap();
    assert_eq!(ctx.resolve_dim(&lit(7)), Some(7));
    assert_eq!(ctx.resolve_dim(&named("dim")), Some(512));
    assert_eq!(ctx.resolve_dim(&named("other")), None);
    assert_eq!(ctx.resolve_dim(&expr(named("dim"), BinOp::Mul, lit(4))), Some(2048));
    assert_eq!(ctx.resolve_dim(&expr(named("dim"), BinOp::Add, lit(1))), Some(513));
    assert_eq!(ctx.resolve_dim(&expr(named("dim"), BinOp::Div, lit(3))), Some(170));
    assert_eq!(ctx.resolve_dim(&expr(named("dim"), BinOp::Sub, lit(12))), Some(500));
    assert_eq!(ctx.resolve_dim(&expr(lit(1), BinOp::Sub, named("dim"))), None);
    assert_eq!(ctx.resolve_dim(&expr(named("dim"), BinOp::Lt, lit(3))), None);
    assert_eq!(ctx.resolve_dim(&Dim::Wildcard), None);
}

#[test]
fn shape_text() {
    let s = shape(vec![Dim::Wildcard, named("dim"), expr(named("dim"), BinOp::Mul, lit(4)), Dim::Variadic("rest".to_string())]);
    assert_eq!(s.to_string(), "[*, dim, dim * 4, *rest]");
    assert_eq!(shape(vec![]).to_string(), "[]");
}

#[test]
fn error_messages() {
    let e = ShapeError::Mismatch { expected: shape(vec![lit(2)]), got: shape(vec![lit(3)]), context: "c".to_string() };
    assert_eq!(e.message(), "Shape mismatch: expected [2], got [3]");
    let e = ShapeError::DimMismatch { expected: lit(2), got: named("n"), context: "c".to_string() };
    assert_eq!(e.message(), "Dimension mismatch: expected 2, got n");
    let e = ShapeError::UnknownDim { name: "q".to_string(), context: "c".to_string() };
    assert_eq!(e.message(), "Unknown dimension variable: q");
    let e = ShapeError::ConstraintViolation { message: "m".to_string(), context: "c".to_string() };
    assert_eq!(e.message(), "Constraint violation: m");
    let e = ShapeError::NodeInferenceFailed { node: "x".to_string(), message: "m".to_string() };
    assert_eq!(e.message(), "Inference failed for node x: m");
    assert_eq!(ShapeError::UnknownNode("y".to_string()).message(), "Unknown node or port: y");
}

fn linear(name: &str, i: usize, o: usize) -> NeuronDef {
    primitive(name, vec![port("default", vec![Dim::Wildcard, lit(i)])], vec![port("default", vec![Dim::Wildcard, lit(o)])])
}

#[test]
fn infer_accepts_matching_pipeline() {
    let mlp = graph(
        "MLP",
        vec![],
        vec![port("default", vec![named("batch"), lit(10)])],
        vec![port("default", vec![named("batch"), lit(2)])],
        vec![
            conn(node("in"), call("L1", 1)),
            conn(call("L1", 1), call("L2", 2)),
            conn(call("L2", 2), node("out")),
        ],
    );
    let p = program(vec![linear("L1", 10, 20), linear("L2", 20, 2), mlp]);
    let mut engine = ShapeInferenceEngine::new();
    assert!(engine.infer(&p).is_ok());
}

#[test]
fn infer_reports_literal_conflict_at_call_input() {
    let bad = graph(
        "Bad",
        vec![],
        vec![port("default", vec![named("batch"), lit(10)])],
        vec![],
        vec![conn(node("in"), call("L2", 1))],
    );
    let p = program(vec![linear("L2", 20, 2), bad]);
    let mut engine = ShapeInferenceEngine::new();
    let errs = engine.infer(&p).unwrap_err();
    assert_eq!(errs.len(), 1);
    match &errs[0] {
        ShapeError::ConstraintViolation { message, context } => {
            assert_eq!(message, "Literal mismatch: 10 != 20");
            assert_eq!(context, "Input to L2");
        }
        other => panic!("unexpected error {:?}", other),
    }
}

#[test]
fn infer_uses_integer_parameter_defaults() {
    // neuron P(dim=16): in: [dim] -> L(expects [8])
    let l = primitive("L", vec![port("default", vec![lit(8)])], vec![port("default", vec![lit(8)])]);
    let p_neuron = graph(
        "P",
        vec![Param { name: "dim".to_string(), default: Some(Value::Int(16)) }],
        vec![port("default", vec![named("dim")])],
        vec![],
        vec![conn(node("in"), call("L", 1))],
    );
    let p = program(vec![l, p_neuron]);
    let errs = ShapeInferenceEngine::new().infer(&p).unwrap_err();
    match &errs[0] {
        ShapeError::ConstraintViolation { message, .. } => {
            assert_eq!(message, "Variable dim already bound to 16, cannot bind to 8");
        }
        other => panic!("unexpected error {:?}", other),
    }
}

#[test]
fn infer_reports_rank_mismatch() {
    let l = primitive("L", vec![port("default", vec![lit(512)])], vec![]);
    let n = graph(
        "N",
        vec![],
        vec![port("default", vec![Dim::Wildcard, lit(512)])],
        vec![],
        vec![conn(node("in"), call("L", 1))],
    );
    let errs = ShapeInferenceEngine::new().infer(&program(vec![l, n])).unwrap_err();
    match &errs[0] {
        ShapeError::ConstraintViolation { message, .. } => {
            assert_eq!(message, "Rank mismatch: [*, 512] vs [512]");
        }
        other => panic!("unexpected error {:?}", other),
    }
}

#[test]
fn infer_reports_unknown_node_and_unknown_neuron() {
    let n = graph("N", vec![], vec![port("default", vec![lit(1)])], vec![], vec![conn(node("x"), node("out"))]);
    let errs = ShapeInferenceEngine::new().infer(&program(vec![n])).unwrap_err();
    assert!(matches!(&errs[0], ShapeError::UnknownNode(x) if x == "x"));

    let m = graph("M", vec![], vec![port("default", vec![lit(1)])], vec![], vec![conn(node("in"), call("Missing", 1))]);
    let errs = ShapeInferenceEngine::new().infer(&program(vec![m])).unwrap_err();
    assert!(matches!(&errs[0], ShapeError::UnknownNode(x) if x == "Missing"));
}

#[test]
fn infer_reports_call_arity() {
    let add = primitive("Add", vec![port("default", vec![Dim::Wildcard])], vec![port("default", vec![Dim::Wildcard])]);
    let n = graph(
        "N",
        vec![],
        vec![port("a", vec![lit(4)]), port("b", vec![lit(4)])],
        vec![],
        vec![conn(Endpoint::Tuple(vec![PortRef { node: "a".to_string(), port: "default".to_string() }, PortRef { node: "b".to_string(), port: "default".to_string() }]), call("Add", 1))],
    );
    let errs = ShapeInferenceEngine::new().infer(&program(vec![add, n])).unwrap_err();
    match &errs[0] {
        ShapeError::Mismatch { expected, got, context } => {
            assert!(expected.dims.is_empty() && got.dims.is_empty());
            assert_eq!(context, "Arity mismatch calling Add: expected 1, got 2");
        }
        other => panic!("unexpected error {:?}", other),
    }
}

#[test]
fn infer_reports_tuple_unpacking_arity() {
    let n = graph(
        "N",
        vec![],
        vec![port("default", vec![lit(4)])],
        vec![],
        vec![conn(node("in"), Endpoint::Tuple(vec![PortRef { node: "a".to_string(), port: "default".to_string() }, PortRef { node: "b".to_string(), port: "default".to_string() }]))],
    );
    let errs = ShapeInferenceEngine::new().infer(&program(vec![n])).unwrap_err();
    match &errs[0] {
        ShapeError::Mismatch { context, .. } => assert_eq!(context, "Tuple unpacking arity mismatch"),
        other => panic!("unexpected error {:?}", other),
    }
}

#[test]
fn infer_tuple_binds_each_node() {
    // in -> Fork() -> (main, skip); (main, skip) -> Add() -> out
    let fork = primitive("Fork", vec![port("default", vec![Dim::Wildcard, named("d")])], vec![port("left", vec![Dim::Wildcard, named("d")]), port("right", vec![Dim::Wildcard, named("d")])]);
    let add = primitive("Add", vec![port("a", vec![Dim::Wildcard, named("d")]), port("b", vec![Dim::Wildcard, named("d")])], vec![port("default", vec![Dim::Wildcard, named("d")])]);
    let refs = |a: &str, b: &str| vec![PortRef { node: a.to_string(), port: "default".to_string() }, PortRef { node: b.to_string(), port: "default".to_string() }];
    let res = graph(
        "Residual",
        vec![],
        vec![port("default", vec![Dim::Wildcard, lit(64)])],
        vec![port("default", vec![Dim::Wildcard, lit(64)])],
        vec![
            conn(node("in"), call("Fork", 1)),
            conn(call("Fork", 1), Endpoint::Tuple(refs("main", "skip"))),
            conn(Endpoint::Tuple(refs("main", "skip")), call("Add", 2)),
            conn(call("Add", 2), node("out")),
        ],
    );
    assert!(ShapeInferenceEngine::new().infer(&program(vec![fork, add, res])).is_ok());
}

#[test]
fn infer_gathers_one_error_per_failing_neuron_in_order() {
    let a = graph("A", vec![], vec![], vec![], vec![conn(node("nope"), node("out"))]);
    let ok = graph("Ok", vec![], vec![port("default", vec![lit(1)])], vec![], vec![conn(node("in"), node("out"))]);
    let b = graph("B", vec![], vec![], vec![], vec![conn(node("gone"), node("out"))]);
    let prim = primitive("P", vec![], vec![]);
    let errs = ShapeInferenceEngine::new().infer(&program(vec![a, ok, b, prim])).unwrap_err();
    assert_eq!(errs.len(), 2);
    assert!(matches!(&errs[0], ShapeError::UnknownNode(x) if x == "nope"));
    assert!(matches!(&errs[1], ShapeError::UnknownNode(x) if x == "gone"));
}

#[test]
fn infer_passes_program_of_primitives() {
    let p = program(vec![linear("L1", 1, 2), linear("L2", 2, 3)]);
    assert!(ShapeInferenceEngine::new().infer(&p).is_ok());
}

#[test]
fn named_input_ports_are_nodes() {
    // Ports named other than `default` can be used as sources.
    let l = linear("L", 3, 3);
    let n = graph("N", vec![], vec![port("x", vec![Dim::Wildcard, lit(3)])], vec![], vec![conn(node("x"), call("L", 1)), conn(call("L", 1), node("out"))]);
    assert!(ShapeInferenceEngine::new().infer(&program(vec![l, n])).is_ok());
}
