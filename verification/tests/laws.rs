use neuroscript::codegen::instantiation::generate_module_instantiations;
use neuroscript::codegen::CodeGenerator;
use neuroscript::ir::{Connection, Dim, Endpoint, PortRef, Program, Value};
use neuroscript::shape_inference::InferenceContext;

fn named(n: &str) -> Dim {
    Dim::Named(n.to_string())
}

fn bound(ctx: &InferenceContext, name: &str) -> Option<usize> {
    ctx.resolved_dims.get(&name.to_string()).copied()
}

#[test]
fn unification_keeps_earlier_bindings() {
    let mut ctx = InferenceContext::new();
    ctx.unify(&named("a"), &Dim::Literal(3)).unwrap();
    let _ = ctx.unify(&named("a"), &Dim::Literal(4));
    let _ = ctx.unify(&named("b"), &named("a"));
    assert_eq!(bound(&ctx, "a"), Some(3));
    assert_eq!(bound(&ctx, "b"), Some(3));
}

#[test]
fn unified_dimensions_resolve_alike() {
    let mut ctx = InferenceContext::new();
    ctx.unify(&named("x"), &Dim::Literal(9)).unwrap();
    ctx.unify(&named("y"), &named("x")).unwrap();
    assert_eq!(ctx.resolve_dim(&named("x")), ctx.resolve_dim(&named("y")));
    ctx.unify(&named("p"), &named("q")).unwrap();
    assert_eq!(ctx.resolve_dim(&named("p")), ctx.resolve_dim(&named("q")));
}

fn call(args: Vec<Value>, id: usize) -> Endpoint {
    Endpoint::Call { name: "Linear".to_string(), args, kwargs: vec![], id }
}

#[test]
fn modules_come_in_name_order_and_equal_calls_share_one() {
    let p = Program { uses: vec![], neurons: vec![] };
    let mut gen = CodeGenerator::new(&p, vec![]);
    let mut out = String::new();
    let input = Endpoint::Ref(PortRef { node: "in".to_string(), port: "default".to_string() });
    let conns = vec![
        Connection { source: input, destination: call(vec![Value::Int(3)], 1) },
        Connection { source: call(vec![Value::Int(3)], 1), destination: call(vec![Value::Int(1)], 2) },
        Connection { source: call(vec![Value::Int(1)], 2), destination: call(vec![Value::Int(3)], 3) },
    ];
    generate_module_instantiations(&mut gen, &mut out, &[], &conns).unwrap();
    let lines: Vec<&str> = out.lines().collect();
    assert_eq!(lines.len(), 2);
    let mut sorted = lines.clone();
    sorted.sort();
    assert_eq!(lines, sorted);
    assert_eq!(gen.node_counter, 2);
    assert_eq!(gen.call_to_module.get(&"Linear(3)".to_string()), Some(&"linear_0".to_string()));
    assert_eq!(gen.call_to_module.get(&"Linear(1)".to_string()), Some(&"linear_1".to_string()));
}

#[test]
fn unified_names_stay_equal() {
    let mut ctx = InferenceContext::new();
    ctx.unify(&named("a"), &named("b")).unwrap();
    ctx.unify(&named("a"), &Dim::Literal(3)).unwrap();
    assert_eq!(bound(&ctx, "b"), Some(3));
    assert_eq!(ctx.resolve_dim(&named("b")), Some(3));
    assert_eq!(
        ctx.unify(&named("b"), &Dim::Literal(4)),
        Err("Variable b already bound to 3, cannot bind to 4".to_string())
    );
}

#[test]
fn equivalence_classes_join_transitively() {
    let mut ctx = InferenceContext::new();
    ctx.unify(&named("a"), &named("b")).unwrap();
    ctx.unify(&named("c"), &named("d")).unwrap();
    ctx.unify(&named("b"), &named("d")).unwrap();
    ctx.unify(&named("c"), &Dim::Literal(8)).unwrap();
    for n in ["a", "b", "c", "d"] {
        assert_eq!(bound(&ctx, n), Some(8));
    }
    assert_eq!(bound(&ctx, "e"), None);
}

#[test]
fn equivalences_record_a_representative() {
    let mut ctx = InferenceContext::new();
    ctx.unify(&named("a"), &named("b")).unwrap();
    assert_eq!(ctx.equivalences.get(&"a".to_string()), Some(&"b".to_string()));
    assert_eq!(ctx.equivalences.get(&"b".to_string()), None);
    ctx.unify(&named("b"), &named("a")).unwrap();
    assert_eq!(ctx.equivalences.get(&"a".to_string()), Some(&"b".to_string()));
}
