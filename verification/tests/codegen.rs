use neuroscript::codegen::instantiation::{
    extract_call_args, extract_call_kwargs, extract_call_name, extract_kwargs,
    format_kwargs_impl, generate_module_instantiations,
};
use neuroscript::codegen::utils::{
    collect_calls_impl, endpoint_key_impl, has_captured_dimensions_impl, snake_case_impl, value_to_python_impl,
};
use neuroscript::codegen::CodeGenerator;
use neuroscript::interfaces::{Binding, Scope};
use neuroscript::ir::{
    BinOp, Connection, Dim, Endpoint, ImplRef, MatchArm, MatchExpr, NeuronBody, NeuronDef, PortRef,
    Program, Shape, Value,
};

fn call(name: &str, args: Vec<Value>, kwargs: Vec<(String, Value)>, id: usize) -> Endpoint {
    Endpoint::Call { name: name.to_string(), args, kwargs, id }
}

fn node(n: &str) -> Endpoint {
    Endpoint::Ref(PortRef { node: n.to_string(), port: "default".to_string() })
}

fn conn(source: Endpoint, destination: Endpoint) -> Connection {
    Connection { source, destination }
}

fn ival(n: i64) -> Value {
    Value::Int(n)
}

fn name(n: &str) -> Value {
    Value::Name(n.to_string())
}

fn primitive(n: &str) -> NeuronDef {
    NeuronDef {
        name: n.to_string(),
        params: vec![],
        inputs: vec![],
        outputs: vec![],
        body: NeuronBody::Primitive(ImplRef { source: "core".to_string(), path: n.to_string() }),
    }
}

fn composite(n: &str) -> NeuronDef {
    NeuronDef { name: n.to_string(), params: vec![], inputs: vec![], outputs: vec![], body: NeuronBody::Graph(vec![]) }
}

fn binding(n: &str, call_name: &str, args: Vec<Value>, scope: Scope) -> Binding {
    Binding { name: n.to_string(), call_name: call_name.to_string(), args, kwargs: vec![], scope }
}

#[test]
fn snake_case_of_names() {
    assert_eq!(snake_case_impl(&"LayerNorm".to_string()), "layer_norm");
    assert_eq!(snake_case_impl(&"Linear".to_string()), "linear");
    assert_eq!(snake_case_impl(&"GELU".to_string()), "gelu");
    assert_eq!(snake_case_impl(&"MultiHeadAttention".to_string()), "multi_head_attention");
    assert_eq!(snake_case_impl(&"Conv2D".to_string()), "conv2_d");
    assert_eq!(snake_case_impl(&"conv2d".to_string()), "conv2d");
    assert_eq!(snake_case_impl(&"".to_string()), "");
}

#[test]
fn python_text_of_values() {
    assert_eq!(value_to_python_impl(&ival(512)), "512");
    assert_eq!(value_to_python_impl(&ival(-3)), "-3");
    assert_eq!(value_to_python_impl(&ival(i64::MIN)), "-9223372036854775808");
    assert_eq!(value_to_python_impl(&Value::Bool(true)), "True");
    assert_eq!(value_to_python_impl(&Value::Bool(false)), "False");
    assert_eq!(value_to_python_impl(&Value::Str("relu".to_string())), "\"relu\"");
    assert_eq!(value_to_python_impl(&name("dim")), "dim");
    let e = Value::Expr { op: BinOp::Mul, left: Box::new(name("dim")), right: Box::new(ival(4)) };
    assert_eq!(value_to_python_impl(&e), "(dim * 4)");
    let d = Value::Expr { op: BinOp::Div, left: Box::new(name("dim")), right: Box::new(ival(2)) };
    assert_eq!(value_to_python_impl(&d), "(dim // 2)");
}

#[test]
fn kwargs_formatting() {
    assert_eq!(format_kwargs_impl(&[]), "");
    let kw = vec![("dim".to_string(), ival(1)), ("eps".to_string(), name("e"))];
    assert_eq!(format_kwargs_impl(&kw), ", dim=1, eps=e");
    let (a, k) = extract_kwargs(&[ival(10), name("d")], &kw);
    assert_eq!(a, "10, d");
    assert_eq!(k, ", dim=1, eps=e");
    let (a, k) = extract_kwargs(&[], &kw);
    assert_eq!(a, "");
    assert_eq!(k, "dim=1, eps=e");
    let (a, k) = extract_kwargs(&[ival(3)], &[]);
    assert_eq!(a, "3");
    assert_eq!(k, "");
    let (a, k) = extract_kwargs(&[], &[]);
    assert_eq!(a, "");
    assert_eq!(k, "");
}

#[test]
fn call_parts() {
    let c = call("Linear", vec![ival(1), ival(2)], vec![("bias".to_string(), Value::Bool(false))], 3);
    assert_eq!(extract_call_name(&c), "Linear");
    assert_eq!(extract_call_args(&c).len(), 2);
    assert_eq!(extract_call_kwargs(&c).len(), 1);
    assert_eq!(endpoint_key_impl(&c), "Linear(1, 2, bias=False)");
    let r = node("x");
    assert_eq!(extract_call_name(&r), "");
    assert!(extract_call_args(&r).is_empty());
    assert!(extract_call_kwargs(&r).is_empty());
    assert_eq!(endpoint_key_impl(&r), "");
}

#[test]
fn captured_dimensions() {
    let params = vec!["dim".to_string()];
    assert!(!has_captured_dimensions_impl(&name("dim"), &params));
    assert!(has_captured_dimensions_impl(&name("d"), &params));
    assert!(!has_captured_dimensions_impl(&ival(3), &params));
    let e = Value::Expr { op: BinOp::Add, left: Box::new(name("dim")), right: Box::new(name("d")) };
    assert!(has_captured_dimensions_impl(&e, &params));
}

#[test]
fn empty_init_writes_pass() {
    let p = Program { uses: vec![], neurons: vec![] };
    let mut gen = CodeGenerator::new(&p, vec![]);
    let mut out = String::new();
    generate_module_instantiations(&mut gen, &mut out, &[], &[]).unwrap();
    assert_eq!(out, "        pass\n");
    assert_eq!(gen.node_counter, 0);
}

#[test]
fn global_binding_alone_writes_pass() {
    let p = Program { uses: vec![], neurons: vec![] };
    let mut gen = CodeGenerator::new(&p, vec![]);
    let mut out = String::new();
    let b = vec![binding("enc", "Encoder", vec![], Scope::Global)];
    generate_module_instantiations(&mut gen, &mut out, &b, &[]).unwrap();
    assert_eq!(out, "        pass\n");
    assert_eq!(gen.var_names.get(&"enc".to_string()), Some(&"Encoder".to_string()));
}

#[test]
fn bindings_by_scope() {
    let p = Program { uses: vec![], neurons: vec![primitive("Linear"), composite("Block")] };
    let mut gen = CodeGenerator::new(&p, vec!["dim".to_string()]);
    let mut out = String::new();
    let bindings = vec![
        binding("shared", "Linear", vec![ival(4), ival(4)], Scope::Static),
        binding("proj", "Linear", vec![name("dim"), ival(8)], Scope::Instance { lazy: false }),
        binding("late", "Block", vec![name("dim")], Scope::Instance { lazy: true }),
    ];
    generate_module_instantiations(&mut gen, &mut out, &bindings, &[]).unwrap();
    assert_eq!(
        out,
        "        if not hasattr(self.__class__, 'shared'):\n            self.__class__.shared = Linear(4, 4)\n        self.proj = Linear(dim, 8)\n        self._late = None  # Lazy instantiation (@lazy)\n"
    );
    assert_eq!(gen.var_names.get(&"shared".to_string()), Some(&"self.__class__.shared".to_string()));
    assert_eq!(gen.var_names.get(&"proj".to_string()), Some(&"self.proj".to_string()));
    assert_eq!(gen.var_names.get(&"late".to_string()), Some(&"self._late".to_string()));
    let lazy = gen.lazy_bindings.get(&"late".to_string()).unwrap();
    assert_eq!(lazy.0, "Block");
    assert_eq!(lazy.1.len(), 1);
    assert!(gen.used_primitives.contains(&"Linear".to_string()));
    assert!(!gen.used_primitives.contains(&"Block".to_string()));
}

#[test]
fn calls_are_shared_sorted_and_counted() {
    let p = Program { uses: vec![], neurons: vec![primitive("Linear"), composite("MLP")] };
    let mut gen = CodeGenerator::new(&p, vec!["dim".to_string()]);
    let mut out = String::new();
    let conns = vec![
        conn(node("in"), call("MLP", vec![name("dim")], vec![], 1)),
        conn(call("MLP", vec![name("dim")], vec![], 1), call("Linear", vec![ival(4), ival(2)], vec![], 2)),
        conn(call("Linear", vec![ival(4), ival(2)], vec![], 2), call("Linear", vec![ival(4), ival(2)], vec![], 3)),
        conn(call("Linear", vec![ival(4), ival(2)], vec![], 3), node("out")),
    ];
    generate_module_instantiations(&mut gen, &mut out, &[], &conns).unwrap();
    // MLP(dim) gets id 0, Linear(4, 2) id 1; the second Linear(4, 2) shares its module.
    assert_eq!(out, "        self.linear_1 = Linear(4, 2)\n        self.mlp_0 = MLP(dim)\n");
    assert_eq!(gen.node_counter, 2);
    assert_eq!(gen.call_to_module.get(&"Linear(4, 2)".to_string()), Some(&"linear_1".to_string()));
    assert_eq!(gen.call_to_module.get(&"MLP(dim)".to_string()), Some(&"mlp_0".to_string()));
    assert!(gen.used_primitives.contains(&"Linear".to_string()));
    assert!(!gen.used_primitives.contains(&"MLP".to_string()));
}

#[test]
fn modules_sorted_by_name_text() {
    let p = Program { uses: vec![], neurons: vec![] };
    let mut gen = CodeGenerator::new(&p, vec![]);
    gen.node_counter = 9;
    let mut out = String::new();
    let conns = vec![
        conn(call("Linear", vec![ival(1)], vec![], 1), call("Linear", vec![ival(2)], vec![], 2)),
    ];
    generate_module_instantiations(&mut gen, &mut out, &[], &conns).unwrap();
    // ids 9 and 10: "linear_10" sorts before "linear_9".
    assert_eq!(out, "        self.linear_10 = Linear(2)\n        self.linear_9 = Linear(1)\n");
    // A name the program does not define counts as a primitive.
    assert!(gen.used_primitives.contains(&"Linear".to_string()));
}

#[test]
fn captured_calls_are_lazy() {
    let p = Program { uses: vec![], neurons: vec![primitive("Linear")] };
    let mut gen = CodeGenerator::new(&p, vec!["dim".to_string()]);
    let mut out = String::new();
    let conns = vec![conn(node("in"), call("Linear", vec![name("d"), ival(512)], vec![], 5))];
    generate_module_instantiations(&mut gen, &mut out, &[], &conns).unwrap();
    assert_eq!(out, "        self._linear_0 = None  # Lazy instantiation (captured)\n");
    assert!(!gen.used_primitives.contains(&"Linear".to_string()));
}

#[test]
fn output_is_appended() {
    let p = Program { uses: vec![], neurons: vec![] };
    let mut gen = CodeGenerator::new(&p, vec![]);
    let mut out = "    def __init__(self):\n".to_string();
    let conns = vec![conn(node("in"), call("Identity", vec![], vec![("inplace".to_string(), Value::Bool(true))], 1))];
    generate_module_instantiations(&mut gen, &mut out, &[], &conns).unwrap();
    assert_eq!(out, "    def __init__(self):\n        self.identity_0 = Identity(inplace=True)\n");
}

#[test]
fn keyword_only_binding_has_no_leading_comma() {
    let p = Program { uses: vec![], neurons: vec![] };
    let mut gen = CodeGenerator::new(&p, vec![]);
    let mut out = String::new();
    let b = Binding {
        name: "m".to_string(),
        call_name: "Foo".to_string(),
        args: vec![],
        kwargs: vec![("dim".to_string(), ival(1))],
        scope: Scope::Instance { lazy: false },
    };
    generate_module_instantiations(&mut gen, &mut out, &[b], &[]).unwrap();
    assert_eq!(out, "        self.m = Foo(dim=1)\n");
}

#[test]
fn keyword_only_call_key() {
    let c = call("Foo", vec![], vec![("dim".to_string(), ival(1))], 4);
    assert_eq!(endpoint_key_impl(&c), "Foo(dim=1)");
}

fn arm(dims: Vec<Dim>, pipeline: Vec<Endpoint>) -> MatchArm {
    MatchArm { pattern: Shape { dims }, guard: None, pipeline }
}

#[test]
fn match_arm_calls_get_modules() {
    let p = Program { uses: vec![], neurons: vec![] };
    let mut gen = CodeGenerator::new(&p, vec![]);
    let mut out = String::new();
    let m = Endpoint::Match(MatchExpr {
        arms: vec![
            arm(vec![Dim::Wildcard, Dim::Literal(512)], vec![call("Identity", vec![], vec![], 1), node("out")]),
            arm(
                vec![Dim::Wildcard, Dim::Named("d".to_string())],
                vec![call("Linear", vec![name("d"), ival(512)], vec![], 2), node("out")],
            ),
        ],
    });
    let conns = vec![conn(node("in"), m)];
    generate_module_instantiations(&mut gen, &mut out, &[], &conns).unwrap();
    assert_eq!(
        out,
        "        self.identity_0 = Identity()\n        self._linear_1 = None  # Lazy instantiation (captured)\n"
    );
}

#[test]
fn nested_match_calls_are_collected_in_order() {
    let inner = Endpoint::Match(MatchExpr {
        arms: vec![arm(vec![Dim::Literal(3)], vec![call("Relu", vec![], vec![], 7)])],
    });
    let outer = Endpoint::Match(MatchExpr {
        arms: vec![
            arm(vec![Dim::Wildcard], vec![call("Linear", vec![ival(4)], vec![], 5), inner]),
            arm(vec![Dim::Wildcard], vec![call("Dropout", vec![], vec![], 6)]),
        ],
    });
    let conns = vec![conn(node("in"), outer), conn(node("x"), call("Tanh", vec![], vec![], 8))];
    let mut found = Vec::new();
    collect_calls_impl(&conns, &mut found);
    let keys: Vec<String> = found.iter().map(endpoint_key_impl).collect();
    assert_eq!(keys, vec!["Linear(4)", "Relu()", "Dropout()", "Tanh()"]);
    let ids: Vec<usize> = found
        .iter()
        .map(|e| match e {
            Endpoint::Call { id, .. } => *id,
            _ => 0,
        })
        .collect();
    assert_eq!(ids, vec![5, 7, 6, 8]);
}
