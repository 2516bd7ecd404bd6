use neuroscript::ir::{
    Connection, Dim, Endpoint, ImplRef, NeuronBody, NeuronDef, Port, PortRef, Program, Shape,
};
use neuroscript::listing::{neuron_listing, neuron_summaries, neuron_summary, ListingLine};

fn port(n: &str, dims: Vec<Dim>) -> Port {
    Port { name: n.to_string(), shape: Shape { dims } }
}

fn node(n: &str) -> Endpoint {
    Endpoint::Ref(PortRef { node: n.to_string(), port: "default".to_string() })
}

fn linear() -> NeuronDef {
    NeuronDef {
        name: "Linear".to_string(),
        params: vec![],
        inputs: vec![port("default", vec![Dim::Wildcard, Dim::Named("in_dim".to_string())])],
        outputs: vec![port("default", vec![Dim::Wildcard, Dim::Named("out_dim".to_string())])],
        body: NeuronBody::Primitive(ImplRef { source: "core".to_string(), path: "nn/Linear".to_string() }),
    }
}

fn chain(k: usize) -> NeuronDef {
    let conns = (0..k)
        .map(|i| Connection { source: node(&format!("n{}", i)), destination: node(&format!("n{}", i + 1)) })
        .collect();
    NeuronDef {
        name: "Chain".to_string(),
        params: vec![],
        inputs: vec![port("a", vec![Dim::Literal(2)]), port("b", vec![])],
        outputs: vec![],
        body: NeuronBody::Graph(conns),
    }
}

fn texts(lines: &[ListingLine]) -> Vec<String> {
    lines
        .iter()
        .map(|l| match l {
            ListingLine::Text(t) => t.clone(),
            ListingLine::Connection { neuron, index } => format!("<conn {} {}>", neuron, index),
            ListingLine::Connections { neuron } => format!("<conns {}>", neuron),
        })
        .collect()
}

#[test]
fn summary_of_a_neuron() {
    assert_eq!(
        neuron_summary(&linear(), "inputs:  ", "outputs: "),
        "  Linear (primitive)\n    inputs:  default: [*, in_dim]\n    outputs: default: [*, out_dim]"
    );
    assert_eq!(
        neuron_summary(&chain(0), "in:  ", "out: "),
        "  Chain (composite)\n    in:  a: [2], b: []\n    out: "
    );
}

#[test]
fn listing_of_no_neurons() {
    let p = Program { uses: vec![], neurons: vec![] };
    assert_eq!(texts(&neuron_listing(&p, "x.ns", true)), vec!["No neurons found in x.ns"]);
}

#[test]
fn listing_shows_three_connections_and_counts_the_rest() {
    let p = Program { uses: vec![], neurons: vec![linear(), chain(5)] };
    let lines = neuron_listing(&p, "m.ns", true);
    let expected = vec![
        "Neurons in m.ns (2 total):".to_string(),
        String::new(),
        neuron_summary(&linear(), "inputs:  ", "outputs: "),
        String::new(),
        neuron_summary(&chain(5), "inputs:  ", "outputs: "),
        "    connections: 5 ".to_string(),
        "<conn 1 0>".to_string(),
        "<conn 1 1>".to_string(),
        "<conn 1 2>".to_string(),
        "      ... and 2 more".to_string(),
        String::new(),
    ];
    assert_eq!(texts(&lines), expected);
}

#[test]
fn listing_without_more_line_at_three() {
    let p = Program { uses: vec![], neurons: vec![chain(3)] };
    let t = texts(&neuron_listing(&p, "c.ns", true));
    assert_eq!(&t[3..], &["    connections: 3 ", "<conn 0 0>", "<conn 0 1>", "<conn 0 2>", ""]);
    let quiet = texts(&neuron_listing(&p, "c.ns", false));
    assert_eq!(quiet.len(), 4);
}

#[test]
fn summaries_after_compilation() {
    let p = Program { uses: vec![], neurons: vec![linear(), chain(1)] };
    assert_eq!(
        texts(&neuron_summaries(&p, true)),
        vec![
            neuron_summary(&linear(), "in:  ", "out: "),
            String::new(),
            neuron_summary(&chain(1), "in:  ", "out: "),
            "<conns 1>".to_string(),
            String::new(),
        ]
    );
    assert_eq!(neuron_summaries(&p, false).len(), 4);
}

#[test]
fn distinct_names_are_checked() {
    let p = Program { uses: vec![], neurons: vec![linear(), chain(1)] };
    assert!(p.has_distinct_names());
    let q = Program { uses: vec![], neurons: vec![linear(), chain(1), linear()] };
    assert!(!q.has_distinct_names());
}
