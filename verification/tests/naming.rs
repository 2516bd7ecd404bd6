use neuroscript::ir::{ImplRef, NeuronBody, NeuronDef, Program};
use neuroscript::naming::{infer_neuron_name, pascal_case_name};

fn neuron(n: &str) -> NeuronDef {
    NeuronDef {
        name: n.to_string(),
        params: vec![],
        inputs: vec![],
        outputs: vec![],
        body: NeuronBody::Primitive(ImplRef { source: "core".to_string(), path: n.to_string() }),
    }
}

#[test]
fn pascal_case_of_stems() {
    assert_eq!(pascal_case_name(&"my_model".to_string()), "MyModel");
    assert_eq!(pascal_case_name(&"multi-head_attn".to_string()), "MultiHeadAttn");
    assert_eq!(pascal_case_name(&"xor".to_string()), "Xor");
    assert_eq!(pascal_case_name(&"__a--b_".to_string()), "AB");
    assert_eq!(pascal_case_name(&"MLP".to_string()), "MLP");
    assert_eq!(pascal_case_name(&"".to_string()), "");
}

#[test]
fn pascal_case_uses_unicode_upper_case() {
    assert_eq!(pascal_case_name(&"ärger".to_string()), "Ärger");
    assert_eq!(pascal_case_name(&"straße_ßig".to_string()), "StraßeSSig");
}

#[test]
fn neuron_named_after_file() {
    let p = Program { uses: vec![], neurons: vec![neuron("MyModel"), neuron("Other")] };
    assert_eq!(infer_neuron_name(&"my_model".to_string(), &p), Some("MyModel".to_string()));
    assert_eq!(infer_neuron_name(&"missing".to_string(), &p), None);
}
