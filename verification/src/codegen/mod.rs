//! Generation of PyTorch modules from neuron definitions.
use vstd::prelude::*;
use crate::codegen::utils::{names_model, CallSig};
use crate::ir::{kwargs_model, values_model, Kwarg, NeuronDef, Program, Value};
use crate::name_map::{NameMap, NameSet};

pub mod instantiation;
pub mod laws;
pub mod utils;

verus! {

/// The state of the generator while it writes the class of one neuron.
pub struct CodeGenerator<'a> {
    /// The program being compiled.
    pub program: &'a Program,
    /// Names of the primitive neurons the generated code uses.
    pub used_primitives: NameSet,
    /// Binding names and the Python expressions that refer to them.
    pub var_names: NameMap<String>,
    /// Lazily built bindings: the call to make on first use.
    pub lazy_bindings: NameMap<(String, Vec<Value>, Vec<Kwarg>)>,
    /// Call keys and the attribute names of their modules.
    pub call_to_module: NameMap<String>,
    /// Parameter names of the neuron being generated.
    pub current_neuron_params: Vec<String>,
    /// The next node id to hand out.
    pub node_counter: usize,
}

/// The mathematical value of a [`CodeGenerator`].
pub struct GenModel {
    pub neurons: Seq<NeuronDef>,
    pub primitives: Set<Seq<char>>,
    pub var_names: Map<Seq<char>, Seq<char>>,
    pub lazy: Map<Seq<char>, CallSig>,
    pub call_to_module: Map<Seq<char>, Seq<char>>,
    pub params: Seq<Seq<char>>,
    pub counter: nat,
}

impl<'a> View for CodeGenerator<'a> {
    type V = GenModel;

    open spec fn view(&self) -> GenModel {
        GenModel {
            neurons: self.program.neurons@,
            primitives: self.used_primitives@,
            var_names: self.var_names@.map_values(|s: String| s@),
            lazy: self.lazy_bindings@.map_values(
                |t: (String, Vec<Value>, Vec<Kwarg>)|
                    (t.0@, values_model(t.1@), kwargs_model(t.2@)),
            ),
            call_to_module: self.call_to_module@.map_values(|s: String| s@),
            params: names_model(self.current_neuron_params@),
            counter: self.node_counter as nat,
        }
    }
}

impl<'a> CodeGenerator<'a> {
    /// A generator for `program`, for a neuron with the given parameters.
    pub fn new(program: &'a Program, params: Vec<String>) -> (g: Self)
        ensures
            g@.neurons == program.neurons@,
            g@.primitives == Set::<Seq<char>>::empty(),
            g@.var_names == Map::<Seq<char>, Seq<char>>::empty(),
            g@.lazy == Map::<Seq<char>, CallSig>::empty(),
            g@.call_to_module == Map::<Seq<char>, Seq<char>>::empty(),
            g@.params == names_model(params@),
            g@.counter == 0,
    {
        let g = CodeGenerator {
            program,
            used_primitives: NameSet::new(),
            var_names: NameMap::new(),
            lazy_bindings: NameMap::new(),
            call_to_module: NameMap::new(),
            current_neuron_params: params,
            node_counter: 0,
        };
        assert(g@.var_names =~= Map::<Seq<char>, Seq<char>>::empty());
        assert(g@.lazy =~= Map::<Seq<char>, CallSig>::empty());
        assert(g@.call_to_module =~= Map::<Seq<char>, Seq<char>>::empty());
        g
    }

    /// Hands out the next node id.
    pub fn next_node_id(&mut self) -> (id: usize)
        requires
            old(self).node_counter < usize::MAX,
        ensures
            id == old(self).node_counter,
            final(self)@ == (GenModel { counter: old(self)@.counter + 1, ..old(self)@ }),
    {
        let id = self.node_counter;
        self.node_counter = self.node_counter + 1;
        id
    }
}

} // verus!
