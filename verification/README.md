# NeuroScript

NeuroScript is a language for composing neural architectures out of
neurons: a neuron has typed input and output ports with tensor shapes such
as `[*, dim]`, and is either a primitive or a graph of connections between
other neurons.

This crate is verified with Verus. Its modules:

- `ir`: the program representation (dimensions, shapes, values, neurons,
  connections) and the mathematical views the contracts speak of.
- `shape_inference`: unification of dimension variables along the
  connections of each neuron graph, with exact contracts over a model of the
  inference context. Names unified while both are unbound join one class of
  equivalent names, and binding any name of a class binds all of them;
  `shape_laws` proves properties of unification (among them that unified
  names stay equal through every later unification) and of whole-program
  inference.
- `codegen`: the module instantiations of a generated PyTorch `__init__`
  (`codegen::instantiation`), one module per distinct call, calls inside
  the arms of match blocks included, and the helpers it uses
  (`codegen::utils`);
  `codegen::laws` proves the order of the modules and the sharing of one
  module among equal calls.
- `naming`: the neuron a source file compiles to by default.
- `listing`: the neuron listing of the `list` command and the summary
  after a compilation, line by line; connections are left for the caller
  to show in their debug form.
- `text`, `name_map`: textual forms used in messages, and finite maps keyed
  by names.

`app/` holds a copy of the shape error type that implements
`std::error::Error`, takes the default neuron's name from a file path, and
renders the listings, for tools that report them.
