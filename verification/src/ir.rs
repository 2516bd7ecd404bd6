//! Intermediate representation of NeuroScript programs.
use vstd::prelude::*;

verus! {

/// Binary operators of dimension expressions and guards.
#[derive(Clone, Copy, Debug)]
pub enum BinOp {
    Add,
    Sub,
    Mul,
    Div,
    Eq,
    Ne,
    Lt,
    Le,
    Gt,
    Ge,
}

/// One dimension of a tensor shape: `512`, `dim`, `*`, `*shape` or `dim * 4`.
#[derive(Debug)]
pub enum Dim {
    Literal(usize),
    Named(String),
    Wildcard,
    Variadic(String),
    Expr(Box<DimExpr>),
}

/// A binary expression over dimensions, such as `dim * 4`.
#[derive(Debug)]
pub struct DimExpr {
    pub left: Dim,
    pub op: BinOp,
    pub right: Dim,
}

/// The mathematical value of a dimension: names become character sequences.
pub enum SpecDim {
    Literal(usize),
    Named(Seq<char>),
    Wildcard,
    Variadic(Seq<char>),
    Expr(BinOp, Box<SpecDim>, Box<SpecDim>),
}

pub open spec fn dim_model(d: Dim) -> SpecDim
    decreases d,
{
    match d {
        Dim::Literal(n) => SpecDim::Literal(n),
        Dim::Named(s) => SpecDim::Named(s@),
        Dim::Wildcard => SpecDim::Wildcard,
        Dim::Variadic(s) => SpecDim::Variadic(s@),
        Dim::Expr(e) => SpecDim::Expr(
            e.op,
            Box::new(dim_model(e.left)),
            Box::new(dim_model(e.right)),
        ),
    }
}

impl View for Dim {
    type V = SpecDim;

    open spec fn view(&self) -> SpecDim {
        dim_model(*self)
    }
}

impl Clone for Dim {
    fn clone(&self) -> (res: Self)
        ensures
            res@ == self@,
        decreases self,
    {
        match self {
            Dim::Literal(n) => Dim::Literal(*n),
            Dim::Named(s) => Dim::Named(s.clone()),
            Dim::Wildcard => Dim::Wildcard,
            Dim::Variadic(s) => Dim::Variadic(s.clone()),
            Dim::Expr(e) => {
                let left = e.left.clone();
                let right = e.right.clone();
                Dim::Expr(Box::new(DimExpr { left, op: e.op, right }))
            },
        }
    }
}

/// A tensor shape: a list of dimensions such as `[*, dim]`.
#[derive(Debug)]
pub struct Shape {
    pub dims: Vec<Dim>,
}

/// The mathematical value of a shape.
pub open spec fn shape_model(s: Shape) -> Seq<SpecDim> {
    s.dims@.map_values(|d: Dim| d@)
}

impl View for Shape {
    type V = Seq<SpecDim>;

    open spec fn view(&self) -> Seq<SpecDim> {
        shape_model(*self)
    }
}

/// The mathematical value of a list of shapes.
pub open spec fn shapes_model(v: Seq<Shape>) -> Seq<Seq<SpecDim>> {
    v.map_values(|s: Shape| s@)
}

impl Shape {
    pub fn new(dims: Vec<Dim>) -> (s: Shape)
        ensures
            s.dims == dims,
    {
        Shape { dims }
    }
}

impl Clone for Shape {
    fn clone(&self) -> (res: Self)
        ensures
            res@ == self@,
    {
        let mut dims: Vec<Dim> = Vec::new();
        let n = self.dims.len();
        for i in 0..n
            invariant
                n == self.dims@.len(),
                dims@.len() == i,
                forall|j: int| 0 <= j < i ==> #[trigger] dims@[j]@ == self.dims@[j]@,
        {
            dims.push(self.dims[i].clone());
        }
        let res = Shape { dims };
        assert(res@ =~= self@);
        res
    }
}

/// Copies a list of shapes.
pub fn clone_shapes(v: &Vec<Shape>) -> (res: Vec<Shape>)
    ensures
        shapes_model(res@) == shapes_model(v@),
{
    let mut out: Vec<Shape> = Vec::new();
    let n = v.len();
    for i in 0..n
        invariant
            n == v@.len(),
            out@.len() == i,
            forall|j: int| 0 <= j < i ==> #[trigger] out@[j]@ == v@[j]@,
    {
        out.push(v[i].clone());
    }
    assert(shapes_model(out@) =~= shapes_model(v@));
    out
}

/// A literal or symbolic value: an argument of a call or a parameter default.
#[derive(Debug)]
pub enum Value {
    Int(i64),
    Bool(bool),
    Str(String),
    Name(String),
    Expr { op: BinOp, left: Box<Value>, right: Box<Value> },
}

/// The mathematical value of a [`Value`].
pub enum SpecValue {
    Int(i64),
    Bool(bool),
    Str(Seq<char>),
    Name(Seq<char>),
    Expr(BinOp, Box<SpecValue>, Box<SpecValue>),
}

pub open spec fn value_model(v: Value) -> SpecValue
    decreases v,
{
    match v {
        Value::Int(n) => SpecValue::Int(n),
        Value::Bool(b) => SpecValue::Bool(b),
        Value::Str(s) => SpecValue::Str(s@),
        Value::Name(s) => SpecValue::Name(s@),
        Value::Expr { op, left, right } => SpecValue::Expr(
            op,
            Box::new(value_model(*left)),
            Box::new(value_model(*right)),
        ),
    }
}

impl View for Value {
    type V = SpecValue;

    open spec fn view(&self) -> SpecValue {
        value_model(*self)
    }
}

impl Clone for Value {
    fn clone(&self) -> (res: Self)
        ensures
            res@ == self@,
        decreases self,
    {
        match self {
            Value::Int(n) => Value::Int(*n),
            Value::Bool(b) => Value::Bool(*b),
            Value::Str(s) => Value::Str(s.clone()),
            Value::Name(s) => Value::Name(s.clone()),
            Value::Expr { op, left, right } => {
                let l = (**left).clone();
                let r = (**right).clone();
                Value::Expr { op: *op, left: Box::new(l), right: Box::new(r) }
            },
        }
    }
}

/// A keyword argument of a call: `name=value`.
pub type Kwarg = (String, Value);

/// The mathematical value of a list of values.
pub open spec fn values_model(v: Seq<Value>) -> Seq<SpecValue> {
    v.map_values(|x: Value| x@)
}

/// The mathematical value of a list of keyword arguments.
pub open spec fn kwargs_model(v: Seq<Kwarg>) -> Seq<(Seq<char>, SpecValue)> {
    v.map_values(|kw: Kwarg| (kw.0@, kw.1@))
}

/// Copies a list of values.
pub fn clone_values(v: &Vec<Value>) -> (res: Vec<Value>)
    ensures
        values_model(res@) == values_model(v@),
{
    let mut out: Vec<Value> = Vec::new();
    let n = v.len();
    for i in 0..n
        invariant
            n == v@.len(),
            out@.len() == i,
            forall|j: int| 0 <= j < i ==> #[trigger] out@[j]@ == v@[j]@,
    {
        out.push(v[i].clone());
    }
    assert(values_model(out@) =~= values_model(v@));
    out
}

/// Copies a list of keyword arguments.
pub fn clone_kwargs(v: &Vec<Kwarg>) -> (res: Vec<Kwarg>)
    ensures
        kwargs_model(res@) == kwargs_model(v@),
{
    let mut out: Vec<Kwarg> = Vec::new();
    let n = v.len();
    for i in 0..n
        invariant
            n == v@.len(),
            out@.len() == i,
            forall|j: int|
                0 <= j < i ==> (#[trigger] out@[j]).0@ == v@[j].0@ && out@[j].1@ == v@[j].1@,
    {
        out.push((v[i].0.clone(), v[i].1.clone()));
    }
    assert(kwargs_model(out@) =~= kwargs_model(v@));
    out
}

/// A parameter of a neuron, with its optional default value.
#[derive(Debug)]
pub struct Param {
    pub name: String,
    pub default: Option<Value>,
}

/// An input or output port of a neuron.
#[derive(Debug)]
pub struct Port {
    pub name: String,
    pub shape: Shape,
}

/// The implementation a primitive neuron refers to, as in `impl: core,nn/Linear`.
#[derive(Debug)]
pub struct ImplRef {
    pub source: String,
    pub path: String,
}

/// A reference to a node, or to one of its ports, as in `fork.left`.
#[derive(Debug)]
pub struct PortRef {
    pub node: String,
    pub port: String,
}

/// One end of a connection in a neuron graph.
#[derive(Debug)]
pub enum Endpoint {
    Ref(PortRef),
    Tuple(Vec<PortRef>),
    Call { name: String, args: Vec<Value>, kwargs: Vec<Kwarg>, id: usize },
    Match(MatchExpr),
}

/// A shape-dispatching `match:` block.
#[derive(Debug)]
pub struct MatchExpr {
    pub arms: Vec<MatchArm>,
}

/// One arm of a `match:` block: a shape pattern, an optional guard and a pipeline.
#[derive(Debug)]
pub struct MatchArm {
    pub pattern: Shape,
    pub guard: Option<Value>,
    pub pipeline: Vec<Endpoint>,
}

/// A directed connection `source -> destination` of a neuron graph.
#[derive(Debug)]
pub struct Connection {
    pub source: Endpoint,
    pub destination: Endpoint,
}

/// The body of a neuron: an implementation reference or a graph of connections.
#[derive(Debug)]
pub enum NeuronBody {
    Primitive(ImplRef),
    Graph(Vec<Connection>),
}

/// A neuron definition.
#[derive(Debug)]
pub struct NeuronDef {
    pub name: String,
    pub params: Vec<Param>,
    pub inputs: Vec<Port>,
    pub outputs: Vec<Port>,
    pub body: NeuronBody,
}

impl NeuronDef {
    /// Whether the neuron is implemented outside NeuroScript.
    pub fn is_primitive(&self) -> (r: bool)
        ensures
            r == (self.body is Primitive),
    {
        match &self.body {
            NeuronBody::Primitive(_) => true,
            NeuronBody::Graph(_) => false,
        }
    }
}

/// An import statement such as `use core,nn/*`.
#[derive(Debug)]
pub struct UseStmt {
    pub source: String,
    pub path: Vec<String>,
}

/// A whole program: its imports and its neurons, in declaration order.
/// A well-formed program gives each neuron a name of its own
/// ([`distinct_names`], tested by [`Program::has_distinct_names`]); names
/// are looked up by their first occurrence.
#[derive(Debug)]
pub struct Program {
    pub uses: Vec<UseStmt>,
    pub neurons: Vec<NeuronDef>,
}

/// The first neuron of `neurons` named `name`.
pub open spec fn lookup_neuron(neurons: Seq<NeuronDef>, name: Seq<char>) -> Option<NeuronDef>
    decreases neurons.len(),
{
    if neurons.len() == 0 {
        None
    } else if neurons[0].name@ == name {
        Some(neurons[0])
    } else {
        lookup_neuron(neurons.drop_first(), name)
    }
}

proof fn lemma_lookup_neuron_at(neurons: Seq<NeuronDef>, name: Seq<char>, i: int)
    requires
        0 <= i <= neurons.len(),
        forall|j: int| 0 <= j < i ==> (#[trigger] neurons[j]).name@ != name,
    ensures
        i < neurons.len() && neurons[i].name@ == name ==> lookup_neuron(neurons, name) == Some(
            neurons[i],
        ),
        i == neurons.len() ==> lookup_neuron(neurons, name) is None,
    decreases i,
{
    if i > 0 {
        let t = neurons.drop_first();
        assert forall|j: int| 0 <= j < i - 1 implies (#[trigger] t[j]).name@ != name by {
            assert(t[j] == neurons[j + 1]);
        }
        lemma_lookup_neuron_at(t, name, i - 1);
        if i < neurons.len() {
            assert(t[i - 1] == neurons[i]);
        }
    } else if neurons.len() > 0 {
    }
}

/// No two neurons share a name: a name finds one neuron.
pub open spec fn distinct_names(neurons: Seq<NeuronDef>) -> bool {
    forall|i: int, j: int|
        0 <= i < j < neurons.len() ==> (#[trigger] neurons[i]).name@ != (#[trigger] neurons[j]).name@
}

/// In a program whose neuron names are distinct, each neuron is the one
/// found by its name.
pub proof fn lookup_finds_each_neuron(neurons: Seq<NeuronDef>, i: int)
    requires
        distinct_names(neurons),
        0 <= i < neurons.len(),
    ensures
        lookup_neuron(neurons, neurons[i].name@) == Some(neurons[i]),
{
    assert forall|j: int| 0 <= j < i implies (#[trigger] neurons[j]).name@ != neurons[i].name@ by {
        assert(neurons[j].name@ != neurons[i].name@);
    }
    lemma_lookup_neuron_at(neurons, neurons[i].name@, i);
}

impl Program {
    /// Whether no two neurons of the program share a name.
    pub fn has_distinct_names(&self) -> (r: bool)
        ensures
            r == distinct_names(self.neurons@),
    {
        let n = self.neurons.len();
        for j in 0..n
            invariant
                n == self.neurons@.len(),
                forall|a: int, b: int|
                    0 <= a < b < j ==> (#[trigger] self.neurons@[a]).name@
                        != (#[trigger] self.neurons@[b]).name@,
        {
            for i in 0..j
                invariant
                    n == self.neurons@.len(),
                    j < n,
                    forall|a: int, b: int|
                        0 <= a < b < j ==> (#[trigger] self.neurons@[a]).name@
                            != (#[trigger] self.neurons@[b]).name@,
                    forall|a: int| 0 <= a < i ==> (#[trigger] self.neurons@[a]).name@
                        != self.neurons@[j as int].name@,
            {
                if self.neurons[i].name == self.neurons[j].name {
                    return false;
                }
            }
        }
        true
    }

    /// The neuron named `name`, if the program defines one.
    pub fn get_neuron(&self, name: &String) -> (r: Option<&NeuronDef>)
        ensures
            r is Some <==> lookup_neuron(self.neurons@, name@) is Some,
            r matches Some(nd) ==> lookup_neuron(self.neurons@, name@) == Some(*nd),
    {
        let n = self.neurons.len();
        let mut i: usize = 0;
        while i < n
            invariant
                n == self.neurons@.len(),
                i <= n,
                forall|j: int| 0 <= j < i ==> (#[trigger] self.neurons@[j]).name@ != name@,
            decreases n - i,
        {
            if self.neurons[i].name == *name {
                proof {
                    lemma_lookup_neuron_at(self.neurons@, name@, i as int);
                }
                return Some(&self.neurons[i]);
            }
            i = i + 1;
        }
        proof {
            lemma_lookup_neuron_at(self.neurons@, name@, i as int);
        }
        None
    }
}

} // verus!
