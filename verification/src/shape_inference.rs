//! Shape inference: unification of dimension variables along the
//! connections of a neuron graph.
use std::collections::HashMap;
use vstd::prelude::*;
use vstd::string::*;
use crate::ir::{
    clone_shapes, lookup_neuron, shapes_model, BinOp, Connection, Dim, DimExpr, Endpoint,
    NeuronBody, NeuronDef, Port, PortRef, Program, Shape, SpecDim, Value,
};
use crate::name_map::{key_views, name_views, NameMap};
use crate::text::{decimal, dim_text, push_decimal, push_dim, push_shape, shape_text};

verus! {

broadcast use vstd::std_specs::hash::group_hash_axioms;

// ---------------------------------------------------------------------------
// Errors
// ---------------------------------------------------------------------------

/// An error found while checking the shapes of a neuron graph.
#[derive(Debug)]
#[allow(inconsistent_fields)]
pub enum ShapeError {
    Mismatch { expected: Shape, got: Shape, context: String },
    DimMismatch { expected: Dim, got: Dim, context: String },
    UnknownDim { name: String, context: String },
    ConstraintViolation { message: String, context: String },
    NodeInferenceFailed { node: String, message: String },
    UnknownNode(String),
}

/// The mathematical value of a [`ShapeError`].
#[allow(inconsistent_fields)]
pub enum SpecShapeError {
    Mismatch { expected: Seq<SpecDim>, got: Seq<SpecDim>, context: Seq<char> },
    DimMismatch { expected: SpecDim, got: SpecDim, context: Seq<char> },
    UnknownDim { name: Seq<char>, context: Seq<char> },
    ConstraintViolation { message: Seq<char>, context: Seq<char> },
    NodeInferenceFailed { node: Seq<char>, message: Seq<char> },
    UnknownNode(Seq<char>),
}

impl View for ShapeError {
    type V = SpecShapeError;

    open spec fn view(&self) -> SpecShapeError {
        match *self {
            ShapeError::Mismatch { expected, got, context } => SpecShapeError::Mismatch {
                expected: expected@,
                got: got@,
                context: context@,
            },
            ShapeError::DimMismatch { expected, got, context } => SpecShapeError::DimMismatch {
                expected: expected@,
                got: got@,
                context: context@,
            },
            ShapeError::UnknownDim { name, context } => SpecShapeError::UnknownDim {
                name: name@,
                context: context@,
            },
            ShapeError::ConstraintViolation { message, context } =>
                SpecShapeError::ConstraintViolation { message: message@, context: context@ },
            ShapeError::NodeInferenceFailed { node, message } =>
                SpecShapeError::NodeInferenceFailed { node: node@, message: message@ },
            ShapeError::UnknownNode(n) => SpecShapeError::UnknownNode(n@),
        }
    }
}

/// The message of an error, as it is shown to users.
pub open spec fn error_text(e: SpecShapeError) -> Seq<char> {
    match e {
        SpecShapeError::Mismatch { expected, got, .. } => "Shape mismatch: expected "@
            + shape_text(expected) + ", got "@ + shape_text(got),
        SpecShapeError::DimMismatch { expected, got, .. } => "Dimension mismatch: expected "@
            + dim_text(expected) + ", got "@ + dim_text(got),
        SpecShapeError::UnknownDim { name, .. } => "Unknown dimension variable: "@ + name,
        SpecShapeError::ConstraintViolation { message, .. } => "Constraint violation: "@
            + message,
        SpecShapeError::NodeInferenceFailed { node, message } => "Inference failed for node "@
            + node + ": "@ + message,
        SpecShapeError::UnknownNode(n) => "Unknown node or port: "@ + n,
    }
}

impl ShapeError {
    /// The message of the error, as it is shown to users.
    pub fn message(&self) -> (s: String)
        ensures
            s@ == error_text(self@),
    {
        match self {
            ShapeError::Mismatch { expected, got, .. } => {
                let mut s = String::from_str("Shape mismatch: expected ");
                push_shape(&mut s, expected);
                s.append(", got ");
                push_shape(&mut s, got);
                s
            },
            ShapeError::DimMismatch { expected, got, .. } => {
                let mut s = String::from_str("Dimension mismatch: expected ");
                push_dim(&mut s, expected);
                s.append(", got ");
                push_dim(&mut s, got);
                s
            },
            ShapeError::UnknownDim { name, .. } => {
                let mut s = String::from_str("Unknown dimension variable: ");
                s.append(name.as_str());
                s
            },
            ShapeError::ConstraintViolation { message, .. } => {
                let mut s = String::from_str("Constraint violation: ");
                s.append(message.as_str());
                s
            },
            ShapeError::NodeInferenceFailed { node, message } => {
                let mut s = String::from_str("Inference failed for node ");
                s.append(node.as_str());
                s.append(": ");
                s.append(message.as_str());
                s
            },
            ShapeError::UnknownNode(n) => {
                let mut s = String::from_str("Unknown node or port: ");
                s.append(n.as_str());
                s
            },
        }
    }
}

/// The mathematical value of the outcome of a check.
pub open spec fn outcome(r: Result<(), ShapeError>) -> Result<(), SpecShapeError> {
    match r {
        Ok(_) => Ok(()),
        Err(e) => Err(e@),
    }
}

/// The mathematical value of a unification outcome.
pub open spec fn text_outcome(r: Result<(), String>) -> Result<(), Seq<char>> {
    match r {
        Ok(_) => Ok(()),
        Err(s) => Err(s@),
    }
}

/// The mathematical value of a list of errors.
pub open spec fn errors_model(es: Seq<ShapeError>) -> Seq<SpecShapeError> {
    es.map_values(|e: ShapeError| e@)
}

// ---------------------------------------------------------------------------
// Inference context
// ---------------------------------------------------------------------------

/// Tracks the state of dimension variables during inference.
pub struct InferenceContext {
    /// Dimension names and the values they are bound to.
    pub resolved_dims: NameMap<usize>,
    /// Names unified while both were unbound, each with the representative
    /// of its class of equivalent names; a representative is a name that is
    /// not itself a key. Binding any name of a class binds the whole class.
    pub equivalences: NameMap<String>,
    /// Named nodes (`in`, `x`, ...) and their output shapes.
    pub node_outputs: NameMap<Vec<Shape>>,
    /// Anonymous calls, by id, and their output shapes.
    pub call_outputs: HashMap<usize, Vec<Shape>>,
}

/// The mathematical value of an [`InferenceContext`].
pub struct ContextModel {
    pub dims: Map<Seq<char>, usize>,
    pub equivalences: Map<Seq<char>, Seq<char>>,
    pub nodes: Map<Seq<char>, Seq<Seq<SpecDim>>>,
    pub calls: Map<usize, Seq<Seq<SpecDim>>>,
}

impl ContextModel {
    /// The empty context.
    pub open spec fn empty() -> ContextModel {
        ContextModel {
            dims: Map::empty(),
            equivalences: Map::empty(),
            nodes: Map::empty(),
            calls: Map::empty(),
        }
    }

    /// This context with its dimension bindings replaced.
    pub open spec fn with_dims(self, dims: Map<Seq<char>, usize>) -> ContextModel {
        ContextModel { dims, ..self }
    }

    /// This context with its equivalences replaced.
    pub open spec fn with_equivalences(self, equivalences: Map<Seq<char>, Seq<char>>) -> ContextModel {
        ContextModel { equivalences, ..self }
    }

    /// This context with its node table replaced.
    pub open spec fn with_nodes(self, nodes: Map<Seq<char>, Seq<Seq<SpecDim>>>) -> ContextModel {
        ContextModel { nodes, ..self }
    }

    /// This context with its call table replaced.
    pub open spec fn with_calls(self, calls: Map<usize, Seq<Seq<SpecDim>>>) -> ContextModel {
        ContextModel { calls, ..self }
    }
}

impl View for InferenceContext {
    type V = ContextModel;

    open spec fn view(&self) -> ContextModel {
        ContextModel {
            dims: self.resolved_dims@,
            equivalences: name_views(self.equivalences@),
            nodes: self.node_outputs@.map_values(|v: Vec<Shape>| shapes_model(v@)),
            calls: self.call_outputs@.map_values(|v: Vec<Shape>| shapes_model(v@)),
        }
    }
}

// ---------------------------------------------------------------------------
// Evaluation of dimensions
// ---------------------------------------------------------------------------

/// The value of a dimension under the bindings `dims`, where it has one.
pub open spec fn eval_dim(dims: Map<Seq<char>, usize>, d: SpecDim) -> Option<int>
    decreases d,
{
    match d {
        SpecDim::Literal(n) => Some(n as int),
        SpecDim::Named(x) => if dims.contains_key(x) {
            Some(dims[x] as int)
        } else {
            None
        },
        SpecDim::Expr(op, l, r) => match eval_dim(dims, *l) {
            None => None,
            Some(a) => match eval_dim(dims, *r) {
                None => None,
                Some(b) => match op {
                    BinOp::Add => Some(a + b),
                    BinOp::Sub => if a >= b {
                        Some(a - b)
                    } else {
                        None
                    },
                    BinOp::Mul => Some(a * b),
                    BinOp::Div => Some(a / b),
                    _ => None,
                },
            },
        },
        _ => None,
    }
}

/// Evaluating `d` under `dims` overflows no machine integer and divides by no zero.
pub open spec fn eval_defined(dims: Map<Seq<char>, usize>, d: SpecDim) -> bool
    decreases d,
{
    match d {
        SpecDim::Expr(op, l, r) => eval_defined(dims, *l) && (eval_dim(dims, *l) is Some ==> {
            &&& eval_defined(dims, *r)
            &&& eval_dim(dims, *r) is Some ==> {
                let a = eval_dim(dims, *l).unwrap();
                let b = eval_dim(dims, *r).unwrap();
                match op {
                    BinOp::Add => a + b <= usize::MAX,
                    BinOp::Mul => a * b <= usize::MAX,
                    BinOp::Div => b != 0,
                    _ => true,
                }
            }
        }),
        _ => true,
    }
}

// ---------------------------------------------------------------------------
// Unification
// ---------------------------------------------------------------------------

pub open spec fn literal_mismatch_text(v1: usize, v2: usize) -> Seq<char> {
    "Literal mismatch: "@ + decimal(v1 as nat) + " != "@ + decimal(v2 as nat)
}

pub open spec fn variable_mismatch_text(n1: Seq<char>, v1: usize, n2: Seq<char>, v2: usize) -> Seq<
    char,
> {
    "Variable mismatch: "@ + n1 + "="@ + decimal(v1 as nat) + " != "@ + n2 + "="@ + decimal(
        v2 as nat,
    )
}

pub open spec fn already_bound_text(n: Seq<char>, current: usize, v: usize) -> Seq<char> {
    "Variable "@ + n + " already bound to "@ + decimal(current as nat) + ", cannot bind to "@
        + decimal(v as nat)
}

/// The representative of a name's class of equivalent names: the name it
/// was made equivalent to, or the name itself.
pub open spec fn rep(eqs: Map<Seq<char>, Seq<char>>, n: Seq<char>) -> Seq<char> {
    if eqs.contains_key(n) {
        eqs[n]
    } else {
        n
    }
}

/// Binds every name of the class of `n` to `v`.
pub open spec fn bind_class_spec(c: ContextModel, n: Seq<char>, v: usize) -> ContextModel {
    c.with_dims(
        c.dims.union_prefer_right(
            Map::new(
                |k: Seq<char>| rep(c.equivalences, k) == rep(c.equivalences, n),
                |k: Seq<char>| v,
            ),
        ),
    )
}

/// Joins the classes of two names: the representative of the class of `n1`,
/// and every name that points to it, point to the representative of `n2`.
pub open spec fn merge_spec(c: ContextModel, n1: Seq<char>, n2: Seq<char>) -> ContextModel {
    let r1 = rep(c.equivalences, n1);
    let r2 = rep(c.equivalences, n2);
    if r1 == r2 {
        c
    } else {
        c.with_equivalences(
            Map::new(
                |k: Seq<char>| c.equivalences.contains_key(k) || k == r1,
                |k: Seq<char>| if k == r1 || rep(c.equivalences, k) == r1 {
                    r2
                } else {
                    c.equivalences[k]
                },
            ),
        )
    }
}

/// Binding a name to a literal: the context afterwards, and whether it conflicts.
pub open spec fn bind_literal_spec(c: ContextModel, n: Seq<char>, v: usize) -> (
    ContextModel,
    Result<(), Seq<char>>,
) {
    if c.dims.contains_key(n) {
        if c.dims[n] != v {
            (c, Err(already_bound_text(n, c.dims[n], v)))
        } else {
            (c, Ok(()))
        }
    } else {
        (bind_class_spec(c, n, v), Ok(()))
    }
}

/// Unifying two dimensions: the context afterwards, and the conflict if any.
/// Only literals and names take part; every other pair unifies without effect.
/// Binding a name binds its whole class; two unbound names join their classes.
pub open spec fn unify_spec(c: ContextModel, d1: SpecDim, d2: SpecDim) -> (
    ContextModel,
    Result<(), Seq<char>>,
) {
    match (d1, d2) {
        (SpecDim::Literal(v1), SpecDim::Literal(v2)) => if v1 != v2 {
            (c, Err(literal_mismatch_text(v1, v2)))
        } else {
            (c, Ok(()))
        },
        (SpecDim::Named(n1), SpecDim::Named(n2)) => if n1 == n2 {
            (c, Ok(()))
        } else if c.dims.contains_key(n1) && c.dims.contains_key(n2) {
            if c.dims[n1] != c.dims[n2] {
                (c, Err(variable_mismatch_text(n1, c.dims[n1], n2, c.dims[n2])))
            } else {
                (c, Ok(()))
            }
        } else if c.dims.contains_key(n1) {
            (bind_class_spec(c, n2, c.dims[n1]), Ok(()))
        } else if c.dims.contains_key(n2) {
            (bind_class_spec(c, n1, c.dims[n2]), Ok(()))
        } else {
            (merge_spec(c, n1, n2), Ok(()))
        },
        (SpecDim::Named(n), SpecDim::Literal(v)) => bind_literal_spec(c, n, v),
        (SpecDim::Literal(v), SpecDim::Named(n)) => bind_literal_spec(c, n, v),
        _ => (c, Ok(())),
    }
}

/// Unifying the first `n` pairs of dimensions, stopping at the first conflict.
pub open spec fn unify_dims_spec(c: ContextModel, a: Seq<SpecDim>, b: Seq<SpecDim>, n: nat) -> (
    ContextModel,
    Result<(), Seq<char>>,
)
    decreases n,
{
    if n == 0 {
        (c, Ok(()))
    } else {
        let (m, r) = unify_dims_spec(c, a, b, (n - 1) as nat);
        match r {
            Err(e) => (m, Err(e)),
            Ok(_) => unify_spec(m, a[n - 1], b[n - 1]),
        }
    }
}

pub open spec fn rank_mismatch_text(s1: Seq<SpecDim>, s2: Seq<SpecDim>) -> Seq<char> {
    "Rank mismatch: "@ + shape_text(s1) + " vs "@ + shape_text(s2)
}

/// Unifying two shapes dimension by dimension; shapes of different rank conflict.
pub open spec fn unify_shapes_spec(c: ContextModel, s1: Seq<SpecDim>, s2: Seq<SpecDim>) -> (
    ContextModel,
    Result<(), Seq<char>>,
) {
    if s1.len() != s2.len() {
        (c, Err(rank_mismatch_text(s1, s2)))
    } else {
        unify_dims_spec(c, s1, s2, s1.len())
    }
}

/// Unifying the first `n` source shapes with the first `n` input shapes.
pub open spec fn unify_inputs_spec(
    c: ContextModel,
    src: Seq<Seq<SpecDim>>,
    dst: Seq<Seq<SpecDim>>,
    n: nat,
) -> (ContextModel, Result<(), Seq<char>>)
    decreases n,
{
    if n == 0 {
        (c, Ok(()))
    } else {
        let (m, r) = unify_inputs_spec(c, src, dst, (n - 1) as nat);
        match r {
            Err(e) => (m, Err(e)),
            Ok(_) => unify_shapes_spec(m, src[n - 1], dst[n - 1]),
        }
    }
}

/// Binds each of `keys` to `v`.
fn bind_all(dims: &mut NameMap<usize>, keys: &Vec<String>, v: usize)
    ensures
        final(dims)@ == old(dims)@.union_prefer_right(
            Map::new(|k: Seq<char>| key_views(keys@).contains(k), |k: Seq<char>| v),
        ),
{
    let ghost d0 = dims@;
    let n = keys.len();
    for i in 0..n
        invariant
            n == keys@.len(),
            dims@ == d0.union_prefer_right(
                Map::new(|k: Seq<char>| key_views(keys@).take(i as int).contains(k), |k: Seq<char>| v),
            ),
    {
        let ghost before = dims@;
        dims.insert(keys[i].clone(), v);
        proof {
            broadcast use vstd::seq_lib::lemma_seq_contains_after_push;
            let t = key_views(keys@).take(i + 1);
            assert(t =~= key_views(keys@).take(i as int).push(keys@[i as int]@));
            assert(dims@ =~= d0.union_prefer_right(
                Map::new(|k: Seq<char>| t.contains(k), |k: Seq<char>| v),
            ));
        }
    }
    assert(key_views(keys@).take(n as int) =~= key_views(keys@));
}

/// Points each of `keys` to `target`.
fn point_all(eqs: &mut NameMap<String>, keys: &Vec<String>, target: &String)
    ensures
        name_views(final(eqs)@) == name_views(old(eqs)@).union_prefer_right(
            Map::new(|k: Seq<char>| key_views(keys@).contains(k), |k: Seq<char>| target@),
        ),
{
    let ghost e0 = name_views(eqs@);
    let n = keys.len();
    for i in 0..n
        invariant
            n == keys@.len(),
            name_views(eqs@) == e0.union_prefer_right(
                Map::new(
                    |k: Seq<char>| key_views(keys@).take(i as int).contains(k),
                    |k: Seq<char>| target@,
                ),
            ),
    {
        let ghost before = eqs@;
        eqs.insert(keys[i].clone(), target.clone());
        proof {
            broadcast use vstd::seq_lib::lemma_seq_contains_after_push;
            let t = key_views(keys@).take(i + 1);
            assert(t =~= key_views(keys@).take(i as int).push(keys@[i as int]@));
            assert(name_views(eqs@) =~= name_views(before).insert(keys@[i as int]@, target@));
            assert(name_views(eqs@) =~= e0.union_prefer_right(
                Map::new(|k: Seq<char>| t.contains(k), |k: Seq<char>| target@),
            ));
        }
    }
    assert(key_views(keys@).take(n as int) =~= key_views(keys@));
}

fn literal_mismatch_message(v1: usize, v2: usize) -> (s: String)
    ensures
        s@ == literal_mismatch_text(v1, v2),
{
    let mut s = String::from_str("Literal mismatch: ");
    push_decimal(&mut s, v1 as u64);
    s.append(" != ");
    push_decimal(&mut s, v2 as u64);
    s
}

fn variable_mismatch_message(n1: &String, v1: usize, n2: &String, v2: usize) -> (s: String)
    ensures
        s@ == variable_mismatch_text(n1@, v1, n2@, v2),
{
    let mut s = String::from_str("Variable mismatch: ");
    s.append(n1.as_str());
    s.append("=");
    push_decimal(&mut s, v1 as u64);
    s.append(" != ");
    s.append(n2.as_str());
    s.append("=");
    push_decimal(&mut s, v2 as u64);
    s
}

fn already_bound_message(n: &String, current: usize, v: usize) -> (s: String)
    ensures
        s@ == already_bound_text(n@, current, v),
{
    let mut s = String::from_str("Variable ");
    s.append(n.as_str());
    s.append(" already bound to ");
    push_decimal(&mut s, current as u64);
    s.append(", cannot bind to ");
    push_decimal(&mut s, v as u64);
    s
}

fn rank_mismatch_message(s1: &Shape, s2: &Shape) -> (s: String)
    ensures
        s@ == rank_mismatch_text(s1@, s2@),
{
    let mut s = String::from_str("Rank mismatch: ");
    push_shape(&mut s, s1);
    s.append(" vs ");
    push_shape(&mut s, s2);
    s
}

impl InferenceContext {
    /// A context with no bindings, no nodes and no calls.
    pub fn new() -> (ctx: Self)
        ensures
            ctx@ == ContextModel::empty(),
    {
        let ctx = InferenceContext {
            resolved_dims: NameMap::new(),
            equivalences: NameMap::new(),
            node_outputs: NameMap::new(),
            call_outputs: HashMap::new(),
        };
        assert(ctx@.equivalences =~= Map::empty());
        assert(ctx@.nodes =~= Map::empty());
        assert(ctx@.calls =~= Map::empty());
        ctx
    }

    fn lookup_dim(&self, name: &String) -> (r: Option<usize>)
        ensures
            r is Some <==> self@.dims.contains_key(name@),
            r matches Some(v) ==> v == self@.dims[name@],
    {
        match self.resolved_dims.get(name) {
            Some(v) => Some(*v),
            None => None,
        }
    }

    /// The value of a dimension, where its names are bound and its
    /// arithmetic is defined (a subtraction below zero has no value).
    pub fn resolve_dim(&self, dim: &Dim) -> (r: Option<usize>)
        requires
            eval_defined(self@.dims, dim@),
        ensures
            r is Some <==> eval_dim(self@.dims, dim@) is Some,
            r matches Some(v) ==> eval_dim(self@.dims, dim@) == Some(v as int),
        decreases dim, 1int,
    {
        match dim {
            Dim::Literal(n) => Some(*n),
            Dim::Named(name) => self.lookup_dim(name),
            Dim::Expr(expr) => self.evaluate_expr(expr),
            _ => None,
        }
    }

    fn evaluate_expr(&self, expr: &DimExpr) -> (r: Option<usize>)
        requires
            eval_defined(self@.dims, SpecDim::Expr(expr.op, Box::new(expr.left@), Box::new(expr.right@))),
        ensures
            r is Some <==> eval_dim(
                self@.dims,
                SpecDim::Expr(expr.op, Box::new(expr.left@), Box::new(expr.right@)),
            ) is Some,
            r matches Some(v) ==> eval_dim(
                self@.dims,
                SpecDim::Expr(expr.op, Box::new(expr.left@), Box::new(expr.right@)),
            ) == Some(v as int),
        decreases expr, 0int,
    {
        let left = match self.resolve_dim(&expr.left) {
            Some(v) => v,
            None => return None,
        };
        let right = match self.resolve_dim(&expr.right) {
            Some(v) => v,
            None => return None,
        };
        match expr.op {
            BinOp::Add => Some(left + right),
            BinOp::Sub => {
                if left >= right {
                    Some(left - right)
                } else {
                    None
                }
            },
            BinOp::Mul => Some(left * right),
            BinOp::Div => Some(left / right),
            _ => None,
        }
    }

    /// The representative of the class of `n`.
    fn representative(&self, n: &String) -> (r: String)
        ensures
            r@ == rep(self@.equivalences, n@),
    {
        match self.equivalences.get(n) {
            Some(s) => s.clone(),
            None => n.clone(),
        }
    }

    /// Binds every name of the class of `n` to `v`.
    fn bind_class(&mut self, n: &String, v: usize)
        ensures
            final(self)@ == bind_class_spec(old(self)@, n@, v),
    {
        let ghost c0 = self@;
        let r = self.representative(n);
        let members = self.equivalences.keys_with_value(&r);
        bind_all(&mut self.resolved_dims, &members, v);
        if !self.equivalences.contains_key(&r) {
            self.resolved_dims.insert(r, v);
        }
        proof {
            let target = bind_class_spec(c0, n@, v);
            assert forall|k: Seq<char>| #![auto]
                (rep(c0.equivalences, k) == rep(c0.equivalences, n@)) == (key_views(members@).contains(k) || (
                    !c0.equivalences.contains_key(r@) && k == r@)) by {
                if c0.equivalences.contains_key(k) {
                    assert(c0.equivalences[k] == old(self).equivalences@[k]@);
                }
            }
            assert(self@.dims =~= target.dims);
        }
    }

    /// Joins the classes of `n1` and `n2`.
    fn merge_classes(&mut self, n1: &String, n2: &String)
        ensures
            final(self)@ == merge_spec(old(self)@, n1@, n2@),
    {
        let ghost c0 = self@;
        let r1 = self.representative(n1);
        let r2 = self.representative(n2);
        if r1 == r2 {
            return;
        }
        let members = self.equivalences.keys_with_value(&r1);
        point_all(&mut self.equivalences, &members, &r2);
        let ghost mid = self.equivalences@;
        self.equivalences.insert(r1, r2);
        proof {
            let target = merge_spec(c0, n1@, n2@).equivalences;
            let e = self@.equivalences;
            assert(e =~= name_views(mid).insert(r1@, r2@));
            assert forall|k: Seq<char>| #[trigger] e.contains_key(k) == target.contains_key(k) by {
                if key_views(members@).contains(k) {
                    assert(c0.equivalences.contains_key(k));
                }
            }
            assert forall|k: Seq<char>| e.contains_key(k) implies #[trigger] e[k] == target[k] by {
                if k != r1@ && c0.equivalences.contains_key(k) {
                    assert(c0.equivalences[k] == old(self).equivalences@[k]@);
                    if key_views(members@).contains(k) {
                        assert(e[k] == r2@);
                    } else {
                        assert(e[k] == c0.equivalences[k]);
                    }
                }
            }
            assert(e =~= target);
        }
    }

    fn bind_literal(&mut self, n: &String, v: usize) -> (r: Result<(), String>)
        ensures
            (final(self)@, text_outcome(r)) == bind_literal_spec(old(self)@, n@, v),
    {
        match self.lookup_dim(n) {
            Some(current) => {
                if current != v {
                    return Err(already_bound_message(n, current, v));
                }
            },
            None => {
                self.bind_class(n, v);
            },
        }
        Ok(())
    }

    /// Unifies two dimensions: two literals must be equal; a name and a
    /// literal bind the name's class if the name is unbound, else must agree;
    /// two names must agree when both are bound, one bound name binds the
    /// other's class, and two unbound names join their classes.
    pub fn unify(&mut self, d1: &Dim, d2: &Dim) -> (r: Result<(), String>)
        ensures
            (final(self)@, text_outcome(r)) == unify_spec(old(self)@, d1@, d2@),
    {
        match (d1, d2) {
            (Dim::Literal(v1), Dim::Literal(v2)) => {
                if *v1 != *v2 {
                    return Err(literal_mismatch_message(*v1, *v2));
                }
            },
            (Dim::Named(n1), Dim::Named(n2)) => {
                if !(*n1 == *n2) {
                    let v1 = self.lookup_dim(n1);
                    let v2 = self.lookup_dim(n2);
                    match (v1, v2) {
                        (Some(val1), Some(val2)) => {
                            if val1 != val2 {
                                return Err(variable_mismatch_message(n1, val1, n2, val2));
                            }
                        },
                        (Some(val), None) => {
                            self.bind_class(n2, val);
                        },
                        (None, Some(val)) => {
                            self.bind_class(n1, val);
                        },
                        (None, None) => {
                            self.merge_classes(n1, n2);
                        },
                    }
                }
            },
            (Dim::Named(n), Dim::Literal(v)) => {
                return self.bind_literal(n, *v);
            },
            (Dim::Literal(v), Dim::Named(n)) => {
                return self.bind_literal(n, *v);
            },
            _ => {},
        }
        Ok(())
    }
}

// ---------------------------------------------------------------------------
// Walking the graph
// ---------------------------------------------------------------------------

/// The shapes of a list of ports.
pub open spec fn ports_shapes(ports: Seq<Port>) -> Seq<Seq<SpecDim>> {
    ports.map_values(|p: Port| p.shape@)
}

/// The shapes of the first `n` references of a tuple, concatenated.
pub open spec fn resolve_refs_spec(c: ContextModel, refs: Seq<PortRef>, n: nat) -> Result<
    Seq<Seq<SpecDim>>,
    SpecShapeError,
>
    decreases n,
{
    if n == 0 {
        Ok(Seq::empty())
    } else {
        match resolve_refs_spec(c, refs, (n - 1) as nat) {
            Err(e) => Err(e),
            Ok(acc) => if c.nodes.contains_key(refs[n - 1].node@) {
                Ok(acc + c.nodes[refs[n - 1].node@])
            } else {
                Err(SpecShapeError::UnknownNode(refs[n - 1].node@))
            },
        }
    }
}

/// The shapes that flow out of an endpoint used as a source. A call not
/// yet seen as a destination, and a match block, yield no shapes.
pub open spec fn resolve_endpoint_spec(c: ContextModel, e: Endpoint) -> Result<
    Seq<Seq<SpecDim>>,
    SpecShapeError,
> {
    match e {
        Endpoint::Ref(pr) => if c.nodes.contains_key(pr.node@) {
            Ok(c.nodes[pr.node@])
        } else {
            Err(SpecShapeError::UnknownNode(pr.node@))
        },
        Endpoint::Call { id, .. } => if c.calls.contains_key(id) {
            Ok(c.calls[id])
        } else {
            Ok(Seq::empty())
        },
        Endpoint::Tuple(refs) => resolve_refs_spec(c, refs@, refs@.len()),
        Endpoint::Match(_) => Ok(Seq::empty()),
    }
}

/// Binds the first `n` references of a tuple to one shape each.
pub open spec fn bind_refs_spec(
    nodes: Map<Seq<char>, Seq<Seq<SpecDim>>>,
    refs: Seq<PortRef>,
    src: Seq<Seq<SpecDim>>,
    n: nat,
) -> Map<Seq<char>, Seq<Seq<SpecDim>>>
    decreases n,
{
    if n == 0 {
        nodes
    } else {
        bind_refs_spec(nodes, refs, src, (n - 1) as nat).insert(refs[n - 1].node@, seq![src[n - 1]])
    }
}

pub open spec fn arity_text(name: Seq<char>, expected: nat, got: nat) -> Seq<char> {
    "Arity mismatch calling "@ + name + ": expected "@ + decimal(expected) + ", got "@ + decimal(got)
}

pub open spec fn input_context_text(name: Seq<char>) -> Seq<char> {
    "Input to "@ + name
}

pub open spec fn tuple_arity_text() -> Seq<char> {
    "Tuple unpacking arity mismatch"@
}

/// Checking one connection: the context afterwards, and the error if any.
pub open spec fn check_connection_spec(
    neurons: Seq<NeuronDef>,
    c: ContextModel,
    conn: Connection,
) -> (ContextModel, Result<(), SpecShapeError>) {
    match resolve_endpoint_spec(c, conn.source) {
        Err(e) => (c, Err(e)),
        Ok(src) => match conn.destination {
            Endpoint::Call { name, id, .. } => match lookup_neuron(neurons, name@) {
                None => (c, Err(SpecShapeError::UnknownNode(name@))),
                Some(called) => if src.len() != called.inputs@.len() {
                    (
                        c,
                        Err(
                            SpecShapeError::Mismatch {
                                expected: Seq::empty(),
                                got: Seq::empty(),
                                context: arity_text(name@, called.inputs@.len(), src.len()),
                            },
                        ),
                    )
                } else {
                    let (m, r) = unify_inputs_spec(
                        c,
                        src,
                        ports_shapes(called.inputs@),
                        src.len(),
                    );
                    match r {
                        Err(msg) => (
                            m,
                            Err(
                                SpecShapeError::ConstraintViolation {
                                    message: msg,
                                    context: input_context_text(name@),
                                },
                            ),
                        ),
                        Ok(_) => (
                            m.with_calls(m.calls.insert(id, ports_shapes(called.outputs@))),
                            Ok(()),
                        ),
                    }
                },
            },
            Endpoint::Ref(pr) => if pr.node@ == "out"@ {
                (c, Ok(()))
            } else {
                (c.with_nodes(c.nodes.insert(pr.node@, src)), Ok(()))
            },
            Endpoint::Tuple(refs) => if src.len() != refs@.len() {
                (
                    c,
                    Err(
                        SpecShapeError::Mismatch {
                            expected: Seq::empty(),
                            got: Seq::empty(),
                            context: tuple_arity_text(),
                        },
                    ),
                )
            } else {
                (c.with_nodes(bind_refs_spec(c.nodes, refs@, src, refs@.len())), Ok(()))
            },
            Endpoint::Match(_) => (c, Ok(())),
        },
    }
}

/// Checking the first `n` connections in order, stopping at the first error.
pub open spec fn check_connections_spec(
    neurons: Seq<NeuronDef>,
    c: ContextModel,
    conns: Seq<Connection>,
    n: nat,
) -> (ContextModel, Result<(), SpecShapeError>)
    decreases n,
{
    if n == 0 {
        (c, Ok(()))
    } else {
        let (c1, r) = check_connections_spec(neurons, c, conns, (n - 1) as nat);
        match r {
            Err(e) => (c1, Err(e)),
            Ok(_) => check_connection_spec(neurons, c1, conns[n - 1]),
        }
    }
}

/// The bindings given by the integer defaults of the first `n` parameters.
pub open spec fn param_dims_spec(params: Seq<crate::ir::Param>, n: nat) -> Map<Seq<char>, usize>
    decreases n,
{
    if n == 0 {
        Map::empty()
    } else {
        let m = param_dims_spec(params, (n - 1) as nat);
        match params[n - 1].default {
            Some(Value::Int(v)) => m.insert(params[n - 1].name@, v as usize),
            _ => m,
        }
    }
}

/// The node table at the start of a graph: `in` holds every input shape,
/// and each input port not named `default` holds its own shape.
pub open spec fn input_nodes_spec(inputs: Seq<Port>, n: nat) -> Map<Seq<char>, Seq<Seq<SpecDim>>>
    decreases n,
{
    if n == 0 {
        Map::empty().insert("in"@, ports_shapes(inputs))
    } else {
        let m = input_nodes_spec(inputs, (n - 1) as nat);
        if inputs[n - 1].name@ != "default"@ {
            m.insert(inputs[n - 1].name@, seq![inputs[n - 1].shape@])
        } else {
            m
        }
    }
}

/// The context in which the graph of a neuron is checked.
pub open spec fn initial_context(neuron: NeuronDef) -> ContextModel {
    ContextModel {
        dims: param_dims_spec(neuron.params@, neuron.params@.len()),
        equivalences: Map::empty(),
        nodes: input_nodes_spec(neuron.inputs@, neuron.inputs@.len()),
        calls: Map::empty(),
    }
}

/// The outcome of checking one neuron: primitives always pass; a graph
/// passes when each of its connections does, in order.
pub open spec fn infer_neuron_spec(neurons: Seq<NeuronDef>, neuron: NeuronDef) -> Result<
    (),
    SpecShapeError,
> {
    match neuron.body {
        NeuronBody::Primitive(_) => Ok(()),
        NeuronBody::Graph(conns) => check_connections_spec(
            neurons,
            initial_context(neuron),
            conns@,
            conns@.len(),
        ).1,
    }
}

/// The errors of the first `n` neurons of a program, in order: one per failing neuron.
pub open spec fn infer_errors_upto(neurons: Seq<NeuronDef>, n: nat) -> Seq<SpecShapeError>
    decreases n,
{
    if n == 0 {
        Seq::empty()
    } else {
        let prev = infer_errors_upto(neurons, (n - 1) as nat);
        match infer_neuron_spec(neurons, neurons[n - 1]) {
            Ok(_) => prev,
            Err(e) => prev.push(e),
        }
    }
}

/// The errors of a whole program.
pub open spec fn infer_errors(neurons: Seq<NeuronDef>) -> Seq<SpecShapeError> {
    infer_errors_upto(neurons, neurons.len())
}

/// The mathematical value of a list of shapes, or the error met computing it.
pub open spec fn shapes_outcome(r: Result<Vec<Shape>, ShapeError>) -> Result<
    Seq<Seq<SpecDim>>,
    SpecShapeError,
> {
    match r {
        Ok(v) => Ok(shapes_model(v@)),
        Err(e) => Err(e@),
    }
}

/// Copies the shapes of a list of ports.
fn port_shapes(ports: &Vec<Port>) -> (res: Vec<Shape>)
    ensures
        shapes_model(res@) == ports_shapes(ports@),
{
    let mut out: Vec<Shape> = Vec::new();
    let n = ports.len();
    for i in 0..n
        invariant
            n == ports@.len(),
            out@.len() == i,
            forall|j: int| 0 <= j < i ==> #[trigger] out@[j]@ == ports@[j].shape@,
    {
        out.push(ports[i].shape.clone());
    }
    assert(shapes_model(out@) =~= ports_shapes(ports@));
    out
}

/// An empty list of shapes.
fn no_shapes() -> (v: Vec<Shape>)
    ensures
        shapes_model(v@) == Seq::<Seq<SpecDim>>::empty(),
{
    let v: Vec<Shape> = Vec::new();
    assert(shapes_model(v@) =~= Seq::<Seq<SpecDim>>::empty());
    v
}

/// The shape with no dimensions.
fn empty_shape() -> (s: Shape)
    ensures
        s@ == Seq::<SpecDim>::empty(),
{
    let s = Shape::new(Vec::new());
    assert(s@ =~= Seq::<SpecDim>::empty());
    s
}

/// A list holding a copy of one shape.
fn single_shape(s: &Shape) -> (v: Vec<Shape>)
    ensures
        shapes_model(v@) == seq![s@],
{
    let mut v: Vec<Shape> = Vec::new();
    v.push(s.clone());
    assert(shapes_model(v@) =~= seq![s@]);
    v
}

proof fn lemma_unify_dims_sticky(
    c: ContextModel,
    a: Seq<SpecDim>,
    b: Seq<SpecDim>,
    k: nat,
    n: nat,
)
    requires
        k <= n,
        unify_dims_spec(c, a, b, k).1 is Err,
    ensures
        unify_dims_spec(c, a, b, n) == unify_dims_spec(c, a, b, k),
    decreases n,
{
    if n > k {
        lemma_unify_dims_sticky(c, a, b, k, (n - 1) as nat);
    }
}

proof fn lemma_unify_inputs_sticky(
    c: ContextModel,
    src: Seq<Seq<SpecDim>>,
    dst: Seq<Seq<SpecDim>>,
    k: nat,
    n: nat,
)
    requires
        k <= n,
        unify_inputs_spec(c, src, dst, k).1 is Err,
    ensures
        unify_inputs_spec(c, src, dst, n) == unify_inputs_spec(c, src, dst, k),
    decreases n,
{
    if n > k {
        lemma_unify_inputs_sticky(c, src, dst, k, (n - 1) as nat);
    }
}

proof fn lemma_resolve_refs_sticky(c: ContextModel, refs: Seq<PortRef>, k: nat, n: nat)
    requires
        k <= n,
        resolve_refs_spec(c, refs, k) is Err,
    ensures
        resolve_refs_spec(c, refs, n) == resolve_refs_spec(c, refs, k),
    decreases n,
{
    if n > k {
        lemma_resolve_refs_sticky(c, refs, k, (n - 1) as nat);
    }
}

proof fn lemma_check_connections_sticky(
    neurons: Seq<NeuronDef>,
    c: ContextModel,
    conns: Seq<Connection>,
    k: nat,
    n: nat,
)
    requires
        k <= n,
        check_connections_spec(neurons, c, conns, k).1 is Err,
    ensures
        check_connections_spec(neurons, c, conns, n) == check_connections_spec(neurons, c, conns, k),
    decreases n,
{
    if n > k {
        lemma_check_connections_sticky(neurons, c, conns, k, (n - 1) as nat);
    }
}

/// Checks the shapes of neuron graphs.
pub struct ShapeInferenceEngine {}

impl ShapeInferenceEngine {
    pub fn new() -> Self {
        ShapeInferenceEngine {  }
    }

    /// Checks every neuron of the program, in order, and gathers one error
    /// for each neuron whose graph fails.
    pub fn infer(&mut self, program: &Program) -> (r: Result<(), Vec<ShapeError>>)
        ensures
            r is Ok <==> infer_errors(program.neurons@).len() == 0,
            r matches Err(es) ==> errors_model(es@) == infer_errors(program.neurons@),
    {
        let mut errors: Vec<ShapeError> = Vec::new();
        let n = program.neurons.len();
        for i in 0..n
            invariant
                n == program.neurons@.len(),
                errors_model(errors@) == infer_errors_upto(program.neurons@, i as nat),
        {
            let ghost before = errors@;
            match self.infer_neuron(&program.neurons[i], program) {
                Ok(()) => {},
                Err(e) => {
                    errors.push(e);
                    assert(errors_model(errors@) =~= errors_model(before).push(e@));
                },
            }
        }
        if errors.len() == 0 {
            Ok(())
        } else {
            Err(errors)
        }
    }

    /// Checks one neuron: a primitive passes; a graph is walked connection
    /// by connection from the neuron's parameters and inputs, and the first
    /// error met is returned.
    #[verifier::loop_isolation(false)]
    pub fn infer_neuron(&mut self, neuron: &NeuronDef, program: &Program) -> (r: Result<(), ShapeError>)
        ensures
            outcome(r) == infer_neuron_spec(program.neurons@, *neuron),
    {
        if neuron.is_primitive() {
            return Ok(());
        }
        let mut ctx = InferenceContext::new();

        // Parameters with integer defaults are known dimensions.
        let np = neuron.params.len();
        for i in 0..np
            invariant
                np == neuron.params@.len(),
                ctx@ == ContextModel::empty().with_dims(param_dims_spec(neuron.params@, i as nat)),
        {
            match &neuron.params[i].default {
                Some(Value::Int(val)) => {
                    ctx.resolved_dims.insert(neuron.params[i].name.clone(), *val as usize);
                },
                _ => {},
            }
        }

        // The `in` node outputs every input; named input ports output their own shape.
        let input_shapes = port_shapes(&neuron.inputs);
        ctx.node_outputs.insert(String::from_str("in"), input_shapes);
        proof {
            assert(ctx@.nodes =~= input_nodes_spec(neuron.inputs@, 0));
        }
        let default_name = String::from_str("default");
        let ni = neuron.inputs.len();
        for i in 0..ni
            invariant
                ni == neuron.inputs@.len(),
                default_name@ == "default"@,
                ctx@.dims == param_dims_spec(neuron.params@, np as nat),
                ctx@.equivalences == Map::<Seq<char>, Seq<char>>::empty(),
                ctx@.calls == Map::<usize, Seq<Seq<SpecDim>>>::empty(),
                ctx@.nodes == input_nodes_spec(neuron.inputs@, i as nat),
        {
            let port = &neuron.inputs[i];
            if !(port.name == default_name) {
                let ghost before = ctx@.nodes;
                ctx.node_outputs.insert(port.name.clone(), single_shape(&port.shape));
                proof {
                    assert(ctx@.nodes =~= before.insert(port.name@, seq![port.shape@]));
                }
            }
        }
        proof {
            assert(ctx@ == initial_context(*neuron));
        }

        // Walk the graph.
        match &neuron.body {
            NeuronBody::Graph(connections) => {
                let nc = connections.len();
                for i in 0..nc
                    invariant
                        nc == connections@.len(),
                        check_connections_spec(
                            program.neurons@,
                            initial_context(*neuron),
                            connections@,
                            i as nat,
                        ) == (ctx@, Ok::<(), SpecShapeError>(())),
                {
                    match self.check_connection(&connections[i], &mut ctx, program) {
                        Ok(()) => {},
                        Err(e) => {
                            proof {
                                lemma_check_connections_sticky(
                                    program.neurons@,
                                    initial_context(*neuron),
                                    connections@,
                                    (i + 1) as nat,
                                    nc as nat,
                                );
                            }
                            return Err(e);
                        },
                    }
                }
            },
            NeuronBody::Primitive(_) => {},
        }
        Ok(())
    }

    #[verifier::loop_isolation(false)]
    fn check_connection(
        &self,
        conn: &Connection,
        ctx: &mut InferenceContext,
        program: &Program,
    ) -> (r: Result<(), ShapeError>)
        ensures
            (final(ctx)@, outcome(r)) == check_connection_spec(
                program.neurons@,
                old(ctx)@,
                *conn,
            ),
    {
        let source_shapes = match self.resolve_endpoint_shape(&conn.source, ctx, program) {
            Ok(s) => s,
            Err(e) => return Err(e),
        };
        match &conn.destination {
            Endpoint::Call { name, id, .. } => {
                let called = match program.get_neuron(name) {
                    Some(nd) => nd,
                    None => return Err(ShapeError::UnknownNode(name.clone())),
                };
                if source_shapes.len() != called.inputs.len() {
                    return Err(
                        ShapeError::Mismatch {
                            expected: empty_shape(),
                            got: empty_shape(),
                            context: arity_message(name, called.inputs.len(), source_shapes.len()),
                        },
                    );
                }
                let ghost c0 = old(ctx)@;
                let ghost src = shapes_model(source_shapes@);
                let ghost dst = ports_shapes(called.inputs@);
                let n = source_shapes.len();
                for i in 0..n
                    invariant
                        n == source_shapes@.len(),
                        n == called.inputs@.len(),
                        src == shapes_model(source_shapes@),
                        dst == ports_shapes(called.inputs@),
                        (ctx@, Ok::<(), Seq<char>>(())) == unify_inputs_spec(
                            c0,
                            src,
                            dst,
                            i as nat,
                        ),
                {
                    match self.unify_shapes(&source_shapes[i], &called.inputs[i].shape, ctx) {
                        Ok(()) => {},
                        Err(msg) => {
                            proof {
                                lemma_unify_inputs_sticky(c0, src, dst, (i + 1) as nat, n as nat);
                            }
                            return Err(
                                ShapeError::ConstraintViolation {
                                    message: msg,
                                    context: input_context(name),
                                },
                            );
                        },
                    }
                }
                let output_shapes = port_shapes(&called.outputs);
                let ghost before = ctx@;
                ctx.call_outputs.insert(*id, output_shapes);
                proof {
                    assert(ctx@.calls =~= before.calls.insert(*id, ports_shapes(called.outputs@)));
                }
            },
            Endpoint::Ref(port_ref) => {
                let out_name = String::from_str("out");
                if !(port_ref.node == out_name) {
                    let ghost before = ctx@;
                    let ghost src = shapes_model(source_shapes@);
                    ctx.node_outputs.insert(port_ref.node.clone(), source_shapes);
                    proof {
                        assert(ctx@.nodes =~= before.nodes.insert(port_ref.node@, src));
                    }
                }
            },
            Endpoint::Tuple(refs) => {
                if source_shapes.len() != refs.len() {
                    return Err(
                        ShapeError::Mismatch {
                            expected: empty_shape(),
                            got: empty_shape(),
                            context: String::from_str("Tuple unpacking arity mismatch"),
                        },
                    );
                }
                let ghost c0 = old(ctx)@;
                let ghost src = shapes_model(source_shapes@);
                let n = refs.len();
                for i in 0..n
                    invariant
                        n == refs@.len(),
                        n == source_shapes@.len(),
                        src == shapes_model(source_shapes@),
                        ctx@ == c0.with_nodes(bind_refs_spec(c0.nodes, refs@, src, i as nat)),
                {
                    let ghost before = ctx@;
                    ctx.node_outputs.insert(refs[i].node.clone(), single_shape(&source_shapes[i]));
                    proof {
                        assert(ctx@.nodes =~= before.nodes.insert(refs@[i as int].node@, seq![src[i as int]]));
                    }
                }
            },
            Endpoint::Match(_) => {},
        }
        Ok(())
    }

    #[verifier::loop_isolation(false)]
    fn resolve_endpoint_shape(
        &self,
        endpoint: &Endpoint,
        ctx: &InferenceContext,
        _program: &Program,
    ) -> (r: Result<Vec<Shape>, ShapeError>)
        ensures
            shapes_outcome(r) == resolve_endpoint_spec(ctx@, *endpoint),
    {
        match endpoint {
            Endpoint::Ref(port_ref) => {
                match ctx.node_outputs.get(&port_ref.node) {
                    Some(shapes) => {
                        assert(ctx@.nodes.contains_key(port_ref.node@));
                        assert(ctx@.nodes[port_ref.node@] == shapes_model(shapes@));
                        Ok(clone_shapes(shapes))
                    },
                    None => Err(ShapeError::UnknownNode(port_ref.node.clone())),
                }
            },
            Endpoint::Call { id, .. } => {
                match ctx.call_outputs.get(id) {
                    Some(shapes) => Ok(clone_shapes(shapes)),
                    None => Ok(no_shapes()),
                }
            },
            Endpoint::Tuple(refs) => {
                let mut shapes: Vec<Shape> = no_shapes();
                let n = refs.len();
                for i in 0..n
                    invariant
                        n == refs@.len(),
                        resolve_refs_spec(ctx@, refs@, i as nat) == Ok::<
                            Seq<Seq<SpecDim>>,
                            SpecShapeError,
                        >(shapes_model(shapes@)),
                {
                    match ctx.node_outputs.get(&refs[i].node) {
                        Some(s) => {
                            let ghost before = shapes@;
                            let m = s.len();
                            for j in 0..m
                                invariant
                                    m == s@.len(),
                                    shapes@.len() == before.len() + j,
                                    forall|k: int|
                                        0 <= k < before.len() ==> #[trigger] shapes@[k] == before[k],
                                    forall|k: int|
                                        before.len() <= k < shapes@.len() ==> #[trigger] shapes@[k]@
                                            == s@[k - before.len()]@,
                            {
                                shapes.push(s[j].clone());
                            }
                            proof {
                                assert(shapes_model(shapes@) =~= shapes_model(before) + shapes_model(s@));
                            }
                        },
                        None => {
                            proof {
                                lemma_resolve_refs_sticky(ctx@, refs@, (i + 1) as nat, n as nat);
                            }
                            return Err(ShapeError::UnknownNode(refs[i].node.clone()));
                        },
                    }
                }
                Ok(shapes)
            },
            Endpoint::Match(_) => Ok(no_shapes()),
        }
    }

    /// Unifies two shapes dimension by dimension, stopping at the first
    /// conflict; shapes of different rank do not unify.
    #[verifier::loop_isolation(false)]
    pub fn unify_shapes(&self, s1: &Shape, s2: &Shape, ctx: &mut InferenceContext) -> (r: Result<
        (),
        String,
    >)
        ensures
            (final(ctx)@, text_outcome(r)) == unify_shapes_spec(old(ctx)@, s1@, s2@),
    {
        if s1.dims.len() != s2.dims.len() {
            return Err(rank_mismatch_message(s1, s2));
        }
        let ghost c0 = old(ctx)@;
        let n = s1.dims.len();
        for i in 0..n
            invariant
                n == s1.dims@.len(),
                n == s2.dims@.len(),
                (ctx@, Ok::<(), Seq<char>>(())) == unify_dims_spec(c0, s1@, s2@, i as nat),
        {
            match ctx.unify(&s1.dims[i], &s2.dims[i]) {
                Ok(()) => {},
                Err(msg) => {
                    proof {
                        lemma_unify_dims_sticky(c0, s1@, s2@, (i + 1) as nat, n as nat);
                    }
                    return Err(msg);
                },
            }
        }
        Ok(())
    }
}

fn arity_message(name: &String, expected: usize, got: usize) -> (s: String)
    ensures
        s@ == arity_text(name@, expected as nat, got as nat),
{
    let mut s = String::from_str("Arity mismatch calling ");
    s.append(name.as_str());
    s.append(": expected ");
    push_decimal(&mut s, expected as u64);
    s.append(", got ");
    push_decimal(&mut s, got as u64);
    s
}

fn input_context(name: &String) -> (s: String)
    ensures
        s@ == input_context_text(name@),
{
    let mut s = String::from_str("Input to ");
    s.append(name.as_str());
    s
}

} // verus!
