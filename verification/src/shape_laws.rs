//! Properties of dimension unification and of whole-program inference.
use vstd::prelude::*;
use crate::ir::{lookup_neuron, Connection, Endpoint, NeuronDef, Param, Port, PortRef, SpecDim, Value};
use crate::shape_inference::{
    bind_class_spec, bind_refs_spec, check_connection_spec, eval_defined, eval_dim, infer_errors,
    infer_errors_upto, infer_neuron_spec, initial_context, input_nodes_spec, merge_spec,
    arity_text, check_connections_spec, param_dims_spec, rep, resolve_endpoint_spec,
    resolve_refs_spec, unify_dims_spec, unify_shapes_spec, unify_spec, ContextModel,
    SpecShapeError,
};

verus! {

/// A dimension that takes part in unification: a literal or a name.
pub open spec fn is_atomic(d: SpecDim) -> bool {
    d is Literal || d is Named
}

/// The equivalences of a context are well formed: each name points to a
/// representative that points nowhere, and a name is bound exactly when its
/// representative is, to the same value.
pub open spec fn eq_wf(c: ContextModel) -> bool {
    forall|k: Seq<char>| #[trigger]
        c.equivalences.contains_key(k) ==> {
            let r = c.equivalences[k];
            &&& !c.equivalences.contains_key(r)
            &&& c.dims.contains_key(k) == c.dims.contains_key(r)
            &&& c.dims.contains_key(k) ==> c.dims[k] == c.dims[r]
        }
}

/// Two names are linked: they share a class, or are bound to one value.
pub open spec fn linked(c: ContextModel, a: Seq<char>, b: Seq<char>) -> bool {
    ||| rep(c.equivalences, a) == rep(c.equivalences, b)
    ||| c.dims.contains_key(a) && c.dims.contains_key(b) && c.dims[a] == c.dims[b]
}

/// The empty context is well formed.
pub proof fn empty_context_is_wf()
    ensures
        eq_wf(ContextModel::empty()),
{
}

proof fn lemma_rep_is_root(c: ContextModel, k: Seq<char>)
    requires
        eq_wf(c),
    ensures
        !c.equivalences.contains_key(rep(c.equivalences, k)),
        c.dims.contains_key(k) == c.dims.contains_key(rep(c.equivalences, k)),
        c.dims.contains_key(k) ==> c.dims[k] == c.dims[rep(c.equivalences, k)],
{
}

proof fn lemma_merge_rep(c: ContextModel, n1: Seq<char>, n2: Seq<char>, k: Seq<char>)
    requires
        eq_wf(c),
        rep(c.equivalences, n1) != rep(c.equivalences, n2),
    ensures
        rep(merge_spec(c, n1, n2).equivalences, k) == if rep(c.equivalences, k) == rep(
            c.equivalences,
            n1,
        ) {
            rep(c.equivalences, n2)
        } else {
            rep(c.equivalences, k)
        },
{
    lemma_rep_is_root(c, n1);
    lemma_rep_is_root(c, k);
}

proof fn lemma_bind_class_dims(c: ContextModel, n: Seq<char>, v: usize, k: Seq<char>)
    requires
        eq_wf(c),
    ensures
        bind_class_spec(c, n, v).dims.contains_key(k) == (c.dims.contains_key(k) || rep(
            c.equivalences,
            k,
        ) == rep(c.equivalences, n)),
        bind_class_spec(c, n, v).dims.contains_key(k) ==> bind_class_spec(c, n, v).dims[k] == if rep(
            c.equivalences,
            k,
        ) == rep(c.equivalences, n) {
            v
        } else {
            c.dims[k]
        },
{
}

/// Unification keeps the equivalences well formed.
pub proof fn unify_keeps_wf(c: ContextModel, d1: SpecDim, d2: SpecDim)
    requires
        eq_wf(c),
    ensures
        eq_wf(unify_spec(c, d1, d2).0),
{
    let c2 = unify_spec(c, d1, d2).0;
    assert forall|k: Seq<char>| #[trigger] c2.equivalences.contains_key(k) implies {
        let r = c2.equivalences[k];
        &&& !c2.equivalences.contains_key(r)
        &&& c2.dims.contains_key(k) == c2.dims.contains_key(r)
        &&& c2.dims.contains_key(k) ==> c2.dims[k] == c2.dims[r]
    } by {
        lemma_rep_is_root(c, k);
        match (d1, d2) {
            (SpecDim::Named(n1), SpecDim::Named(n2)) => {
                lemma_rep_is_root(c, n1);
                lemma_rep_is_root(c, n2);
                if n1 != n2 && !c.dims.contains_key(n1) && !c.dims.contains_key(n2) && rep(
                    c.equivalences,
                    n1,
                ) != rep(c.equivalences, n2) {
                    lemma_merge_rep(c, n1, n2, k);
                    let r = c2.equivalences[k];
                    assert(rep(c2.equivalences, k) == r);
                    lemma_merge_rep(c, n1, n2, r);
                    lemma_rep_is_root(c, r);
                } else if n1 != n2 && c.dims.contains_key(n1) && !c.dims.contains_key(n2) {
                    let r = c.equivalences[k];
                    lemma_rep_is_root(c, r);
                    lemma_bind_class_dims(c, n2, c.dims[n1], k);
                    lemma_bind_class_dims(c, n2, c.dims[n1], r);
                } else if n1 != n2 && !c.dims.contains_key(n1) && c.dims.contains_key(n2) {
                    let r = c.equivalences[k];
                    lemma_rep_is_root(c, r);
                    lemma_bind_class_dims(c, n1, c.dims[n2], k);
                    lemma_bind_class_dims(c, n1, c.dims[n2], r);
                }
            },
            (SpecDim::Named(n), SpecDim::Literal(v)) => {
                let r = c.equivalences[k];
                lemma_rep_is_root(c, r);
                lemma_bind_class_dims(c, n, v, k);
                lemma_bind_class_dims(c, n, v, r);
            },
            (SpecDim::Literal(v), SpecDim::Named(n)) => {
                let r = c.equivalences[k];
                lemma_rep_is_root(c, r);
                lemma_bind_class_dims(c, n, v, k);
                lemma_bind_class_dims(c, n, v, r);
            },
            _ => {},
        }
    }
}

/// Unification does not depend on the order of its arguments: unifying
/// `d1` with `d2` succeeds exactly when unifying `d2` with `d1` does, both
/// leave the same bindings, and both leave the same names linked.
pub proof fn unify_is_symmetric(c: ContextModel, d1: SpecDim, d2: SpecDim)
    requires
        eq_wf(c),
    ensures
        unify_spec(c, d1, d2).1 is Ok <==> unify_spec(c, d2, d1).1 is Ok,
        unify_spec(c, d1, d2).0.dims == unify_spec(c, d2, d1).0.dims,
        forall|a: Seq<char>, b: Seq<char>|
            #![trigger linked(unify_spec(c, d1, d2).0, a, b)]
            #![trigger linked(unify_spec(c, d2, d1).0, a, b)]
            linked(unify_spec(c, d1, d2).0, a, b) <==> linked(unify_spec(c, d2, d1).0, a, b),
{
    if let (SpecDim::Named(n1), SpecDim::Named(n2)) = (d1, d2) {
        if n1 != n2 && !c.dims.contains_key(n1) && !c.dims.contains_key(n2) && rep(
            c.equivalences,
            n1,
        ) != rep(c.equivalences, n2) {
            assert forall|a: Seq<char>, b: Seq<char>|
                linked(unify_spec(c, d1, d2).0, a, b) <==> linked(unify_spec(c, d2, d1).0, a, b) by {
                lemma_merge_rep(c, n1, n2, a);
                lemma_merge_rep(c, n1, n2, b);
                lemma_merge_rep(c, n2, n1, a);
                lemma_merge_rep(c, n2, n1, b);
            }
        }
    }
}

/// Unification never forgets or changes a binding: every dimension bound
/// before stays bound to the same value.
pub proof fn unify_keeps_bindings(c: ContextModel, d1: SpecDim, d2: SpecDim)
    requires
        eq_wf(c),
    ensures
        c.dims.submap_of(unify_spec(c, d1, d2).0.dims),
{
    let c2 = unify_spec(c, d1, d2).0;
    assert forall|k: Seq<char>| #[trigger] c.dims.contains_key(k) implies c2.dims.contains_key(k)
        && c2.dims[k] == c.dims[k] by {
        lemma_rep_is_root(c, k);
        match (d1, d2) {
            (SpecDim::Named(n1), SpecDim::Named(n2)) => {
                lemma_rep_is_root(c, n1);
                lemma_rep_is_root(c, n2);
                if c.dims.contains_key(n1) {
                    lemma_bind_class_dims(c, n2, c.dims[n1], k);
                } else if c.dims.contains_key(n2) {
                    lemma_bind_class_dims(c, n1, c.dims[n2], k);
                }
            },
            (SpecDim::Named(n), SpecDim::Literal(v)) => {
                lemma_rep_is_root(c, n);
                lemma_bind_class_dims(c, n, v, k);
            },
            (SpecDim::Literal(v), SpecDim::Named(n)) => {
                lemma_rep_is_root(c, n);
                lemma_bind_class_dims(c, n, v, k);
            },
            _ => {},
        }
    }
}

/// A unification that fails leaves the context as it was.
pub proof fn failed_unify_changes_nothing(c: ContextModel, d1: SpecDim, d2: SpecDim)
    requires
        unify_spec(c, d1, d2).1 is Err,
    ensures
        unify_spec(c, d1, d2).0 == c,
{
}

/// After a successful unification of two literals or names, the two have
/// the same value: both the same number, or both still unknown.
pub proof fn unify_equates(c: ContextModel, d1: SpecDim, d2: SpecDim)
    requires
        eq_wf(c),
        is_atomic(d1),
        is_atomic(d2),
        unify_spec(c, d1, d2).1 is Ok,
    ensures
        eval_dim(unify_spec(c, d1, d2).0.dims, d1) == eval_dim(unify_spec(c, d1, d2).0.dims, d2),
{
    match (d1, d2) {
        (SpecDim::Named(n1), SpecDim::Named(n2)) => {
            if c.dims.contains_key(n1) && !c.dims.contains_key(n2) {
                lemma_bind_class_dims(c, n2, c.dims[n1], n1);
                lemma_bind_class_dims(c, n2, c.dims[n1], n2);
            } else if !c.dims.contains_key(n1) && c.dims.contains_key(n2) {
                lemma_bind_class_dims(c, n1, c.dims[n2], n1);
                lemma_bind_class_dims(c, n1, c.dims[n2], n2);
            }
        },
        (SpecDim::Named(n), SpecDim::Literal(v)) => {
            lemma_bind_class_dims(c, n, v, n);
        },
        (SpecDim::Literal(v), SpecDim::Named(n)) => {
            lemma_bind_class_dims(c, n, v, n);
        },
        _ => {},
    }
}

/// Unifying two names links them: afterwards they share a class, or are
/// bound to one value.
pub proof fn unify_links_names(c: ContextModel, a: Seq<char>, b: Seq<char>)
    requires
        eq_wf(c),
        unify_spec(c, SpecDim::Named(a), SpecDim::Named(b)).1 is Ok,
    ensures
        linked(unify_spec(c, SpecDim::Named(a), SpecDim::Named(b)).0, a, b),
{
    unify_equates(c, SpecDim::Named(a), SpecDim::Named(b));
    if a != b && !c.dims.contains_key(a) && !c.dims.contains_key(b) && rep(c.equivalences, a)
        != rep(c.equivalences, b) {
        lemma_merge_rep(c, a, b, a);
        lemma_merge_rep(c, a, b, b);
    }
}

/// Linked names stay linked through every later unification.
pub proof fn unify_keeps_links(
    c: ContextModel,
    a: Seq<char>,
    b: Seq<char>,
    d1: SpecDim,
    d2: SpecDim,
)
    requires
        eq_wf(c),
        linked(c, a, b),
    ensures
        linked(unify_spec(c, d1, d2).0, a, b),
{
    unify_keeps_bindings(c, d1, d2);
    if let (SpecDim::Named(n1), SpecDim::Named(n2)) = (d1, d2) {
        if n1 != n2 && !c.dims.contains_key(n1) && !c.dims.contains_key(n2) && rep(
            c.equivalences,
            n1,
        ) != rep(c.equivalences, n2) {
            lemma_merge_rep(c, n1, n2, a);
            lemma_merge_rep(c, n1, n2, b);
        }
    }
}

/// Linked names have the same value: both bound to one number, or both unbound.
pub proof fn linked_names_agree(c: ContextModel, a: Seq<char>, b: Seq<char>)
    requires
        eq_wf(c),
        linked(c, a, b),
    ensures
        eval_dim(c.dims, SpecDim::Named(a)) == eval_dim(c.dims, SpecDim::Named(b)),
{
    lemma_rep_is_root(c, a);
    lemma_rep_is_root(c, b);
}

/// Once two names are unified, binding one of them to a value binds the
/// other to the same value, and the other can then not be bound to another.
pub proof fn unified_names_bind_together(
    c: ContextModel,
    a: Seq<char>,
    b: Seq<char>,
    v: usize,
    w: usize,
)
    requires
        eq_wf(c),
        unify_spec(c, SpecDim::Named(a), SpecDim::Named(b)).1 is Ok,
    ensures
        ({
            let c1 = unify_spec(c, SpecDim::Named(a), SpecDim::Named(b)).0;
            let (c2, r) = unify_spec(c1, SpecDim::Named(a), SpecDim::Literal(v));
            r is Ok ==> {
                &&& c2.dims.contains_key(b)
                &&& c2.dims[b] == v
                &&& w != v ==> unify_spec(c2, SpecDim::Named(b), SpecDim::Literal(w)).1 is Err
            }
        }),
{
    let c1 = unify_spec(c, SpecDim::Named(a), SpecDim::Named(b)).0;
    let c2 = unify_spec(c1, SpecDim::Named(a), SpecDim::Literal(v)).0;
    unify_links_names(c, a, b);
    unify_keeps_wf(c, SpecDim::Named(a), SpecDim::Named(b));
    unify_keeps_links(c1, a, b, SpecDim::Named(a), SpecDim::Literal(v));
    unify_keeps_wf(c1, SpecDim::Named(a), SpecDim::Literal(v));
    linked_names_agree(c2, a, b);
    if unify_spec(c1, SpecDim::Named(a), SpecDim::Literal(v)).1 is Ok {
        unify_equates(c1, SpecDim::Named(a), SpecDim::Literal(v));
    }
}

/// Unifying again what has just been unified succeeds and changes nothing.
pub proof fn unify_is_idempotent(c: ContextModel, d1: SpecDim, d2: SpecDim)
    requires
        eq_wf(c),
        unify_spec(c, d1, d2).1 is Ok,
    ensures
        unify_spec(unify_spec(c, d1, d2).0, d1, d2) == (
            unify_spec(c, d1, d2).0,
            Ok::<(), Seq<char>>(()),
        ),
{
    if is_atomic(d1) && is_atomic(d2) {
        unify_equates(c, d1, d2);
    }
    unify_keeps_wf(c, d1, d2);
    if let (SpecDim::Named(n1), SpecDim::Named(n2)) = (d1, d2) {
        unify_links_names(c, n1, n2);
        let c2 = unify_spec(c, d1, d2).0;
        lemma_rep_is_root(c2, n1);
        lemma_rep_is_root(c2, n2);
    }
}

/// Unifying two shapes never forgets or changes a binding, whether it
/// succeeds or stops at a conflict, and keeps the equivalences well formed.
pub proof fn unify_shapes_keeps_bindings(c: ContextModel, s1: Seq<SpecDim>, s2: Seq<SpecDim>)
    requires
        eq_wf(c),
    ensures
        c.dims.submap_of(unify_shapes_spec(c, s1, s2).0.dims),
        eq_wf(unify_shapes_spec(c, s1, s2).0),
{
    if s1.len() == s2.len() {
        lemma_unify_dims_keeps_bindings(c, s1, s2, s1.len());
    }
}

proof fn lemma_unify_dims_keeps_bindings(c: ContextModel, a: Seq<SpecDim>, b: Seq<SpecDim>, n: nat)
    requires
        eq_wf(c),
    ensures
        c.dims.submap_of(unify_dims_spec(c, a, b, n).0.dims),
        eq_wf(unify_dims_spec(c, a, b, n).0),
    decreases n,
{
    if n > 0 {
        lemma_unify_dims_keeps_bindings(c, a, b, (n - 1) as nat);
        let m = unify_dims_spec(c, a, b, (n - 1) as nat).0;
        unify_keeps_bindings(m, a[n - 1], b[n - 1]);
        unify_keeps_wf(m, a[n - 1], b[n - 1]);
    }
}

/// A value once computed for a dimension stays the same when more names
/// are bound, and a dimension whose evaluation was free of overflow and
/// division by zero stays so: `resolve_dim` can be asked again and gives
/// the same value.
pub proof fn eval_is_stable(dims: Map<Seq<char>, usize>, more: Map<Seq<char>, usize>, d: SpecDim)
    requires
        dims.submap_of(more),
        eval_dim(dims, d) is Some,
    ensures
        eval_dim(more, d) == eval_dim(dims, d),
        eval_defined(dims, d) ==> eval_defined(more, d),
    decreases d,
{
    if let SpecDim::Expr(op, l, r) = d {
        eval_is_stable(dims, more, *l);
        eval_is_stable(dims, more, *r);
    }
}

/// The number of neurons among the first `n` whose inference fails.
pub open spec fn failing_count(neurons: Seq<NeuronDef>, n: nat) -> nat
    decreases n,
{
    if n == 0 {
        0
    } else {
        failing_count(neurons, (n - 1) as nat) + if infer_neuron_spec(
            neurons,
            neurons[n - 1],
        ) is Err {
            1nat
        } else {
            0nat
        }
    }
}

proof fn lemma_errors_count(neurons: Seq<NeuronDef>, n: nat)
    requires
        n <= neurons.len(),
    ensures
        infer_errors_upto(neurons, n).len() == failing_count(neurons, n),
        infer_errors_upto(neurons, n).len() == 0 <==> forall|i: int|
            0 <= i < n ==> (#[trigger] infer_neuron_spec(neurons, neurons[i])) is Ok,
    decreases n,
{
    if n > 0 {
        lemma_errors_count(neurons, (n - 1) as nat);
    }
}

/// A program passes inference exactly when each of its neurons passes, and
/// it reports one error for each neuron that fails.
pub proof fn program_passes_iff_each_neuron_passes(neurons: Seq<NeuronDef>)
    ensures
        infer_errors(neurons).len() == failing_count(neurons, neurons.len()),
        infer_errors(neurons).len() == 0 <==> forall|i: int|
            0 <= i < neurons.len() ==> (#[trigger] infer_neuron_spec(neurons, neurons[i])) is Ok,
{
    lemma_errors_count(neurons, neurons.len());
}

/// A primitive neuron always passes inference.
pub proof fn primitives_pass(neurons: Seq<NeuronDef>, neuron: NeuronDef)
    requires
        neuron.body is Primitive,
    ensures
        infer_neuron_spec(neurons, neuron) is Ok,
{
}

/// No two references of a tuple name the same node.
pub open spec fn distinct_nodes(refs: Seq<PortRef>) -> bool {
    forall|i: int, j: int|
        0 <= i < j < refs.len() ==> (#[trigger] refs[i]).node@ != (#[trigger] refs[j]).node@
}

/// Whether one of the first `n` references names the node `k`.
pub open spec fn names_node(refs: Seq<PortRef>, n: int, k: Seq<char>) -> bool {
    exists|i: int| 0 <= i < n && (#[trigger] refs[i]).node@ == k
}

proof fn lemma_bind_refs(
    nodes: Map<Seq<char>, Seq<Seq<SpecDim>>>,
    refs: Seq<PortRef>,
    src: Seq<Seq<SpecDim>>,
    n: nat,
)
    requires
        n <= refs.len(),
        distinct_nodes(refs),
    ensures
        forall|i: int|
            0 <= i < n ==> bind_refs_spec(nodes, refs, src, n).contains_key(#[trigger] refs[i].node@)
                && bind_refs_spec(nodes, refs, src, n)[refs[i].node@] == seq![src[i]],
        forall|k: Seq<char>|
            !names_node(refs, n as int, k) ==> (#[trigger] bind_refs_spec(
                nodes,
                refs,
                src,
                n,
            ).contains_key(k)) == nodes.contains_key(k) && (nodes.contains_key(k)
                ==> bind_refs_spec(nodes, refs, src, n)[k] == nodes[k]),
    decreases n,
{
    if n > 0 {
        lemma_bind_refs(nodes, refs, src, (n - 1) as nat);
        assert forall|k: Seq<char>| !names_node(refs, n as int, k) implies !names_node(
            refs,
            n - 1,
            k,
        ) && k != refs[n - 1].node@ by {
            if names_node(refs, n - 1, k) {
                let i = choose|i: int| 0 <= i < n - 1 && (#[trigger] refs[i]).node@ == k;
                assert(refs[i].node@ == k);
            }
            assert(refs[n - 1].node@ == refs[n - 1].node@);
        }
        let prev = bind_refs_spec(nodes, refs, src, (n - 1) as nat);
        assert forall|k: Seq<char>| !names_node(refs, n as int, k) implies (
        #[trigger] bind_refs_spec(nodes, refs, src, n).contains_key(k)) == nodes.contains_key(k) && (
        nodes.contains_key(k) ==> bind_refs_spec(nodes, refs, src, n)[k] == nodes[k]) by {
            assert(!names_node(refs, n - 1, k) && k != refs[n - 1].node@);
            assert(prev.contains_key(k) == nodes.contains_key(k));
        }
        assert forall|i: int| 0 <= i < n - 1 implies (#[trigger] refs[i]).node@ != refs[n
            - 1].node@ by {
            assert(refs[i].node@ != refs[n - 1].node@);
        }
    }
}

/// Unpacking into a tuple of distinct names binds each name to the shape at
/// its own position among the shapes the source yields, leaves every other
/// node, the bindings of dimensions and the calls as they were, and succeeds.
pub proof fn tuple_binds_each_name_to_its_shape(
    neurons: Seq<NeuronDef>,
    c: ContextModel,
    conn: Connection,
    refs: Seq<PortRef>,
    src: Seq<Seq<SpecDim>>,
)
    requires
        conn.destination is Tuple,
        conn.destination->Tuple_0@ == refs,
        resolve_endpoint_spec(c, conn.source) == Ok::<Seq<Seq<SpecDim>>, SpecShapeError>(src),
        src.len() == refs.len(),
        distinct_nodes(refs),
    ensures
        check_connection_spec(neurons, c, conn).1 is Ok,
        forall|i: int|
            0 <= i < refs.len() ==> check_connection_spec(neurons, c, conn).0.nodes.contains_key(
                #[trigger] refs[i].node@,
            ) && check_connection_spec(neurons, c, conn).0.nodes[refs[i].node@] == seq![src[i]],
        forall|k: Seq<char>|
            !names_node(refs, refs.len() as int, k) ==> (#[trigger] check_connection_spec(
                neurons,
                c,
                conn,
            ).0.nodes.contains_key(k)) == c.nodes.contains_key(k) && (c.nodes.contains_key(k)
                ==> check_connection_spec(neurons, c, conn).0.nodes[k] == c.nodes[k]),
        check_connection_spec(neurons, c, conn).0.dims == c.dims,
        check_connection_spec(neurons, c, conn).0.calls == c.calls,
{
    lemma_bind_refs(c.nodes, refs, src, refs.len());
}

/// No input port of a neuron is named `in`.
pub open spec fn no_port_named_in(inputs: Seq<Port>) -> bool {
    forall|i: int| 0 <= i < inputs.len() ==> (#[trigger] inputs[i]).name@ != "in"@
}

proof fn lemma_input_nodes(inputs: Seq<Port>, n: nat)
    requires
        n <= inputs.len(),
        no_port_named_in(inputs),
    ensures
        input_nodes_spec(inputs, n).contains_key("in"@),
        input_nodes_spec(inputs, n)["in"@].len() == inputs.len(),
        forall|i: int|
            0 <= i < inputs.len() ==> input_nodes_spec(inputs, n)["in"@][i] == (#[trigger] inputs[i]).shape@,
    decreases n,
{
    if n > 0 {
        lemma_input_nodes(inputs, (n - 1) as nat);
        assert(inputs[n - 1].name@ != "in"@);
    }
}

/// In the context a graph neuron is checked in, node `in` yields the shapes
/// of all the neuron's input ports, one per port, in order (when no input
/// port is itself named `in`). Nothing is bound by an equivalence, and no
/// call has been seen.
pub proof fn graph_input_node_holds_every_input(neuron: NeuronDef)
    requires
        no_port_named_in(neuron.inputs@),
    ensures
        initial_context(neuron).nodes.contains_key("in"@),
        initial_context(neuron).nodes["in"@].len() == neuron.inputs@.len(),
        forall|i: int|
            0 <= i < neuron.inputs@.len() ==> initial_context(neuron).nodes["in"@][i]
                == (#[trigger] neuron.inputs@[i]).shape@,
        initial_context(neuron).equivalences.is_empty(),
        initial_context(neuron).calls.is_empty(),
{
    lemma_input_nodes(neuron.inputs@, neuron.inputs@.len());
}

/// Input ports of distinct names.
pub open spec fn distinct_ports(inputs: Seq<Port>) -> bool {
    forall|i: int, j: int|
        0 <= i < j < inputs.len() ==> (#[trigger] inputs[i]).name@ != (#[trigger] inputs[j]).name@
}

proof fn lemma_input_nodes_named(inputs: Seq<Port>, n: nat)
    requires
        n <= inputs.len(),
        distinct_ports(inputs),
    ensures
        forall|i: int|
            0 <= i < n && (#[trigger] inputs[i]).name@ != "default"@ ==> input_nodes_spec(
                inputs,
                n,
            ).contains_key(inputs[i].name@) && input_nodes_spec(inputs, n)[inputs[i].name@]
                == seq![inputs[i].shape@],
    decreases n,
{
    if n > 0 {
        lemma_input_nodes_named(inputs, (n - 1) as nat);
        assert forall|i: int| 0 <= i < n - 1 implies (#[trigger] inputs[i]).name@ != inputs[n
            - 1].name@ by {
            assert(inputs[i].name@ != inputs[n - 1].name@);
        }
    }
}

/// In the context a graph neuron is checked in, each input port not named
/// `default` is a node that yields that port's own shape (for ports of
/// distinct names).
pub proof fn named_inputs_hold_their_shape(neuron: NeuronDef)
    requires
        distinct_ports(neuron.inputs@),
    ensures
        forall|i: int|
            0 <= i < neuron.inputs@.len() && (#[trigger] neuron.inputs@[i]).name@ != "default"@
                ==> initial_context(neuron).nodes.contains_key(neuron.inputs@[i].name@)
                && initial_context(neuron).nodes[neuron.inputs@[i].name@] == seq![
                neuron.inputs@[i].shape@,
            ],
{
    lemma_input_nodes_named(neuron.inputs@, neuron.inputs@.len());
}

proof fn lemma_refs_prefix(c: ContextModel, u: Seq<PortRef>, v: Seq<PortRef>, n: nat)
    requires
        n <= u.len(),
        n <= v.len(),
        forall|i: int| 0 <= i < n ==> u[i] == v[i],
    ensures
        resolve_refs_spec(c, u, n) == resolve_refs_spec(c, v, n),
    decreases n,
{
    if n > 0 {
        lemma_refs_prefix(c, u, v, (n - 1) as nat);
    }
}

proof fn lemma_refs_concat(
    c: ContextModel,
    a: Seq<PortRef>,
    b: Seq<PortRef>,
    x: Seq<Seq<SpecDim>>,
    y: Seq<Seq<SpecDim>>,
    k: nat,
)
    requires
        k <= b.len(),
        resolve_refs_spec(c, a, a.len()) == Ok::<Seq<Seq<SpecDim>>, SpecShapeError>(x),
        resolve_refs_spec(c, b, k) == Ok::<Seq<Seq<SpecDim>>, SpecShapeError>(y),
    ensures
        resolve_refs_spec(c, a + b, a.len() + k) == Ok::<Seq<Seq<SpecDim>>, SpecShapeError>(x + y),
    decreases k,
{
    if k == 0 {
        lemma_refs_prefix(c, a + b, a, a.len());
        assert(x + y =~= x);
    } else {
        let y0 = resolve_refs_spec(c, b, (k - 1) as nat)->Ok_0;
        lemma_refs_concat(c, a, b, x, y0, (k - 1) as nat);
        assert((a + b)[a.len() + k - 1] == b[k - 1]);
        assert(x + y0 + c.nodes[b[k - 1].node@] =~= x + y);
    }
}

/// A tuple used as a source yields the shapes of its nodes one after the
/// other: the shapes of a tuple of one known node are that node's shapes,
/// an unknown node is reported, and the shapes of two tuples put end to
/// end are the shapes of the first followed by those of the second.
pub proof fn tuple_source_concatenates(
    c: ContextModel,
    a: Seq<PortRef>,
    b: Seq<PortRef>,
    r: PortRef,
)
    ensures
        c.nodes.contains_key(r.node@) ==> resolve_refs_spec(c, seq![r], 1) == Ok::<
            Seq<Seq<SpecDim>>,
            SpecShapeError,
        >(c.nodes[r.node@]),
        !c.nodes.contains_key(r.node@) ==> resolve_refs_spec(c, seq![r], 1) == Err::<
            Seq<Seq<SpecDim>>,
            SpecShapeError,
        >(SpecShapeError::UnknownNode(r.node@)),
        (resolve_refs_spec(c, a, a.len()) is Ok && resolve_refs_spec(c, b, b.len()) is Ok) ==> resolve_refs_spec(c, a + b, (a + b).len()) == Ok::<Seq<Seq<SpecDim>>, SpecShapeError>(
            resolve_refs_spec(c, a, a.len())->Ok_0 + resolve_refs_spec(c, b, b.len())->Ok_0,
        ),
{
    assert(seq![r][0] == r);
    assert(resolve_refs_spec(c, seq![r], 0) == Ok::<Seq<Seq<SpecDim>>, SpecShapeError>(
        Seq::empty(),
    ));
    if c.nodes.contains_key(r.node@) {
        assert(Seq::<Seq<SpecDim>>::empty() + c.nodes[r.node@] =~= c.nodes[r.node@]);
    }
    if resolve_refs_spec(c, a, a.len()) is Ok && resolve_refs_spec(c, b, b.len()) is Ok {
        lemma_refs_concat(
            c,
            a,
            b,
            resolve_refs_spec(c, a, a.len())->Ok_0,
            resolve_refs_spec(c, b, b.len())->Ok_0,
            b.len(),
        );
    }
}

/// A connection into a named node other than `out` makes that node yield
/// exactly the source's shapes and changes nothing else; a connection into
/// `out` changes nothing.
pub proof fn ref_destination_names_the_source(
    neurons: Seq<NeuronDef>,
    c: ContextModel,
    conn: Connection,
    src: Seq<Seq<SpecDim>>,
)
    requires
        conn.destination is Ref,
        resolve_endpoint_spec(c, conn.source) == Ok::<Seq<Seq<SpecDim>>, SpecShapeError>(src),
    ensures
        check_connection_spec(neurons, c, conn).1 is Ok,
        conn.destination->Ref_0.node@ != "out"@ ==> check_connection_spec(neurons, c, conn).0
            == c.with_nodes(c.nodes.insert(conn.destination->Ref_0.node@, src)),
        conn.destination->Ref_0.node@ == "out"@ ==> check_connection_spec(neurons, c, conn).0
            == c,
{
}

/// A connection into a call that succeeds records, under the call's id,
/// the shapes of the called neuron's outputs, one per output port in
/// order, and leaves the nodes as they were.
pub proof fn call_records_its_outputs(
    neurons: Seq<NeuronDef>,
    c: ContextModel,
    conn: Connection,
    called: NeuronDef,
)
    requires
        conn.destination is Call,
        lookup_neuron(neurons, conn.destination->name@) == Some(called),
        check_connection_spec(neurons, c, conn).1 is Ok,
    ensures
        check_connection_spec(neurons, c, conn).0.calls.contains_key(conn.destination->id),
        check_connection_spec(neurons, c, conn).0.calls[conn.destination->id].len()
            == called.outputs@.len(),
        forall|i: int|
            0 <= i < called.outputs@.len() ==> check_connection_spec(neurons, c, conn).0.calls[
                conn.destination->id][i] == (#[trigger] called.outputs@[i]).shape@,
        check_connection_spec(neurons, c, conn).0.nodes == c.nodes,
{
    lemma_unify_inputs_keeps_nodes(
        c,
        resolve_endpoint_spec(c, conn.source)->Ok_0,
        crate::shape_inference::ports_shapes(called.inputs@),
        resolve_endpoint_spec(c, conn.source)->Ok_0.len(),
    );
}

proof fn lemma_unify_inputs_keeps_nodes(
    c: ContextModel,
    src: Seq<Seq<SpecDim>>,
    dst: Seq<Seq<SpecDim>>,
    n: nat,
)
    ensures
        crate::shape_inference::unify_inputs_spec(c, src, dst, n).0.nodes == c.nodes,
        crate::shape_inference::unify_inputs_spec(c, src, dst, n).0.calls == c.calls,
    decreases n,
{
    if n > 0 {
        lemma_unify_inputs_keeps_nodes(c, src, dst, (n - 1) as nat);
        let m = crate::shape_inference::unify_inputs_spec(c, src, dst, (n - 1) as nat).0;
        lemma_unify_shapes_keeps_nodes(m, src[n - 1], dst[n - 1]);
    }
}

proof fn lemma_unify_shapes_keeps_nodes(c: ContextModel, s1: Seq<SpecDim>, s2: Seq<SpecDim>)
    ensures
        unify_shapes_spec(c, s1, s2).0.nodes == c.nodes,
        unify_shapes_spec(c, s1, s2).0.calls == c.calls,
{
    if s1.len() == s2.len() {
        lemma_unify_dims_keeps_nodes(c, s1, s2, s1.len());
    }
}

proof fn lemma_unify_dims_keeps_nodes(c: ContextModel, a: Seq<SpecDim>, b: Seq<SpecDim>, n: nat)
    ensures
        unify_dims_spec(c, a, b, n).0.nodes == c.nodes,
        unify_dims_spec(c, a, b, n).0.calls == c.calls,
    decreases n,
{
    if n > 0 {
        lemma_unify_dims_keeps_nodes(c, a, b, (n - 1) as nat);
    }
}

/// A parameter whose default is an integer.
pub open spec fn int_default(p: Param) -> bool {
    p.default is Some && p.default->Some_0 is Int
}

/// Parameters of distinct names.
pub open spec fn distinct_params(params: Seq<Param>) -> bool {
    forall|i: int, j: int|
        0 <= i < j < params.len() ==> (#[trigger] params[i]).name@ != (#[trigger] params[j]).name@
}

proof fn lemma_param_dims(params: Seq<Param>, n: nat)
    requires
        n <= params.len(),
        distinct_params(params),
    ensures
        forall|i: int|
            0 <= i < n && int_default(#[trigger] params[i]) ==> param_dims_spec(params, n).contains_key(
                params[i].name@,
            ) && param_dims_spec(params, n)[params[i].name@] == params[i].default->Some_0->Int_0 as usize,
        forall|i: int|
            0 <= i < n && !int_default(#[trigger] params[i]) ==> !param_dims_spec(params, n).contains_key(
                params[i].name@,
            ),
        forall|k: Seq<char>|
            #[trigger] param_dims_spec(params, n).contains_key(k) ==> exists|i: int|
                0 <= i < n && (#[trigger] params[i]).name@ == k,
    decreases n,
{
    if n > 0 {
        lemma_param_dims(params, (n - 1) as nat);
        assert forall|i: int| 0 <= i < n - 1 implies (#[trigger] params[i]).name@ != params[n
            - 1].name@ by {
            assert(params[i].name@ != params[n - 1].name@);
        }
        let m = param_dims_spec(params, (n - 1) as nat);
        if m.contains_key(params[n - 1].name@) {
            let j = choose|j: int| 0 <= j < n - 1 && (#[trigger] params[j]).name@ == params[n - 1].name@;
            assert(params[j].name@ != params[n - 1].name@);
        }
        assert forall|k: Seq<char>| #[trigger] param_dims_spec(params, n).contains_key(k) implies exists|i: int|
            0 <= i < n && (#[trigger] params[i]).name@ == k by {
            if m.contains_key(k) {
                let j = choose|j: int| 0 <= j < n - 1 && (#[trigger] params[j]).name@ == k;
                assert(params[j].name@ == k);
            } else {
                assert(params[n - 1].name@ == k);
            }
        }
    }
}

/// A graph neuron is checked with each parameter that has an integer
/// default bound to that value, and every other parameter unbound (for
/// parameters of distinct names).
pub proof fn parameters_with_integer_defaults_are_bound(neuron: NeuronDef)
    requires
        distinct_params(neuron.params@),
    ensures
        forall|i: int|
            0 <= i < neuron.params@.len() && int_default(#[trigger] neuron.params@[i])
                ==> initial_context(neuron).dims.contains_key(neuron.params@[i].name@)
                && initial_context(neuron).dims[neuron.params@[i].name@]
                == neuron.params@[i].default->Some_0->Int_0 as usize,
        forall|i: int|
            0 <= i < neuron.params@.len() && !int_default(#[trigger] neuron.params@[i])
                ==> !initial_context(neuron).dims.contains_key(neuron.params@[i].name@),
{
    lemma_param_dims(neuron.params@, neuron.params@.len());
}

proof fn lemma_connections_stop(
    neurons: Seq<NeuronDef>,
    c: ContextModel,
    conns: Seq<Connection>,
    k: nat,
    n: nat,
)
    requires
        k <= n,
        check_connections_spec(neurons, c, conns, k).1 is Err,
    ensures
        check_connections_spec(neurons, c, conns, n) == check_connections_spec(neurons, c, conns, k),
    decreases n,
{
    if n > k {
        lemma_connections_stop(neurons, c, conns, k, (n - 1) as nat);
    }
}

/// Connections are checked in order and the walk stops at the first one
/// that fails: its error, and the context it left, stand for the whole
/// graph, whatever the later connections are. A graph passes exactly when
/// each connection passes in the context the earlier ones left.
pub proof fn graph_stops_at_first_error(
    neurons: Seq<NeuronDef>,
    c: ContextModel,
    conns: Seq<Connection>,
    j: nat,
)
    requires
        j < conns.len(),
        check_connections_spec(neurons, c, conns, j).1 is Ok,
        check_connection_spec(neurons, check_connections_spec(neurons, c, conns, j).0, conns[j as int]).1 is Err,
    ensures
        check_connections_spec(neurons, c, conns, conns.len()) == check_connection_spec(
            neurons,
            check_connections_spec(neurons, c, conns, j).0,
            conns[j as int],
        ),
{
    lemma_connections_stop(neurons, c, conns, j + 1, conns.len());
}

/// Shapes of different rank never unify, and trying changes nothing.
pub proof fn shapes_of_different_rank_never_unify(c: ContextModel, s1: Seq<SpecDim>, s2: Seq<SpecDim>)
    requires
        s1.len() != s2.len(),
    ensures
        unify_shapes_spec(c, s1, s2).1 is Err,
        unify_shapes_spec(c, s1, s2).0 == c,
{
}

/// A call fed a number of shapes other than the number of inputs of the
/// called neuron is refused with an arity error that names the call, the
/// number of inputs and the number of shapes, and the context is left as
/// it was; a call of a neuron the program does not define is refused as
/// an unknown node.
pub proof fn calls_check_their_arity(
    neurons: Seq<NeuronDef>,
    c: ContextModel,
    conn: Connection,
    src: Seq<Seq<SpecDim>>,
    called: NeuronDef,
)
    requires
        conn.destination is Call,
        resolve_endpoint_spec(c, conn.source) == Ok::<Seq<Seq<SpecDim>>, SpecShapeError>(src),
    ensures
        lookup_neuron(neurons, conn.destination->name@) is None ==> check_connection_spec(
            neurons,
            c,
            conn,
        ) == (c, Err::<(), SpecShapeError>(SpecShapeError::UnknownNode(conn.destination->name@))),
        lookup_neuron(neurons, conn.destination->name@) == Some(called) && called.inputs@.len()
            != src.len() ==> check_connection_spec(neurons, c, conn) == (
            c,
            Err::<(), SpecShapeError>(
                SpecShapeError::Mismatch {
                    expected: Seq::empty(),
                    got: Seq::empty(),
                    context: arity_text(conn.destination->name@, called.inputs@.len(), src.len()),
                },
            ),
        ),
{
}

} // verus!
