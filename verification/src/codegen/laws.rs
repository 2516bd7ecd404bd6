//! Properties of module instantiation: the order of the modules and the
//! sharing of one module among equal calls.
use vstd::prelude::*;
use crate::codegen::instantiation::{
    bindings_fold, captured_text, dedup_fold, eager_text, emit_step, has_key,
    insert_sorted, instantiation_spec, pass_text, sort_entries, text_less, text_less_from,
    CallEntry,
};
use crate::codegen::utils::{
    calls_of, ctor_text, has_captured, snake_case, kwarg_text, kwargs_join, kwargs_text, value_text, values_text, CallSig,
};
use crate::ir::{BinOp, Connection, SpecValue};
use crate::interfaces::Binding;
use crate::text::decimal;
use crate::codegen::GenModel;

verus! {

broadcast use vstd::seq_lib::group_to_multiset_ensures;

proof fn lemma_text_less_from_asymmetric(a: Seq<char>, b: Seq<char>, i: int)
    requires
        0 <= i,
    ensures
        text_less_from(a, b, i) ==> !text_less_from(b, a, i),
    decreases a.len() - i,
{
    if i < a.len() && i < b.len() && a[i] == b[i] {
        lemma_text_less_from_asymmetric(a, b, i + 1);
    }
}

/// No text comes before a text that comes before it.
pub proof fn text_less_is_asymmetric(a: Seq<char>, b: Seq<char>)
    ensures
        text_less(a, b) ==> !text_less(b, a),
{
    lemma_text_less_from_asymmetric(a, b, 0);
}

/// Each entry comes no later in the order of module names than the one after it.
pub open spec fn is_ordered(s: Seq<CallEntry>) -> bool {
    forall|i: int| 0 <= i < s.len() - 1 ==> !text_less(s[i + 1].module, #[trigger] s[i].module)
}

proof fn lemma_insert_sorted(s: Seq<CallEntry>, e: CallEntry)
    requires
        is_ordered(s),
    ensures
        is_ordered(insert_sorted(s, e)),
        insert_sorted(s, e).to_multiset() == s.to_multiset().insert(e),
        insert_sorted(s, e).len() == s.len() + 1,
        insert_sorted(s, e).last() == e || (s.len() > 0 && insert_sorted(s, e).last() == s.last()),
    decreases s.len(),
{
    if s.len() == 0 || !text_less(e.module, s.last().module) {
        let r = s.push(e);
        assert forall|i: int| 0 <= i < r.len() - 1 implies !text_less(
            r[i + 1].module,
            #[trigger] r[i].module,
        ) by {
            if i < s.len() - 1 {
                assert(r[i] == s[i] && r[i + 1] == s[i + 1]);
            }
        }
    } else {
        let t = s.drop_last();
        assert forall|i: int| 0 <= i < t.len() - 1 implies !text_less(
            t[i + 1].module,
            #[trigger] t[i].module,
        ) by {
            assert(t[i] == s[i] && t[i + 1] == s[i + 1]);
        }
        lemma_insert_sorted(t, e);
        let u = insert_sorted(t, e);
        let r = u.push(s.last());
        text_less_is_asymmetric(e.module, s.last().module);
        assert forall|i: int| 0 <= i < r.len() - 1 implies !text_less(
            r[i + 1].module,
            #[trigger] r[i].module,
        ) by {
            if i < u.len() - 1 {
                assert(r[i] == u[i] && r[i + 1] == u[i + 1]);
            } else {
                assert(r[i] == u.last());
                if u.last() != e {
                    assert(t.len() > 0 && u.last() == t.last());
                    assert(t.last() == s[s.len() - 2]);
                }
            }
        }
        assert(s =~= t.push(s.last()));
    }
}

/// Sorting keeps every entry and puts the entries in the order of their module names.
pub proof fn sorting_orders_modules(s: Seq<CallEntry>, n: nat)
    requires
        n <= s.len(),
    ensures
        is_ordered(sort_entries(s, n)),
        sort_entries(s, n).to_multiset() == s.take(n as int).to_multiset(),
    decreases n,
{
    if n > 0 {
        sorting_orders_modules(s, (n - 1) as nat);
        lemma_insert_sorted(sort_entries(s, (n - 1) as nat), s[n - 1]);
        assert(s.take(n as int) =~= s.take(n - 1).push(s[n - 1]));
    } else {
        assert(s.take(0) =~= Seq::<CallEntry>::empty());
    }
}

/// The calls of a graph share modules by key: the entries have distinct
/// keys, each call's key has an entry, each entry's key maps to its module,
/// and each entry took one fresh node id.
pub proof fn equal_calls_share_one_module(g: GenModel, sigs: Seq<CallSig>, n: nat)
    requires
        n <= sigs.len(),
    ensures
        ({
            let (g1, es) = dedup_fold(g, sigs, n);
            &&& forall|i: int, j: int|
                0 <= i < j < es.len() ==> (#[trigger] es[i]).key != (#[trigger] es[j]).key
            &&& forall|i: int| 0 <= i < n ==> has_key(es, ctor_text(#[trigger] sigs[i]))
            &&& forall|i: int|
                0 <= i < es.len() ==> g1.call_to_module.contains_key((#[trigger] es[i]).key)
                    && g1.call_to_module[es[i].key] == es[i].module
            &&& g1.counter == g.counter + es.len()
        }),
    decreases n,
{
    if n > 0 {
        equal_calls_share_one_module(g, sigs, (n - 1) as nat);
        let (g0, es0) = dedup_fold(g, sigs, (n - 1) as nat);
        let (g1, es) = dedup_fold(g, sigs, n);
        let key = ctor_text(sigs[n - 1]);
        if !has_key(es0, key) {
            assert forall|i: int| 0 <= i < n implies has_key(es, ctor_text(#[trigger] sigs[i])) by {
                if i < n - 1 {
                    let w = choose|k: int| 0 <= k < es0.len() && (#[trigger] es0[k]).key == ctor_text(sigs[i]);
                    assert(es[w] == es0[w]);
                } else {
                    assert(es[es0.len() as int].key == key);
                }
            }
            assert forall|i: int| 0 <= i < es.len() implies g1.call_to_module.contains_key(
                (#[trigger] es[i]).key,
            ) && g1.call_to_module[es[i].key] == es[i].module by {
                if i < es0.len() {
                    assert(es[i] == es0[i]);
                }
            }
        }
    }
}

/// Whether the name `n` occurs in a value, as a name or anywhere inside
/// either operand of an expression.
pub open spec fn mentions(v: SpecValue, n: Seq<char>) -> bool
    decreases v,
{
    match v {
        SpecValue::Name(m) => m == n,
        SpecValue::Expr(_, l, r) => mentions(*l, n) || mentions(*r, n),
        _ => false,
    }
}

/// A value mentions a captured dimension exactly when some name occurring
/// anywhere in it is not one of the parameters.
pub proof fn captured_iff_some_name_is_not_a_parameter(v: SpecValue, params: Seq<Seq<char>>)
    ensures
        has_captured(v, params) <==> exists|n: Seq<char>| #[trigger]
            mentions(v, n) && !params.contains(n),
    decreases v,
{
    match v {
        SpecValue::Name(m) => {
            if has_captured(v, params) {
                assert(mentions(v, m));
            }
        },
        SpecValue::Expr(op, l, r) => {
            captured_iff_some_name_is_not_a_parameter(*l, params);
            captured_iff_some_name_is_not_a_parameter(*r, params);
            if exists|n: Seq<char>| #[trigger] mentions(v, n) && !params.contains(n) {
                let n = choose|n: Seq<char>| #[trigger] mentions(v, n) && !params.contains(n);
                if mentions(*l, n) {
                    assert(mentions(*l, n) && !params.contains(n));
                } else {
                    assert(mentions(*r, n) && !params.contains(n));
                }
            }
            if has_captured(*l, params) {
                let n = choose|n: Seq<char>| #[trigger] mentions(*l, n) && !params.contains(n);
                assert(mentions(v, n));
            }
            if has_captured(*r, params) {
                let n = choose|n: Seq<char>| #[trigger] mentions(*r, n) && !params.contains(n);
                assert(mentions(v, n));
            }
        },
        _ => {},
    }
}

/// An expression mentions a captured dimension exactly when one of its
/// operands does; a name does when it is not a parameter; numbers,
/// booleans and strings never do.
pub proof fn captured_dimensions_of_parts(
    op: BinOp,
    l: SpecValue,
    r: SpecValue,
    name: Seq<char>,
    params: Seq<Seq<char>>,
)
    ensures
        has_captured(SpecValue::Expr(op, Box::new(l), Box::new(r)), params) <==> (has_captured(
            l,
            params,
        ) || has_captured(r, params)),
        has_captured(SpecValue::Name(name), params) <==> !params.contains(name),
        !has_captured(SpecValue::Str(name), params),
{
    captured_iff_some_name_is_not_a_parameter(l, params);
    captured_iff_some_name_is_not_a_parameter(r, params);
    captured_iff_some_name_is_not_a_parameter(
        SpecValue::Expr(op, Box::new(l), Box::new(r)),
        params,
    );
}

/// A call with an argument or keyword argument that mentions a captured
/// dimension becomes a lazy module, written as `None` and changing nothing
/// else; a call with none is built at once by its constructor.
pub proof fn captured_calls_are_lazy(g: GenModel, e: CallEntry)
    ensures
        (exists|i: int| 0 <= i < e.sig.1.len() && has_captured(#[trigger] e.sig.1[i], g.params))
            || (exists|i: int|
            0 <= i < e.sig.2.len() && has_captured(#[trigger] e.sig.2[i].1, g.params))
            ==> emit_step(g, e) == (g, captured_text(e.module)),
        (forall|i: int| 0 <= i < e.sig.1.len() ==> !has_captured(#[trigger] e.sig.1[i], g.params))
            && (forall|i: int|
            0 <= i < e.sig.2.len() ==> !has_captured(#[trigger] e.sig.2[i].1, g.params))
            ==> emit_step(g, e).1 == eager_text(e.module, e.sig),
{
}

/// Texts separated by `, `.
pub open spec fn join_texts(ts: Seq<Seq<char>>) -> Seq<char>
    decreases ts.len(),
{
    if ts.len() == 0 {
        Seq::empty()
    } else if ts.len() == 1 {
        ts[0]
    } else {
        join_texts(ts.drop_last()) + ", "@ + ts.last()
    }
}

proof fn lemma_join_texts_concat(a: Seq<Seq<char>>, b: Seq<Seq<char>>)
    requires
        a.len() > 0,
        b.len() > 0,
    ensures
        join_texts(a + b) == join_texts(a) + ", "@ + join_texts(b),
    decreases b.len(),
{
    if b.len() == 1 {
        assert((a + b).drop_last() =~= a);
    } else {
        lemma_join_texts_concat(a, b.drop_last());
        assert((a + b).drop_last() =~= a + b.drop_last());
        assert(join_texts(a + b) =~= join_texts(a) + ", "@ + join_texts(b));
    }
}

/// The Python texts of a list of values.
pub open spec fn value_texts(a: Seq<SpecValue>) -> Seq<Seq<char>> {
    a.map_values(|v: SpecValue| value_text(v))
}

/// The `name=value` texts of a list of keyword arguments.
pub open spec fn kwarg_texts(k: Seq<(Seq<char>, SpecValue)>) -> Seq<Seq<char>> {
    k.map_values(|kw: (Seq<char>, SpecValue)| kwarg_text(kw))
}

proof fn lemma_values_text_join(a: Seq<SpecValue>)
    ensures
        values_text(a) == join_texts(value_texts(a)),
    decreases a.len(),
{
    if a.len() > 1 {
        lemma_values_text_join(a.drop_last());
        assert(value_texts(a).drop_last() =~= value_texts(a.drop_last()));
    }
}

proof fn lemma_kwargs_join_join(k: Seq<(Seq<char>, SpecValue)>)
    ensures
        kwargs_join(k) == join_texts(kwarg_texts(k)),
    decreases k.len(),
{
    if k.len() > 1 {
        lemma_kwargs_join_join(k.drop_last());
        assert(kwarg_texts(k).drop_last() =~= kwarg_texts(k.drop_last()));
    }
}

/// A constructor expression is the call's name and, in parentheses, all its
/// arguments separated by `, `: the positional ones, then the keyword ones
/// as `name=value`. In particular no `, ` opens the parentheses, and none is
/// doubled or left out between two arguments.
pub proof fn constructor_lists_every_argument(sig: CallSig)
    ensures
        ctor_text(sig) == sig.0 + "("@ + join_texts(value_texts(sig.1) + kwarg_texts(sig.2)) + ")"@,
{
    lemma_values_text_join(sig.1);
    lemma_kwargs_join_join(sig.2);
    let a = value_texts(sig.1);
    let k = kwarg_texts(sig.2);
    if a.len() == 0 {
        assert(a + k =~= k);
    } else if k.len() == 0 {
        assert(a + k =~= a);
    } else {
        lemma_join_texts_concat(a, k);
    }
    assert(ctor_text(sig) =~= sig.0 + "("@ + join_texts(a + k) + ")"@);
}

/// Distinct calls are numbered in the order of their first use: the `j`-th
/// distinct call is one of the calls, is keyed by its constructor
/// expression, and gets the module named after the called neuron in snake
/// case, `_`, and the `j`-th node id handed out from the generator's counter.
pub proof fn modules_are_numbered_in_order_of_first_use(g: GenModel, sigs: Seq<CallSig>, n: nat)
    requires
        n <= sigs.len(),
    ensures
        ({
            let es = dedup_fold(g, sigs, n).1;
            forall|j: int|
                0 <= j < es.len() ==> {
                    &&& (#[trigger] es[j]).key == ctor_text(es[j].sig)
                    &&& es[j].module == snake_case(es[j].sig.0) + "_"@ + decimal(
                        (g.counter + j) as nat,
                    )
                    &&& exists|i: int| 0 <= i < n && sigs[i] == es[j].sig
                }
        }),
    decreases n,
{
    if n > 0 {
        modules_are_numbered_in_order_of_first_use(g, sigs, (n - 1) as nat);
        equal_calls_share_one_module(g, sigs, (n - 1) as nat);
        let es0 = dedup_fold(g, sigs, (n - 1) as nat).1;
        let es = dedup_fold(g, sigs, n).1;
        assert forall|j: int| 0 <= j < es.len() implies {
            &&& (#[trigger] es[j]).key == ctor_text(es[j].sig)
            &&& es[j].module == snake_case(es[j].sig.0) + "_"@ + decimal((g.counter + j) as nat)
            &&& exists|i: int| 0 <= i < n && sigs[i] == es[j].sig
        } by {
            if j < es0.len() {
                assert(es[j] == es0[j]);
                let i = choose|i: int| 0 <= i < n - 1 && sigs[i] == es0[j].sig;
                assert(0 <= i < n && sigs[i] == es[j].sig);
            } else {
                assert(sigs[n - 1] == es[j].sig);
            }
        }
    }
}

/// An `__init__` with no binding and no call says `pass` and nothing else.
pub proof fn empty_init_says_pass(g: GenModel, bs: Seq<Binding>, conns: Seq<Connection>)
    requires
        bs.len() == 0,
        calls_of(conns, conns.len()).len() == 0,
    ensures
        instantiation_spec(g, bs, conns).1 == pass_text(),
{
    let sigs = calls_of(conns, conns.len());
    let g1 = bindings_fold(g, bs, 0).0;
    let es = dedup_fold(g1, sigs, 0).1;
    assert(es.len() == 0);
    assert(sort_entries(es, 0).len() == 0);
    assert(Seq::<char>::empty() + Seq::<char>::empty() + pass_text() =~= pass_text());
}

} // verus!
