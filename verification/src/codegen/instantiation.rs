//! Module instantiation logic for `__init__` method generation.
//!
//! Named bindings of the neuron's context come first, each in its scope;
//! then every distinct anonymous call of the graph gets one module, named
//! after the called neuron and a fresh node id, and the modules are written
//! in the order of their names. A call whose arguments mention dimensions
//! captured from shape patterns is instantiated lazily.
use vstd::prelude::*;
use vstd::string::*;
use crate::codegen::utils::{
    calls_of, collect_calls_impl, ctor_text, endpoint_key_impl, endpoint_sig, has_captured,
    has_captured_dimensions_impl, kwargs_join, kwargs_text, names_model, push_kwargs, push_values,
    sigs_of, snake_case, snake_case_impl, values_text, CallSig,
};
use crate::codegen::{CodeGenerator, GenModel};
use crate::interfaces::{Binding, CodegenError, Scope};
use crate::ir::{
    clone_kwargs, clone_values, kwargs_model, lookup_neuron, values_model, Connection, Endpoint,
    Kwarg, SpecValue, Value,
};
use crate::text::{decimal, push_decimal};

verus! {

// ---------------------------------------------------------------------------
// Specification
// ---------------------------------------------------------------------------

/// Whether a called name is a primitive: a primitive neuron of the
/// program, or a name the program does not define.
pub open spec fn is_primitive_call(g: GenModel, name: Seq<char>) -> bool {
    match lookup_neuron(g.neurons, name) {
        Some(nd) => nd.body is Primitive,
        None => true,
    }
}

/// Records `name` among the used primitives when it is one.
pub open spec fn note_primitive_spec(g: GenModel, name: Seq<char>) -> GenModel {
    if is_primitive_call(g, name) {
        GenModel { primitives: g.primitives.insert(name), ..g }
    } else {
        g
    }
}

/// The call a binding makes.
pub open spec fn binding_sig(b: Binding) -> CallSig {
    (b.call_name@, values_model(b.args@), kwargs_model(b.kwargs@))
}

pub open spec fn static_text(m: Seq<char>, sig: CallSig) -> Seq<char> {
    "        if not hasattr(self.__class__, '"@ + m + "'):\n"@ + "            self.__class__."@ + m
        + " = "@ + ctor_text(sig) + "\n"@
}

pub open spec fn lazy_binding_text(m: Seq<char>) -> Seq<char> {
    "        self._"@ + m + " = None  # Lazy instantiation (@lazy)\n"@
}

pub open spec fn eager_text(m: Seq<char>, sig: CallSig) -> Seq<char> {
    "        self."@ + m + " = "@ + ctor_text(sig) + "\n"@
}

pub open spec fn captured_text(m: Seq<char>) -> Seq<char> {
    "        self._"@ + m + " = None  # Lazy instantiation (captured)\n"@
}

pub open spec fn pass_text() -> Seq<char> {
    "        pass\n"@
}

/// One binding: the generator afterwards, the text written, and whether
/// a module was instantiated.
pub open spec fn binding_step(g: GenModel, b: Binding) -> (GenModel, Seq<char>, bool) {
    let g1 = note_primitive_spec(g, b.call_name@);
    let m = b.name@;
    let sig = binding_sig(b);
    match b.scope {
        Scope::Static => (
            GenModel { var_names: g1.var_names.insert(m, "self.__class__."@ + m), ..g1 },
            static_text(m, sig),
            true,
        ),
        Scope::Instance { lazy } => if lazy {
            (
                GenModel {
                    lazy: g1.lazy.insert(m, sig),
                    var_names: g1.var_names.insert(m, "self._"@ + m),
                    ..g1
                },
                lazy_binding_text(m),
                true,
            )
        } else {
            (
                GenModel { var_names: g1.var_names.insert(m, "self."@ + m), ..g1 },
                eager_text(m, sig),
                true,
            )
        },
        Scope::Global => (
            GenModel { var_names: g1.var_names.insert(m, b.call_name@), ..g1 },
            Seq::empty(),
            false,
        ),
    }
}

/// The first `n` bindings, in order.
pub open spec fn bindings_fold(g: GenModel, bs: Seq<Binding>, n: nat) -> (GenModel, Seq<char>, bool)
    decreases n,
{
    if n == 0 {
        (g, Seq::empty(), false)
    } else {
        let (g1, t1, a1) = bindings_fold(g, bs, (n - 1) as nat);
        let (g2, t2, a2) = binding_step(g1, bs[n - 1]);
        (g2, t1 + t2, a1 || a2)
    }
}

/// A distinct anonymous call: its key, its signature and its module name.
pub struct CallEntry {
    pub key: Seq<char>,
    pub sig: CallSig,
    pub module: Seq<char>,
}

/// Whether some entry has this key.
pub open spec fn has_key(es: Seq<CallEntry>, key: Seq<char>) -> bool {
    exists|i: int| 0 <= i < es.len() && (#[trigger] es[i]).key == key
}

/// One call: a new key gets a fresh node id and a module named after the
/// called neuron and that id; a key already seen is skipped.
pub open spec fn dedup_step(g: GenModel, es: Seq<CallEntry>, sig: CallSig) -> (
    GenModel,
    Seq<CallEntry>,
) {
    let key = ctor_text(sig);
    if has_key(es, key) {
        (g, es)
    } else {
        let module = snake_case(sig.0) + "_"@ + decimal(g.counter);
        (
            GenModel {
                counter: g.counter + 1,
                call_to_module: g.call_to_module.insert(key, module),
                ..g
            },
            es.push(CallEntry { key, sig, module }),
        )
    }
}

/// Whether one of the first `n` calls has this key.
pub open spec fn key_among(sigs: Seq<CallSig>, n: int, key: Seq<char>) -> bool {
    exists|j: int| 0 <= j < n && #[trigger] ctor_text(sigs[j]) == key
}

/// The number of distinct keys among the first `n` calls.
pub open spec fn distinct_calls(sigs: Seq<CallSig>, n: nat) -> nat
    decreases n,
{
    if n == 0 {
        0
    } else {
        distinct_calls(sigs, (n - 1) as nat) + if key_among(sigs, n - 1, ctor_text(sigs[n - 1])) {
            0nat
        } else {
            1nat
        }
    }
}

/// The first `n` calls, in order.
pub open spec fn dedup_fold(g: GenModel, sigs: Seq<CallSig>, n: nat) -> (GenModel, Seq<CallEntry>)
    decreases n,
{
    if n == 0 {
        (g, Seq::empty())
    } else {
        let (g1, es) = dedup_fold(g, sigs, (n - 1) as nat);
        dedup_step(g1, es, sigs[n - 1])
    }
}

/// Lexicographic order of texts from position `i` on, characters compared by code point.
pub open spec fn text_less_from(a: Seq<char>, b: Seq<char>, i: int) -> bool
    decreases a.len() - i,
{
    if i < 0 || i >= a.len() {
        0 <= i < b.len()
    } else if i >= b.len() {
        false
    } else if a[i] != b[i] {
        (a[i] as u32) < (b[i] as u32)
    } else {
        text_less_from(a, b, i + 1)
    }
}

/// Lexicographic order of texts, characters compared by code point.
pub open spec fn text_less(a: Seq<char>, b: Seq<char>) -> bool {
    text_less_from(a, b, 0)
}

/// Inserts an entry into a sorted list, after every entry whose module
/// name is not greater than its own.
pub open spec fn insert_sorted(s: Seq<CallEntry>, e: CallEntry) -> Seq<CallEntry>
    decreases s.len(),
{
    if s.len() == 0 || !text_less(e.module, s.last().module) {
        s.push(e)
    } else {
        insert_sorted(s.drop_last(), e).push(s.last())
    }
}

/// The first `n` entries sorted by module name; entries with equal names keep their order.
pub open spec fn sort_entries(s: Seq<CallEntry>, n: nat) -> Seq<CallEntry>
    decreases n,
{
    if n == 0 {
        Seq::empty()
    } else {
        insert_sorted(sort_entries(s, (n - 1) as nat), s[n - 1])
    }
}

/// Whether some argument mentions a captured dimension.
pub open spec fn any_captured(
    args: Seq<SpecValue>,
    kwargs: Seq<(Seq<char>, SpecValue)>,
    params: Seq<Seq<char>>,
) -> bool {
    ||| exists|i: int| 0 <= i < args.len() && has_captured(#[trigger] args[i], params)
    ||| exists|i: int| 0 <= i < kwargs.len() && has_captured(#[trigger] kwargs[i].1, params)
}

/// One module: lazy when it mentions captured dimensions, else built at once.
pub open spec fn emit_step(g: GenModel, e: CallEntry) -> (GenModel, Seq<char>) {
    if any_captured(e.sig.1, e.sig.2, g.params) {
        (g, captured_text(e.module))
    } else {
        (note_primitive_spec(g, e.sig.0), eager_text(e.module, e.sig))
    }
}

/// The first `n` modules, in order.
pub open spec fn emit_fold(g: GenModel, es: Seq<CallEntry>, n: nat) -> (GenModel, Seq<char>)
    decreases n,
{
    if n == 0 {
        (g, Seq::empty())
    } else {
        let (g1, t1) = emit_fold(g, es, (n - 1) as nat);
        let (g2, t2) = emit_step(g1, es[n - 1]);
        (g2, t1 + t2)
    }
}

/// The distinct anonymous calls of a graph, sorted by module name, with
/// the generator after their ids were handed out.
pub open spec fn call_entries(g: GenModel, conns: Seq<Connection>) -> (GenModel, Seq<CallEntry>) {
    let sigs = calls_of(conns, conns.len());
    let (g1, es) = dedup_fold(g, sigs, sigs.len());
    (g1, sort_entries(es, es.len()))
}

/// The generator and the text after instantiating the bindings and the calls of a graph.
pub open spec fn instantiation_spec(g: GenModel, bs: Seq<Binding>, conns: Seq<Connection>) -> (
    GenModel,
    Seq<char>,
) {
    let (g1, t1, a1) = bindings_fold(g, bs, bs.len());
    let (g2, sorted) = call_entries(g1, conns);
    let (g3, t2) = emit_fold(g2, sorted, sorted.len());
    (g3, t1 + t2 + if !a1 && sorted.len() == 0 {
        pass_text()
    } else {
        Seq::empty()
    })
}

// ---------------------------------------------------------------------------
// Proofs about the folds
// ---------------------------------------------------------------------------

proof fn lemma_insert_sorted_at(s: Seq<CallEntry>, e: CallEntry, j: int)
    requires
        0 <= j <= s.len(),
        forall|k: int| j <= k < s.len() ==> text_less(e.module, (#[trigger] s[k]).module),
        j == 0 || !text_less(e.module, s[j - 1].module),
    ensures
        insert_sorted(s, e) == s.take(j) + seq![e] + s.skip(j),
    decreases s.len(),
{
    if j == s.len() {
        assert(s.take(j) + seq![e] + s.skip(j) =~= s.push(e));
    } else {
        let t = s.drop_last();
        assert(text_less(e.module, s[s.len() - 1].module));
        assert forall|k: int| j <= k < t.len() implies text_less(e.module, (#[trigger] t[k]).module) by {
            assert(t[k] == s[k]);
        }
        if j > 0 {
            assert(t[j - 1] == s[j - 1]);
        }
        lemma_insert_sorted_at(t, e, j);
        assert(t.take(j) + seq![e] + t.skip(j) + seq![s.last()] =~= s.take(j) + seq![e] + s.skip(j));
    }
}

proof fn lemma_dedup_count(g: GenModel, sigs: Seq<CallSig>, n: nat)
    ensures
        dedup_fold(g, sigs, n).0.counter == g.counter + dedup_fold(g, sigs, n).1.len(),
        dedup_fold(g, sigs, n).1.len() <= n,
    decreases n,
{
    if n > 0 {
        lemma_dedup_count(g, sigs, (n - 1) as nat);
    }
}

proof fn lemma_dedup_distinct(g: GenModel, sigs: Seq<CallSig>, n: nat)
    requires
        n <= sigs.len(),
    ensures
        dedup_fold(g, sigs, n).1.len() == distinct_calls(sigs, n),
        forall|key: Seq<char>|
            #[trigger] has_key(dedup_fold(g, sigs, n).1, key) == key_among(sigs, n as int, key),
    decreases n,
{
    if n > 0 {
        let m = (n - 1) as nat;
        lemma_dedup_distinct(g, sigs, m);
        let (g1, es) = dedup_fold(g, sigs, m);
        let key = ctor_text(sigs[m as int]);
        let es2 = dedup_fold(g, sigs, n).1;
        assert forall|k: Seq<char>| #[trigger] has_key(es2, k) == key_among(sigs, n as int, k) by {
            if key_among(sigs, n as int, k) {
                let j = choose|j: int| 0 <= j < n && #[trigger] ctor_text(sigs[j]) == k;
                if j < m {
                    assert(key_among(sigs, m as int, k));
                    assert(has_key(es, k));
                    let w = choose|w: int| 0 <= w < es.len() && (#[trigger] es[w]).key == k;
                    assert(es2[w] == es[w]);
                } else if !has_key(es, key) {
                    assert(es2[es.len() as int].key == k);
                }
            }
            if has_key(es2, k) {
                let w = choose|w: int| 0 <= w < es2.len() && (#[trigger] es2[w]).key == k;
                if w < es.len() {
                    assert(es[w] == es2[w]);
                    assert(has_key(es, k));
                    let j = choose|j: int| 0 <= j < m && #[trigger] ctor_text(sigs[j]) == k;
                    assert(0 <= j < n);
                } else {
                    assert(ctor_text(sigs[m as int]) == k);
                }
            }
        }
    }
}

proof fn lemma_distinct_monotone(sigs: Seq<CallSig>, i: nat, n: nat)
    requires
        i <= n,
    ensures
        distinct_calls(sigs, i) <= distinct_calls(sigs, n),
    decreases n,
{
    if i < n {
        lemma_distinct_monotone(sigs, i, (n - 1) as nat);
    }
}

proof fn lemma_sort_len(s: Seq<CallEntry>, n: nat)
    requires
        n <= s.len(),
    ensures
        sort_entries(s, n).len() == n,
    decreases n,
{
    if n > 0 {
        lemma_sort_len(s, (n - 1) as nat);
        lemma_insert_sorted_len(sort_entries(s, (n - 1) as nat), s[n - 1]);
    }
}

proof fn lemma_insert_sorted_len(s: Seq<CallEntry>, e: CallEntry)
    ensures
        insert_sorted(s, e).len() == s.len() + 1,
    decreases s.len(),
{
    if s.len() > 0 && text_less(e.module, s.last().module) {
        lemma_insert_sorted_len(s.drop_last(), e);
    }
}

// ---------------------------------------------------------------------------
// Implementation
// ---------------------------------------------------------------------------

/// A distinct call waiting for its module to be written.
struct PendingCall {
    key: String,
    name: String,
    module_name: String,
    args: Vec<Value>,
    kwargs: Vec<Kwarg>,
}

impl View for PendingCall {
    type V = CallEntry;

    closed spec fn view(&self) -> CallEntry {
        CallEntry {
            key: self.key@,
            sig: (self.name@, values_model(self.args@), kwargs_model(self.kwargs@)),
            module: self.module_name@,
        }
    }
}

spec fn entries_model(s: Seq<PendingCall>) -> Seq<CallEntry> {
    s.map_values(|p: PendingCall| p@)
}

fn note_primitive(gen: &mut CodeGenerator, name: &String)
    ensures
        final(gen)@ == note_primitive_spec(old(gen)@, name@),
{
    let primitive = match gen.program.get_neuron(name) {
        Some(neuron) => neuron.is_primitive(),
        None => true,
    };
    if primitive {
        gen.used_primitives.insert(name.clone());
    }
}

fn set_var_name(gen: &mut CodeGenerator, key: String, value: String)
    ensures
        final(gen)@ == (GenModel { var_names: old(gen)@.var_names.insert(key@, value@), ..old(gen)@ }),
{
    let ghost k = key@;
    let ghost v = value@;
    gen.var_names.insert(key, value);
    assert(gen@.var_names =~= old(gen)@.var_names.insert(k, v));
}

fn set_lazy_binding(gen: &mut CodeGenerator, key: String, call: (String, Vec<Value>, Vec<Kwarg>))
    ensures
        final(gen)@ == (GenModel {
            lazy: old(gen)@.lazy.insert(
                key@,
                (call.0@, values_model(call.1@), kwargs_model(call.2@)),
            ),
            ..old(gen)@
        }),
{
    let ghost k = key@;
    let ghost v = (call.0@, values_model(call.1@), kwargs_model(call.2@));
    gen.lazy_bindings.insert(key, call);
    assert(gen@.lazy =~= old(gen)@.lazy.insert(k, v));
}

fn set_call_module(gen: &mut CodeGenerator, key: String, module: String)
    ensures
        final(gen)@ == (GenModel {
            call_to_module: old(gen)@.call_to_module.insert(key@, module@),
            ..old(gen)@
        }),
{
    let ghost k = key@;
    let ghost v = module@;
    gen.call_to_module.insert(key, module);
    assert(gen@.call_to_module =~= old(gen)@.call_to_module.insert(k, v));
}

fn has_pending_key(pending: &Vec<PendingCall>, key: &String) -> (r: bool)
    ensures
        r == has_key(entries_model(pending@), key@),
{
    let n = pending.len();
    for i in 0..n
        invariant
            n == pending@.len(),
            forall|j: int| 0 <= j < i ==> (#[trigger] pending@[j]).key@ != key@,
    {
        if pending[i].key == *key {
            assert(entries_model(pending@)[i as int].key == key@);
            return true;
        }
    }
    assert forall|j: int| 0 <= j < n implies (#[trigger] entries_model(pending@)[j]).key != key@ by {
        assert(entries_model(pending@)[j] == pending@[j]@);
    }
    false
}

/// Whether the strict lexicographic order puts `a` before `b`.
fn text_less_impl(a: &String, b: &String) -> (r: bool)
    ensures
        r == text_less(a@, b@),
{
    let sa = a.as_str();
    let sb = b.as_str();
    let la = sa.unicode_len();
    let lb = sb.unicode_len();
    let mut i: usize = 0;
    while i < la && i < lb
        invariant
            sa@ == a@,
            sb@ == b@,
            la == a@.len(),
            lb == b@.len(),
            i <= la,
            i <= lb,
            text_less(a@, b@) == text_less_from(a@, b@, i as int),
        decreases la - i,
    {
        let ca = sa.get_char(i);
        let cb = sb.get_char(i);
        if ca != cb {
            return (ca as u32) < (cb as u32);
        }
        i = i + 1;
    }
    i < lb
}

fn any_captured_impl(args: &Vec<Value>, kwargs: &Vec<Kwarg>, params: &Vec<String>) -> (r: bool)
    ensures
        r == any_captured(values_model(args@), kwargs_model(kwargs@), names_model(params@)),
{
    let ghost va = values_model(args@);
    let ghost vk = kwargs_model(kwargs@);
    let ghost ps = names_model(params@);
    let na = args.len();
    for i in 0..na
        invariant
            na == args@.len(),
            va == values_model(args@),
            ps == names_model(params@),
            forall|j: int| 0 <= j < i ==> !has_captured(#[trigger] va[j], ps),
    {
        if has_captured_dimensions_impl(&args[i], params) {
            assert(has_captured(va[i as int], ps));
            return true;
        }
    }
    let nk = kwargs.len();
    for i in 0..nk
        invariant
            na == args@.len(),
            nk == kwargs@.len(),
            va == values_model(args@),
            vk == kwargs_model(kwargs@),
            ps == names_model(params@),
            forall|j: int| 0 <= j < na ==> !has_captured(#[trigger] va[j], ps),
            forall|j: int| 0 <= j < i ==> !has_captured(#[trigger] vk[j].1, ps),
    {
        if has_captured_dimensions_impl(&kwargs[i].1, params) {
            assert(has_captured(vk[i as int].1, ps));
            return true;
        }
    }
    false
}

/// The positional and keyword argument texts of a call. The keyword text
/// starts with `, ` only when positional arguments come before it.
pub fn extract_kwargs(args: &[Value], kwargs: &[Kwarg]) -> (r: (String, String))
    ensures
        r.0@ == values_text(values_model(args@)),
        r.1@ == kwargs_text(values_model(args@), kwargs_model(kwargs@)),
{
    let mut args_str = String::new();
    push_values(&mut args_str, args);
    assert(args_str@ =~= values_text(values_model(args@)));
    if args.len() > 0 {
        (args_str, format_kwargs_impl(kwargs))
    } else {
        let mut kwargs_str = String::new();
        push_kwargs(&mut kwargs_str, kwargs);
        assert(kwargs_str@ =~= kwargs_join(kwargs_model(kwargs@)));
        (args_str, kwargs_str)
    }
}

/// Keyword arguments as they follow positional ones: nothing, or `, `
/// and `name=value` pairs separated by `, `.
pub fn format_kwargs_impl(kwargs: &[Kwarg]) -> (s: String)
    ensures
        s@ == if kwargs@.len() == 0 {
            Seq::<char>::empty()
        } else {
            ", "@ + kwargs_join(kwargs_model(kwargs@))
        },
{
    let mut s = String::new();
    if kwargs.len() > 0 {
        s.append(", ");
    }
    push_kwargs(&mut s, kwargs);
    assert(s@ =~= if kwargs@.len() == 0 {
        Seq::<char>::empty()
    } else {
        ", "@ + kwargs_join(kwargs_model(kwargs@))
    });
    s
}

/// The name of a call endpoint; empty for the other endpoints.
pub fn extract_call_name(endpoint: &Endpoint) -> (s: String)
    ensures
        s@ == endpoint_sig(*endpoint).0,
{
    match endpoint {
        Endpoint::Call { name, .. } => name.clone(),
        _ => String::new(),
    }
}

/// The positional arguments of a call endpoint; none for the other endpoints.
pub fn extract_call_args(endpoint: &Endpoint) -> (v: Vec<Value>)
    ensures
        values_model(v@) == endpoint_sig(*endpoint).1,
{
    match endpoint {
        Endpoint::Call { args, .. } => clone_values(args),
        _ => {
            let v: Vec<Value> = Vec::new();
            assert(values_model(v@) =~= Seq::<SpecValue>::empty());
            v
        },
    }
}

/// The keyword arguments of a call endpoint; none for the other endpoints.
pub fn extract_call_kwargs(endpoint: &Endpoint) -> (v: Vec<Kwarg>)
    ensures
        kwargs_model(v@) == endpoint_sig(*endpoint).2,
{
    match endpoint {
        Endpoint::Call { kwargs, .. } => clone_kwargs(kwargs),
        _ => {
            let v: Vec<Kwarg> = Vec::new();
            assert(kwargs_model(v@) =~= Seq::<(Seq<char>, SpecValue)>::empty());
            v
        },
    }
}

fn write_ctor_line(
    output: &mut String,
    prefix: &str,
    module_name: &String,
    name: &String,
    args: &Vec<Value>,
    kwargs: &Vec<Kwarg>,
)
    ensures
        final(output)@ == old(output)@ + prefix@ + module_name@ + " = "@ + ctor_text(
            (name@, values_model(args@), kwargs_model(kwargs@)),
        ) + "\n"@,
{
    let ghost start = output@;
    let (args_str, kwargs_str) = extract_kwargs(args.as_slice(), kwargs.as_slice());
    output.append(prefix);
    output.append(module_name.as_str());
    output.append(" = ");
    output.append(name.as_str());
    output.append("(");
    output.append(args_str.as_str());
    output.append(kwargs_str.as_str());
    output.append(")");
    output.append("\n");
    assert(output@ =~= start + prefix@ + module_name@ + " = "@ + ctor_text(
        (name@, values_model(args@), kwargs_model(kwargs@)),
    ) + "\n"@);
}

fn instantiate_binding(gen: &mut CodeGenerator, output: &mut String, binding: &Binding) -> (r: bool)
    ensures
        (final(gen)@, final(output)@, r) == ({
            let (g, t, a) = binding_step(old(gen)@, *binding);
            (g, old(output)@ + t, a)
        }),
{
    let ghost start = output@;
    let module_name = &binding.name;
    let name = &binding.call_name;
    let args = &binding.args;
    let kwargs = &binding.kwargs;
    note_primitive(gen, name);
    match &binding.scope {
        Scope::Static => {
            output.append("        if not hasattr(self.__class__, '");
            output.append(module_name.as_str());
            output.append("'):\n");
            write_ctor_line(output, "            self.__class__.", module_name, name, args, kwargs);
            let mut var = String::from_str("self.__class__.");
            var.append(module_name.as_str());
            set_var_name(gen, module_name.clone(), var);
            assert(output@ =~= start + static_text(module_name@, binding_sig(*binding)));
            true
        },
        Scope::Instance { lazy } => {
            if *lazy {
                output.append("        self._");
                output.append(module_name.as_str());
                output.append(" = None  # Lazy instantiation (@lazy)\n");
                set_lazy_binding(
                    gen,
                    module_name.clone(),
                    (name.clone(), clone_values(args), clone_kwargs(kwargs)),
                );
                let mut var = String::from_str("self._");
                var.append(module_name.as_str());
                set_var_name(gen, module_name.clone(), var);
                assert(output@ =~= start + lazy_binding_text(module_name@));
                true
            } else {
                write_ctor_line(output, "        self.", module_name, name, args, kwargs);
                let mut var = String::from_str("self.");
                var.append(module_name.as_str());
                set_var_name(gen, module_name.clone(), var);
                true
            }
        },
        Scope::Global => {
            set_var_name(gen, module_name.clone(), name.clone());
            assert(output@ =~= start + Seq::<char>::empty());
            false
        },
    }
}

fn emit_call(gen: &mut CodeGenerator, output: &mut String, call: &PendingCall)
    ensures
        (final(gen)@, final(output)@) == ({
            let (g, t) = emit_step(old(gen)@, call@);
            (g, old(output)@ + t)
        }),
{
    let ghost start = output@;
    if any_captured_impl(&call.args, &call.kwargs, &gen.current_neuron_params) {
        output.append("        self._");
        output.append(call.module_name.as_str());
        output.append(" = None  # Lazy instantiation (captured)\n");
        assert(output@ =~= start + captured_text(call.module_name@));
        return;
    }
    note_primitive(gen, &call.name);
    write_ctor_line(output, "        self.", &call.module_name, &call.name, &call.args, &call.kwargs);
}

/// The distinct calls among the call endpoints, in order of first
/// occurrence, each with a fresh node id and module name.
#[verifier::loop_isolation(false)]
fn dedup_calls(gen: &mut CodeGenerator, all_endpoints: &Vec<Endpoint>) -> (pending: Vec<PendingCall>)
    requires
        old(gen).node_counter + distinct_calls(sigs_of(all_endpoints@), all_endpoints@.len())
            <= usize::MAX,
        forall|k: int| 0 <= k < all_endpoints@.len() ==> (#[trigger] all_endpoints@[k]) is Call,
    ensures
        (final(gen)@, entries_model(pending@)) == dedup_fold(
            old(gen)@,
            sigs_of(all_endpoints@),
            all_endpoints@.len(),
        ),
{
    let ghost g1 = gen@;
    let ghost sigs = sigs_of(all_endpoints@);
    let mut pending: Vec<PendingCall> = Vec::new();
    assert(entries_model(pending@) =~= Seq::<CallEntry>::empty());
    let ne = all_endpoints.len();
    for i in 0..ne
        invariant
            ne == all_endpoints@.len(),
            sigs == sigs_of(all_endpoints@),
            g1.counter + distinct_calls(sigs, ne as nat) <= usize::MAX,
            gen.node_counter == gen@.counter,
            ({
                let (g, es) = dedup_fold(g1, sigs, i as nat);
                gen@ == g && entries_model(pending@) == es
            }),
    {
        proof {
            lemma_dedup_count(g1, sigs, i as nat);
            lemma_dedup_distinct(g1, sigs, i as nat);
            lemma_distinct_monotone(sigs, (i + 1) as nat, ne as nat);
            assert(sigs[i as int] == endpoint_sig(all_endpoints@[i as int]));
        }
        let endpoint = &all_endpoints[i];
        let key = endpoint_key_impl(endpoint);
        if !has_pending_key(&pending, &key) {
            let id = gen.next_node_id();
            let name = extract_call_name(endpoint);
            let mut module_name = snake_case_impl(&name);
            module_name.append("_");
            push_decimal(&mut module_name, id as u64);
            let args = extract_call_args(endpoint);
            let kwargs = extract_call_kwargs(endpoint);
            set_call_module(gen, key.clone(), module_name.clone());
            let ghost before = pending@;
            pending.push(PendingCall { key, name, module_name, args, kwargs });
            assert(entries_model(pending@) =~= entries_model(before).push(pending@.last()@));
        }
    }
    pending
}

/// The calls sorted by module name; calls with equal names keep their order.
fn sort_calls(pending: Vec<PendingCall>) -> (sorted: Vec<PendingCall>)
    ensures
        entries_model(sorted@) == sort_entries(entries_model(pending@), pending@.len()),
{
    let ghost es = entries_model(pending@);
    let mut pending = pending;
    let mut sorted: Vec<PendingCall> = Vec::new();
    assert(entries_model(sorted@) =~= sort_entries(es, 0));
    let np = pending.len();
    let mut k: usize = 0;
    assert(es.skip(0) =~= es);
    while k < np
        invariant
            np == es.len(),
            k <= np,
            pending@.len() + k == np,
            entries_model(pending@) == es.skip(k as int),
            entries_model(sorted@) == sort_entries(es, k as nat),
        decreases np - k,
    {
        let ghost s_before = entries_model(sorted@);
        let ghost p_before = pending@;
        let e = pending.remove(0);
        assert(e@ == es[k as int]) by {
            assert(entries_model(p_before)[0] == es.skip(k as int)[0]);
        }
        assert(entries_model(pending@) =~= es.skip(k + 1)) by {
            assert forall|q: int| 0 <= q < pending@.len() implies #[trigger] entries_model(pending@)[q]
                == es.skip(k + 1)[q] by {
                assert(pending@[q] == p_before[q + 1]);
                assert(entries_model(p_before)[q + 1] == es.skip(k as int)[q + 1]);
            }
        }
        let mut j = sorted.len();
        while j > 0 && text_less_impl(&e.module_name, &sorted[j - 1].module_name)
            invariant
                j <= sorted@.len(),
                entries_model(sorted@) == s_before,
                forall|q: int|
                    j <= q < s_before.len() ==> text_less(e@.module, (#[trigger] s_before[q]).module),
            decreases j,
        {
            proof {
                assert(s_before[j - 1] == sorted@[j - 1]@);
            }
            j = j - 1;
        }
        proof {
            if j > 0 {
                assert(s_before[j - 1] == sorted@[j - 1]@);
            }
            lemma_insert_sorted_at(s_before, e@, j as int);
        }
        sorted.insert(j, e);
        assert(entries_model(sorted@) =~= s_before.take(j as int) + seq![e@] + s_before.skip(
            j as int,
        ));
        k = k + 1;
    }
    sorted
}

/// Writes the named bindings of the context, in order.
#[verifier::loop_isolation(false)]
fn instantiate_bindings(gen: &mut CodeGenerator, output: &mut String, context_bindings: &[Binding]) -> (r: bool)
    ensures
        (final(gen)@, final(output)@, r) == ({
            let (g, t, a) = bindings_fold(old(gen)@, context_bindings@, context_bindings@.len());
            (g, old(output)@ + t, a)
        }),
        final(gen).node_counter == old(gen).node_counter,
{
    let ghost g0 = gen@;
    let ghost out0 = output@;
    let mut instantiated = false;
    let nb = context_bindings.len();
    for i in 0..nb
        invariant
            nb == context_bindings@.len(),
            gen.node_counter == old(gen).node_counter,
            ({
                let (g, t, a) = bindings_fold(g0, context_bindings@, i as nat);
                gen@ == g && output@ == out0 + t && instantiated == a
            }),
    {
        let any = instantiate_binding(gen, output, &context_bindings[i]);
        instantiated = instantiated || any;
        proof {
            let (g, t, a) = bindings_fold(g0, context_bindings@, i as nat);
            let (g2, t2, a2) = binding_step(g, context_bindings@[i as int]);
            assert(output@ =~= out0 + (t + t2));
        }
    }
    instantiated
}

/// Writes one module per call, in order.
#[verifier::loop_isolation(false)]
fn emit_calls(gen: &mut CodeGenerator, output: &mut String, sorted: &Vec<PendingCall>)
    ensures
        (final(gen)@, final(output)@) == ({
            let (g, t) = emit_fold(old(gen)@, entries_model(sorted@), sorted@.len());
            (g, old(output)@ + t)
        }),
{
    let ghost g2 = gen@;
    let ghost out1 = output@;
    let ghost sorted_es = entries_model(sorted@);
    let ns = sorted.len();
    for i in 0..ns
        invariant
            ns == sorted_es.len(),
            sorted_es == entries_model(sorted@),
            ({
                let (g, t) = emit_fold(g2, sorted_es, i as nat);
                gen@ == g && output@ == out1 + t
            }),
    {
        emit_call(gen, output, &sorted[i]);
        proof {
            let (g, t) = emit_fold(g2, sorted_es, i as nat);
            let (g3, t3) = emit_step(g, sorted_es[i as int]);
            assert(sorted_es[i as int] == sorted@[i as int]@);
            assert(output@ =~= out1 + (t + t3));
        }
    }
}

/// Writes the module instantiations of `__init__` to `output`: first the
/// named bindings of the context, then one module per distinct anonymous
/// call of the connections (calls with the same constructor text share a
/// module), sorted by module name; `pass` when nothing was instantiated.
pub fn generate_module_instantiations(
    gen: &mut CodeGenerator,
    output: &mut String,
    context_bindings: &[Binding],
    connections: &[Connection],
) -> (r: Result<(), CodegenError>)
    requires
        old(gen).node_counter + distinct_calls(
            calls_of(connections@, connections@.len()),
            calls_of(connections@, connections@.len()).len(),
        ) <= usize::MAX,
    ensures
        r is Ok,
        (final(gen)@, final(output)@) == ({
            let (g, t) = instantiation_spec(old(gen)@, context_bindings@, connections@);
            (g, old(output)@ + t)
        }),
{
    // 1. Named bindings of the context.
    let instantiated = instantiate_bindings(gen, output, context_bindings);
    let ghost g1 = gen@;
    let ghost out1 = output@;

    // 2. Distinct anonymous calls of the connections, sorted by module name.
    let mut all_endpoints: Vec<Endpoint> = Vec::new();
    collect_calls_impl(connections, &mut all_endpoints);
    assert(sigs_of(all_endpoints@) =~= calls_of(connections@, connections@.len()));
    let pending = dedup_calls(gen, &all_endpoints);
    let ghost g2 = gen@;
    let ghost n_pending = pending@.len();
    let sorted = sort_calls(pending);
    proof {
        lemma_sort_len(entries_model(pending@), n_pending);
    }

    // 3. One module per call.
    emit_calls(gen, output, &sorted);
    if !instantiated && sorted.len() == 0 {
        output.append("        pass\n");
    }
    proof {
        let (g3, t2) = emit_fold(g2, entries_model(sorted@), sorted@.len());
        if !instantiated && sorted@.len() == 0 {
            assert(output@ =~= out1 + t2 + pass_text());
        } else {
            assert(output@ =~= out1 + t2 + Seq::<char>::empty());
        }
    }
    Ok(())
}

} // verus!
