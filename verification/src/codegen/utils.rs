//! Helpers of the PyTorch code generator: Python text of values, module
//! names, call keys and the calls of a graph.
use vstd::prelude::*;
use vstd::string::*;
use crate::ir::{
    clone_kwargs, clone_values, kwargs_model, values_model, BinOp, Connection, Endpoint, Kwarg,
    MatchArm, SpecValue, Value,
};
use crate::text::{int_text, op_text, push_char, push_int};

verus! {

/// The Python text of an operator; division of dimensions is integer division.
pub open spec fn python_op_text(op: BinOp) -> Seq<char> {
    match op {
        BinOp::Div => "//"@,
        _ => op_text(op),
    }
}

/// The Python text of a value.
pub open spec fn value_text(v: SpecValue) -> Seq<char>
    decreases v,
{
    match v {
        SpecValue::Int(n) => int_text(n),
        SpecValue::Bool(b) => if b {
            "True"@
        } else {
            "False"@
        },
        SpecValue::Str(s) => "\""@ + s + "\""@,
        SpecValue::Name(n) => n,
        SpecValue::Expr(op, l, r) => "("@ + value_text(*l) + " "@ + python_op_text(op) + " "@
            + value_text(*r) + ")"@,
    }
}

/// Positional arguments separated by `, `.
pub open spec fn values_text(vs: Seq<SpecValue>) -> Seq<char>
    decreases vs.len(),
{
    if vs.len() == 0 {
        Seq::empty()
    } else if vs.len() == 1 {
        value_text(vs[0])
    } else {
        values_text(vs.drop_last()) + ", "@ + value_text(vs.last())
    }
}

/// One keyword argument: `name=value`.
pub open spec fn kwarg_text(kw: (Seq<char>, SpecValue)) -> Seq<char> {
    kw.0 + "="@ + value_text(kw.1)
}

/// Keyword arguments separated by `, `.
pub open spec fn kwargs_join(ks: Seq<(Seq<char>, SpecValue)>) -> Seq<char>
    decreases ks.len(),
{
    if ks.len() == 0 {
        Seq::empty()
    } else if ks.len() == 1 {
        kwarg_text(ks[0])
    } else {
        kwargs_join(ks.drop_last()) + ", "@ + kwarg_text(ks.last())
    }
}

/// Keyword arguments as they follow the positional arguments `args`: the
/// list, after `, ` when there are both positional and keyword arguments.
pub open spec fn kwargs_text(args: Seq<SpecValue>, ks: Seq<(Seq<char>, SpecValue)>) -> Seq<char> {
    if args.len() > 0 && ks.len() > 0 {
        ", "@ + kwargs_join(ks)
    } else {
        kwargs_join(ks)
    }
}

/// The name, arguments and keyword arguments of a call.
pub type CallSig = (Seq<char>, Seq<SpecValue>, Seq<(Seq<char>, SpecValue)>);

/// The Python constructor expression of a call: `Name(args, key=value)`.
pub open spec fn ctor_text(sig: CallSig) -> Seq<char> {
    sig.0 + "("@ + values_text(sig.1) + kwargs_text(sig.1, sig.2) + ")"@
}

/// An ASCII capital letter.
pub open spec fn is_upper(c: char) -> bool {
    65 <= (c as u32) <= 90
}

/// The small letter of an ASCII capital.
pub open spec fn to_lower(c: char) -> char {
    (((c as u32) + 32) as u8) as char
}

/// An ASCII small letter or digit.
pub open spec fn is_lower_or_digit(c: char) -> bool {
    97 <= (c as u32) <= 122 || 48 <= (c as u32) <= 57
}

/// The snake-case form of the first `n` characters of a name: each capital
/// becomes its small letter, preceded by `_` when it follows a small letter
/// or a digit.
pub open spec fn snake_upto(s: Seq<char>, n: nat) -> Seq<char>
    decreases n,
{
    if n == 0 {
        Seq::empty()
    } else {
        let c = s[n - 1];
        snake_upto(s, (n - 1) as nat) + if is_upper(c) {
            if n - 1 > 0 && is_lower_or_digit(s[n - 2]) {
                seq!['_', to_lower(c)]
            } else {
                seq![to_lower(c)]
            }
        } else {
            seq![c]
        }
    }
}

/// The snake-case form of a name: `LayerNorm` becomes `layer_norm`, `MLP` becomes `mlp`.
pub open spec fn snake_case(s: Seq<char>) -> Seq<char> {
    snake_upto(s, s.len())
}

/// The mathematical value of a list of names.
pub open spec fn names_model(v: Seq<String>) -> Seq<Seq<char>> {
    v.map_values(|s: String| s@)
}

/// Whether a value mentions a name that is not one of the parameters:
/// a dimension captured from a shape pattern.
pub open spec fn has_captured(v: SpecValue, params: Seq<Seq<char>>) -> bool
    decreases v,
{
    match v {
        SpecValue::Name(n) => !params.contains(n),
        SpecValue::Expr(_, l, r) => has_captured(*l, params) || has_captured(*r, params),
        _ => false,
    }
}

/// The call signature of an endpoint (that of a call; empty for the others).
pub open spec fn endpoint_sig(e: Endpoint) -> CallSig {
    match e {
        Endpoint::Call { name, args, kwargs, .. } => (
            name@,
            values_model(args@),
            kwargs_model(kwargs@),
        ),
        _ => (Seq::empty(), Seq::empty(), Seq::empty()),
    }
}

/// The call endpoints an endpoint holds, in order: a call is itself; a
/// match block holds the calls of each arm's pipeline, arm by arm.
pub open spec fn endpoint_call_list(e: Endpoint) -> Seq<Endpoint>
    decreases e, 0int,
{
    match e {
        Endpoint::Call { .. } => seq![e],
        Endpoint::Match(m) => arms_call_list(m.arms@, m.arms@.len() as int),
        _ => Seq::empty(),
    }
}

/// The call endpoints of the pipelines of the first `n` arms of a match block.
pub open spec fn arms_call_list(arms: Seq<MatchArm>, n: int) -> Seq<Endpoint>
    decreases arms, n,
{
    if n <= 0 || n > arms.len() {
        Seq::empty()
    } else {
        arms_call_list(arms, n - 1) + pipeline_call_list(
            arms[n - 1].pipeline@,
            arms[n - 1].pipeline@.len() as int,
        )
    }
}

/// The call endpoints of the first `n` steps of a pipeline.
pub open spec fn pipeline_call_list(p: Seq<Endpoint>, n: int) -> Seq<Endpoint>
    decreases p, n,
{
    if n <= 0 || n > p.len() {
        Seq::empty()
    } else {
        pipeline_call_list(p, n - 1) + endpoint_call_list(p[n - 1])
    }
}

/// The calls an endpoint holds, in order.
pub open spec fn endpoint_calls(e: Endpoint) -> Seq<CallSig> {
    sigs_of(endpoint_call_list(e))
}

/// The calls of the first `n` connections: for each, its source, then its destination.
pub open spec fn calls_of(conns: Seq<Connection>, n: nat) -> Seq<CallSig>
    decreases n,
{
    if n == 0 {
        Seq::empty()
    } else {
        calls_of(conns, (n - 1) as nat) + endpoint_calls(conns[n - 1].source) + endpoint_calls(
            conns[n - 1].destination,
        )
    }
}

/// The id of a call endpoint; 0 for the other endpoints.
pub open spec fn call_id(e: Endpoint) -> usize {
    match e {
        Endpoint::Call { id, .. } => id,
        _ => 0,
    }
}

/// The ids of the calls an endpoint holds, in order.
pub open spec fn endpoint_ids(e: Endpoint) -> Seq<usize> {
    ids_of(endpoint_call_list(e))
}

/// The ids of the calls of the first `n` connections, in the order of [`calls_of`].
pub open spec fn call_ids_of(conns: Seq<Connection>, n: nat) -> Seq<usize>
    decreases n,
{
    if n == 0 {
        Seq::empty()
    } else {
        call_ids_of(conns, (n - 1) as nat) + endpoint_ids(conns[n - 1].source) + endpoint_ids(
            conns[n - 1].destination,
        )
    }
}

/// The call ids of a list of endpoints.
pub open spec fn ids_of(es: Seq<Endpoint>) -> Seq<usize> {
    es.map_values(|e: Endpoint| call_id(e))
}

/// The call signatures of a list of endpoints.
pub open spec fn sigs_of(es: Seq<Endpoint>) -> Seq<CallSig> {
    es.map_values(|e: Endpoint| endpoint_sig(e))
}

fn push_python_op(out: &mut String, op: BinOp)
    ensures
        final(out)@ == old(out)@ + python_op_text(op),
{
    match op {
        BinOp::Add => out.append("+"),
        BinOp::Sub => out.append("-"),
        BinOp::Mul => out.append("*"),
        BinOp::Div => out.append("//"),
        BinOp::Eq => out.append("=="),
        BinOp::Ne => out.append("!="),
        BinOp::Lt => out.append("<"),
        BinOp::Le => out.append("<="),
        BinOp::Gt => out.append(">"),
        BinOp::Ge => out.append(">="),
    }
}

/// Appends the Python text of a value.
pub fn push_value(out: &mut String, v: &Value)
    ensures
        final(out)@ == old(out)@ + value_text(v@),
    decreases v,
{
    match v {
        Value::Int(n) => push_int(out, *n),
        Value::Bool(b) => {
            if *b {
                out.append("True");
            } else {
                out.append("False");
            }
        },
        Value::Str(s) => {
            out.append("\"");
            out.append(s.as_str());
            out.append("\"");
            assert(final(out)@ =~= old(out)@ + value_text(v@));
        },
        Value::Name(n) => out.append(n.as_str()),
        Value::Expr { op, left, right } => {
            out.append("(");
            push_value(out, left);
            out.append(" ");
            push_python_op(out, *op);
            out.append(" ");
            push_value(out, right);
            out.append(")");
            assert(final(out)@ =~= old(out)@ + value_text(v@));
        },
    }
}

/// The Python text of a value.
pub fn value_to_python_impl(v: &Value) -> (s: String)
    ensures
        s@ == value_text(v@),
{
    let mut s = String::new();
    push_value(&mut s, v);
    assert(s@ =~= value_text(v@));
    s
}

/// Appends positional arguments separated by `, `.
pub fn push_values(out: &mut String, vs: &[Value])
    ensures
        final(out)@ == old(out)@ + values_text(values_model(vs@)),
{
    let ghost start = out@;
    let ghost m = values_model(vs@);
    let n = vs.len();
    assert(m.take(0) =~= Seq::<SpecValue>::empty());
    for i in 0..n
        invariant
            n == vs@.len(),
            m == values_model(vs@),
            out@ == start + values_text(m.take(i as int)),
    {
        if i > 0 {
            out.append(", ");
        }
        push_value(out, &vs[i]);
        proof {
            let t = m.take(i + 1);
            assert(t.drop_last() =~= m.take(i as int));
            assert(t.last() == vs@[i as int]@);
            assert(out@ =~= start + values_text(t));
        }
    }
    assert(m.take(n as int) =~= m);
}

/// Appends keyword arguments as `name=value` pairs separated by `, `.
pub fn push_kwargs(out: &mut String, ks: &[Kwarg])
    ensures
        final(out)@ == old(out)@ + kwargs_join(kwargs_model(ks@)),
{
    let ghost start = out@;
    let ghost m = kwargs_model(ks@);
    let n = ks.len();
    assert(m.take(0) =~= Seq::<(Seq<char>, SpecValue)>::empty());
    for i in 0..n
        invariant
            n == ks@.len(),
            m == kwargs_model(ks@),
            out@ == start + kwargs_join(m.take(i as int)),
    {
        if i > 0 {
            out.append(", ");
        }
        out.append(ks[i].0.as_str());
        out.append("=");
        push_value(out, &ks[i].1);
        proof {
            let t = m.take(i + 1);
            assert(t.drop_last() =~= m.take(i as int));
            assert(t.last() == (ks@[i as int].0@, ks@[i as int].1@));
            assert(out@ =~= start + kwargs_join(t));
        }
    }
    assert(m.take(n as int) =~= m);
}

/// Appends the Python constructor expression of a call.
pub fn push_ctor(out: &mut String, name: &String, args: &[Value], kwargs: &[Kwarg])
    ensures
        final(out)@ == old(out)@ + ctor_text((name@, values_model(args@), kwargs_model(kwargs@))),
{
    let ghost start = out@;
    out.append(name.as_str());
    out.append("(");
    push_values(out, args);
    if args.len() > 0 && kwargs.len() > 0 {
        out.append(", ");
    }
    push_kwargs(out, kwargs);
    out.append(")");
    assert(out@ =~= start + ctor_text((name@, values_model(args@), kwargs_model(kwargs@))));
}

/// The snake-case form of a name: `LayerNorm` becomes `layer_norm`.
pub fn snake_case_impl(name: &String) -> (s: String)
    ensures
        s@ == snake_case(name@),
{
    let text = name.as_str();
    let n = text.unicode_len();
    let mut s = String::new();
    let mut prev_lower_or_digit = false;
    for i in 0..n
        invariant
            n == name@.len(),
            text@ == name@,
            s@ == snake_upto(name@, i as nat),
            prev_lower_or_digit == (i > 0 && is_lower_or_digit(name@[i - 1])),
    {
        let c = text.get_char(i);
        let code: u32 = c as u32;
        if 65 <= code && code <= 90 {
            if prev_lower_or_digit {
                push_char(&mut s, '_');
            }
            let lower = ((code + 32) as u8) as char;
            push_char(&mut s, lower);
        } else {
            push_char(&mut s, c);
        }
        prev_lower_or_digit = (97 <= code && code <= 122) || (48 <= code && code <= 57);
        assert(s@ =~= snake_upto(name@, (i + 1) as nat));
    }
    s
}

/// Whether a value mentions a name that is not one of the parameters.
#[verifier::loop_isolation(false)]
pub fn has_captured_dimensions_impl(v: &Value, params: &Vec<String>) -> (r: bool)
    ensures
        r == has_captured(v@, names_model(params@)),
    decreases v,
{
    match v {
        Value::Name(n) => {
            let ghost ps = names_model(params@);
            let len = params.len();
            for i in 0..len
                invariant
                    len == params@.len(),
                    ps == names_model(params@),
                    forall|j: int| 0 <= j < i ==> ps[j] != n@,
            {
                if params[i] == *n {
                    assert(ps[i as int] == n@);
                    assert(ps.contains(n@));
                    return false;
                }
            }
            true
        },
        Value::Expr { left, right, .. } => {
            has_captured_dimensions_impl(left, params) || has_captured_dimensions_impl(
                right,
                params,
            )
        },
        _ => false,
    }
}

/// The key that identifies a call among the calls of a graph: its constructor expression.
pub fn endpoint_key_impl(e: &Endpoint) -> (s: String)
    ensures
        e is Call ==> s@ == ctor_text(endpoint_sig(*e)),
        !(e is Call) ==> s@ == Seq::<char>::empty(),
{
    match e {
        Endpoint::Call { name, args, kwargs, .. } => {
            let mut s = String::new();
            push_ctor(&mut s, name, args.as_slice(), kwargs.as_slice());
            assert(s@ =~= ctor_text(endpoint_sig(*e)));
            s
        },
        _ => String::new(),
    }
}

fn copy_call(e: &Endpoint) -> (r: Endpoint)
    requires
        e is Call,
    ensures
        r is Call,
        endpoint_sig(r) == endpoint_sig(*e),
        call_id(r) == call_id(*e),
{
    match e {
        Endpoint::Call { name, args, kwargs, id } => Endpoint::Call {
            name: name.clone(),
            args: clone_values(args),
            kwargs: clone_kwargs(kwargs),
            id: *id,
        },
        _ => {
            assert(false);
            Endpoint::Call { name: String::new(), args: Vec::new(), kwargs: Vec::new(), id: 0 }
        },
    }
}

/// `out` is `start` followed by copies of the calls `l`: each copy is a call
/// with the name, arguments, keyword arguments and id of its original.
pub open spec fn appended(out: Seq<Endpoint>, start: Seq<Endpoint>, l: Seq<Endpoint>) -> bool {
    &&& out.len() >= start.len()
    &&& sigs_of(out) == sigs_of(start) + sigs_of(l)
    &&& ids_of(out) == ids_of(start) + ids_of(l)
    &&& forall|k: int| start.len() <= k < out.len() ==> (#[trigger] out[k]) is Call
    &&& forall|k: int| 0 <= k < start.len() ==> #[trigger] out[k] == start[k]
}

proof fn lemma_appended_empty(out: Seq<Endpoint>)
    ensures
        appended(out, out, Seq::empty()),
{
    assert(sigs_of(out) =~= sigs_of(out) + sigs_of(Seq::empty()));
    assert(ids_of(out) =~= ids_of(out) + ids_of(Seq::empty()));
}

proof fn lemma_appended_trans(
    a: Seq<Endpoint>,
    b: Seq<Endpoint>,
    c: Seq<Endpoint>,
    l1: Seq<Endpoint>,
    l2: Seq<Endpoint>,
)
    requires
        appended(b, a, l1),
        appended(c, b, l2),
    ensures
        appended(c, a, l1 + l2),
{
    assert(sigs_of(l1 + l2) =~= sigs_of(l1) + sigs_of(l2));
    assert(ids_of(l1 + l2) =~= ids_of(l1) + ids_of(l2));
    assert(sigs_of(c) =~= sigs_of(a) + sigs_of(l1 + l2));
    assert(ids_of(c) =~= ids_of(a) + ids_of(l1 + l2));
    assert forall|k: int| 0 <= k < a.len() implies #[trigger] c[k] == a[k] by {
        assert(c[k] == b[k]);
    }
}

/// Appends copies of the calls an endpoint holds, in order.
#[verifier::loop_isolation(false)]
fn collect_endpoint_calls(e: &Endpoint, out: &mut Vec<Endpoint>)
    ensures
        appended(final(out)@, old(out)@, endpoint_call_list(*e)),
    decreases e,
{
    let ghost start = out@;
    match e {
        Endpoint::Call { .. } => {
            out.push(copy_call(e));
            assert(sigs_of(out@) =~= sigs_of(start) + sigs_of(endpoint_call_list(*e)));
            assert(ids_of(out@) =~= ids_of(start) + ids_of(endpoint_call_list(*e)));
        },
        Endpoint::Match(m) => {
            proof {
                lemma_appended_empty(start);
            }
            let na = m.arms.len();
            for i in 0..na
                invariant
                    na == m.arms@.len(),
                    appended(out@, start, arms_call_list(m.arms@, i as int)),
            {
                let ghost mid = out@;
                let arm = &m.arms[i];
                proof {
                    lemma_appended_empty(mid);
                }
                let np = arm.pipeline.len();
                for j in 0..np
                    invariant
                        np == arm.pipeline@.len(),
                        appended(out@, mid, pipeline_call_list(arm.pipeline@, j as int)),
                {
                    let ghost before = out@;
                    proof {
                        assert(decreases_to!(*e => *m));
                        assert(decreases_to!(*m => m.arms));
                        assert(decreases_to!(m.arms => m.arms@));
                        assert(decreases_to!(m.arms@ => m.arms@[i as int]));
                        assert(decreases_to!(m.arms@[i as int] => arm.pipeline));
                        assert(decreases_to!(arm.pipeline => arm.pipeline@));
                        assert(decreases_to!(arm.pipeline@ => arm.pipeline@[j as int]));
                    }
                    collect_endpoint_calls(&arm.pipeline[j], out);
                    proof {
                        lemma_appended_trans(
                            mid,
                            before,
                            out@,
                            pipeline_call_list(arm.pipeline@, j as int),
                            endpoint_call_list(arm.pipeline@[j as int]),
                        );
                    }
                }
                proof {
                    lemma_appended_trans(
                        start,
                        mid,
                        out@,
                        arms_call_list(m.arms@, i as int),
                        pipeline_call_list(arm.pipeline@, np as int),
                    );
                }
            }
        },
        _ => {
            proof {
                lemma_appended_empty(start);
            }
        },
    }
}

/// The call endpoints of the first `n` connections: for each, those of its
/// source, then those of its destination.
pub open spec fn connection_call_list(conns: Seq<Connection>, n: nat) -> Seq<Endpoint>
    decreases n,
{
    if n == 0 {
        Seq::empty()
    } else {
        connection_call_list(conns, (n - 1) as nat) + endpoint_call_list(conns[n - 1].source)
            + endpoint_call_list(conns[n - 1].destination)
    }
}

proof fn lemma_connection_call_list(conns: Seq<Connection>, n: nat)
    ensures
        sigs_of(connection_call_list(conns, n)) == calls_of(conns, n),
        ids_of(connection_call_list(conns, n)) == call_ids_of(conns, n),
    decreases n,
{
    if n > 0 {
        lemma_connection_call_list(conns, (n - 1) as nat);
        let a = connection_call_list(conns, (n - 1) as nat);
        let b = endpoint_call_list(conns[n - 1].source);
        let c = endpoint_call_list(conns[n - 1].destination);
        assert(sigs_of(a + b + c) =~= sigs_of(a) + sigs_of(b) + sigs_of(c));
        assert(ids_of(a + b + c) =~= ids_of(a) + ids_of(b) + ids_of(c));
    }
}

/// Appends to `out` a copy of every call of the connections, in order: for
/// each connection those of its source, then those of its destination,
/// where the calls of a match block are those of its arms' pipelines, arm
/// by arm. Each copy has the name, arguments, keyword arguments and id of
/// its original.
pub fn collect_calls_impl(connections: &[Connection], out: &mut Vec<Endpoint>)
    ensures
        sigs_of(final(out)@) == sigs_of(old(out)@) + calls_of(connections@, connections@.len()),
        ids_of(final(out)@) == ids_of(old(out)@) + call_ids_of(connections@, connections@.len()),
        forall|i: int|
            old(out)@.len() <= i < final(out)@.len() ==> (#[trigger] final(out)@[i]) is Call,
        forall|i: int| 0 <= i < old(out)@.len() ==> #[trigger] final(out)@[i] == old(out)@[i],
{
    let ghost start = out@;
    proof {
        lemma_appended_empty(start);
    }
    let n = connections.len();
    for i in 0..n
        invariant
            n == connections@.len(),
            appended(out@, start, connection_call_list(connections@, i as nat)),
    {
        let ghost before = out@;
        let conn = &connections[i];
        collect_endpoint_calls(&conn.source, out);
        let ghost mid = out@;
        collect_endpoint_calls(&conn.destination, out);
        proof {
            lemma_appended_trans(
                start,
                before,
                mid,
                connection_call_list(connections@, i as nat),
                endpoint_call_list(conn.source),
            );
            lemma_appended_trans(
                start,
                mid,
                out@,
                connection_call_list(connections@, i as nat) + endpoint_call_list(conn.source),
                endpoint_call_list(conn.destination),
            );
        }
    }
    proof {
        lemma_connection_call_list(connections@, n as nat);
    }
}

proof fn lemma_values_text_join(a: Seq<SpecValue>, b: Seq<SpecValue>)
    requires
        a.len() > 0,
        b.len() > 0,
    ensures
        values_text(a + b) == values_text(a) + ", "@ + values_text(b),
    decreases b.len(),
{
    if b.len() == 1 {
        assert((a + b).drop_last() =~= a);
    } else {
        lemma_values_text_join(a, b.drop_last());
        assert((a + b).drop_last() =~= a + b.drop_last());
        assert(values_text(a + b) =~= values_text(a) + ", "@ + values_text(b));
    }
}

/// Positional arguments are written separated by `, `: the text of a list is that of its first part, `, `, and that of
/// the rest, so that every item after the first follows a `, `; a single
/// item is shown alone.
pub proof fn values_text_joins_with_commas(a: Seq<SpecValue>, b: Seq<SpecValue>, x: SpecValue)
    ensures
        values_text(seq![x]) == value_text(x),
        a.len() > 0 && b.len() > 0 ==> values_text(a + b) == values_text(a) + ", "@ + values_text(b),
{
    if a.len() > 0 && b.len() > 0 {
        lemma_values_text_join(a, b);
    }
}

proof fn lemma_kwargs_join_join(a: Seq<(Seq<char>, SpecValue)>, b: Seq<(Seq<char>, SpecValue)>)
    requires
        a.len() > 0,
        b.len() > 0,
    ensures
        kwargs_join(a + b) == kwargs_join(a) + ", "@ + kwargs_join(b),
    decreases b.len(),
{
    if b.len() == 1 {
        assert((a + b).drop_last() =~= a);
    } else {
        lemma_kwargs_join_join(a, b.drop_last());
        assert((a + b).drop_last() =~= a + b.drop_last());
        assert(kwargs_join(a + b) =~= kwargs_join(a) + ", "@ + kwargs_join(b));
    }
}

/// Keyword arguments are written separated by `, `: the text of a list is that of its first part, `, `, and that of
/// the rest, so that every item after the first follows a `, `; a single
/// item is shown alone.
pub proof fn kwargs_join_joins_with_commas(a: Seq<(Seq<char>, SpecValue)>, b: Seq<(Seq<char>, SpecValue)>, x: (Seq<char>, SpecValue))
    ensures
        kwargs_join(seq![x]) == kwarg_text(x),
        a.len() > 0 && b.len() > 0 ==> kwargs_join(a + b) == kwargs_join(a) + ", "@ + kwargs_join(b),
{
    if a.len() > 0 && b.len() > 0 {
        lemma_kwargs_join_join(a, b);
    }
}

} // verus!
