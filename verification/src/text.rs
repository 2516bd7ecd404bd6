//! Textual forms of numbers, dimensions and shapes, as they appear in messages.
use vstd::prelude::*;
use vstd::string::*;
use crate::ir::{BinOp, Dim, Shape, SpecDim};

verus! {

/// The decimal text of a single digit.
pub open spec fn digit_text(d: nat) -> Seq<char> {
    if d == 0 {
        "0"@
    } else if d == 1 {
        "1"@
    } else if d == 2 {
        "2"@
    } else if d == 3 {
        "3"@
    } else if d == 4 {
        "4"@
    } else if d == 5 {
        "5"@
    } else if d == 6 {
        "6"@
    } else if d == 7 {
        "7"@
    } else if d == 8 {
        "8"@
    } else {
        "9"@
    }
}

/// The decimal text of a natural number, without leading zeros.
pub open spec fn decimal(n: nat) -> Seq<char>
    decreases n,
{
    if n < 10 {
        digit_text(n)
    } else {
        decimal(n / 10) + digit_text(n % 10)
    }
}

/// The text of an operator.
pub open spec fn op_text(op: BinOp) -> Seq<char> {
    match op {
        BinOp::Add => "+"@,
        BinOp::Sub => "-"@,
        BinOp::Mul => "*"@,
        BinOp::Div => "/"@,
        BinOp::Eq => "=="@,
        BinOp::Ne => "!="@,
        BinOp::Lt => "<"@,
        BinOp::Le => "<="@,
        BinOp::Gt => ">"@,
        BinOp::Ge => ">="@,
    }
}

/// The text of a dimension: `512`, `dim`, `*`, `*shape`, `dim * 4`.
pub open spec fn dim_text(d: SpecDim) -> Seq<char>
    decreases d,
{
    match d {
        SpecDim::Literal(n) => decimal(n as nat),
        SpecDim::Named(s) => s,
        SpecDim::Wildcard => "*"@,
        SpecDim::Variadic(s) => "*"@ + s,
        SpecDim::Expr(op, l, r) => dim_text(*l) + " "@ + op_text(op) + " "@ + dim_text(*r),
    }
}

/// The dimensions of a shape separated by `, `.
pub open spec fn dims_text(s: Seq<SpecDim>) -> Seq<char>
    decreases s.len(),
{
    if s.len() == 0 {
        Seq::empty()
    } else if s.len() == 1 {
        dim_text(s[0])
    } else {
        dims_text(s.drop_last()) + ", "@ + dim_text(s.last())
    }
}

/// The text of a shape: `[*, dim]`.
pub open spec fn shape_text(s: Seq<SpecDim>) -> Seq<char> {
    "["@ + dims_text(s) + "]"@
}

/// The text of a signed integer: a minus sign before negative numbers.
pub open spec fn int_text(n: i64) -> Seq<char> {
    if n < 0 {
        "-"@ + decimal((-n) as nat)
    } else {
        decimal(n as nat)
    }
}

/// Appends one character with std's `String::push`: the text afterwards
/// is the text before followed by `c`.
#[verifier::external_body]
pub(crate) fn push_char(out: &mut String, c: char)
    ensures
        final(out)@ == old(out)@.push(c),
{
    out.push(c);
}

/// Appends the text of a signed integer.
pub fn push_int(out: &mut String, n: i64)
    ensures
        final(out)@ == old(out)@ + int_text(n),
{
    if n < 0 {
        out.append("-");
        let m: u64 = ((-(n + 1)) as u64) + 1;
        push_decimal(out, m);
        assert(final(out)@ =~= old(out)@ + int_text(n));
    } else {
        push_decimal(out, n as u64);
    }
}

/// Appends the decimal text of `n`.
pub fn push_decimal(out: &mut String, n: u64)
    ensures
        final(out)@ == old(out)@ + decimal(n as nat),
    decreases n,
{
    if n >= 10 {
        push_decimal(out, n / 10);
    }
    let d = n % 10;
    if d == 0 {
        out.append("0");
    } else if d == 1 {
        out.append("1");
    } else if d == 2 {
        out.append("2");
    } else if d == 3 {
        out.append("3");
    } else if d == 4 {
        out.append("4");
    } else if d == 5 {
        out.append("5");
    } else if d == 6 {
        out.append("6");
    } else if d == 7 {
        out.append("7");
    } else if d == 8 {
        out.append("8");
    } else {
        out.append("9");
    }
    proof {
        if n >= 10 {
            assert(old(out)@ + decimal(n as nat) =~= old(out)@ + decimal((n / 10) as nat)
                + digit_text((n % 10) as nat));
        }
    }
}

fn push_op(out: &mut String, op: BinOp)
    ensures
        final(out)@ == old(out)@ + op_text(op),
{
    match op {
        BinOp::Add => out.append("+"),
        BinOp::Sub => out.append("-"),
        BinOp::Mul => out.append("*"),
        BinOp::Div => out.append("/"),
        BinOp::Eq => out.append("=="),
        BinOp::Ne => out.append("!="),
        BinOp::Lt => out.append("<"),
        BinOp::Le => out.append("<="),
        BinOp::Gt => out.append(">"),
        BinOp::Ge => out.append(">="),
    }
}

/// Appends the text of a dimension.
pub fn push_dim(out: &mut String, d: &Dim)
    ensures
        final(out)@ == old(out)@ + dim_text(d@),
    decreases d,
{
    match d {
        Dim::Literal(n) => push_decimal(out, *n as u64),
        Dim::Named(s) => out.append(s.as_str()),
        Dim::Wildcard => out.append("*"),
        Dim::Variadic(s) => {
            out.append("*");
            out.append(s.as_str());
            assert(final(out)@ =~= old(out)@ + dim_text(d@));
        },
        Dim::Expr(e) => {
            push_dim(out, &e.left);
            out.append(" ");
            push_op(out, e.op);
            out.append(" ");
            push_dim(out, &e.right);
            assert(final(out)@ =~= old(out)@ + dim_text(d@));
        },
    }
}

/// Appends the text of a shape.
pub fn push_shape(out: &mut String, s: &Shape)
    ensures
        final(out)@ == old(out)@ + shape_text(s@),
{
    let ghost start = out@;
    out.append("[");
    let n = s.dims.len();
    for i in 0..n
        invariant
            n == s.dims@.len(),
            out@ == start + "["@ + dims_text(s@.take(i as int)),
    {
        if i > 0 {
            out.append(", ");
        }
        push_dim(out, &s.dims[i]);
        proof {
            let t = s@.take(i + 1);
            assert(t.drop_last() =~= s@.take(i as int));
            assert(t.last() == s.dims@[i as int]@);
            if i == 0 {
                assert(s@.take(0) =~= Seq::<SpecDim>::empty());
            }
            assert(out@ =~= start + "["@ + dims_text(t));
        }
    }
    out.append("]");
    proof {
        assert(s@.take(n as int) =~= s@);
        assert(out@ =~= start + shape_text(s@));
    }
}

impl Dim {
    /// The text of the dimension, as used in messages.
    pub fn to_string(&self) -> (s: String)
        ensures
            s@ == dim_text(self@),
    {
        let mut s = String::new();
        push_dim(&mut s, self);
        assert(s@ =~= dim_text(self@));
        s
    }
}

impl Shape {
    /// The text of the shape, as used in messages.
    pub fn to_string(&self) -> (s: String)
        ensures
            s@ == shape_text(self@),
    {
        let mut s = String::new();
        push_shape(&mut s, self);
        assert(s@ =~= shape_text(self@));
        s
    }
}

proof fn lemma_dims_text_join(a: Seq<SpecDim>, b: Seq<SpecDim>)
    requires
        a.len() > 0,
        b.len() > 0,
    ensures
        dims_text(a + b) == dims_text(a) + ", "@ + dims_text(b),
    decreases b.len(),
{
    if b.len() == 1 {
        assert((a + b).drop_last() =~= a);
    } else {
        lemma_dims_text_join(a, b.drop_last());
        assert((a + b).drop_last() =~= a + b.drop_last());
        assert(dims_text(a + b) =~= dims_text(a) + ", "@ + dims_text(b));
    }
}

/// Dimensions are written separated by `, `: the text of a list is that of its first part, `, `, and that of
/// the rest, so that every item after the first follows a `, `; a single
/// item is shown alone.
pub proof fn dims_text_joins_with_commas(a: Seq<SpecDim>, b: Seq<SpecDim>, x: SpecDim)
    ensures
        dims_text(seq![x]) == dim_text(x),
        a.len() > 0 && b.len() > 0 ==> dims_text(a + b) == dims_text(a) + ", "@ + dims_text(b),
{
    if a.len() > 0 && b.len() > 0 {
        lemma_dims_text_join(a, b);
    }
}

} // verus!
