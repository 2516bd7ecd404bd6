//! The neuron listing of a program, as the command line shows it: each
//! neuron with its kind and its ports, and, on request, its connections.
use vstd::prelude::*;
use vstd::string::*;
use crate::ir::{NeuronBody, NeuronDef, Port, Program};
use crate::text::{decimal, push_decimal, push_shape, shape_text};

verus! {

/// One line of a listing. Connections are shown by their debug form, which
/// the program that prints the listing renders.
#[derive(Debug)]
pub enum ListingLine {
    /// A line of text.
    Text(String),
    /// One connection of the neuron at `neuron`, by its index: the line is
    /// `      - ` followed by the connection's debug form.
    Connection { neuron: usize, index: usize },
    /// All the connections of the neuron at `neuron`: the line is
    /// `    connections: ` followed by the debug form of the list.
    Connections { neuron: usize },
}

/// The mathematical value of a [`ListingLine`].
pub enum SpecLine {
    Text(Seq<char>),
    Connection(usize, usize),
    Connections(usize),
}

impl View for ListingLine {
    type V = SpecLine;

    open spec fn view(&self) -> SpecLine {
        match *self {
            ListingLine::Text(s) => SpecLine::Text(s@),
            ListingLine::Connection { neuron, index } => SpecLine::Connection(neuron, index),
            ListingLine::Connections { neuron } => SpecLine::Connections(neuron),
        }
    }
}

/// The mathematical value of a list of lines.
pub open spec fn lines_model(v: Seq<ListingLine>) -> Seq<SpecLine> {
    v.map_values(|l: ListingLine| l@)
}

/// `primitive` or `composite`.
pub open spec fn kind_text(n: NeuronDef) -> Seq<char> {
    if n.body is Primitive {
        "primitive"@
    } else {
        "composite"@
    }
}

/// A port as `name: shape`.
pub open spec fn port_text(p: Port) -> Seq<char> {
    p.name@ + ": "@ + shape_text(p.shape@)
}

/// Ports separated by `, `.
pub open spec fn ports_text(ps: Seq<Port>) -> Seq<char>
    decreases ps.len(),
{
    if ps.len() == 0 {
        Seq::empty()
    } else if ps.len() == 1 {
        port_text(ps[0])
    } else {
        ports_text(ps.drop_last()) + ", "@ + port_text(ps.last())
    }
}

/// The summary of a neuron: `  name (kind)`, then its inputs after
/// `in_label` and its outputs after `out_label`, each on a line of its own
/// indented by four spaces.
pub open spec fn neuron_summary_text(n: NeuronDef, in_label: Seq<char>, out_label: Seq<char>) -> Seq<
    char,
> {
    "  "@ + n.name@ + " ("@ + kind_text(n) + ")\n    "@ + in_label + ports_text(n.inputs@)
        + "\n    "@ + out_label + ports_text(n.outputs@)
}

/// The number of connections a listing shows one by one.
pub open spec fn shown_connections(k: nat) -> nat {
    if k > 3 {
        3
    } else {
        k
    }
}

/// The line that counts the connections not shown.
pub open spec fn more_text(k: nat) -> Seq<char> {
    "      ... and "@ + decimal((k - 3) as nat) + " more"@
}

/// The connection lines of the neuron at `i` with `k` connections: the first
/// three, then a count of the others when there are more than three.
pub open spec fn connection_lines(i: usize, k: nat) -> Seq<SpecLine> {
    Seq::new(shown_connections(k), |j: int| SpecLine::Connection(i, j as usize)) + if k > 3 {
        seq![SpecLine::Text(more_text(k))]
    } else {
        Seq::empty()
    }
}

/// The lines of the neuron at `i` in a listing: its summary; when verbose
/// and the neuron is a graph, the number of its connections and the
/// connection lines; and an empty line.
pub open spec fn listing_block(n: NeuronDef, i: usize, verbose: bool) -> Seq<SpecLine> {
    seq![SpecLine::Text(neuron_summary_text(n, "inputs:  "@, "outputs: "@))] + match n.body {
        NeuronBody::Graph(c) => if verbose {
            seq![SpecLine::Text("    connections: "@ + decimal(c@.len()) + " "@)] + connection_lines(
                i,
                c@.len(),
            )
        } else {
            Seq::empty()
        },
        _ => Seq::empty(),
    } + seq![SpecLine::Text(Seq::empty())]
}

/// The blocks of the first `n` neurons, in order.
pub open spec fn listing_blocks(ns: Seq<NeuronDef>, verbose: bool, n: nat) -> Seq<SpecLine>
    decreases n,
{
    if n == 0 {
        Seq::empty()
    } else {
        listing_blocks(ns, verbose, (n - 1) as nat) + listing_block(ns[n - 1], (n - 1) as usize, verbose)
    }
}

/// The listing of the neurons of the file `file`: a line saying there are
/// none; or a heading with their number, an empty line, and each neuron's block.
pub open spec fn listing_lines(ns: Seq<NeuronDef>, file: Seq<char>, verbose: bool) -> Seq<SpecLine> {
    if ns.len() == 0 {
        seq![SpecLine::Text("No neurons found in "@ + file)]
    } else {
        seq![
            SpecLine::Text("Neurons in "@ + file + " ("@ + decimal(ns.len()) + " total):"@),
            SpecLine::Text(Seq::empty()),
        ] + listing_blocks(ns, verbose, ns.len())
    }
}

/// The lines of the neuron at `i` in the summary after a compilation: its
/// summary; when verbose and the neuron is a graph, its connections; and
/// an empty line.
pub open spec fn summary_block(n: NeuronDef, i: usize, verbose: bool) -> Seq<SpecLine> {
    seq![SpecLine::Text(neuron_summary_text(n, "in:  "@, "out: "@))] + if verbose
        && n.body is Graph {
        seq![SpecLine::Connections(i)]
    } else {
        Seq::empty()
    } + seq![SpecLine::Text(Seq::empty())]
}

/// The summary blocks of the first `n` neurons, in order.
pub open spec fn summary_blocks(ns: Seq<NeuronDef>, verbose: bool, n: nat) -> Seq<SpecLine>
    decreases n,
{
    if n == 0 {
        Seq::empty()
    } else {
        summary_blocks(ns, verbose, (n - 1) as nat) + summary_block(ns[n - 1], (n - 1) as usize, verbose)
    }
}

fn push_ports(out: &mut String, ps: &Vec<Port>)
    ensures
        final(out)@ == old(out)@ + ports_text(ps@),
{
    let ghost start = out@;
    let n = ps.len();
    assert(ps@.take(0) =~= Seq::<Port>::empty());
    for i in 0..n
        invariant
            n == ps@.len(),
            out@ == start + ports_text(ps@.take(i as int)),
    {
        if i > 0 {
            out.append(", ");
        }
        out.append(ps[i].name.as_str());
        out.append(": ");
        push_shape(out, &ps[i].shape);
        proof {
            let t = ps@.take(i + 1);
            assert(t.drop_last() =~= ps@.take(i as int));
            assert(t.last() == ps@[i as int]);
            assert(out@ =~= start + ports_text(t));
        }
    }
    assert(ps@.take(n as int) =~= ps@);
}

/// The summary of a neuron: `  name (kind)`, then its inputs after
/// `in_label` and its outputs after `out_label`, each on a line of its own.
pub fn neuron_summary(neuron: &NeuronDef, in_label: &str, out_label: &str) -> (s: String)
    ensures
        s@ == neuron_summary_text(*neuron, in_label@, out_label@),
{
    let mut s = String::from_str("  ");
    s.append(neuron.name.as_str());
    s.append(" (");
    if neuron.is_primitive() {
        s.append("primitive");
    } else {
        s.append("composite");
    }
    s.append(")\n    ");
    s.append(in_label);
    push_ports(&mut s, &neuron.inputs);
    s.append("\n    ");
    s.append(out_label);
    push_ports(&mut s, &neuron.outputs);
    assert(s@ =~= neuron_summary_text(*neuron, in_label@, out_label@));
    s
}

fn push_line(lines: &mut Vec<ListingLine>, line: ListingLine)
    ensures
        lines_model(final(lines)@) == lines_model(old(lines)@).push(line@),
{
    let ghost before = lines@;
    lines.push(line);
    assert(lines_model(lines@) =~= lines_model(before).push(line@));
}

fn push_empty(lines: &mut Vec<ListingLine>)
    ensures
        lines_model(final(lines)@) == lines_model(old(lines)@).push(SpecLine::Text(Seq::empty())),
{
    push_line(lines, ListingLine::Text(String::new()));
}

fn push_listing_block(lines: &mut Vec<ListingLine>, neuron: &NeuronDef, i: usize, verbose: bool)
    ensures
        lines_model(final(lines)@) == lines_model(old(lines)@) + listing_block(*neuron, i, verbose),
{
    let ghost start = lines_model(lines@);
    push_line(lines, ListingLine::Text(neuron_summary(neuron, "inputs:  ", "outputs: ")));
    let ghost head = lines_model(lines@);
    match &neuron.body {
        NeuronBody::Graph(conns) => {
            if verbose {
                let k = conns.len();
                let mut count = String::from_str("    connections: ");
                push_decimal(&mut count, k as u64);
                count.append(" ");
                push_line(lines, ListingLine::Text(count));
                let ghost mid = lines_model(lines@);
                let shown: usize = if k > 3 {
                    3
                } else {
                    k
                };
                for j in 0..shown
                    invariant
                        lines_model(lines@) == mid + Seq::new(
                            j as nat,
                            |q: int| SpecLine::Connection(i, q as usize),
                        ),
                {
                    push_line(lines, ListingLine::Connection { neuron: i, index: j });
                    assert(lines_model(lines@) =~= mid + Seq::new(
                        (j + 1) as nat,
                        |q: int| SpecLine::Connection(i, q as usize),
                    ));
                }
                if k > 3 {
                    let mut more = String::from_str("      ... and ");
                    push_decimal(&mut more, (k - 3) as u64);
                    more.append(" more");
                    push_line(lines, ListingLine::Text(more));
                }
                assert(lines_model(lines@) =~= head + seq![
                    SpecLine::Text("    connections: "@ + decimal(k as nat) + " "@),
                ] + connection_lines(i, k as nat));
            }
        },
        NeuronBody::Primitive(_) => {},
    }
    push_empty(lines);
    assert(lines_model(lines@) =~= start + listing_block(*neuron, i, verbose));
}

/// The listing of the neurons of a program read from the file shown as
/// `file`, line by line.
pub fn neuron_listing(program: &Program, file: &str, verbose: bool) -> (lines: Vec<ListingLine>)
    ensures
        lines_model(lines@) == listing_lines(program.neurons@, file@, verbose),
{
    let mut lines: Vec<ListingLine> = Vec::new();
    let n = program.neurons.len();
    if n == 0 {
        let mut t = String::from_str("No neurons found in ");
        t.append(file);
        push_line(&mut lines, ListingLine::Text(t));
        assert(lines_model(lines@) =~= listing_lines(program.neurons@, file@, verbose));
        return lines;
    }
    let mut heading = String::from_str("Neurons in ");
    heading.append(file);
    heading.append(" (");
    push_decimal(&mut heading, n as u64);
    heading.append(" total):");
    push_line(&mut lines, ListingLine::Text(heading));
    push_empty(&mut lines);
    let ghost top = lines_model(lines@);
    for i in 0..n
        invariant
            n == program.neurons@.len(),
            lines_model(lines@) == top + listing_blocks(program.neurons@, verbose, i as nat),
    {
        push_listing_block(&mut lines, &program.neurons[i], i, verbose);
        assert(lines_model(lines@) =~= top + listing_blocks(program.neurons@, verbose, (i + 1) as nat));
    }
    assert(lines_model(lines@) =~= listing_lines(program.neurons@, file@, verbose));
    lines
}

/// The summary of every neuron of a program after a compilation, line by line.
pub fn neuron_summaries(program: &Program, verbose: bool) -> (lines: Vec<ListingLine>)
    ensures
        lines_model(lines@) == summary_blocks(program.neurons@, verbose, program.neurons@.len()),
{
    let mut lines: Vec<ListingLine> = Vec::new();
    let n = program.neurons.len();
    assert(lines_model(lines@) =~= summary_blocks(program.neurons@, verbose, 0));
    for i in 0..n
        invariant
            n == program.neurons@.len(),
            lines_model(lines@) == summary_blocks(program.neurons@, verbose, i as nat),
    {
        let ghost before = lines_model(lines@);
        let neuron = &program.neurons[i];
        push_line(&mut lines, ListingLine::Text(neuron_summary(neuron, "in:  ", "out: ")));
        if verbose && !neuron.is_primitive() {
            push_line(&mut lines, ListingLine::Connections { neuron: i });
        }
        push_empty(&mut lines);
        assert(lines_model(lines@) =~= before + summary_block(*neuron, i as usize, verbose));
    }
    lines
}

proof fn lemma_ports_text_join(a: Seq<Port>, b: Seq<Port>)
    requires
        a.len() > 0,
        b.len() > 0,
    ensures
        ports_text(a + b) == ports_text(a) + ", "@ + ports_text(b),
    decreases b.len(),
{
    if b.len() == 1 {
        assert((a + b).drop_last() =~= a);
    } else {
        lemma_ports_text_join(a, b.drop_last());
        assert((a + b).drop_last() =~= a + b.drop_last());
        assert(ports_text(a + b) =~= ports_text(a) + ", "@ + ports_text(b));
    }
}

/// Ports are listed separated by `, `: the text of a list is that of its first part, `, `, and that of
/// the rest, so that every item after the first follows a `, `; a single
/// item is shown alone.
pub proof fn ports_text_joins_with_commas(a: Seq<Port>, b: Seq<Port>, x: Port)
    ensures
        ports_text(seq![x]) == port_text(x),
        a.len() > 0 && b.len() > 0 ==> ports_text(a + b) == ports_text(a) + ", "@ + ports_text(b),
{
    if a.len() > 0 && b.len() > 0 {
        lemma_ports_text_join(a, b);
    }
}

/// A verbose listing shows at most three connections of a neuron, the
/// first ones, each by its own index, and then, only when there are more
/// than three, one line counting the others.
pub proof fn listing_shows_the_first_three_connections(i: usize, k: nat)
    ensures
        connection_lines(i, k).len() == if k > 3 {
            4
        } else {
            k
        },
        forall|j: int|
            0 <= j < k && j < 3 ==> #[trigger] connection_lines(i, k)[j] == SpecLine::Connection(
                i,
                j as usize,
            ),
        k > 3 ==> connection_lines(i, k)[3] == SpecLine::Text(
            "      ... and "@ + decimal((k - 3) as nat) + " more"@,
        ),
{
}

} // verus!
