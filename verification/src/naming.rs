//! The neuron a source file is compiled to by default, named after the file.
use vstd::prelude::*;
use vstd::string::*;
use crate::ir::{lookup_neuron, Program};
use crate::text::push_char;

verus! {

/// The upper-case mapping of a character, as std's `char::to_uppercase`
/// yields it (one or more characters, by the Unicode tables).
pub uninterp spec fn char_uppercase(c: char) -> Seq<char>;

/// Appends the upper-case mapping of `c` with std's `char::to_uppercase`:
/// the text afterwards is the text before followed by `char_uppercase(c)`,
/// a name for the mapping that is spelled out here for ASCII alone: a small
/// ASCII letter becomes its capital, and any other ASCII character, having
/// no upper-case mapping of its own, stays as it is.
#[verifier::external_body]
fn push_uppercase(out: &mut String, c: char)
    ensures
        final(out)@ == old(out)@ + char_uppercase(c),
        97 <= (c as u32) <= 122 ==> final(out)@ == old(out)@ + seq![
            (((c as u32) - 32) as u8) as char,
        ],
        (c as u32) < 128 && !(97 <= (c as u32) <= 122) ==> final(out)@ == old(out)@ + seq![c],
{
    out.extend(c.to_uppercase());
}

/// A separator between the words of a file name.
pub open spec fn is_word_separator(c: char) -> bool {
    c == '_' || c == '-'
}

/// The Pascal-case form of the first `n` characters of a file stem: the
/// separators are dropped and the first character of each word is
/// replaced by its upper-case mapping.
pub open spec fn pascal_upto(s: Seq<char>, n: nat) -> Seq<char>
    decreases n,
{
    if n == 0 {
        Seq::empty()
    } else {
        let c = s[n - 1];
        pascal_upto(s, (n - 1) as nat) + if is_word_separator(c) {
            Seq::empty()
        } else if n - 1 == 0 || is_word_separator(s[n - 2]) {
            char_uppercase(c)
        } else {
            seq![c]
        }
    }
}

/// The Pascal-case form of a file stem: `my_mlp-block` becomes `MyMlpBlock`.
pub open spec fn pascal_case(s: Seq<char>) -> Seq<char> {
    pascal_upto(s, s.len())
}

/// The capital of a small ASCII letter; any other character as it is.
pub open spec fn ascii_upper(c: char) -> char {
    if 97 <= (c as u32) <= 122 {
        (((c as u32) - 32) as u8) as char
    } else {
        c
    }
}

/// Whether the first `n` characters of a text are ASCII.
pub open spec fn ascii_upto(s: Seq<char>, n: int) -> bool {
    forall|k: int| 0 <= k < n ==> (#[trigger] s[k] as u32) < 128
}

/// [`pascal_upto`] for an ASCII stem, where the upper-case mapping of a
/// word's first character is [`ascii_upper`].
pub open spec fn pascal_ascii_upto(s: Seq<char>, n: nat) -> Seq<char>
    decreases n,
{
    if n == 0 {
        Seq::empty()
    } else {
        let c = s[n - 1];
        pascal_ascii_upto(s, (n - 1) as nat) + if is_word_separator(c) {
            Seq::empty()
        } else if n - 1 == 0 || is_word_separator(s[n - 2]) {
            seq![ascii_upper(c)]
        } else {
            seq![c]
        }
    }
}

/// The neuron name a file stem stands for: its words in Pascal case; for
/// an ASCII stem, each word's first small letter becomes its capital.
pub fn pascal_case_name(stem: &String) -> (name: String)
    ensures
        name@ == pascal_case(stem@),
        ascii_upto(stem@, stem@.len() as int) ==> name@ == pascal_ascii_upto(
            stem@,
            stem@.len(),
        ),
{
    let text = stem.as_str();
    let n = text.unicode_len();
    let mut name = String::new();
    let mut at_word_start = true;
    for i in 0..n
        invariant
            n == stem@.len(),
            text@ == stem@,
            name@ == pascal_upto(stem@, i as nat),
            ascii_upto(stem@, i as int) ==> name@ == pascal_ascii_upto(stem@, i as nat),
            at_word_start == (i == 0 || is_word_separator(stem@[i - 1])),
    {
        let c = text.get_char(i);
        if c == '_' || c == '-' {
            at_word_start = true;
        } else if at_word_start {
            push_uppercase(&mut name, c);
            at_word_start = false;
        } else {
            push_char(&mut name, c);
        }
        assert(name@ =~= pascal_upto(stem@, (i + 1) as nat));
        proof {
            if ascii_upto(stem@, i + 1) {
                assert(ascii_upto(stem@, i as int));
                assert((stem@[i as int] as u32) < 128);
                assert(name@ =~= pascal_ascii_upto(stem@, (i + 1) as nat));
            }
        }
    }
    name
}

/// The neuron a file compiles to when none is named: the neuron named
/// after the file stem in Pascal case, if the program defines it.
pub fn infer_neuron_name(stem: &String, program: &Program) -> (r: Option<String>)
    ensures
        r is Some <==> lookup_neuron(program.neurons@, pascal_case(stem@)) is Some,
        r matches Some(name) ==> name@ == pascal_case(stem@),
{
    let name = pascal_case_name(stem);
    match program.get_neuron(&name) {
        Some(_) => Some(name),
        None => None,
    }
}

/// A text with no word separator in it.
pub open spec fn is_word(w: Seq<char>) -> bool {
    forall|i: int| 0 <= i < w.len() ==> !is_word_separator(#[trigger] w[i])
}

proof fn lemma_pascal_prefix(u: Seq<char>, v: Seq<char>, n: nat)
    requires
        n <= u.len(),
        n <= v.len(),
        forall|i: int| 0 <= i < n ==> u[i] == v[i],
    ensures
        pascal_upto(u, n) == pascal_upto(v, n),
        pascal_ascii_upto(u, n) == pascal_ascii_upto(v, n),
    decreases n,
{
    if n > 0 {
        lemma_pascal_prefix(u, v, (n - 1) as nat);
    }
}

proof fn lemma_pascal_concat(s: Seq<char>, c: char, t: Seq<char>, k: nat)
    requires
        is_word_separator(c),
        k <= t.len(),
    ensures
        pascal_upto(s + seq![c] + t, s.len() + 1 + k) == pascal_upto(s, s.len()) + pascal_upto(t, k),
        pascal_ascii_upto(s + seq![c] + t, s.len() + 1 + k) == pascal_ascii_upto(s, s.len())
            + pascal_ascii_upto(t, k),
    decreases k,
{
    let u = s + seq![c] + t;
    if k == 0 {
        lemma_pascal_prefix(u, s, s.len());
        assert(u[s.len() as int] == c);
        assert(pascal_upto(t, 0) == Seq::<char>::empty());
        assert(pascal_upto(u, s.len() + 1) =~= pascal_upto(s, s.len()));
        assert(pascal_ascii_upto(u, s.len() + 1) =~= pascal_ascii_upto(s, s.len()));
    } else {
        lemma_pascal_concat(s, c, t, (k - 1) as nat);
        let m = s.len() + 1 + k;
        assert(u[m - 1] == t[k - 1]);
        if k >= 2 {
            assert(u[m - 2] == t[k - 2]);
        } else {
            assert(u[m - 2] == c);
        }
        assert(pascal_upto(u, m) =~= pascal_upto(s, s.len()) + pascal_upto(t, k));
        assert(pascal_ascii_upto(u, m) =~= pascal_ascii_upto(s, s.len()) + pascal_ascii_upto(t, k));
    }
}

/// A stem is put in Pascal case word by word: two parts joined by a word
/// separator give the Pascal case of the first part followed by that of the
/// second, the separator dropped.
pub proof fn pascal_case_splits_at_separators(s: Seq<char>, c: char, t: Seq<char>)
    requires
        is_word_separator(c),
    ensures
        pascal_case(s + seq![c] + t) == pascal_case(s) + pascal_case(t),
        pascal_ascii_upto(s + seq![c] + t, (s + seq![c] + t).len()) == pascal_ascii_upto(
            s,
            s.len(),
        ) + pascal_ascii_upto(t, t.len()),
{
    lemma_pascal_concat(s, c, t, t.len());
}

proof fn lemma_pascal_word(w: Seq<char>, n: nat)
    requires
        1 <= n <= w.len(),
        is_word(w),
    ensures
        pascal_upto(w, n) == char_uppercase(w[0]) + w.subrange(1, n as int),
        pascal_ascii_upto(w, n) == seq![ascii_upper(w[0])] + w.subrange(1, n as int),
    decreases n,
{
    if n > 1 {
        lemma_pascal_word(w, (n - 1) as nat);
        assert(!is_word_separator(w[n - 1]));
        assert(!is_word_separator(w[n - 2]));
        assert(pascal_upto(w, n) =~= char_uppercase(w[0]) + w.subrange(1, n as int));
        assert(pascal_ascii_upto(w, n) =~= seq![ascii_upper(w[0])] + w.subrange(1, n as int));
    } else {
        assert(!is_word_separator(w[0]));
        assert(pascal_upto(w, 0) == Seq::<char>::empty());
        assert(pascal_upto(w, 1) =~= char_uppercase(w[0]) + w.subrange(1, 1));
        assert(pascal_ascii_upto(w, 0) == Seq::<char>::empty());
        assert(pascal_ascii_upto(w, 1) =~= seq![ascii_upper(w[0])] + w.subrange(1, 1));
    }
}

/// A word without separators keeps every character after its first as it
/// is: only the first character is replaced by its upper-case mapping.
pub proof fn pascal_case_of_a_word(w: Seq<char>)
    requires
        w.len() > 0,
        is_word(w),
    ensures
        pascal_case(w) == char_uppercase(w[0]) + w.skip(1),
        pascal_ascii_upto(w, w.len()) == seq![ascii_upper(w[0])] + w.skip(1),
{
    lemma_pascal_word(w, w.len());
    assert(w.subrange(1, w.len() as int) =~= w.skip(1));
}

} // verus!
