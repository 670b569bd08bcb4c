//! Textual rendering of values: booleans as the two literal tokens,
//! strings and symbols as their raw contents, numbers in decimal,
//! lists parenthesized with comma-space-joined elements, and
//! function-like values as opaque placeholders (not round-trippable).

use vstd::prelude::*;
use vstd::string::{StrSliceExecFns, StringExecFns};
use crate::atom::{Atom, ValS, atoms_view, lemma_atoms_view};

verus! {

/// The decimal digit character for one digit value.
pub open spec fn spec_digit_char(d: int) -> char {
    if d == 0 {
        '0'
    } else if d == 1 {
        '1'
    } else if d == 2 {
        '2'
    } else if d == 3 {
        '3'
    } else if d == 4 {
        '4'
    } else if d == 5 {
        '5'
    } else if d == 6 {
        '6'
    } else if d == 7 {
        '7'
    } else if d == 8 {
        '8'
    } else {
        '9'
    }
}

/// The decimal digits of a non-negative number, most significant
/// digit first.
pub open spec fn spec_digits(n: int) -> Seq<char>
    decreases n,
{
    if n < 10 {
        seq![spec_digit_char(n)]
    } else {
        spec_digits(n / 10).push(spec_digit_char(n % 10))
    }
}

/// The decimal rendering of a number, with a leading minus sign when
/// it is negative.
pub open spec fn spec_render_number(n: int) -> Seq<char> {
    if n < 0 {
        seq!['-'] + spec_digits(-n)
    } else {
        spec_digits(n)
    }
}

/// The parts joined with a comma and a space between each two.
pub open spec fn spec_join_comma(parts: Seq<Seq<char>>) -> Seq<char>
    decreases parts.len(),
{
    if parts.len() == 0 {
        Seq::empty()
    } else if parts.len() == 1 {
        parts[0]
    } else {
        spec_join_comma(parts.drop_last()) + ", "@ + parts.last()
    }
}

/// The rendering of a value.
pub open spec fn spec_render(v: ValS) -> Seq<char>
    decreases v,
{
    match v {
        ValS::Bool(b) => if b {
            "#tá"@
        } else {
            "#níl"@
        },
        ValS::Str(s) => s,
        ValS::Symbol(s) => s,
        ValS::Number(n) => spec_render_number(n),
        ValS::List(l) => seq!['('] + spec_join_comma(spec_render_seq(l)) + seq![')'],
        ValS::Func(_) => "Function {}"@,
        ValS::Lambda { .. } => "Lambda {}"@,
    }
}

/// The renderings of a sequence of values, element by element.
pub open spec fn spec_render_seq(vs: Seq<ValS>) -> Seq<Seq<char>>
    decreases vs,
{
    if vs.len() == 0 {
        Seq::empty()
    } else {
        spec_render_seq(vs.subrange(0, vs.len() - 1)).push(spec_render(vs[vs.len() - 1]))
    }
}

/// `spec_render_seq` is pointwise `spec_render`.
pub broadcast proof fn lemma_render_seq(vs: Seq<ValS>)
    ensures
        #[trigger] spec_render_seq(vs) == Seq::new(vs.len(), |i: int| spec_render(vs[i])),
    decreases vs.len(),
{
    if vs.len() == 0 {
        assert(spec_render_seq(vs) =~= Seq::new(vs.len(), |i: int| spec_render(vs[i])));
    } else {
        let sub = vs.subrange(0, vs.len() - 1);
        lemma_render_seq(sub);
        assert forall|i: int| 0 <= i < vs.len() implies spec_render_seq(vs)[i] == spec_render(
            vs[i],
        ) by {
            if i < vs.len() - 1 {
                assert(sub[i] == vs[i]);
                assert(spec_render_seq(sub)[i] == spec_render(sub[i]));
            }
        }
        assert(spec_render_seq(vs) =~= Seq::new(vs.len(), |i: int| spec_render(vs[i])));
    }
}

/// One step of the comma join, as a loop builds it left to right.
pub proof fn lemma_join_step(p: Seq<Seq<char>>, i: int)
    requires
        0 <= i < p.len(),
    ensures
        i == 0 ==> spec_join_comma(p.take(1)) == p[0],
        i >= 1 ==> spec_join_comma(p.take(i + 1)) == spec_join_comma(p.take(i)) + ", "@ + p[i],
{
    assert(p.take(i + 1).last() == p[i]);
    assert(p.take(i + 1).drop_last() =~= p.take(i));
}

/// Relies on std's `String::push`: appends the one character to the
/// end of the string.
#[verifier::external_body]
pub(crate) fn push_char(s: &mut String, c: char)
    ensures
        final(s)@ == old(s)@.push(c),
{
    s.push(c);
}

/// The decimal digit character for one digit value.
fn digit_char(d: u64) -> (c: char)
    requires
        d < 10,
    ensures
        c == spec_digit_char(d as int),
{
    match d {
        0 => '0',
        1 => '1',
        2 => '2',
        3 => '3',
        4 => '4',
        5 => '5',
        6 => '6',
        7 => '7',
        8 => '8',
        _ => '9',
    }
}

/// The decimal digits of a non-negative number.
fn digits_string(m: u64) -> (s: String)
    ensures
        s@ == spec_digits(m as int),
    decreases m,
{
    if m < 10 {
        let mut s = String::new();
        push_char(&mut s, digit_char(m));
        proof {
            assert(s@ =~= seq![spec_digit_char(m as int)]);
        }
        s
    } else {
        let mut s = digits_string(m / 10);
        push_char(&mut s, digit_char(m % 10));
        s
    }
}

/// The decimal rendering of a signed number.
pub fn number_string(n: i64) -> (s: String)
    ensures
        s@ == spec_render_number(n as int),
{
    if n >= 0 {
        digits_string(n as u64)
    } else {
        let m: u64 = (-(n as i128)) as u64;
        let mut s = String::new();
        push_char(&mut s, '-');
        let d = digits_string(m);
        s.append(d.as_str());
        proof {
            assert(s@ =~= seq!['-'] + spec_digits(m as int));
        }
        s
    }
}

impl Atom {
    /// The textual rendering of this value for display.
    pub fn to_text(&self) -> (s: String)
        ensures
            s@ == spec_render(self@),
        decreases self@,
    {
        match self {
            Atom::Bool(b) => {
                if *b {
                    String::from_str("#tá")
                } else {
                    String::from_str("#níl")
                }
            },
            Atom::Str(st) => st.clone(),
            Atom::Symbol(st) => st.clone(),
            Atom::Number(n) => number_string(*n),
            Atom::Func(_) => String::from_str("Function {}"),
            Atom::Lambda(_) => String::from_str("Lambda {}"),
            Atom::List(l) => {
                proof {
                    lemma_atoms_view(l@);
                }
                let ghost vs = atoms_view(l@);
                let ghost parts = spec_render_seq(vs);
                proof {
                    lemma_render_seq(vs);
                }
                let mut s = String::from_str("(");
                proof {
                    reveal_strlit("(");
                    assert(parts.take(0) =~= Seq::<Seq<char>>::empty());
                    assert(s@ =~= seq!['('] + spec_join_comma(parts.take(0)));
                }
                let n = l.len();
                let mut i: usize = 0;
                while i < n
                    invariant
                        n == l@.len(),
                        i <= n,
                        self@ == ValS::List(vs),
                        vs == atoms_view(l@),
                        vs == Seq::new(l@.len(), |k: int| l@[k]@),
                        parts == spec_render_seq(vs),
                        parts == Seq::new(vs.len(), |k: int| spec_render(vs[k])),
                        s@ == seq!['('] + spec_join_comma(parts.take(i as int)),
                    decreases n - i,
                {
                    if i > 0 {
                        s.append(", ");
                    }
                    proof {
                        assert(decreases_to!(self@ => self@->List_0));
                        assert(decreases_to!(self@->List_0 => self@->List_0[i as int]));
                        assert(decreases_to!(self@ => l@[i as int]@));
                    }
                    let part = l[i].to_text();
                    s.append(part.as_str());
                    proof {
                        lemma_join_step(parts, i as int);
                        assert(s@ =~= seq!['('] + spec_join_comma(parts.take(i + 1)));
                    }
                    i += 1;
                }
                s.append(")");
                proof {
                    reveal_strlit(")");
                    assert(parts.take(n as int) =~= parts);
                    assert(s@ =~= seq!['('] + spec_join_comma(parts) + seq![')']);
                }
                s
            },
        }
    }
}

} // verus!
