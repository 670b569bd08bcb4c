//! The tokenizer: newline and tab characters are deleted outright
//! (not replaced by spaces, so adjacent tokens joined only by them
//! run together — a deliberate quirk of the language, kept as is),
//! every parenthesis is padded with spaces, and the result is split
//! on runs of whitespace.  There is no comment syntax and no escape
//! handling: a quoted string containing whitespace splits into
//! several tokens.

use vstd::prelude::*;
use vstd::string::{StrSliceExecFns, StringExecFns};

verus! {

/// Characters the tokenizer deletes outright.
pub open spec fn is_deleted(c: char) -> bool {
    c == '\n' || c == '\t'
}

/// Whitespace, as the splitting step sees it.
pub open spec fn is_space(c: char) -> bool {
    c == ' ' || c == '\t' || c == '\n' || c == '\r' || c == '\u{b}' || c == '\u{c}'
}

/// The source with every newline and tab deleted.
pub open spec fn spec_clean(s: Seq<char>) -> Seq<char>
    decreases s.len(),
{
    if s.len() == 0 {
        Seq::empty()
    } else {
        spec_clean(s.drop_last()) + (if is_deleted(s.last()) {
            Seq::<char>::empty()
        } else {
            seq![s.last()]
        })
    }
}

/// What one character contributes after parenthesis padding.
pub open spec fn spec_expand(c: char) -> Seq<char> {
    if c == '(' {
        seq![' ', '(', ' ']
    } else if c == ')' {
        seq![' ', ')', ' ']
    } else {
        seq![c]
    }
}

/// The text with every parenthesis padded by spaces.
pub open spec fn spec_pad(s: Seq<char>) -> Seq<char>
    decreases s.len(),
{
    if s.len() == 0 {
        Seq::empty()
    } else {
        spec_pad(s.drop_last()) + spec_expand(s.last())
    }
}

/// The length of the whitespace-free token starting the text.
pub open spec fn spec_token_len(s: Seq<char>) -> nat
    decreases s.len(),
{
    if s.len() == 0 || is_space(s[0]) {
        0
    } else {
        1 + spec_token_len(s.drop_first())
    }
}

/// The text split on runs of whitespace.
pub open spec fn spec_split(s: Seq<char>) -> Seq<Seq<char>>
    decreases s.len(),
    via spec_split_decreases
{
    if s.len() == 0 {
        Seq::empty()
    } else if is_space(s[0]) {
        spec_split(s.drop_first())
    } else {
        seq![s.take(spec_token_len(s) as int)] + spec_split(s.skip(spec_token_len(s) as int))
    }
}

#[via_fn]
proof fn spec_split_decreases(s: Seq<char>) {
    if s.len() > 0 && !is_space(s[0]) {
        lemma_token_len_le(s);
        assert(spec_token_len(s) == 1 + spec_token_len(s.drop_first()));
    }
}

/// The leading token never reaches past the end of the text.
pub proof fn lemma_token_len_le(s: Seq<char>)
    ensures
        spec_token_len(s) <= s.len(),
    decreases s.len(),
{
    if s.len() > 0 && !is_space(s[0]) {
        lemma_token_len_le(s.drop_first());
    }
}

/// The token sequence of a source text: delete newlines and tabs,
/// pad parentheses, split on whitespace.
pub open spec fn spec_tokenise(s: Seq<char>) -> Seq<Seq<char>> {
    spec_split(spec_pad(spec_clean(s)))
}

/// The views of a sequence of strings, element by element.
pub open spec fn strings_view(v: Seq<String>) -> Seq<Seq<char>> {
    Seq::new(v.len(), |i: int| v[i]@)
}

/// Whether a character is whitespace to the splitting step.
fn space_char(c: char) -> (r: bool)
    ensures
        r == is_space(c),
{
    c == ' ' || c == '\t' || c == '\n' || c == '\r' || c == '\u{b}' || c == '\u{c}'
}

/// Turn source text into its ordered sequence of tokens.
pub fn tokenise(code: &str) -> (tokens: Vec<String>)
    ensures
        strings_view(tokens@) == spec_tokenise(code@),
{
    let n = code.unicode_len();
    let mut buf = String::new();
    let mut i: usize = 0;
    while i < n
        invariant
            n == code@.len(),
            i <= n,
            buf@ == spec_pad(spec_clean(code@.take(i as int))),
        decreases n - i,
    {
        let c = code.get_char(i);
        proof {
            assert(code@.take(i + 1).drop_last() =~= code@.take(i as int));
            assert(code@.take(i + 1).last() == c);
        }
        if c == '\n' || c == '\t' {
        } else if c == '(' {
            buf.append(" ( ");
            proof {
                reveal_strlit(" ( ");
                let cl = spec_clean(code@.take(i + 1));
                assert(cl.drop_last() =~= spec_clean(code@.take(i as int)));
                assert(buf@ =~= spec_pad(cl));
            }
        } else if c == ')' {
            buf.append(" ) ");
            proof {
                reveal_strlit(" ) ");
                let cl = spec_clean(code@.take(i + 1));
                assert(cl.drop_last() =~= spec_clean(code@.take(i as int)));
                assert(buf@ =~= spec_pad(cl));
            }
        } else {
            crate::render::push_char(&mut buf, c);
            proof {
                let cl = spec_clean(code@.take(i + 1));
                assert(cl.drop_last() =~= spec_clean(code@.take(i as int)));
                assert(buf@ =~= spec_pad(cl));
            }
        }
        i += 1;
    }
    proof {
        assert(code@.take(n as int) =~= code@);
    }
    split_spaces(&buf)
}

/// Split a text on runs of whitespace.
fn split_spaces(buf: &String) -> (tokens: Vec<String>)
    ensures
        strings_view(tokens@) == spec_split(buf@),
{
    let ghost bv = buf@;
    let m = buf.as_str().unicode_len();
    let mut out: Vec<String> = Vec::new();
    let mut i: usize = 0;
    proof {
        assert(bv.skip(0) =~= bv);
        assert(strings_view(out@) =~= Seq::<Seq<char>>::empty());
    }
    while i < m
        invariant
            m == bv.len(),
            bv == buf@,
            i <= m,
            strings_view(out@) + spec_split(bv.skip(i as int)) == spec_split(bv),
        decreases m - i,
    {
        let c = buf.as_str().get_char(i);
        if space_char(c) {
            proof {
                assert(bv.skip(i as int).drop_first() =~= bv.skip(i + 1));
            }
            i += 1;
        } else {
            let mut j = i + 1;
            proof {
                assert(bv.skip(i as int).drop_first() =~= bv.skip(i + 1));
            }
            while j < m && !space_char(buf.as_str().get_char(j))
                invariant
                    m == bv.len(),
                    bv == buf@,
                    i < j <= m,
                    spec_token_len(bv.skip(i as int)) == (j - i) + spec_token_len(
                        bv.skip(j as int),
                    ),
                decreases m - j,
            {
                proof {
                    assert(bv.skip(j as int).drop_first() =~= bv.skip(j + 1));
                }
                j += 1;
            }
            proof {
                assert(spec_token_len(bv.skip(j as int)) == 0);
                assert(spec_token_len(bv.skip(i as int)) == j - i);
            }
            let piece = buf.as_str().substring_char(i, j);
            out.push(String::from_str(piece));
            proof {
                let si = bv.skip(i as int);
                assert(si.take(j - i) =~= bv.subrange(i as int, j as int));
                assert(si.skip(j - i) =~= bv.skip(j as int));
                assert(spec_split(si) == seq![bv.subrange(i as int, j as int)] + spec_split(
                    bv.skip(j as int),
                ));
                assert(strings_view(out@) =~= strings_view(out@.drop_last()) + seq![
                    bv.subrange(i as int, j as int),
                ]);
                assert(strings_view(out@) + spec_split(bv.skip(j as int)) =~= spec_split(bv));
            }
            i = j;
        }
    }
    proof {
        assert(bv.skip(m as int) =~= Seq::<char>::empty());
        assert(strings_view(out@) =~= spec_split(bv));
    }
    out
}

} // verus!
