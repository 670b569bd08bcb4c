//! The parser: atomization of literal tokens and recursive descent
//! over the token sequence, realized iteratively with an explicit
//! stack of open lists.  Parsing is a pure function of the tokens:
//! every name becomes an unresolved `Symbol`, and resolution happens
//! only at evaluation time.

use vstd::prelude::*;
use vstd::string::{StrSliceExecFns, StringExecFns};
use crate::atom::{Atom, Error, ParseError, ValS, atoms_view, lemma_atoms_view, str_eq};
use crate::token::strings_view;

verus! {

/// Whether a character is a decimal digit.
pub open spec fn is_digit(c: char) -> bool {
    48 <= c as int && c as int <= 57
}

/// The value of one decimal digit character.
pub open spec fn digit_val(c: char) -> int {
    c as int - 48
}

/// Whether every character of the token is a decimal digit.
pub open spec fn all_digits(t: Seq<char>) -> bool {
    forall|i: int| 0 <= i < t.len() ==> is_digit(#[trigger] t[i])
}

/// The numeric value of a digit token, most significant digit first.
pub open spec fn spec_digits_val(t: Seq<char>) -> int
    decreases t.len(),
{
    if t.len() == 0 {
        0
    } else {
        spec_digits_val(t.drop_last()) * 10 + digit_val(t.last())
    }
}

/// A digit token's value is never negative.
pub proof fn lemma_digits_val_nonneg(t: Seq<char>)
    requires
        all_digits(t),
    ensures
        spec_digits_val(t) >= 0,
    decreases t.len(),
{
    if t.len() > 0 {
        assert(all_digits(t.drop_last())) by {
            assert(forall|i: int|
                0 <= i < t.len() - 1 ==> #[trigger] t.drop_last()[i] == t[i]);
        }
        lemma_digits_val_nonneg(t.drop_last());
        assert(spec_digits_val(t.drop_last()) * 10 >= 0) by (nonlinear_arith)
            requires
                spec_digits_val(t.drop_last()) >= 0,
        ;
    }
}

/// A digit token's value only grows as digits are appended.
pub proof fn lemma_digits_val_mono(t: Seq<char>, j: int)
    requires
        all_digits(t),
        0 <= j <= t.len(),
    ensures
        spec_digits_val(t) >= spec_digits_val(t.take(j)),
    decreases t.len() - j,
{
    if j < t.len() {
        lemma_digits_val_mono(t, j + 1);
        let p = t.take(j + 1);
        assert(p.drop_last() =~= t.take(j));
        assert(all_digits(t.take(j))) by {
            assert(forall|i: int| 0 <= i < j ==> #[trigger] t.take(j)[i] == t[i]);
        }
        lemma_digits_val_nonneg(t.take(j));
        assert(spec_digits_val(t.take(j)) * 10 >= spec_digits_val(t.take(j))) by (nonlinear_arith)
            requires
                spec_digits_val(t.take(j)) >= 0,
        ;
        assert(spec_digits_val(p) >= spec_digits_val(t.take(j)));
    } else {
        assert(t.take(j) =~= t);
    }
}

/// Classify one token: the two boolean literals, a quote-led string
/// literal (contents between its first and last character), an
/// unsigned digit run as a number, anything else an unresolved
/// symbol.  A lone quote character or an empty token is malformed;
/// a digit run beyond the 64-bit range overflows.
pub open spec fn spec_atomise(t: Seq<char>) -> Result<ValS, Error> {
    if t == "#tá"@ {
        Ok(ValS::Bool(true))
    } else if t == "#níl"@ {
        Ok(ValS::Bool(false))
    } else if t.len() > 0 && t[0] == '"' {
        if t.len() >= 2 {
            Ok(ValS::Str(t.subrange(1, t.len() - 1)))
        } else {
            Err(Error::Lex)
        }
    } else if all_digits(t) {
        if t.len() == 0 {
            Err(Error::Lex)
        } else if spec_digits_val(t) > i64::MAX as int {
            Err(Error::NumericOverflow)
        } else {
            Ok(ValS::Number(spec_digits_val(t)))
        }
    } else {
        Ok(ValS::Symbol(t))
    }
}

/// Classify one raw token into an atom.
pub fn atomise(token: &str) -> (r: Result<Atom, Error>)
    ensures
        match spec_atomise(token@) {
            Ok(v) => r matches Ok(a) && a@ == v,
            Err(e) => r == Err::<Atom, Error>(e),
        },
{
    proof {
        reveal_strlit("#tá");
        reveal_strlit("#níl");
    }
    if str_eq(token, "#tá") {
        return Ok(Atom::Bool(true));
    }
    if str_eq(token, "#níl") {
        return Ok(Atom::Bool(false));
    }
    let len = token.unicode_len();
    if len > 0 && token.get_char(0) == '"' {
        if len >= 2 {
            let inner = token.substring_char(1, len - 1);
            return Ok(Atom::Str(String::from_str(inner)));
        } else {
            return Err(Error::Lex);
        }
    }
    if len == 0 {
        return Err(Error::Lex);
    }
    let mut k: usize = 0;
    while k < len
        invariant
            len == token@.len(),
            len > 0,
            k <= len,
            token@ != "#tá"@,
            token@ != "#níl"@,
            token@[0] != '"',
            forall|i: int| 0 <= i < k ==> is_digit(#[trigger] token@[i]),
        decreases len - k,
    {
        let c = token.get_char(k);
        let u = c as u32;
        if u < 48 || u > 57 {
            proof {
                assert(!is_digit(token@[k as int]));
                assert(!all_digits(token@));
            }
            return Ok(Atom::Symbol(String::from_str(token)));
        }
        k += 1;
    }
    proof {
        assert(all_digits(token@));
    }
    let big: u64 = 9223372036854775807;
    let mut acc: u64 = 0;
    let mut j: usize = 0;
    proof {
        assert(token@.take(0) =~= Seq::<char>::empty());
    }
    while j < len
        invariant
            len == token@.len(),
            len > 0,
            j <= len,
            token@ != "#tá"@,
            token@ != "#níl"@,
            token@[0] != '"',
            all_digits(token@),
            big == i64::MAX as u64,
            acc <= big,
            acc as int == spec_digits_val(token@.take(j as int)),
        decreases len - j,
    {
        let c = token.get_char(j);
        let d = (c as u32 - 48) as u64;
        proof {
            assert(is_digit(token@[j as int]));
            assert(d as int == digit_val(token@[j as int]));
            assert(token@.take(j + 1).drop_last() =~= token@.take(j as int));
            assert(token@.take(j + 1).last() == token@[j as int]);
        }
        let q = (big - d) / 10;
        proof {
            vstd::arithmetic::div_mod::lemma_fundamental_div_mod((big - d) as int, 10);
            if acc > q {
                assert(acc as int * 10 + d as int > big as int) by (nonlinear_arith)
                    requires
                        acc as int >= q as int + 1,
                        (big - d) as int == 10 * (q as int) + ((big - d) as int % 10),
                        0 <= ((big - d) as int % 10) < 10,
                        d <= 9,
                ;
                assert(spec_digits_val(token@.take(j + 1)) > i64::MAX as int);
                lemma_digits_val_mono(token@, j + 1);
            } else {
                assert(acc as int * 10 + d as int <= big as int) by (nonlinear_arith)
                    requires
                        acc as int <= q as int,
                        (big - d) as int == 10 * (q as int) + ((big - d) as int % 10),
                        0 <= ((big - d) as int % 10) < 10,
                ;
            }
        }
        if acc > q {
            return Err(Error::NumericOverflow);
        }
        acc = acc * 10 + d;
        j += 1;
    }
    proof {
        assert(token@.take(len as int) =~= token@);
        lemma_digits_val_mono(token@, len as int);
    }
    Ok(Atom::Number(acc as i64))
}

/// The model of the parser's stack of open lists.
pub open spec fn stack_view(s: Seq<Vec<Atom>>) -> Seq<Seq<ValS>> {
    Seq::new(s.len(), |i: int| atoms_view(s[i]@))
}

/// Parse the leading expression of a token sequence.  The stack
/// holds the elements of every list still open; `(` opens a list,
/// `)` closes the innermost one, and any other token is atomized.
/// The first complete expression is returned with the tokens that
/// follow it; exhaustion is an unterminated list, and a `)` with no
/// open list is an unexpected token.
pub open spec fn spec_parse_at(tokens: Seq<Seq<char>>, stack: Seq<Seq<ValS>>) -> Result<
    (ValS, Seq<Seq<char>>),
    Error,
>
    decreases tokens.len(),
{
    if tokens.len() == 0 {
        Err(Error::Parse(ParseError::UnterminatedList))
    } else {
        let t = tokens[0];
        let rest = tokens.drop_first();
        if t == "("@ {
            spec_parse_at(rest, stack.push(Seq::empty()))
        } else if t == ")"@ {
            if stack.len() == 0 {
                Err(Error::Parse(ParseError::UnexpectedToken))
            } else {
                let done = ValS::List(stack.last());
                if stack.len() == 1 {
                    Ok((done, rest))
                } else {
                    spec_parse_at(
                        rest,
                        stack.drop_last().update(stack.len() - 2, stack[stack.len() - 2].push(done)),
                    )
                }
            }
        } else {
            match spec_atomise(t) {
                Err(e) => Err(e),
                Ok(v) => if stack.len() == 0 {
                    Ok((v, rest))
                } else {
                    spec_parse_at(rest, stack.update(stack.len() - 1, stack.last().push(v)))
                },
            }
        }
    }
}

/// Parse the leading expression of the token sequence; on success
/// the result carries how many tokens were consumed.
pub fn parse(tokens: &Vec<String>) -> (r: Result<(Atom, usize), Error>)
    ensures
        match spec_parse_at(strings_view(tokens@), Seq::empty()) {
            Ok(pair) => r matches Ok(p) && p.0@ == pair.0 && p.1 <= tokens@.len() && pair.1
                == strings_view(tokens@).skip(p.1 as int),
            Err(e) => r == Err::<(Atom, usize), Error>(e),
        },
{
    let ghost toks = strings_view(tokens@);
    let mut stack: Vec<Vec<Atom>> = Vec::new();
    let mut i: usize = 0;
    proof {
        assert(toks.skip(0) =~= toks);
        assert(stack_view(stack@) =~= Seq::<Seq<ValS>>::empty());
    }
    let n = tokens.len();
    while i < n
        invariant
            n == tokens@.len(),
            toks == strings_view(tokens@),
            toks.len() == n,
            i <= n,
            spec_parse_at(toks, Seq::empty()) == spec_parse_at(
                toks.skip(i as int),
                stack_view(stack@),
            ),
        decreases n - i,
    {
        let t = &tokens[i];
        proof {
            assert(toks.skip(i as int)[0] == t@);
            assert(toks.skip(i as int).drop_first() =~= toks.skip(i + 1));
        }
        if str_eq(t.as_str(), "(") {
            let ghost sv0 = stack_view(stack@);
            stack.push(Vec::new());
            proof {
                assert(stack_view(stack@) =~= sv0.push(Seq::<ValS>::empty()));
            }
            proof {
                assert(spec_parse_at(toks, Seq::empty()) == spec_parse_at(
                    toks.skip(i + 1),
                    stack_view(stack@),
                ));
            }
            i += 1;
        } else if str_eq(t.as_str(), ")") {
            if stack.len() == 0 {
                return Err(Error::Parse(ParseError::UnexpectedToken));
            }
            let ghost sv = stack_view(stack@);
            let top = match stack.pop() {
                Some(v) => v,
                None => {
                    proof {
                        assert(false);
                    }
                    Vec::new()
                },
            };
            let done = Atom::List(top);
            proof {
                lemma_atoms_view(top@);
                assert(done@ == ValS::List(sv.last()));
            }
            if stack.len() == 0 {
                proof {
                    assert(sv.len() == 1);
                }
                return Ok((done, i + 1));
            }
            let mut t2 = match stack.pop() {
                Some(v) => v,
                None => {
                    proof {
                        assert(false);
                    }
                    Vec::new()
                },
            };
            let ghost t2v = t2@;
            t2.push(done);
            stack.push(t2);
            proof {
                assert(t2@.subrange(0, t2@.len() - 1) =~= t2v);
                assert(atoms_view(t2@) == atoms_view(t2v).push(done@));
                assert(stack_view(stack@) =~~= sv.drop_last().update(
                    sv.len() - 2,
                    sv[sv.len() - 2].push(ValS::List(sv.last())),
                ));
            }
            proof {
                assert(spec_parse_at(toks, Seq::empty()) == spec_parse_at(
                    toks.skip(i + 1),
                    stack_view(stack@),
                ));
            }
            i += 1;
        } else {
            let a = match atomise(t.as_str()) {
                Ok(a) => a,
                Err(e) => {
                    return Err(e);
                },
            };
            if stack.len() == 0 {
                return Ok((a, i + 1));
            }
            let ghost sv = stack_view(stack@);
            let mut t2 = match stack.pop() {
                Some(v) => v,
                None => {
                    proof {
                        assert(false);
                    }
                    Vec::new()
                },
            };
            let ghost t2v = t2@;
            t2.push(a);
            stack.push(t2);
            proof {
                assert(t2@.subrange(0, t2@.len() - 1) =~= t2v);
                assert(atoms_view(t2@) == atoms_view(t2v).push(a@));
                assert(stack_view(stack@) =~~= sv.update(sv.len() - 1, sv.last().push(a@)));
            }
            proof {
                assert(spec_parse_at(toks, Seq::empty()) == spec_parse_at(
                    toks.skip(i + 1),
                    stack_view(stack@),
                ));
            }
            i += 1;
        }
    }
    proof {
        assert(toks.skip(n as int) =~= Seq::<Seq<char>>::empty());
    }
    Err(Error::Parse(ParseError::UnterminatedList))
}

} // verus!
