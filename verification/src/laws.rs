//! Laws of the interpreter, stated and proved against the
//! specification functions: evaluation of fully-evaluated values is
//! the identity, the two error cases leave the environment intact,
//! and a value in literal form re-parses from its token rendering to
//! an equal value.

use vstd::prelude::*;
use crate::atom::{Error, ValS};
use crate::env::{EnvM, spec_env_lookup};
use crate::evaluate::{EvalOut, params_names, spec_apply, spec_eval};
use crate::parse::{all_digits, digit_val, is_digit, spec_atomise, spec_digits_val, spec_parse_at};
use crate::render::{spec_digit_char, spec_digits};

verus! {

/// Evaluating an already fully-evaluated value — a number, a
/// boolean, a native function or a user function — returns that very
/// value, writes nothing, and leaves the environment untouched.
pub proof fn lemma_eval_idempotent(v: ValS, env: EnvM, fuel: nat)
    requires
        fuel >= 1,
        v is Number || v is Bool || v is Func || v is Lambda,
    ensures
        spec_eval(v, env, fuel) == (EvalOut {
            r: Ok::<ValS, Error>(v),
            env,
            out: Seq::<Seq<char>>::empty(),
        }),
{
}

/// Applying a user function whose parameter list has a different
/// length than the argument list fails with `ArityMismatch`, writes
/// nothing, and does not mutate any environment frame.
pub proof fn lemma_apply_arity_mismatch(head: ValS, args: Seq<ValS>, env: EnvM, fuel: nat)
    requires
        fuel >= 1,
        head is Lambda,
        params_names(*head->Lambda_params) matches Some(ns) && ns.len() != args.len(),
    ensures
        spec_apply(head, args, env, fuel) == (EvalOut {
            r: Err::<ValS, Error>(Error::ArityMismatch),
            env,
            out: Seq::<Seq<char>>::empty(),
        }),
{
}

/// Referencing a symbol bound nowhere in the chain fails with
/// `UnboundSymbol` and leaves every prior binding intact.
pub proof fn lemma_unbound_symbol(s: Seq<char>, env: EnvM, fuel: nat)
    requires
        fuel >= 1,
        spec_env_lookup(env, s) is None,
    ensures
        spec_eval(ValS::Symbol(s), env, fuel) == (EvalOut {
            r: Err::<ValS, Error>(Error::UnboundSymbol),
            env,
            out: Seq::<Seq<char>>::empty(),
        }),
{
}

/// Whether a value is in literal form: no function-like sub-value
/// anywhere, numbers non-negative (the grammar has no sign), and
/// symbol names that atomize back to themselves — non-empty, not a
/// boolean literal, not quote-led, not a digit run, not a
/// parenthesis token.
pub open spec fn literal_form(v: ValS) -> bool
    decreases v,
{
    match v {
        ValS::Bool(_) => true,
        ValS::Str(_) => true,
        ValS::Symbol(s) => s.len() >= 1 && s != "#tá"@ && s != "#níl"@ && s[0] != '"'
            && !all_digits(s) && s != "("@ && s != ")"@,
        ValS::Number(n) => 0 <= n <= i64::MAX as int,
        ValS::List(l) => forall|i: int| 0 <= i < l.len() ==> literal_form(#[trigger] l[i]),
        ValS::Func(_) => false,
        ValS::Lambda { .. } => false,
    }
}

/// The token sequence that denotes a value in literal form.
pub open spec fn spec_tokens_of(v: ValS) -> Seq<Seq<char>>
    decreases v, 0int,
{
    match v {
        ValS::Bool(b) => seq![
            if b {
                "#tá"@
            } else {
                "#níl"@
            },
        ],
        ValS::Str(s) => seq![seq!['"'] + s + seq!['"']],
        ValS::Symbol(s) => seq![s],
        ValS::Number(n) => seq![spec_digits(n)],
        ValS::List(l) => seq!["("@] + spec_tokens_of_seq(l, 0) + seq![")"@],
        ValS::Func(_) => Seq::empty(),
        ValS::Lambda { .. } => Seq::empty(),
    }
}

/// The token sequences of the elements from position `i` on.
pub open spec fn spec_tokens_of_seq(l: Seq<ValS>, i: int) -> Seq<Seq<char>>
    decreases l, l.len() - i,
{
    if i < 0 || i >= l.len() {
        Seq::empty()
    } else {
        spec_tokens_of(l[i]) + spec_tokens_of_seq(l, i + 1)
    }
}

/// The digits of a non-negative number are decimal digit characters.
proof fn lemma_digits_are_digits(n: int)
    requires
        n >= 0,
    ensures
        spec_digits(n).len() >= 1,
        all_digits(spec_digits(n)),
    decreases n,
{
    if n < 10 {
        assert(is_digit(spec_digit_char(n)));
        assert(forall|i: int|
            0 <= i < spec_digits(n).len() ==> is_digit(#[trigger] spec_digits(n)[i]));
    } else {
        lemma_digits_are_digits(n / 10);
        assert(is_digit(spec_digit_char(n % 10)));
        let d = spec_digits(n);
        assert(d == spec_digits(n / 10).push(spec_digit_char(n % 10)));
        assert(forall|i: int| 0 <= i < d.len() ==> is_digit(#[trigger] d[i])) by {
            assert(forall|i: int|
                0 <= i < d.len() - 1 ==> #[trigger] d[i] == spec_digits(n / 10)[i]);
        }
    }
}

/// Reading the decimal digits of a number back yields the number.
proof fn lemma_digits_roundtrip(n: int)
    requires
        0 <= n,
    ensures
        spec_digits_val(spec_digits(n)) == n,
    decreases n,
{
    if n < 10 {
        let d = spec_digits(n);
        assert(d.drop_last() =~= Seq::<char>::empty());
        assert(spec_digits_val(d.drop_last()) == 0);
        assert(d.last() == spec_digit_char(n));
        assert(digit_val(spec_digit_char(n)) == n);
        assert(spec_digits_val(d) == spec_digits_val(d.drop_last()) * 10 + digit_val(d.last()));
    } else {
        lemma_digits_roundtrip(n / 10);
        let d = spec_digits(n);
        assert(d.drop_last() =~= spec_digits(n / 10));
        assert(digit_val(spec_digit_char(n % 10)) == n % 10);
        assert(spec_digits_val(d) == n) by {
            vstd::arithmetic::div_mod::lemma_fundamental_div_mod(n, 10);
        }
    }
}

/// A literal-form value's tokens atomize back to the value itself.
proof fn lemma_atomise_roundtrip(v: ValS)
    requires
        literal_form(v),
        !(v is List),
    ensures
        spec_tokens_of(v).len() == 1,
        spec_atomise(spec_tokens_of(v)[0]) == Ok::<ValS, Error>(v),
{
    reveal_strlit("#tá");
    reveal_strlit("#níl");
    match v {
        ValS::Bool(b) => {
            if !b {
                assert("#níl"@ != "#tá"@) by {
                    assert("#tá"@.len() == 3 && "#níl"@.len() == 4);
                }
            }
        },
        ValS::Str(s) => {
            let t = seq!['"'] + s + seq!['"'];
            assert(t.len() == s.len() + 2);
            assert(t[0] == '"');
            assert(t != "#tá"@) by {
                assert("#tá"@[0] == '#');
            }
            assert(t != "#níl"@) by {
                assert("#níl"@[0] == '#');
            }
            assert(t.subrange(1, t.len() - 1) =~= s);
        },
        ValS::Number(n) => {
            lemma_digits_are_digits(n);
            lemma_digits_roundtrip(n);
            let t = spec_digits(n);
            assert(is_digit(t[0]));
            assert(t != "#tá"@) by {
                assert("#tá"@[0] == '#');
                assert(!is_digit('#'));
            }
            assert(t != "#níl"@) by {
                assert("#níl"@[0] == '#');
                assert(!is_digit('#'));
            }
            assert(t[0] != '"') by {
                assert(!is_digit('"'));
            }
        },
        ValS::Symbol(s) => {
        },
        _ => {
        },
    }
}

/// A non-list literal token is neither parenthesis token.
proof fn lemma_atom_token_not_paren(v: ValS)
    requires
        literal_form(v),
        !(v is List),
    ensures
        spec_tokens_of(v).len() == 1,
        spec_tokens_of(v)[0] != "("@,
        spec_tokens_of(v)[0] != ")"@,
{
    reveal_strlit("(");
    reveal_strlit(")");
    reveal_strlit("#tá");
    reveal_strlit("#níl");
    match v {
        ValS::Str(s) => {
            let t = seq!['"'] + s + seq!['"'];
            assert(t[0] == '"');
            assert(spec_tokens_of(v)[0] == t);
            assert(t != "("@) by {
                assert("("@[0] == '(');
            }
            assert(t != ")"@) by {
                assert(")"@[0] == ')');
            }
        },
        ValS::Number(n) => {
            lemma_digits_are_digits(n);
            let t = spec_digits(n);
            assert(is_digit(t[0]));
            assert(t != "("@) by {
                assert("("@[0] == '(');
                assert(!is_digit('('));
            }
            assert(t != ")"@) by {
                assert(")"@[0] == ')');
                assert(!is_digit(')'));
            }
        },
        ValS::Bool(b) => {
            assert("#tá"@[0] == '#' && "#níl"@[0] == '#');
            assert("("@[0] == '(' && ")"@[0] == ')');
            assert("("@.len() == 1 && ")"@.len() == 1);
            assert("#tá"@.len() == 3 && "#níl"@.len() == 4);
        },
        _ => {
        },
    }
}

/// Parsing the tokens of a literal-form value, followed by anything,
/// yields the value: with no open list it is the parse result, and
/// with an open list it lands on the top of the stack.
proof fn lemma_parse_tokens(v: ValS, rest: Seq<Seq<char>>, stack: Seq<Seq<ValS>>)
    requires
        literal_form(v),
    ensures
        spec_parse_at(spec_tokens_of(v) + rest, stack) == (if stack.len() == 0 {
            Ok::<(ValS, Seq<Seq<char>>), Error>((v, rest))
        } else {
            spec_parse_at(rest, stack.update(stack.len() - 1, stack.last().push(v)))
        }),
    decreases v, 0int,
{
    reveal_strlit("(");
    reveal_strlit(")");
    match v {
        ValS::List(l) => {
            let toks = spec_tokens_of(v) + rest;
            let inner = spec_tokens_of_seq(l, 0);
            assert(toks =~= seq!["("@] + (inner + (seq![")"@] + rest)));
            assert(toks[0] == "("@);
            assert(toks.drop_first() =~= inner + (seq![")"@] + rest));
            lemma_parse_elems(l, 0, seq![")"@] + rest, stack.push(Seq::empty()));
            let stack2 = stack.push(Seq::empty()).update(
                stack.len() as int,
                Seq::empty() + l.skip(0),
            );
            assert(stack2 =~~= stack.push(l));
            let after = seq![")"@] + rest;
            assert(after[0] == ")"@);
            assert(")"@ != "("@) by {
                assert("("@[0] == '(' && ")"@[0] == ')');
            }
            assert(after.drop_first() =~= rest);
            assert(stack.push(l).last() == l);
            if stack.len() == 0 {
                assert(spec_parse_at(after, stack.push(l)) == Ok::<
                    (ValS, Seq<Seq<char>>),
                    Error,
                >((v, rest)));
            } else {
                let s3 = stack.push(l).drop_last().update(
                    stack.push(l).len() - 2,
                    stack.push(l)[stack.push(l).len() - 2].push(v),
                );
                assert(s3 =~~= stack.update(stack.len() - 1, stack.last().push(v)));
            }
        },
        _ => {
            lemma_atomise_roundtrip(v);
            lemma_atom_token_not_paren(v);
            let toks = spec_tokens_of(v) + rest;
            assert(toks[0] == spec_tokens_of(v)[0]);
            assert(toks.drop_first() =~= rest);
            if stack.len() > 0 {
                assert(spec_parse_at(toks, stack) == spec_parse_at(
                    rest,
                    stack.update(stack.len() - 1, stack.last().push(v)),
                ));
            }
        },
    }
}

/// Parsing the tokens of the elements from position `i` on, followed
/// by anything, appends those elements to the innermost open list.
proof fn lemma_parse_elems(l: Seq<ValS>, i: int, tail: Seq<Seq<char>>, stack: Seq<Seq<ValS>>)
    requires
        stack.len() >= 1,
        0 <= i <= l.len(),
        forall|k: int| 0 <= k < l.len() ==> literal_form(#[trigger] l[k]),
    ensures
        spec_parse_at(spec_tokens_of_seq(l, i) + tail, stack) == spec_parse_at(
            tail,
            stack.update(stack.len() - 1, stack.last() + l.skip(i)),
        ),
    decreases l, l.len() - i,
{
    if i == l.len() {
        assert(spec_tokens_of_seq(l, i) + tail =~= tail);
        assert(stack.last() + l.skip(i) =~= stack.last());
        assert(stack.update(stack.len() - 1, stack.last() + l.skip(i)) =~~= stack);
    } else {
        let toks = spec_tokens_of_seq(l, i) + tail;
        let tail2 = spec_tokens_of_seq(l, i + 1) + tail;
        assert(toks =~= spec_tokens_of(l[i]) + tail2);
        lemma_parse_tokens(l[i], tail2, stack);
        let stack2 = stack.update(stack.len() - 1, stack.last().push(l[i]));
        lemma_parse_elems(l, i + 1, tail, stack2);
        assert(stack2.update(stack2.len() - 1, stack2.last() + l.skip(i + 1)) =~~= stack.update(
            stack.len() - 1,
            stack.last() + l.skip(i),
        )) by {
            assert(stack.last().push(l[i]) + l.skip(i + 1) =~= stack.last() + l.skip(i));
        }
    }
}

/// Round trip: any value in literal form — no function-like
/// sub-value anywhere — is re-parsed from its token rendering to an
/// equal (indeed the same) value, with no tokens left over.
pub proof fn lemma_literal_round_trip(v: ValS)
    requires
        literal_form(v),
    ensures
        spec_parse_at(spec_tokens_of(v), Seq::empty()) == Ok::<(ValS, Seq<Seq<char>>), Error>(
            (v, Seq::empty()),
        ),
{
    lemma_parse_tokens(v, Seq::empty(), Seq::empty());
    assert(spec_tokens_of(v) + Seq::<Seq<char>>::empty() =~= spec_tokens_of(v));
}

} // verus!
