//! The fixed library of native built-ins: variadic arithmetic,
//! comparisons, boolean operations, list operations, predicates,
//! `scríobh` (write) and `mapáil` (map).  Every argument-count and
//! argument-type expectation fails with an explicit error instead of
//! coercing.  Arithmetic is on signed 64-bit integers and reports
//! overflow; division truncates toward zero.

use vstd::prelude::*;
use crate::atom::{Atom, Builtin, Error, ValS, atoms_view, lemma_atoms_view, spec_val_eq};
use crate::render::spec_render;
use crate::token::strings_view;

verus! {

/// What applying a built-in yields: a result and the lines written.
pub struct BuiltinOut {
    pub r: Result<ValS, Error>,
    pub out: Seq<Seq<char>>,
}

/// What mapping a built-in over arguments yields.
pub struct MapOut {
    pub r: Result<Seq<ValS>, Error>,
    pub out: Seq<Seq<char>>,
}

/// The magnitude of a number.
pub open spec fn int_abs(a: int) -> int {
    if a < 0 {
        -a
    } else {
        a
    }
}

/// Division truncated toward zero.
pub open spec fn trunc_div(a: int, b: int) -> int {
    let m = int_abs(a) / int_abs(b);
    if (a < 0) == (b < 0) {
        m
    } else {
        -m
    }
}

/// Fold the values into `acc` by addition, left to right: a
/// non-number or a sum outside the 64-bit range stops the fold.
pub open spec fn spec_fold_add(vals: Seq<ValS>, acc: int) -> Result<int, Error>
    decreases vals.len(),
{
    if vals.len() == 0 {
        Ok(acc)
    } else {
        match vals[0] {
            ValS::Number(n) => {
                let a2 = acc + n;
                if a2 < i64::MIN as int || a2 > i64::MAX as int {
                    Err(Error::NumericOverflow)
                } else {
                    spec_fold_add(vals.drop_first(), a2)
                }
            },
            _ => Err(Error::TypeMismatch),
        }
    }
}

/// Fold the values into `acc` by multiplication, left to right.
pub open spec fn spec_fold_mul(vals: Seq<ValS>, acc: int) -> Result<int, Error>
    decreases vals.len(),
{
    if vals.len() == 0 {
        Ok(acc)
    } else {
        match vals[0] {
            ValS::Number(n) => {
                let a2 = acc * n;
                if a2 < i64::MIN as int || a2 > i64::MAX as int {
                    Err(Error::NumericOverflow)
                } else {
                    spec_fold_mul(vals.drop_first(), a2)
                }
            },
            _ => Err(Error::TypeMismatch),
        }
    }
}

/// The behaviour of every built-in on already-evaluated arguments.
pub open spec fn spec_apply_builtin(b: Builtin, args: Seq<ValS>) -> BuiltinOut
    decreases args.len(), 0int,
{
    match b {
        Builtin::Add => no_out(
            match spec_fold_add(args, 0) {
                Ok(n) => Ok(ValS::Number(n)),
                Err(e) => Err(e),
            },
        ),
        Builtin::Sub => no_out(
            if args.len() == 0 {
                Err(Error::ArityMismatch)
            } else {
                match args[0] {
                    ValS::Number(first) => match spec_fold_add(args.drop_first(), 0) {
                        Ok(s) => {
                            let d = first - s;
                            if d < i64::MIN as int || d > i64::MAX as int {
                                Err(Error::NumericOverflow)
                            } else {
                                Ok(ValS::Number(d))
                            }
                        },
                        Err(e) => Err(e),
                    },
                    _ => Err(Error::TypeMismatch),
                }
            },
        ),
        Builtin::Mul => no_out(
            if args.len() == 0 {
                Err(Error::ArityMismatch)
            } else {
                match args[0] {
                    ValS::Number(first) => match spec_fold_mul(args.drop_first(), first) {
                        Ok(p) => Ok(ValS::Number(p)),
                        Err(e) => Err(e),
                    },
                    _ => Err(Error::TypeMismatch),
                }
            },
        ),
        Builtin::Div => no_out(spec_divide(args)),
        Builtin::Equal => no_out(
            if args.len() != 2 {
                Err(Error::ArityMismatch)
            } else {
                Ok(ValS::Bool(spec_val_eq(args[0], args[1])))
            },
        ),
        Builtin::Greater => no_out(spec_compare(args, true)),
        Builtin::Less => no_out(spec_compare(args, false)),
        Builtin::Not => no_out(
            if args.len() != 1 {
                Err(Error::ArityMismatch)
            } else {
                match args[0] {
                    ValS::Bool(x) => Ok(ValS::Bool(!x)),
                    _ => Err(Error::TypeMismatch),
                }
            },
        ),
        Builtin::And => no_out(
            if args.len() != 2 {
                Err(Error::ArityMismatch)
            } else {
                match (args[0], args[1]) {
                    (ValS::Bool(x), ValS::Bool(y)) => Ok(ValS::Bool(x && y)),
                    _ => Err(Error::TypeMismatch),
                }
            },
        ),
        Builtin::Head => no_out(
            if args.len() != 1 {
                Err(Error::ArityMismatch)
            } else {
                match args[0] {
                    ValS::List(l) => if l.len() == 0 {
                        Err(Error::TypeMismatch)
                    } else {
                        Ok(l[0])
                    },
                    _ => Err(Error::TypeMismatch),
                }
            },
        ),
        Builtin::Tail => no_out(
            if args.len() != 1 {
                Err(Error::ArityMismatch)
            } else {
                match args[0] {
                    ValS::List(l) => if l.len() == 0 {
                        Err(Error::TypeMismatch)
                    } else {
                        Ok(ValS::List(l.drop_first()))
                    },
                    _ => Err(Error::TypeMismatch),
                }
            },
        ),
        Builtin::Cons => no_out(
            if args.len() != 2 {
                Err(Error::ArityMismatch)
            } else {
                match args[1] {
                    ValS::List(l) => Ok(ValS::List(seq![args[0]] + l)),
                    _ => Err(Error::TypeMismatch),
                }
            },
        ),
        Builtin::IsBool => no_out(Ok(ValS::Bool(args.len() == 1 && args[0] is Bool))),
        Builtin::IsEmpty => no_out(
            if args.len() != 1 {
                Err(Error::ArityMismatch)
            } else {
                match args[0] {
                    ValS::List(l) => Ok(ValS::Bool(l.len() == 0)),
                    _ => Err(Error::TypeMismatch),
                }
            },
        ),
        Builtin::IsList => no_out(Ok(ValS::Bool(args.len() == 1 && args[0] is List))),
        Builtin::Length => no_out(
            if args.len() != 1 {
                Err(Error::ArityMismatch)
            } else {
                match args[0] {
                    ValS::List(l) => if l.len() > i64::MAX as int {
                        Err(Error::NumericOverflow)
                    } else {
                        Ok(ValS::Number(l.len() as int))
                    },
                    _ => Err(Error::TypeMismatch),
                }
            },
        ),
        Builtin::Write => if args.len() != 1 {
            no_out(Err(Error::ArityMismatch))
        } else {
            BuiltinOut { r: Ok(args[0]), out: seq![spec_render(args[0])] }
        },
        Builtin::MapFn => if args.len() == 0 {
            no_out(Err(Error::ArityMismatch))
        } else {
            match args[0] {
                ValS::Func(f) => {
                    let m = spec_map_fold(f, args.drop_first());
                    match m.r {
                        Ok(vs) => BuiltinOut { r: Ok(ValS::List(vs)), out: m.out },
                        Err(e) => BuiltinOut { r: Err(e), out: m.out },
                    }
                },
                _ => no_out(Err(Error::TypeMismatch)),
            }
        },
    }
}

/// Apply a built-in to each value in turn, one argument at a time,
/// collecting the results.
pub open spec fn spec_map_fold(f: Builtin, rest: Seq<ValS>) -> MapOut
    decreases rest.len(), 1int,
{
    if rest.len() == 0 {
        MapOut { r: Ok(Seq::empty()), out: Seq::empty() }
    } else {
        let one = spec_apply_builtin(f, seq![rest[0]]);
        match one.r {
            Err(e) => MapOut { r: Err(e), out: one.out },
            Ok(v) => {
                let more = spec_map_fold(f, rest.drop_first());
                match more.r {
                    Err(e) => MapOut { r: Err(e), out: one.out + more.out },
                    Ok(vs) => MapOut { r: Ok(seq![v] + vs), out: one.out + more.out },
                }
            },
        }
    }
}

/// A result that writes nothing.
pub open spec fn no_out(r: Result<ValS, Error>) -> BuiltinOut {
    BuiltinOut { r, out: Seq::empty() }
}

/// `/`: the first argument divided by the product of the rest,
/// truncated toward zero.
pub open spec fn spec_divide(args: Seq<ValS>) -> Result<ValS, Error> {
    if args.len() == 0 {
        Err(Error::ArityMismatch)
    } else {
        match args[0] {
            ValS::Number(first) => if args.len() == 1 {
                Err(Error::DivisionByEmptyOperand)
            } else {
                match args[1] {
                    ValS::Number(d0) => match spec_fold_mul(args.skip(2), d0) {
                        Ok(d) => if d == 0 {
                            Err(Error::DivisionByZero)
                        } else if first == i64::MIN as int && d == -1 {
                            Err(Error::NumericOverflow)
                        } else {
                            Ok(ValS::Number(trunc_div(first, d)))
                        },
                        Err(e) => Err(e),
                    },
                    _ => Err(Error::TypeMismatch),
                }
            },
            _ => Err(Error::TypeMismatch),
        }
    }
}

/// The magnitude of a number, as an unsigned value.
fn mag(n: i64) -> (m: u64)
    ensures
        m as int == int_abs(n as int),
{
    if n >= 0 {
        n as u64
    } else {
        (-(n as i128)) as u64
    }
}

/// Fold the arguments from position `start` into `acc` by addition.
fn fold_add(args: &Vec<Atom>, start: usize, acc0: i64) -> (r: Result<i64, Error>)
    requires
        start <= args@.len(),
    ensures
        match spec_fold_add(atoms_view(args@).skip(start as int), acc0 as int) {
            Ok(n) => r matches Ok(m) && m as int == n,
            Err(e) => r == Err::<i64, Error>(e),
        },
{
    broadcast use lemma_atoms_view;

    let ghost av = atoms_view(args@);
    let mut acc = acc0;
    let mut k = start;
    while k < args.len()
        invariant
            av == atoms_view(args@),
            start <= k <= args@.len(),
            spec_fold_add(av.skip(start as int), acc0 as int) == spec_fold_add(
                av.skip(k as int),
                acc as int,
            ),
        decreases args@.len() - k,
    {
        proof {
            lemma_atoms_view(args@);
            assert(av.skip(k as int)[0] == args@[k as int]@);
            assert(av.skip(k as int).drop_first() =~= av.skip(k + 1));
        }
        let n = match &args[k] {
            Atom::Number(n) => *n,
            _ => {
                return Err(Error::TypeMismatch);
            },
        };
        let wide: i128 = acc as i128 + n as i128;
        if wide < i64::MIN as i128 || wide > i64::MAX as i128 {
            return Err(Error::NumericOverflow);
        }
        acc = wide as i64;
        k += 1;
    }
    proof {
        assert(av.skip(args@.len() as int) =~= Seq::<ValS>::empty());
    }
    Ok(acc)
}

/// Fold the arguments from position `start` into `acc` by
/// multiplication.
fn fold_mul(args: &Vec<Atom>, start: usize, acc0: i64) -> (r: Result<i64, Error>)
    requires
        start <= args@.len(),
    ensures
        match spec_fold_mul(atoms_view(args@).skip(start as int), acc0 as int) {
            Ok(n) => r matches Ok(m) && m as int == n,
            Err(e) => r == Err::<i64, Error>(e),
        },
{
    broadcast use lemma_atoms_view;

    let ghost av = atoms_view(args@);
    let mut acc = acc0;
    let mut k = start;
    while k < args.len()
        invariant
            av == atoms_view(args@),
            start <= k <= args@.len(),
            spec_fold_mul(av.skip(start as int), acc0 as int) == spec_fold_mul(
                av.skip(k as int),
                acc as int,
            ),
        decreases args@.len() - k,
    {
        proof {
            lemma_atoms_view(args@);
            assert(av.skip(k as int)[0] == args@[k as int]@);
            assert(av.skip(k as int).drop_first() =~= av.skip(k + 1));
        }
        let n = match &args[k] {
            Atom::Number(n) => *n,
            _ => {
                return Err(Error::TypeMismatch);
            },
        };
        proof {
            assert((acc as int) * (n as int) <= i128::MAX as int && (acc as int) * (n as int)
                >= i128::MIN as int) by (nonlinear_arith)
                requires
                    i64::MIN as int <= acc as int <= i64::MAX as int,
                    i64::MIN as int <= n as int <= i64::MAX as int,
            ;
        }
        let wide: i128 = acc as i128 * n as i128;
        if wide < i64::MIN as i128 || wide > i64::MAX as i128 {
            return Err(Error::NumericOverflow);
        }
        acc = wide as i64;
        k += 1;
    }
    proof {
        assert(av.skip(args@.len() as int) =~= Seq::<ValS>::empty());
    }
    Ok(acc)
}

/// Divide `first` by the non-zero divisor `d`, truncating toward
/// zero; the one overflowing case is excluded by the caller.
fn divide_exact(first: i64, d: i64) -> (q: i64)
    requires
        d != 0,
        !(first == i64::MIN && d == -1),
    ensures
        q as int == trunc_div(first as int, d as int),
{
    let am = mag(first);
    let bm = mag(d);
    let m = am / bm;
    proof {
        vstd::arithmetic::div_mod::lemma_fundamental_div_mod(am as int, bm as int);
        vstd::arithmetic::div_mod::lemma_mod_bound(am as int, bm as int);
        if m >= 9223372036854775808 {
            assert(bm as int * (m as int) <= am as int);
            assert(bm as int == 1) by (nonlinear_arith)
                requires
                    bm as int >= 1,
                    bm as int * (m as int) <= am as int,
                    m as int >= 9223372036854775808,
                    am as int <= 9223372036854775808,
            ;
            assert(am as int == m as int);
            assert(first == i64::MIN);
            assert(d == 1 || d == -1);
            assert(d == 1);
        }
    }
    if (first < 0) == (d < 0) {
        proof {
            assert(m < 9223372036854775808);
        }
        m as i64
    } else {
        if m >= 9223372036854775808 {
            i64::MIN
        } else {
            -(m as i64)
        }
    }
}

/// `>` and `<`: exactly two numeric arguments.
pub open spec fn spec_compare(args: Seq<ValS>, greater: bool) -> Result<ValS, Error> {
    if args.len() != 2 {
        Err(Error::ArityMismatch)
    } else {
        match (args[0], args[1]) {
            (ValS::Number(x), ValS::Number(y)) => Ok(
                ValS::Bool(
                    if greater {
                        x > y
                    } else {
                        x < y
                    },
                ),
            ),
            _ => Err(Error::TypeMismatch),
        }
    }
}

/// Apply a built-in to already-evaluated arguments; lines written by
/// `scríobh` are appended to `out`.
#[verifier::rlimit(80)]
pub fn apply_builtin(b: Builtin, args: &Vec<Atom>, out: &mut Vec<String>) -> (r: Result<
    Atom,
    Error,
>)
    ensures
        strings_view(final(out)@) == strings_view(old(out)@) + spec_apply_builtin(
            b,
            atoms_view(args@),
        ).out,
        spec_apply_builtin(b, atoms_view(args@)).r matches Ok(v) ==> r matches Ok(a) && a@ == v,
        spec_apply_builtin(b, atoms_view(args@)).r matches Err(e) ==> r == Err::<Atom, Error>(e),
    decreases args@.len(), 0int,
{
    let ghost av = atoms_view(args@);
    let ghost out0 = strings_view(out@);
    proof {
        lemma_atoms_view(args@);
        assert(out0 + Seq::<Seq<char>>::empty() =~= out0);
        assert(av.skip(0) =~= av);
        if args@.len() > 0 {
            assert(av.skip(1) =~= av.drop_first());
        }
    }
    match b {
        Builtin::Add => {
            match fold_add(args, 0, 0) {
                Ok(n) => Ok(Atom::Number(n)),
                Err(e) => { return Err(e); },
            }
        },
        Builtin::Sub => {
            if args.len() == 0 {
                return Err(Error::ArityMismatch);
            }
            let first = match &args[0] {
                Atom::Number(n) => *n,
                _ => {
                    return Err(Error::TypeMismatch);
                },
            };
            match fold_add(args, 1, 0) {
                Ok(s) => {
                    let wide: i128 = first as i128 - s as i128;
                    if wide < i64::MIN as i128 || wide > i64::MAX as i128 {
                        return Err(Error::NumericOverflow);
                    } else {
                        Ok(Atom::Number(wide as i64))
                    }
                },
                Err(e) => { return Err(e); },
            }
        },
        Builtin::Mul => {
            if args.len() == 0 {
                return Err(Error::ArityMismatch);
            }
            let first = match &args[0] {
                Atom::Number(n) => *n,
                _ => {
                    return Err(Error::TypeMismatch);
                },
            };
            match fold_mul(args, 1, first) {
                Ok(p) => Ok(Atom::Number(p)),
                Err(e) => { return Err(e); },
            }
        },
        Builtin::Div => {
            if args.len() == 0 {
                return Err(Error::ArityMismatch);
            }
            let first = match &args[0] {
                Atom::Number(n) => *n,
                _ => {
                    return Err(Error::TypeMismatch);
                },
            };
            if args.len() == 1 {
                return Err(Error::DivisionByEmptyOperand);
            }
            let d0 = match &args[1] {
                Atom::Number(n) => *n,
                _ => {
                    return Err(Error::TypeMismatch);
                },
            };
            match fold_mul(args, 2, d0) {
                Ok(d) => {
                    if d == 0 {
                        return Err(Error::DivisionByZero);
                    } else if first == i64::MIN && d == -1 {
                        return Err(Error::NumericOverflow);
                    } else {
                        Ok(Atom::Number(divide_exact(first, d)))
                    }
                },
                Err(e) => { return Err(e); },
            }
        },
        Builtin::Equal => {
            if args.len() != 2 {
                return Err(Error::ArityMismatch);
            }
            Ok(Atom::Bool(args[0].values_equal(&args[1])))
        },
        Builtin::Greater => {
            if args.len() != 2 {
                return Err(Error::ArityMismatch);
            }
            match (&args[0], &args[1]) {
                (Atom::Number(x), Atom::Number(y)) => Ok(Atom::Bool(*x > *y)),
                _ => { return Err(Error::TypeMismatch); },
            }
        },
        Builtin::Less => {
            if args.len() != 2 {
                return Err(Error::ArityMismatch);
            }
            match (&args[0], &args[1]) {
                (Atom::Number(x), Atom::Number(y)) => Ok(Atom::Bool(*x < *y)),
                _ => { return Err(Error::TypeMismatch); },
            }
        },
        Builtin::Not => {
            if args.len() != 1 {
                return Err(Error::ArityMismatch);
            }
            match &args[0] {
                Atom::Bool(x) => Ok(Atom::Bool(!*x)),
                _ => { return Err(Error::TypeMismatch); },
            }
        },
        Builtin::And => {
            if args.len() != 2 {
                return Err(Error::ArityMismatch);
            }
            match (&args[0], &args[1]) {
                (Atom::Bool(x), Atom::Bool(y)) => Ok(Atom::Bool(*x && *y)),
                _ => { return Err(Error::TypeMismatch); },
            }
        },
        Builtin::Head => {
            if args.len() != 1 {
                return Err(Error::ArityMismatch);
            }
            match &args[0] {
                Atom::List(l) => {
                    proof {
                        lemma_atoms_view(l@);
                    }
                    if l.len() == 0 {
                        return Err(Error::TypeMismatch);
                    } else {
                        Ok(l[0].duplicate())
                    }
                },
                _ => { return Err(Error::TypeMismatch); },
            }
        },
        Builtin::Tail => {
            if args.len() != 1 {
                return Err(Error::ArityMismatch);
            }
            match &args[0] {
                Atom::List(l) => {
                    proof {
                        lemma_atoms_view(l@);
                    }
                    if l.len() == 0 {
                        return Err(Error::TypeMismatch);
                    } else {
                        let mut rest: Vec<Atom> = Vec::new();
                        let mut k: usize = 1;
                        while k < l.len()
                            invariant
                                1 <= k <= l@.len(),
                                rest@.len() == k - 1,
                                forall|t: int| 0 <= t < k - 1 ==> rest@[t]@ == l@[t + 1]@,
                            decreases l@.len() - k,
                        {
                            rest.push(l[k].duplicate());
                            k += 1;
                        }
                        proof {
                            lemma_atoms_view(l@);
                            lemma_atoms_view(rest@);
                            assert(atoms_view(rest@) =~= atoms_view(l@).drop_first());
                        }
                        Ok(Atom::List(rest))
                    }
                },
                _ => { return Err(Error::TypeMismatch); },
            }
        },
        Builtin::Cons => {
            if args.len() != 2 {
                return Err(Error::ArityMismatch);
            }
            match &args[1] {
                Atom::List(l) => {
                    let mut built: Vec<Atom> = Vec::new();
                    built.push(args[0].duplicate());
                    let mut k: usize = 0;
                    while k < l.len()
                        invariant
                            k <= l@.len(),
                            built@.len() == k + 1,
                            built@[0]@ == atoms_view(args@)[0],
                            forall|t: int| 0 <= t < k ==> built@[t + 1]@ == l@[t]@,
                        decreases l@.len() - k,
                    {
                        built.push(l[k].duplicate());
                        k += 1;
                    }
                    proof {
                        lemma_atoms_view(l@);
                        lemma_atoms_view(built@);
                        assert(atoms_view(built@) =~= seq![av[0]] + atoms_view(l@));
                    }
                    Ok(Atom::List(built))
                },
                _ => { return Err(Error::TypeMismatch); },
            }
        },
        Builtin::IsBool => {
            if args.len() != 1 {
                Ok(Atom::Bool(false))
            } else {
                match &args[0] {
                    Atom::Bool(_) => Ok(Atom::Bool(true)),
                    _ => Ok(Atom::Bool(false)),
                }
            }
        },
        Builtin::IsEmpty => {
            if args.len() != 1 {
                return Err(Error::ArityMismatch);
            }
            match &args[0] {
                Atom::List(l) => {
                    proof {
                        lemma_atoms_view(l@);
                    }
                    Ok(Atom::Bool(l.len() == 0))
                },
                _ => { return Err(Error::TypeMismatch); },
            }
        },
        Builtin::IsList => {
            if args.len() != 1 {
                Ok(Atom::Bool(false))
            } else {
                match &args[0] {
                    Atom::List(_) => Ok(Atom::Bool(true)),
                    _ => Ok(Atom::Bool(false)),
                }
            }
        },
        Builtin::Length => {
            if args.len() != 1 {
                return Err(Error::ArityMismatch);
            }
            match &args[0] {
                Atom::List(l) => {
                    proof {
                        lemma_atoms_view(l@);
                    }
                    if l.len() as u64 > i64::MAX as u64 {
                        return Err(Error::NumericOverflow);
                    } else {
                        Ok(Atom::Number(l.len() as i64))
                    }
                },
                _ => { return Err(Error::TypeMismatch); },
            }
        },
        Builtin::Write => {
            if args.len() != 1 {
                return Err(Error::ArityMismatch);
            }
            let line = args[0].to_text();
            out.push(line);
            proof {
                assert(strings_view(out@) =~= out0 + seq![spec_render(av[0])]);
            }
            Ok(args[0].duplicate())
        },
        Builtin::MapFn => {
            if args.len() == 0 {
                return Err(Error::ArityMismatch);
            }
            let f = match &args[0] {
                Atom::Func(f) => *f,
                _ => {
                    return Err(Error::TypeMismatch);
                },
            };
            let ghost m = spec_map_fold(f, av.drop_first());
            let ghost mut douts: Seq<Seq<char>> = Seq::empty();
            let mut results: Vec<Atom> = Vec::new();
            let mut i: usize = 1;
            proof {
                assert(av.skip(1) =~= av.drop_first());
                assert(atoms_view(results@) =~= Seq::<ValS>::empty());
                assert(strings_view(out@) =~= out0 + douts);
            }
            while i < args.len()
                invariant
                    b == Builtin::MapFn,
                    1 <= i <= args@.len(),
                    av == atoms_view(args@),
                    av.len() == args@.len(),
                    av[0] == ValS::Func(f),
                    out0 == strings_view(old(out)@),
                    m == spec_map_fold(f, av.drop_first()),
                    strings_view(out@) == out0 + douts,
                    spec_map_fold(f, av.skip(i as int)).r is Ok ==> (m.r matches Ok(vs) && vs
                        == atoms_view(results@) + spec_map_fold(f, av.skip(i as int)).r->Ok_0
                        && m.out == douts + spec_map_fold(f, av.skip(i as int)).out),
                    spec_map_fold(f, av.skip(i as int)).r is Err ==> m.r == spec_map_fold(
                        f,
                        av.skip(i as int),
                    ).r && m.out == douts + spec_map_fold(f, av.skip(i as int)).out,
                decreases args@.len() - i,
            {
                let ghost rem = spec_map_fold(f, av.skip(i as int));
                let ghost one = spec_apply_builtin(f, seq![av[i as int]]);
                let mut single: Vec<Atom> = Vec::new();
                single.push(args[i].duplicate());
                proof {
                    lemma_atoms_view(args@);
                    lemma_atoms_view(single@);
                    assert(atoms_view(single@) =~= seq![av[i as int]]);
                    assert(av.skip(i as int)[0] == av[i as int]);
                    assert(av.skip(i as int).drop_first() =~= av.skip(i + 1));
                }
                let one_r = apply_builtin(f, &single, out);
                match one_r {
                    Err(e) => {
                        proof {
                            assert(rem.r == Err::<Seq<ValS>, Error>(e));
                            assert(m.r == Err::<Seq<ValS>, Error>(e));
                            assert(strings_view(out@) =~= out0 + (douts + one.out));
                            assert(m.out == douts + one.out);
                            assert(strings_view(out@) =~= out0 + m.out);
                        }
                        return Err(e);
                    },
                    Ok(a) => {
                        let ghost rv0 = results@;
                        results.push(a);
                        proof {
                            assert(results@.subrange(0, results@.len() - 1) =~= rv0);
                            assert(atoms_view(results@) == atoms_view(rv0).push(a@));
                            douts = douts + one.out;
                            assert(strings_view(out@) =~= out0 + douts);
                            let next = spec_map_fold(f, av.skip(i + 1));
                            if next.r is Ok {
                                assert(rem.r matches Ok(vs) && vs == seq![a@] + next.r->Ok_0);
                                assert(atoms_view(rv0).push(a@) + next.r->Ok_0 =~= atoms_view(rv0)
                                    + (seq![a@] + next.r->Ok_0));
                                assert(atoms_view(rv0) + rem.r->Ok_0 =~= atoms_view(results@)
                                    + next.r->Ok_0);
                            }
                            assert(rem.out == one.out + next.out);
                        }
                        i += 1;
                    },
                }
            }
            proof {
                assert(av.skip(args@.len() as int) =~= Seq::<ValS>::empty());
                let fin = spec_map_fold(f, av.skip(args@.len() as int));
                assert(fin.r == Ok::<Seq<ValS>, Error>(Seq::<ValS>::empty()));
                assert(m.r matches Ok(vs) && vs == atoms_view(results@) + Seq::<ValS>::empty());

                assert(atoms_view(results@) + Seq::<ValS>::empty() =~= atoms_view(results@));
                assert(m.out == douts + Seq::<Seq<char>>::empty());
                assert(douts + Seq::<Seq<char>>::empty() =~= douts);
                assert(strings_view(out@) =~= out0 + m.out);
            }
            Ok(Atom::List(results))
        },
    }
}

} // verus!
