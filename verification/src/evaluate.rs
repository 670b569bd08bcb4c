//! The evaluator: special-form dispatch, function application,
//! built-in dispatch and the singleton-list collapse rule.  Every
//! evaluation carries a fuel budget: each nested evaluation step
//! spends one unit, and an exhausted budget fails with
//! `Error::DepthLimit` instead of overrunning the host stack.
//! A user-defined function is applied by building one new frame that
//! chains to the caller's environment at the call site — not to any
//! environment captured when the function was defined.

use vstd::prelude::*;
use crate::atom::{Atom, Builtin, Error, Lambda, ValS, atoms_view, lemma_atoms_view, str_eq};
use crate::builtins::{apply_builtin, spec_apply_builtin};
use crate::env::{Env, EnvM, frame_view, spec_env_add, spec_env_lookup, env_add, env_get};
use crate::parse::{parse, spec_parse_at};
use crate::token::{tokenise, spec_tokenise, strings_view};

verus! {

/// What one evaluation yields: a result, the environment after it,
/// and the lines written along the way.
pub struct EvalOut {
    pub r: Result<ValS, Error>,
    pub env: EnvM,
    pub out: Seq<Seq<char>>,
}

/// What evaluating a sequence of expressions left to right yields.
pub struct SeqOut {
    pub r: Result<Seq<ValS>, Error>,
    pub env: EnvM,
    pub out: Seq<Seq<char>>,
}

/// Whether a list form is a special form: its head is a symbol
/// naming one of the five evaluator intrinsics.
pub open spec fn is_special(l: Seq<ValS>) -> bool {
    l.len() >= 1 && match l[0] {
        ValS::Symbol(s) => s == "sainigh"@ || s == "athfhriotal"@ || s == "'"@ || s == "lambda"@
            || s == "má"@,
        _ => false,
    }
}

/// The parameter names of a user function: its parameter form must
/// be a list exclusively of symbols.
pub open spec fn params_names(p: ValS) -> Option<Seq<Seq<char>>> {
    match p {
        ValS::List(l) => if forall|i: int| 0 <= i < l.len() ==> (#[trigger] l[i]) is Symbol {
            Some(Seq::new(l.len(), |i: int| l[i]->Symbol_0))
        } else {
            None
        },
        _ => None,
    }
}

/// Dispatch of the five special forms.  `sainigh` evaluates its
/// expression and binds the result in the innermost frame;
/// `athfhriotal` and `'` return their first argument unevaluated;
/// `lambda` builds a user function without evaluating or capturing
/// anything; `má` evaluates its condition, which must yield a
/// boolean, then exactly one branch.
pub open spec fn spec_special(l: Seq<ValS>, env: EnvM, fuel: nat) -> EvalOut
    decreases fuel, 2int, 0int,
        when fuel >= 1
{
    let s = l[0]->Symbol_0;
    if s == "sainigh"@ {
        if l.len() != 3 {
            EvalOut { r: Err(Error::ArityMismatch), env, out: Seq::empty() }
        } else {
            match l[1] {
                ValS::Symbol(name) => {
                    let st = spec_eval(l[2], env, (fuel - 1) as nat);
                    match st.r {
                        Ok(v) => EvalOut {
                            r: Ok(v),
                            env: spec_env_add(st.env, name, v),
                            out: st.out,
                        },
                        Err(e) => st,
                    }
                },
                _ => EvalOut { r: Err(Error::TypeMismatch), env, out: Seq::empty() },
            }
        }
    } else if s == "athfhriotal"@ || s == "'"@ {
        if l.len() < 2 {
            EvalOut { r: Err(Error::ArityMismatch), env, out: Seq::empty() }
        } else {
            EvalOut { r: Ok(l[1]), env, out: Seq::empty() }
        }
    } else if s == "lambda"@ {
        if l.len() < 3 {
            EvalOut { r: Err(Error::ArityMismatch), env, out: Seq::empty() }
        } else {
            EvalOut {
                r: Ok(ValS::Lambda { params: Box::new(l[1]), exp: Box::new(l[2]) }),
                env,
                out: Seq::empty(),
            }
        }
    } else {
        // má
        if l.len() != 4 {
            EvalOut { r: Err(Error::ArityMismatch), env, out: Seq::empty() }
        } else {
            let c = spec_eval(l[1], env, (fuel - 1) as nat);
            match c.r {
                Err(e) => c,
                Ok(ValS::Bool(true)) => {
                    let t = spec_eval(l[2], c.env, (fuel - 1) as nat);
                    EvalOut { r: t.r, env: t.env, out: c.out + t.out }
                },
                Ok(ValS::Bool(false)) => {
                    let t = spec_eval(l[3], c.env, (fuel - 1) as nat);
                    EvalOut { r: t.r, env: t.env, out: c.out + t.out }
                },
                Ok(_) => EvalOut { r: Err(Error::TypeMismatch), env: c.env, out: c.out },
            }
        }
    }
}

/// Application of a user function: its parameter form must resolve
/// to a list of symbols whose length equals the argument count; the
/// arguments are evaluated eagerly in the caller's environment; the
/// body runs in one new frame chained to the caller's environment,
/// and that frame is discarded afterwards.
pub open spec fn spec_apply(head: ValS, args: Seq<ValS>, env: EnvM, fuel: nat) -> EvalOut
    decreases fuel, 2int, 0int,
        when fuel >= 1
{
    let params = *head->Lambda_params;
    let body = *head->Lambda_exp;
    match params_names(params) {
        None => EvalOut { r: Err(Error::TypeMismatch), env, out: Seq::empty() },
        Some(names) => {
            if names.len() != args.len() {
                EvalOut { r: Err(Error::ArityMismatch), env, out: Seq::empty() }
            } else {
                let ar = spec_eval_seq(args, env, fuel);
                match ar.r {
                    Err(e) => EvalOut { r: Err(e), env: ar.env, out: ar.out },
                    Ok(vals) => {
                        let frame = Seq::new(names.len(), |i: int| (names[i], vals[i]));
                        let bst = spec_eval(body, ar.env.push(frame), (fuel - 1) as nat);
                        EvalOut { r: bst.r, env: ar.env, out: ar.out + bst.out }
                    },
                }
            }
        },
    }
}

/// Evaluate a sequence of expressions left to right, threading the
/// environment; the first failure stops the walk.
pub open spec fn spec_eval_seq(elems: Seq<ValS>, env: EnvM, fuel: nat) -> SeqOut
    decreases fuel, 1int, elems.len() as int,
        when fuel >= 1
{
    if elems.len() == 0 {
        SeqOut { r: Ok(Seq::empty()), env, out: Seq::empty() }
    } else {
        let first = spec_eval(elems[0], env, (fuel - 1) as nat);
        match first.r {
            Err(e) => SeqOut { r: Err(e), env: first.env, out: first.out },
            Ok(v) => {
                let rest = spec_eval_seq(elems.drop_first(), first.env, fuel);
                match rest.r {
                    Err(e) => SeqOut { r: Err(e), env: rest.env, out: first.out + rest.out },
                    Ok(vs) => SeqOut {
                        r: Ok(seq![v] + vs),
                        env: rest.env,
                        out: first.out + rest.out,
                    },
                }
            },
        }
    }
}

/// What a list's head is applied as: a literal native or user
/// function applies itself; a symbol head whose binding is a native
/// or user function applies that binding; anything else is not an
/// invocable head and falls to the collapse rule.
pub open spec fn spec_head_target(h: ValS, env: EnvM) -> Option<ValS> {
    if h is Func || h is Lambda {
        Some(h)
    } else {
        match h {
            ValS::Symbol(s) => match spec_env_lookup(env, s) {
                Some(f) => if f is Func || f is Lambda {
                    Some(f)
                } else {
                    None
                },
                None => None,
            },
            _ => None,
        }
    }
}

/// One evaluation step.  Booleans, numbers, native functions and
/// user functions are already fully evaluated and yield themselves;
/// a bare string is rejected as the original syntax has no use for
/// it; a symbol is looked up; a list is dispatched on its head: a
/// special form, a native function, a user function, or otherwise
/// the collapse rule — every element is evaluated, a one-element
/// result collapses into evaluating its sole member, anything else
/// is re-wrapped and evaluated again.
pub open spec fn spec_eval(v: ValS, env: EnvM, fuel: nat) -> EvalOut
    decreases fuel, 3int, 0int,
{
    if fuel == 0 {
        EvalOut { r: Err(Error::DepthLimit), env, out: Seq::empty() }
    } else {
        match v {
            ValS::Bool(_) => EvalOut { r: Ok(v), env, out: Seq::empty() },
            ValS::Number(_) => EvalOut { r: Ok(v), env, out: Seq::empty() },
            ValS::Func(_) => EvalOut { r: Ok(v), env, out: Seq::empty() },
            ValS::Lambda { .. } => EvalOut { r: Ok(v), env, out: Seq::empty() },
            ValS::Str(_) => EvalOut { r: Err(Error::TypeMismatch), env, out: Seq::empty() },
            ValS::Symbol(s) => match spec_env_lookup(env, s) {
                Some(val) => EvalOut { r: Ok(val), env, out: Seq::empty() },
                None => EvalOut { r: Err(Error::UnboundSymbol), env, out: Seq::empty() },
            },
            ValS::List(l) => {
                if is_special(l) {
                    spec_special(l, env, fuel)
                } else if l.len() >= 1 && spec_head_target(l[0], env) is Some && spec_head_target(
                    l[0],
                    env,
                )->Some_0 is Func {
                    let h = spec_head_target(l[0], env)->Some_0;
                    let ar = spec_eval_seq(l.drop_first(), env, fuel);
                    match ar.r {
                        Err(e) => EvalOut { r: Err(e), env: ar.env, out: ar.out },
                        Ok(vals) => {
                            let bo = spec_apply_builtin(h->Func_0, vals);
                            EvalOut { r: bo.r, env: ar.env, out: ar.out + bo.out }
                        },
                    }
                } else if l.len() >= 1 && spec_head_target(l[0], env) is Some {
                    spec_apply(spec_head_target(l[0], env)->Some_0, l.drop_first(), env, fuel)
                } else {
                    let ar = spec_eval_seq(l, env, fuel);
                    match ar.r {
                        Err(e) => EvalOut { r: Err(e), env: ar.env, out: ar.out },
                        Ok(vals) => {
                            let st = if vals.len() == 1 {
                                spec_eval(vals[0], ar.env, (fuel - 1) as nat)
                            } else {
                                spec_eval(ValS::List(vals), ar.env, (fuel - 1) as nat)
                            };
                            EvalOut { r: st.r, env: st.env, out: ar.out + st.out }
                        },
                    }
                }
            },
        }
    }
}

/// Evaluate top-level forms in sequence; the first failure stops the
/// run and reports the index of the failing form; otherwise the last
/// form's value is the result.  An empty program is rejected.
pub struct RunOut {
    pub r: Result<ValS, Error>,
    pub env: EnvM,
    pub out: Seq<Seq<char>>,
    pub idx: int,
}

/// The file-loading policy: each top-level form is evaluated once,
/// side effects accumulate, and the last form's value is returned.
pub open spec fn spec_run_forms(forms: Seq<ValS>, env: EnvM, fuel: nat) -> RunOut
    decreases forms.len(),
{
    if forms.len() == 0 {
        RunOut { r: Err(Error::TypeMismatch), env, out: Seq::empty(), idx: 0 }
    } else {
        let st = spec_eval(forms[0], env, fuel);
        match st.r {
            Err(e) => RunOut { r: Err(e), env: st.env, out: st.out, idx: 0 },
            Ok(v) => if forms.len() == 1 {
                RunOut { r: Ok(v), env: st.env, out: st.out, idx: 0 }
            } else {
                let rest = spec_run_forms(forms.drop_first(), st.env, fuel);
                RunOut { r: rest.r, env: rest.env, out: st.out + rest.out, idx: rest.idx + 1 }
            },
        }
    }
}

/// An evaluated sequence, when it succeeds, has one value per
/// expression.
pub proof fn lemma_eval_seq_len(elems: Seq<ValS>, env: EnvM, fuel: nat)
    requires
        fuel >= 1,
    ensures
        spec_eval_seq(elems, env, fuel).r matches Ok(vs) ==> vs.len() == elems.len(),
    decreases elems.len(),
{
    if elems.len() > 0 {
        let first = spec_eval(elems[0], env, (fuel - 1) as nat);
        if first.r is Ok {
            lemma_eval_seq_len(elems.drop_first(), first.env, fuel);
        }
    }
}

/// Resolve a user function's parameter form into its list of names.
fn params_to_str(p: &Atom) -> (r: Result<Vec<String>, Error>)
    ensures
        match params_names(p@) {
            Some(ns) => r matches Ok(v) && strings_view(v@) == ns,
            None => r == Err::<Vec<String>, Error>(Error::TypeMismatch),
        },
{
    match p {
        Atom::List(l) => {
            proof {
                lemma_atoms_view(l@);
            }
            let mut names: Vec<String> = Vec::new();
            let n = l.len();
            let mut i: usize = 0;
            while i < n
                invariant
                    n == l@.len(),
                    i <= n,
                    p@ == ValS::List(atoms_view(l@)),
                    names@.len() == i,
                    forall|k: int|
                        0 <= k < i ==> (#[trigger] l@[k]@) is Symbol && names@[k]@
                            == l@[k]@->Symbol_0,
                decreases n - i,
            {
                proof {
                    lemma_atoms_view(l@);
                }
                match &l[i] {
                    Atom::Symbol(s) => {
                        names.push(s.clone());
                    },
                    _ => {
                        proof {
                            assert(!(atoms_view(l@)[i as int] is Symbol));
                        }
                        return Err(Error::TypeMismatch);
                    },
                }
                i += 1;
            }
            proof {
                assert(forall|k: int|
                    0 <= k < l@.len() ==> (#[trigger] atoms_view(l@)[k]) is Symbol);
                let ns = params_names(p@)->Some_0;
                assert(strings_view(names@) =~= ns);
            }
            Ok(names)
        },
        _ => Err(Error::TypeMismatch),
    }
}

/// Evaluate the elements of `l` from position `start` on, left to
/// right, in the caller's environment.
fn eval_map(l: &Vec<Atom>, start: usize, env: &mut Env, out: &mut Vec<String>, fuel: u64) -> (r:
    Result<Vec<Atom>, Error>)
    requires
        start <= l@.len(),
        old(env).wf(),
        fuel >= 1,
    ensures
        ({
            let st = spec_eval_seq(atoms_view(l@).skip(start as int), old(env)@, fuel as nat);
            final(env)@ == st.env && final(env).wf() && strings_view(final(out)@) == strings_view(
                old(out)@,
            ) + st.out && (st.r matches Ok(vs) ==> r matches Ok(v) && atoms_view(v@) == vs) && (
            st.r matches Err(e) ==> r == Err::<Vec<Atom>, Error>(e))
        }),
    decreases fuel, 1int, 0int,
{
    let ghost av = atoms_view(l@);
    let ghost env0 = env@;
    let ghost out0 = strings_view(out@);
    let ghost m = spec_eval_seq(av.skip(start as int), env0, fuel as nat);
    let ghost mut douts: Seq<Seq<char>> = Seq::empty();
    let mut vals: Vec<Atom> = Vec::new();
    let mut k = start;
    proof {
        lemma_atoms_view(l@);
        assert(strings_view(out@) =~= out0 + douts);
        assert(atoms_view(vals@) =~= Seq::<ValS>::empty());
    }
    while k < l.len()
        invariant
            start <= k <= l@.len(),
            av == atoms_view(l@),
            av.len() == l@.len(),
            fuel >= 1,
            env.wf(),
            env0 == old(env)@,
            out0 == strings_view(old(out)@),
            m == spec_eval_seq(av.skip(start as int), env0, fuel as nat),
            strings_view(out@) == out0 + douts,
            ({
                let rem = spec_eval_seq(av.skip(k as int), env@, fuel as nat);
                (rem.r matches Ok(vs2) ==> (m.r matches Ok(vs) && vs == atoms_view(vals@) + vs2
                    && m.env == rem.env && m.out == douts + rem.out)) && (rem.r is Err ==> m.r
                    == rem.r && m.env == rem.env && m.out == douts + rem.out)
            }),
        decreases l@.len() - k,
    {
        let ghost envk = env@;
        let ghost rem = spec_eval_seq(av.skip(k as int), envk, fuel as nat);
        let ghost fst = spec_eval(av[k as int], envk, (fuel - 1) as nat);
        proof {
            lemma_atoms_view(l@);
            assert(av.skip(k as int)[0] == av[k as int]);
            assert(av.skip(k as int).drop_first() =~= av.skip(k + 1));
        }
        match eval(&l[k], env, out, fuel - 1) {
            Err(e) => {
                proof {
                    assert(strings_view(out@) =~= out0 + (douts + fst.out));
                }
                return Err(e);
            },
            Ok(a) => {
                let ghost v0 = vals@;
                vals.push(a);
                proof {
                    assert(vals@.subrange(0, vals@.len() - 1) =~= v0);
                    assert(atoms_view(vals@) == atoms_view(v0).push(a@));
                    douts = douts + fst.out;
                    assert(strings_view(out@) =~= out0 + douts);
                    let next = spec_eval_seq(av.skip(k + 1), env@, fuel as nat);
                    if next.r is Ok {
                        assert(atoms_view(v0) + (seq![a@] + next.r->Ok_0) =~= atoms_view(vals@)
                            + next.r->Ok_0);
                    }
                }
                k += 1;
            },
        }
    }
    proof {
        assert(av.skip(l@.len() as int) =~= Seq::<ValS>::empty());
        let fin = spec_eval_seq(av.skip(l@.len() as int), env@, fuel as nat);
        assert(fin.r == Ok::<Seq<ValS>, Error>(Seq::<ValS>::empty()));
        assert(atoms_view(vals@) + Seq::<ValS>::empty() =~= atoms_view(vals@));
        assert(douts + Seq::<Seq<char>>::empty() =~= douts);
    }
    Ok(vals)
}

/// The `sainigh` special form: evaluate, then bind in the innermost
/// frame; the bound value is the result.
fn eval_def(l: &Vec<Atom>, env: &mut Env, out: &mut Vec<String>, fuel: u64) -> (r: Result<
    Atom,
    Error,
>)
    requires
        old(env).wf(),
        fuel >= 1,
        l@.len() >= 1,
        atoms_view(l@)[0] == ValS::Symbol("sainigh"@),
    ensures
        ({
            let st = spec_special(atoms_view(l@), old(env)@, fuel as nat);
            final(env)@ == st.env && final(env).wf() && strings_view(final(out)@) == strings_view(
                old(out)@,
            ) + st.out && (st.r matches Ok(v) ==> r matches Ok(a) && a@ == v) && (st.r matches Err(
                e,
            ) ==> r == Err::<Atom, Error>(e))
        }),
    decreases fuel, 3int, 0int,
{
    proof {
        lemma_atoms_view(l@);
        assert(strings_view(out@) + Seq::<Seq<char>>::empty() =~= strings_view(out@));
    }
    if l.len() != 3 {
        return Err(Error::ArityMismatch);
    }
    let name = match &l[1] {
        Atom::Symbol(n) => n,
        _ => {
            return Err(Error::TypeMismatch);
        },
    };
    match eval(&l[2], env, out, fuel - 1) {
        Err(e) => Err(e),
        Ok(v) => {
            let dup = v.duplicate();
            env_add(name.as_str(), dup, env);
            Ok(v)
        },
    }
}

/// The `má` special form: evaluate the condition, which must yield
/// a boolean, then exactly the chosen branch.
fn eval_if(l: &Vec<Atom>, env: &mut Env, out: &mut Vec<String>, fuel: u64) -> (r: Result<
    Atom,
    Error,
>)
    requires
        old(env).wf(),
        fuel >= 1,
        l@.len() >= 1,
        atoms_view(l@)[0] == ValS::Symbol("má"@),
        "má"@ != "sainigh"@ && "má"@ != "athfhriotal"@ && "má"@ != "'"@ && "má"@ != "lambda"@,
    ensures
        ({
            let st = spec_special(atoms_view(l@), old(env)@, fuel as nat);
            final(env)@ == st.env && final(env).wf() && strings_view(final(out)@) == strings_view(
                old(out)@,
            ) + st.out && (st.r matches Ok(v) ==> r matches Ok(a) && a@ == v) && (st.r matches Err(
                e,
            ) ==> r == Err::<Atom, Error>(e))
        }),
    decreases fuel, 3int, 0int,
{
    let ghost out0 = strings_view(out@);
    proof {
        lemma_atoms_view(l@);
        assert(out0 + Seq::<Seq<char>>::empty() =~= out0);
    }
    if l.len() != 4 {
        return Err(Error::ArityMismatch);
    }
    let ghost cst = spec_eval(atoms_view(l@)[1], old(env)@, (fuel - 1) as nat);
    match eval(&l[1], env, out, fuel - 1) {
        Err(e) => Err(e),
        Ok(c) => {
            match &c {
                Atom::Bool(cond) => {
                    let branch: &Atom = if *cond {
                        &l[2]
                    } else {
                        &l[3]
                    };
                    let r2 = eval(branch, env, out, fuel - 1);
                    proof {
                        let tst = spec_eval(
                            if c@ == ValS::Bool(true) {
                                atoms_view(l@)[2]
                            } else {
                                atoms_view(l@)[3]
                            },
                            cst.env,
                            (fuel - 1) as nat,
                        );
                        assert(strings_view(out@) =~= out0 + (cst.out + tst.out));
                    }
                    r2
                },
                _ => Err(Error::TypeMismatch),
            }
        },
    }
}

/// Dispatch of the special forms: `Some` when the list's head is a
/// symbol naming one of them, `None` otherwise (and then nothing was
/// evaluated or changed).
fn eval_built_ins(l: &Vec<Atom>, env: &mut Env, out: &mut Vec<String>, fuel: u64) -> (res: Option<
    Result<Atom, Error>,
>)
    requires
        old(env).wf(),
        fuel >= 1,
    ensures
        res is Some <==> is_special(atoms_view(l@)),
        res is None ==> final(env)@ == old(env)@ && final(env).wf() && final(out)@ == old(out)@,
        ({
            let st = spec_special(atoms_view(l@), old(env)@, fuel as nat);
            res matches Some(rr) ==> final(env)@ == st.env && final(env).wf() && strings_view(
                final(out)@,
            ) + Seq::<Seq<char>>::empty() == strings_view(old(out)@) + st.out && (st.r matches Ok(
                v,
            ) ==> rr matches Ok(a) && a@ == v) && (st.r matches Err(e) ==> rr == Err::<
                Atom,
                Error,
            >(e))
        }),
    decreases fuel, 4int, 0int,
{
    proof {
        lemma_atoms_view(l@);
        assert(strings_view(out@) + Seq::<Seq<char>>::empty() =~= strings_view(out@));
    }
    if l.len() == 0 {
        return None;
    }
    let s = match &l[0] {
        Atom::Symbol(s) => s,
        _ => {
            return None;
        },
    };
    if str_eq(s.as_str(), "sainigh") {
        Some(eval_def(l, env, out, fuel))
    } else if str_eq(s.as_str(), "athfhriotal") || str_eq(s.as_str(), "'") {
        if l.len() < 2 {
            Some(Err(Error::ArityMismatch))
        } else {
            Some(Ok(l[1].duplicate()))
        }
    } else if str_eq(s.as_str(), "lambda") {
        if l.len() < 3 {
            Some(Err(Error::ArityMismatch))
        } else {
            Some(
                Ok(
                    Atom::Lambda(
                        Lambda {
                            params: Box::new(l[1].duplicate()),
                            exp: Box::new(l[2].duplicate()),
                        },
                    ),
                ),
            )
        }
    } else if str_eq(s.as_str(), "má") {
        Some(eval_if(l, env, out, fuel))
    } else {
        None
    }
}

/// Apply a user function: check the parameter form, check the
/// arity, evaluate the arguments eagerly in the caller's
/// environment, then run the body in one fresh frame chained to the
/// caller's environment.  The frame is discarded afterwards.
fn apply_lambda(lam: &Lambda, l: &Vec<Atom>, env: &mut Env, out: &mut Vec<String>, fuel: u64) -> (r:
    Result<Atom, Error>)
    requires
        old(env).wf(),
        fuel >= 1,
        l@.len() >= 1,
    ensures
        ({
            let st = spec_apply(lam@, atoms_view(l@).drop_first(), old(env)@, fuel as nat);
            final(env)@ == st.env && final(env).wf() && strings_view(final(out)@) == strings_view(
                old(out)@,
            ) + st.out && (st.r matches Ok(v) ==> r matches Ok(a) && a@ == v) && (st.r matches Err(
                e,
            ) ==> r == Err::<Atom, Error>(e))
        }),
    decreases fuel, 4int, 0int,
{
    let ghost args = atoms_view(l@).drop_first();
    let ghost out0 = strings_view(out@);
    proof {
        lemma_atoms_view(l@);
        assert(out0 + Seq::<Seq<char>>::empty() =~= out0);
        assert(atoms_view(l@).skip(1) =~= args);
    }
    let names = match params_to_str(&*lam.params) {
        Ok(ns) => ns,
        Err(e) => {
            return Err(e);
        },
    };
    if names.len() != l.len() - 1 {
        return Err(Error::ArityMismatch);
    }
    let ghost ar = spec_eval_seq(args, old(env)@, fuel as nat);
    let vals = match eval_map(l, 1, env, out, fuel) {
        Ok(v) => v,
        Err(e) => {
            return Err(e);
        },
    };
    proof {
        lemma_atoms_view(vals@);
        lemma_eval_seq_len(args, old(env)@, fuel as nat);
    }
    let mut frame: Vec<(String, Atom)> = Vec::new();
    let n = names.len();
    let mut i: usize = 0;
    while i < n
        invariant
            n == names@.len(),
            names@.len() == vals@.len(),
            i <= n,
            frame@.len() == i,
            forall|t: int|
                0 <= t < i ==> #[trigger] frame@[t].0@ == names@[t]@ && frame@[t].1@ == vals@[t]@,
        decreases n - i,
    {
        frame.push((names[i].clone(), vals[i].duplicate()));
        i += 1;
    }
    let ghost ns = params_names((*lam.params)@)->Some_0;
    let ghost framem = Seq::new(ns.len(), |t: int| (ns[t], atoms_view(vals@)[t]));
    proof {
        lemma_atoms_view(vals@);
        assert(frame_view(frame@) =~= framem);
    }
    let mut benv = env.duplicate();
    benv.frames.push(frame);
    proof {
        assert(benv@ =~= env@.push(frame_view(frame@)));
    }
    let res = eval(&*lam.exp, &mut benv, out, fuel - 1);
    proof {
        let bst = spec_eval((*lam.exp)@, ar.env.push(framem), (fuel - 1) as nat);
        assert(strings_view(out@) =~= out0 + (ar.out + bst.out));
    }
    res
}

/// One evaluation step of the interpreter, with a fuel budget.
pub fn eval(ast: &Atom, env: &mut Env, out: &mut Vec<String>, fuel: u64) -> (r: Result<Atom, Error>)
    requires
        old(env).wf(),
    ensures
        ({
            let st = spec_eval(ast@, old(env)@, fuel as nat);
            final(env)@ == st.env && final(env).wf() && strings_view(final(out)@) == strings_view(
                old(out)@,
            ) + st.out && (st.r matches Ok(v) ==> r matches Ok(a) && a@ == v) && (st.r matches Err(
                e,
            ) ==> r == Err::<Atom, Error>(e))
        }),
    decreases fuel, 5int, 0int,
{
    let ghost out0 = strings_view(out@);
    proof {
        assert(out0 + Seq::<Seq<char>>::empty() =~= out0);
    }
    if fuel == 0 {
        return Err(Error::DepthLimit);
    }
    match ast {
        Atom::Bool(_) => Ok(ast.duplicate()),
        Atom::Number(_) => Ok(ast.duplicate()),
        Atom::Func(_) => Ok(ast.duplicate()),
        Atom::Lambda(_) => Ok(ast.duplicate()),
        Atom::Str(_) => Err(Error::TypeMismatch),
        Atom::Symbol(_) => env_get(ast, env),
        Atom::List(l) => {
            proof {
                lemma_atoms_view(l@);
            }
            let ghost lv = atoms_view(l@);
            match eval_built_ins(l, env, out, fuel) {
                Some(res) => res,
                None => {
                    let target: Option<Atom> = if l.len() > 0 {
                        match &l[0] {
                            Atom::Func(_) => Some(l[0].duplicate()),
                            Atom::Lambda(_) => Some(l[0].duplicate()),
                            Atom::Symbol(_) => {
                                match env_get(&l[0], env) {
                                    Ok(f) => {
                                        match &f {
                                            Atom::Func(_) => Some(f),
                                            Atom::Lambda(_) => Some(f),
                                            _ => None,
                                        }
                                    },
                                    Err(_) => None,
                                }
                            },
                            _ => None,
                        }
                    } else {
                        None
                    };
                    proof {
                        if l@.len() > 0 {
                            assert(lv[0] == l@[0]@);
                        }
                    }
                    if let Some(h) = target {
                        match h {
                            Atom::Func(b) => {
                                let ghost ar = spec_eval_seq(
                                    lv.drop_first(),
                                    old(env)@,
                                    fuel as nat,
                                );
                                proof {
                                    assert(lv.skip(1) =~= lv.drop_first());
                                }
                                match eval_map(l, 1, env, out, fuel) {
                                    Err(e) => Err(e),
                                    Ok(vals) => {
                                        let res = apply_builtin(b, &vals, out);
                                        proof {
                                            let bo = spec_apply_builtin(b, ar.r->Ok_0);
                                            assert(strings_view(out@) =~= out0 + (ar.out
                                                + bo.out));
                                        }
                                        res
                                    },
                                }
                            },
                            Atom::Lambda(lam) => apply_lambda(&lam, l, env, out, fuel),
                            _ => {
                                proof {
                                    assert(false);
                                }
                                Err(Error::TypeMismatch)
                            },
                        }
                    } else {
                        let ghost ar = spec_eval_seq(lv, old(env)@, fuel as nat);
                        proof {
                            assert(lv.skip(0) =~= lv);
                        }
                        match eval_map(l, 0, env, out, fuel) {
                            Err(e) => Err(e),
                            Ok(vals) => {
                                proof {
                                    lemma_atoms_view(vals@);
                                }
                                if vals.len() == 1 {
                                    let res = eval(&vals[0], env, out, fuel - 1);
                                    proof {
                                        let st2 = spec_eval(
                                            ar.r->Ok_0[0],
                                            ar.env,
                                            (fuel - 1) as nat,
                                        );
                                        assert(strings_view(out@) =~= out0 + (ar.out + st2.out));
                                    }
                                    res
                                } else {
                                    let wrapped = Atom::List(vals);
                                    let res = eval(&wrapped, env, out, fuel - 1);
                                    proof {
                                        let st2 = spec_eval(
                                            ValS::List(ar.r->Ok_0),
                                            ar.env,
                                            (fuel - 1) as nat,
                                        );
                                        assert(strings_view(out@) =~= out0 + (ar.out + st2.out));
                                    }
                                    res
                                }
                            },
                        }
                    }
                },
            }
        },
    }
}

/// Evaluate top-level forms in sequence; on the first failure the
/// returned index says which form failed.
pub fn run_forms(forms: &Vec<Atom>, env: &mut Env, out: &mut Vec<String>, fuel: u64) -> (r: (
    Result<Atom, Error>,
    usize,
))
    requires
        old(env).wf(),
    ensures
        ({
            let ro = spec_run_forms(atoms_view(forms@), old(env)@, fuel as nat);
            final(env)@ == ro.env && final(env).wf() && strings_view(final(out)@) == strings_view(
                old(out)@,
            ) + ro.out && (ro.r matches Ok(v) ==> r.0 matches Ok(a) && a@ == v) && (
            ro.r matches Err(e) ==> r.0 == Err::<Atom, Error>(e) && r.1 as int == ro.idx)
        }),
{
    let ghost av = atoms_view(forms@);
    let ghost env0 = env@;
    let ghost out0 = strings_view(out@);
    let ghost full = spec_run_forms(av, env0, fuel as nat);
    let ghost mut douts: Seq<Seq<char>> = Seq::empty();
    proof {
        lemma_atoms_view(forms@);
        assert(out0 + Seq::<Seq<char>>::empty() =~= out0);
        assert(strings_view(out@) =~= out0 + douts);
        assert(av.skip(0) =~= av);
    }
    if forms.len() == 0 {
        return (Err(Error::TypeMismatch), 0);
    }
    let mut i: usize = 0;
    while i < forms.len()
        invariant
            0 <= i < forms@.len(),
            av == atoms_view(forms@),
            av.len() == forms@.len(),
            env.wf(),
            env0 == old(env)@,
            out0 == strings_view(old(out)@),
            full == spec_run_forms(av, env0, fuel as nat),
            strings_view(out@) == out0 + douts,
            ({
                let rem = spec_run_forms(av.skip(i as int), env@, fuel as nat);
                full.r == rem.r && full.env == rem.env && full.out == douts + rem.out && (
                rem.r is Err ==> full.idx == rem.idx + i)
            }),
        decreases forms@.len() - i,
    {
        let ghost rem = spec_run_forms(av.skip(i as int), env@, fuel as nat);
        let ghost st = spec_eval(av[i as int], env@, fuel as nat);
        proof {
            lemma_atoms_view(forms@);
            assert(av.skip(i as int)[0] == av[i as int]);
            assert(av.skip(i as int).drop_first() =~= av.skip(i + 1));
        }
        match eval(&forms[i], env, out, fuel) {
            Err(e) => {
                proof {
                    assert(strings_view(out@) =~= out0 + (douts + st.out));
                }
                return (Err(e), i);
            },
            Ok(v) => {
                if i == forms.len() - 1 {
                    proof {
                        assert(strings_view(out@) =~= out0 + (douts + st.out));
                    }
                    return (Ok(v), i);
                }
                proof {
                    douts = douts + st.out;
                    assert(strings_view(out@) =~= out0 + douts);
                    let next = spec_run_forms(av.skip(i + 1), env@, fuel as nat);
                    assert(douts + (st.out + next.out) =~= (douts + st.out) + next.out);
                }
                i += 1;
            },
        }
    }
    proof {
        assert(false);
    }
    (Err(Error::TypeMismatch), 0)
}

/// Tokenize and parse the leading expression of the source text,
/// then evaluate it: as one expression in interactive use (`repl`),
/// or as the list of a program's top-level forms otherwise.
pub fn parse_eval(code: &str, env: &mut Env, out: &mut Vec<String>, repl: bool, fuel: u64) -> (r:
    Result<Atom, Error>)
    requires
        old(env).wf(),
    ensures
        ({
            let st = spec_parse_eval(code@, old(env)@, repl, fuel as nat);
            final(env)@ == st.env && final(env).wf() && strings_view(final(out)@) == strings_view(
                old(out)@,
            ) + st.out && (st.r matches Ok(v) ==> r matches Ok(a) && a@ == v) && (st.r matches Err(
                e,
            ) ==> r == Err::<Atom, Error>(e))
        }),
{
    proof {
        assert(strings_view(out@) + Seq::<Seq<char>>::empty() =~= strings_view(out@));
    }
    let tokens = tokenise(code);
    match parse(&tokens) {
        Err(e) => Err(e),
        Ok(pair) => {
            let ast = pair.0;
            if repl {
                eval(&ast, env, out, fuel)
            } else {
                match &ast {
                    Atom::List(l) => {
                        let rr = run_forms(l, env, out, fuel);
                        rr.0
                    },
                    _ => Err(Error::TypeMismatch),
                }
            }
        },
    }
}

/// What `parse_eval` yields: tokenize, parse the leading expression,
/// then either evaluate it as one expression (interactive use) or
/// treat it as the list of a whole program's forms (file use).
pub open spec fn spec_parse_eval(code: Seq<char>, env: EnvM, repl: bool, fuel: nat) -> EvalOut {
    match spec_parse_at(spec_tokenise(code), Seq::empty()) {
        Err(e) => EvalOut { r: Err(e), env, out: Seq::empty() },
        Ok(pair) => if repl {
            spec_eval(pair.0, env, fuel)
        } else {
            match pair.0 {
                ValS::List(l) => {
                    let ro = spec_run_forms(l, env, fuel);
                    EvalOut { r: ro.r, env: ro.env, out: ro.out }
                },
                _ => EvalOut { r: Err(Error::TypeMismatch), env, out: Seq::empty() },
            }
        },
    }
}

} // verus!
