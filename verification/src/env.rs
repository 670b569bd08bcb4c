//! The chained-frame environment: an ordered stack of frames, each a
//! list of name/value bindings.  Lookup walks innermost to outermost
//! and, inside a frame, from the latest binding backwards, so a later
//! binding of the same name shadows an earlier one.  Insertion always
//! targets the innermost frame.

use vstd::prelude::*;
use vstd::string::StringExecFns;
use crate::atom::{Atom, Builtin, Error, ValS, str_eq};

verus! {

/// The model of one frame: name/value pairs, oldest first.
pub type FrameM = Seq<(Seq<char>, ValS)>;

/// The model of an environment: frames, outermost first.
pub type EnvM = Seq<FrameM>;

/// The environment: `frames[0]` is the root (outermost) frame and
/// the last frame is the innermost one.  A well-formed environment
/// has at least one frame.
pub struct Env {
    pub frames: Vec<Vec<(String, Atom)>>,
}

/// The model of one executable frame.
pub open spec fn frame_view(f: Seq<(String, Atom)>) -> FrameM {
    Seq::new(f.len(), |i: int| (f[i].0@, f[i].1@))
}

impl View for Env {
    type V = EnvM;

    open spec fn view(&self) -> EnvM {
        Seq::new(self.frames@.len(), |i: int| frame_view(self.frames@[i]@))
    }
}

impl Env {
    /// A well-formed environment holds at least one frame.
    pub open spec fn wf(&self) -> bool {
        self@.len() >= 1
    }
}

impl Env {
    /// A structural copy whose view is the same environment.
    pub fn duplicate(&self) -> (e: Env)
        ensures
            e@ == self@,
    {
        let mut frames: Vec<Vec<(String, Atom)>> = Vec::new();
        let n = self.frames.len();
        let mut i: usize = 0;
        while i < n
            invariant
                n == self.frames@.len(),
                i <= n,
                frames@.len() == i,
                forall|k: int|
                    0 <= k < i ==> frame_view(#[trigger] frames@[k]@) == frame_view(
                        self.frames@[k]@,
                    ),
            decreases n - i,
        {
            let src = &self.frames[i];
            let mut f: Vec<(String, Atom)> = Vec::new();
            let m = src.len();
            let mut j: usize = 0;
            while j < m
                invariant
                    m == src@.len(),
                    j <= m,
                    f@.len() == j,
                    forall|t: int|
                        0 <= t < j ==> #[trigger] f@[t].0@ == src@[t].0@ && f@[t].1@
                            == src@[t].1@,
                decreases m - j,
            {
                f.push((src[j].0.clone(), src[j].1.duplicate()));
                j += 1;
            }
            proof {
                assert(frame_view(f@) =~= frame_view(src@));
            }
            frames.push(f);
            i += 1;
        }
        let e = Env { frames };
        proof {
            assert(e@ =~= self@);
        }
        e
    }
}

/// The binding a name has in one frame: the latest entry wins.
pub open spec fn spec_frame_lookup(f: FrameM, name: Seq<char>) -> Option<ValS>
    decreases f.len(),
{
    if f.len() == 0 {
        None
    } else if f.last().0 == name {
        Some(f.last().1)
    } else {
        spec_frame_lookup(f.drop_last(), name)
    }
}

/// The binding a name has in the chain: innermost frame first.
pub open spec fn spec_env_lookup(env: EnvM, name: Seq<char>) -> Option<ValS>
    decreases env.len(),
{
    if env.len() == 0 {
        None
    } else {
        match spec_frame_lookup(env.last(), name) {
            Some(v) => Some(v),
            None => spec_env_lookup(env.drop_last(), name),
        }
    }
}

/// The environment after binding `name` to `v` in the innermost frame.
pub open spec fn spec_env_add(env: EnvM, name: Seq<char>, v: ValS) -> EnvM {
    env.update(env.len() - 1, env.last().push((name, v)))
}

/// Binding then looking up the same name yields the bound value.
pub proof fn lemma_env_add_lookup(env: EnvM, name: Seq<char>, v: ValS)
    requires
        env.len() >= 1,
    ensures
        spec_env_lookup(spec_env_add(env, name, v), name) == Some(v),
{
    let env2 = spec_env_add(env, name, v);
    assert(env2.last() == env.last().push((name, v)));
    assert(env2.last().last() == (name, v));
}

/// Binding one name leaves every other name's binding unchanged.
pub proof fn lemma_env_add_other(env: EnvM, name: Seq<char>, v: ValS, other: Seq<char>)
    requires
        env.len() >= 1,
        other != name,
    ensures
        spec_env_lookup(spec_env_add(env, name, v), other) == spec_env_lookup(env, other),
{
    let env2 = spec_env_add(env, name, v);
    assert(env2.last() == env.last().push((name, v)));
    assert(env2.last().drop_last() =~= env.last());
    assert(env2.drop_last() =~= env.drop_last());
}

/// Add a binding to the innermost frame of the environment.
pub fn env_add(symbol: &str, atom: Atom, env: &mut Env)
    requires
        old(env).wf(),
    ensures
        final(env).wf(),
        final(env)@ == spec_env_add(old(env)@, symbol@, atom@),
{
    let ghost old_env = env@;
    let n = env.frames.len();
    let mut f = match env.frames.pop() {
        Some(f) => f,
        None => Vec::new(),
    };
    f.push((String::from_str(symbol), atom));
    env.frames.push(f);
    proof {
        assert(frame_view(env.frames@[n - 1]@) =~= old_env.last().push((symbol@, atom@)));
        assert(env@ =~= spec_env_add(old_env, symbol@, atom@));
    }
}

/// Look a symbol up in the environment chain.  A non-symbol argument
/// is refused; a symbol bound nowhere in the chain is reported as
/// unbound.
pub fn env_get(atom: &Atom, env: &Env) -> (r: Result<Atom, Error>)
    ensures
        match atom@ {
            ValS::Symbol(name) => match spec_env_lookup(env@, name) {
                Some(v) => r matches Ok(a) && a@ == v,
                None => r == Err::<Atom, Error>(Error::UnboundSymbol),
            },
            _ => r == Err::<Atom, Error>(Error::TypeMismatch),
        },
{
    let name: &String = match atom {
        Atom::Symbol(s) => s,
        _ => {
            return Err(Error::TypeMismatch);
        },
    };
    let mut i = env.frames.len();
    proof {
        assert(env@.take(env.frames@.len() as int) =~= env@);
    }
    while i > 0
        invariant
            i <= env.frames@.len(),
            atom@ == ValS::Symbol(name@),
            spec_env_lookup(env@, name@) == spec_env_lookup(env@.take(i as int), name@),
        decreases i,
    {
        i = i - 1;
        let f = &env.frames[i];
        let ghost fv = frame_view(f@);
        proof {
            assert(fv.take(f@.len() as int) =~= fv);
        }
        let mut j = f.len();
        while j > 0
            invariant
                i < env.frames@.len(),
                j <= f@.len(),
                atom@ == ValS::Symbol(name@),
                f@ == env.frames@[i as int]@,
                fv == frame_view(f@),
                spec_env_lookup(env@, name@) == spec_env_lookup(env@.take(i + 1), name@),
                spec_frame_lookup(fv, name@) == spec_frame_lookup(fv.take(j as int), name@),
            decreases j,
        {
            j = j - 1;
            proof {
                assert(fv.take(j + 1).last() == fv[j as int]);
                assert(fv.take(j + 1).drop_last() =~= fv.take(j as int));
            }
            if str_eq(f[j].0.as_str(), name.as_str()) {
                proof {
                    assert(spec_frame_lookup(fv, name@) == Some(fv[j as int].1));
                    assert(env@.take(i + 1).last() == fv);
                    assert(env@.take(i + 1).drop_last() =~= env@.take(i as int));
                    assert(env@.take(i + 1).len() >= 1);
                    assert(spec_env_lookup(env@.take(i + 1), name@) == Some(fv[j as int].1));
                    assert(spec_env_lookup(env@, name@) == Some(f@[j as int].1@));
                }
                return Ok(f[j].1.duplicate());
            }
        }
        proof {
            assert(fv.take(0) =~= Seq::empty());
            assert(spec_frame_lookup(fv, name@) is None);
            assert(env@.take(i + 1).last() == fv);
            assert(env@.take(i + 1).drop_last() =~= env@.take(i as int));
        }
    }
    proof {
        assert(env@.take(0) =~= Seq::empty());
    }
    Err(Error::UnboundSymbol)
}

/// The root frame: the end-of-input marker symbol bound to itself,
/// then the fixed table of native built-ins, each bound to its tag.
pub open spec fn spec_initial_frame() -> FrameM {
    seq![
        ("#<EOF>"@, ValS::Symbol("#<EOF>"@)),
        ("+"@, ValS::Func(Builtin::Add)),
        ("-"@, ValS::Func(Builtin::Sub)),
        ("*"@, ValS::Func(Builtin::Mul)),
        ("/"@, ValS::Func(Builtin::Div)),
        ("="@, ValS::Func(Builtin::Equal)),
        (">"@, ValS::Func(Builtin::Greater)),
        ("<"@, ValS::Func(Builtin::Less)),
        ("níl"@, ValS::Func(Builtin::Not)),
        ("agus"@, ValS::Func(Builtin::And)),
        ("ceann"@, ValS::Func(Builtin::Head)),
        ("tóin"@, ValS::Func(Builtin::Tail)),
        ("cons"@, ValS::Func(Builtin::Cons)),
        ("boole?"@, ValS::Func(Builtin::IsBool)),
        ("folamh?"@, ValS::Func(Builtin::IsEmpty)),
        ("liosta?"@, ValS::Func(Builtin::IsList)),
        ("fad"@, ValS::Func(Builtin::Length)),
        ("scríobh"@, ValS::Func(Builtin::Write)),
        ("mapáil"@, ValS::Func(Builtin::MapFn)),
    ]
}

/// The environment a program starts in: one root frame holding the
/// built-in library.
pub open spec fn spec_initial_env() -> EnvM {
    seq![spec_initial_frame()]
}

/// Build the root environment with the built-in library installed.
pub fn create_env() -> (e: Env)
    ensures
        e.wf(),
        e@ == spec_initial_env(),
{
    let mut f: Vec<(String, Atom)> = Vec::new();
    f.push((String::from_str("#<EOF>"), Atom::Symbol(String::from_str("#<EOF>"))));
    f.push((String::from_str("+"), Atom::Func(Builtin::Add)));
    f.push((String::from_str("-"), Atom::Func(Builtin::Sub)));
    f.push((String::from_str("*"), Atom::Func(Builtin::Mul)));
    f.push((String::from_str("/"), Atom::Func(Builtin::Div)));
    f.push((String::from_str("="), Atom::Func(Builtin::Equal)));
    f.push((String::from_str(">"), Atom::Func(Builtin::Greater)));
    f.push((String::from_str("<"), Atom::Func(Builtin::Less)));
    f.push((String::from_str("níl"), Atom::Func(Builtin::Not)));
    f.push((String::from_str("agus"), Atom::Func(Builtin::And)));
    f.push((String::from_str("ceann"), Atom::Func(Builtin::Head)));
    f.push((String::from_str("tóin"), Atom::Func(Builtin::Tail)));
    f.push((String::from_str("cons"), Atom::Func(Builtin::Cons)));
    f.push((String::from_str("boole?"), Atom::Func(Builtin::IsBool)));
    f.push((String::from_str("folamh?"), Atom::Func(Builtin::IsEmpty)));
    f.push((String::from_str("liosta?"), Atom::Func(Builtin::IsList)));
    f.push((String::from_str("fad"), Atom::Func(Builtin::Length)));
    f.push((String::from_str("scríobh"), Atom::Func(Builtin::Write)));
    f.push((String::from_str("mapáil"), Atom::Func(Builtin::MapFn)));
    let mut frames: Vec<Vec<(String, Atom)>> = Vec::new();
    frames.push(f);
    let e = Env { frames };
    proof {
        assert(frame_view(e.frames@[0]@) =~= spec_initial_frame());
        assert(e@ =~= spec_initial_env());
    }
    e
}

} // verus!
