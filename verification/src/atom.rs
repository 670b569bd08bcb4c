//! The tagged value model: `Atom` is both the parsed syntax tree and
//! the runtime value.  `ValS` is its mathematical mirror, used by
//! every contract; `Atom::view` maps one to the other.

use vstd::prelude::*;
use vstd::string::StrSliceExecFns;

verus! {

/// The fixed registry of native built-in operations.  A native
/// function is identified by its tag; the behaviour of each tag is
/// given by `builtins::spec_apply_builtin`.
#[derive(Clone, Copy, Debug, PartialEq, Eq, Structural)]
pub enum Builtin {
    /// `+`: sum of the (numeric) arguments.
    Add,
    /// `-`: first argument minus the sum of the rest.
    Sub,
    /// `*`: product of the (numeric) arguments.
    Mul,
    /// `/`: first argument divided by the product of the rest.
    Div,
    /// `=`: structural equality of exactly two arguments.
    Equal,
    /// `>`: numeric greater-than on exactly two arguments.
    Greater,
    /// `<`: numeric less-than on exactly two arguments.
    Less,
    /// `níl` applied as a function: boolean negation.
    Not,
    /// `agus`: boolean conjunction, both arguments already evaluated.
    And,
    /// `ceann`: first element of a non-empty list.
    Head,
    /// `tóin`: all but the first element of a non-empty list.
    Tail,
    /// `cons`: prepend an element to a list.
    Cons,
    /// `boole?`: whether the single argument is a boolean.
    IsBool,
    /// `folamh?`: whether the single list argument is empty.
    IsEmpty,
    /// `liosta?`: whether the single argument is a list.
    IsList,
    /// `fad`: length of the single list argument.
    Length,
    /// `scríobh`: emit the rendering of the argument, return it.
    Write,
    /// `mapáil`: apply a native function to each remaining argument.
    MapFn,
}

/// A user-defined function: a parameter list and a body, both held
/// unevaluated.  It does not capture the environment of its
/// definition site; application chains the call frame to the
/// caller's environment.
#[derive(Debug)]
pub struct Lambda {
    pub params: Box<Atom>,
    pub exp: Box<Atom>,
}

/// The closed tagged union of every runtime datum and syntax node.
#[derive(Debug)]
pub enum Atom {
    /// An identifier, resolved by environment lookup at evaluation.
    Symbol(String),
    Bool(bool),
    /// An opaque string literal, never further parsed.
    Str(String),
    /// The single numeric type: a signed 64-bit integer.
    Number(i64),
    /// Both a call/special form and a runtime list value.
    List(Vec<Atom>),
    /// A native built-in function.
    Func(Builtin),
    /// A user-defined function.
    Lambda(Lambda),
}

/// The mathematical mirror of `Atom`, over `Seq<char>`, `int` and
/// `Seq`; every contract of the library speaks in this type.
#[verifier::ext_equal]
pub enum ValS {
    Symbol(Seq<char>),
    Bool(bool),
    Str(Seq<char>),
    Number(int),
    List(Seq<ValS>),
    Func(Builtin),
    Lambda { params: Box<ValS>, exp: Box<ValS> },
}

impl View for Lambda {
    type V = ValS;

    open spec fn view(&self) -> ValS
        decreases self,
    {
        ValS::Lambda { params: Box::new((*self.params)@), exp: Box::new((*self.exp)@) }
    }
}

impl View for Atom {
    type V = ValS;

    open spec fn view(&self) -> ValS
        decreases self,
    {
        match self {
            Atom::Symbol(s) => ValS::Symbol(s@),
            Atom::Bool(b) => ValS::Bool(*b),
            Atom::Str(s) => ValS::Str(s@),
            Atom::Number(n) => ValS::Number(*n as int),
            Atom::List(l) => ValS::List(atoms_view(l@)),
            Atom::Func(b) => ValS::Func(*b),
            Atom::Lambda(lam) => lam@,
        }
    }
}

/// The views of a sequence of atoms, element by element.
pub open spec fn atoms_view(s: Seq<Atom>) -> Seq<ValS>
    decreases s,
{
    if s.len() == 0 {
        Seq::empty()
    } else {
        atoms_view(s.subrange(0, s.len() - 1)).push(s[s.len() - 1]@)
    }
}

/// `atoms_view` is pointwise `view`.
pub broadcast proof fn lemma_atoms_view(s: Seq<Atom>)
    ensures
        #[trigger] atoms_view(s) == Seq::new(s.len(), |i: int| s[i]@),
    decreases s.len(),
{
    if s.len() == 0 {
        assert(atoms_view(s) =~= Seq::new(s.len(), |i: int| s[i]@));
    } else {
        let sub = s.subrange(0, s.len() - 1);
        lemma_atoms_view(sub);
        assert(atoms_view(s) == atoms_view(sub).push(s[s.len() - 1]@));
        assert forall|i: int| 0 <= i < s.len() implies atoms_view(s)[i] == s[i]@ by {
            if i < s.len() - 1 {
                assert(sub[i] == s[i]);
                assert(atoms_view(sub)[i] == sub[i]@);
            }
        }
        assert(atoms_view(s) =~= Seq::new(s.len(), |i: int| s[i]@));
    }
}

/// The failure taxonomy.  Every failing path of the tokenizer,
/// parser and evaluator reports one of these instead of aborting.
#[derive(Clone, Copy, Debug, PartialEq, Eq, Structural)]
pub enum Error {
    /// A malformed literal token (a lone quote character, an empty token).
    Lex,
    /// A structural fault in the token sequence.
    Parse(ParseError),
    /// A symbol not bound anywhere in the environment chain.
    UnboundSymbol,
    /// A call with the wrong number of arguments.
    ArityMismatch,
    /// An argument or form of the wrong kind.
    TypeMismatch,
    /// Division with no divisor operands at all.
    DivisionByEmptyOperand,
    /// Division whose divisor product is zero.
    DivisionByZero,
    /// An arithmetic result or numeric literal outside the 64-bit range.
    NumericOverflow,
    /// The evaluation depth budget ran out.
    DepthLimit,
}

#[derive(Clone, Copy, Debug, PartialEq, Eq, Structural)]
pub enum ParseError {
    /// The tokens ran out where an expression or a `)` was expected.
    UnterminatedList,
    /// A `)` stood where an expression was expected.
    UnexpectedToken,
}

/// Structural equality of two values: leaves compare by value, lists
/// element-wise; a native function or user function is equal to
/// nothing, itself included.
pub open spec fn spec_val_eq(a: ValS, b: ValS) -> bool
    decreases a,
{
    match (a, b) {
        (ValS::Bool(x), ValS::Bool(y)) => x == y,
        (ValS::Str(x), ValS::Str(y)) => x == y,
        (ValS::Symbol(x), ValS::Symbol(y)) => x == y,
        (ValS::Number(x), ValS::Number(y)) => x == y,
        (ValS::List(x), ValS::List(y)) => x.len() == y.len() && (forall|i: int|
            0 <= i < x.len() ==> spec_val_eq(x[i], y[i])),
        _ => false,
    }
}

impl Atom {
    /// Structural equality, as the `=` built-in decides it.
    pub fn values_equal(&self, other: &Atom) -> (r: bool)
        ensures
            r == spec_val_eq(self@, other@),
        decreases self@,
    {
        broadcast use lemma_atoms_view;

        match (self, other) {
            (Atom::Bool(x), Atom::Bool(y)) => *x == *y,
            (Atom::Str(x), Atom::Str(y)) => str_eq(x.as_str(), y.as_str()),
            (Atom::Symbol(x), Atom::Symbol(y)) => str_eq(x.as_str(), y.as_str()),
            (Atom::Number(x), Atom::Number(y)) => *x == *y,
            (Atom::List(x), Atom::List(y)) => {
                if x.len() != y.len() {
                    proof {
                        lemma_atoms_view(x@);
                        lemma_atoms_view(y@);
                        assert(self@ == ValS::List(atoms_view(x@)));
                        assert(other@ == ValS::List(atoms_view(y@)));
                        assert(!spec_val_eq(self@, other@));
                    }
                    return false;
                }
                let n = x.len();
                let mut i: usize = 0;
                while i < n
                    invariant
                        n == x@.len() == y@.len(),
                        i <= n,
                        self@ == ValS::List(atoms_view(x@)),
                        other@ == ValS::List(atoms_view(y@)),
                        forall|k: int| 0 <= k < i ==> spec_val_eq(x@[k]@, y@[k]@),
                    decreases n - i,
                {
                    proof {
                        lemma_atoms_view(x@);
                        assert(decreases_to!(self@ => self@->List_0));
                        assert(atoms_view(x@)[i as int] == x@[i as int]@);
                        assert(decreases_to!(self@->List_0 => self@->List_0[i as int]));
                        assert(decreases_to!(self@ => x@[i as int]@));
                    }
                    if !x[i].values_equal(&y[i]) {
                        proof {
                            lemma_atoms_view(x@);
                            lemma_atoms_view(y@);
                            assert(atoms_view(x@)[i as int] == x@[i as int]@);
                            assert(atoms_view(y@)[i as int] == y@[i as int]@);
                            assert(!spec_val_eq(self@, other@));
                        }
                        return false;
                    }
                    i += 1;
                }
                proof {
                    lemma_atoms_view(x@);
                    lemma_atoms_view(y@);
                    assert forall|k: int|
                        0 <= k < atoms_view(x@).len() implies spec_val_eq(
                        atoms_view(x@)[k],
                        atoms_view(y@)[k],
                    ) by {
                        assert(spec_val_eq(x@[k]@, y@[k]@));
                    }
                    assert(spec_val_eq(self@, other@));
                }
                true
            },
            _ => false,
        }
    }

    /// A structural copy whose view is the same value.
    pub fn duplicate(&self) -> (r: Atom)
        ensures
            r@ == self@,
        decreases self@,
    {
        broadcast use lemma_atoms_view;

        match self {
            Atom::Symbol(s) => Atom::Symbol(s.clone()),
            Atom::Bool(b) => Atom::Bool(*b),
            Atom::Str(s) => Atom::Str(s.clone()),
            Atom::Number(n) => Atom::Number(*n),
            Atom::Func(b) => Atom::Func(*b),
            Atom::Lambda(lam) => {
                proof {
                    assert(decreases_to!(self@ => self@->Lambda_params));
                    assert(decreases_to!(self@ => self@->Lambda_exp));
                }
                Atom::Lambda(Lambda {
                    params: Box::new((*lam.params).duplicate()),
                    exp: Box::new((*lam.exp).duplicate()),
                })
            },
            Atom::List(l) => {
                let mut out: Vec<Atom> = Vec::new();
                let n = l.len();
                let mut i: usize = 0;
                while i < n
                    invariant
                        n == l@.len(),
                        i <= n,
                        out@.len() == i,
                        self@ == ValS::List(atoms_view(l@)),
                        forall|k: int| 0 <= k < i ==> out@[k]@ == l@[k]@,
                    decreases n - i,
                {
                    proof {
                        lemma_atoms_view(l@);
                        assert(decreases_to!(self@ => self@->List_0));
                        assert(atoms_view(l@)[i as int] == l@[i as int]@);
                        assert(decreases_to!(self@->List_0 => self@->List_0[i as int]));
                        assert(decreases_to!(self@ => l@[i as int]@));
                    }
                    out.push(l[i].duplicate());
                    i += 1;
                }
                let r = Atom::List(out);
                proof {
                    lemma_atoms_view(out@);
                    lemma_atoms_view(l@);
                    assert(atoms_view(out@) =~= atoms_view(l@));
                }
                r
            },
        }
    }
}

/// Whether two string slices hold the same characters.
pub fn str_eq(a: &str, b: &str) -> (r: bool)
    ensures
        r == (a@ == b@),
{
    let la = a.unicode_len();
    let lb = b.unicode_len();
    if la != lb {
        return false;
    }
    let mut i: usize = 0;
    while i < la
        invariant
            la == a@.len() && lb == b@.len() && la == lb,
            i <= la,
            forall|k: int| 0 <= k < i ==> a@[k] == b@[k],
        decreases la - i,
    {
        if a.get_char(i) != b.get_char(i) {
            return false;
        }
        i += 1;
    }
    proof {
        assert(a@ =~= b@);
    }
    true
}

} // verus!
