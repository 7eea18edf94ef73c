//! The recursive type value, its mathematical model, and the pure
//! substitution operations over it.

use vstd::prelude::*;

verus! {

/// Identifier of one slot in the unification table. Distinct identifiers may
/// belong to the same equivalence class.
#[derive(Clone, Copy, PartialEq, Eq, Structural, Debug)]
pub struct TypeVarId(pub u32);

/// An inference variable: a table slot tagged with its category. Two values
/// are equal only if both the category and the identifier match.
#[derive(Clone, Copy, PartialEq, Eq, Structural, Debug)]
pub enum InferTy {
    TypeVar(TypeVarId),
    IntVar(TypeVarId),
    FloatVar(TypeVarId),
}

/// The head constructor of an applied (structural) type. `Int` and `Float`
/// double as the designated fallback scalars for the literal variable kinds;
/// `Other` stands for any further constructor (a struct, a container, ...),
/// identified opaquely.
#[derive(Clone, Copy, PartialEq, Eq, Structural, Debug)]
pub enum TypeCtor {
    Int,
    Float,
    Other(u32),
}

/// A type value. Only `Infer` and `Bound` matter structurally for
/// canonicalization; `Apply` is an opaque container of nested types and
/// `Unknown` is the imprecise placeholder type.
#[derive(Debug)]
pub enum Ty {
    /// An unresolved inference-variable slot.
    Infer(InferTy),
    /// A positional placeholder, meaningful only inside a canonical value,
    /// indexing into that value's free-variable list.
    Bound(usize),
    /// A structural type: a constructor applied to nested types.
    Apply(TypeCtor, Vec<Ty>),
    /// The imprecise placeholder type.
    Unknown,
}

/// The mathematical model of a type value: the same tree with mathematical
/// sequences for argument lists. All contracts in this crate speak of it.
pub ghost enum TySpec {
    Infer(InferTy),
    Bound(nat),
    Apply(TypeCtor, Seq<TySpec>),
    Unknown,
}

impl Ty {
    /// The model of this type value.
    pub open spec fn model(self) -> TySpec
        decreases self, 0nat,
    {
        match self {
            Ty::Infer(tv) => TySpec::Infer(tv),
            Ty::Bound(idx) => TySpec::Bound(idx as nat),
            Ty::Apply(ctor, args) => {
                proof {
                    assert(decreases_to!(self => args));
                    assert(decreases_to!(args => args@));
                }
                TySpec::Apply(ctor, models_from(args@, 0))
            }
            Ty::Unknown => TySpec::Unknown,
        }
    }
}

/// The models of the type values of `tys` from position `i` on.
pub open spec fn models_from(tys: Seq<Ty>, i: int) -> Seq<TySpec>
    decreases tys, tys.len() - i,
{
    if 0 <= i < tys.len() {
        seq![tys[i].model()] + models_from(tys, i + 1)
    } else {
        Seq::empty()
    }
}

/// The models of a sequence of type values.
pub open spec fn models_of(tys: Seq<Ty>) -> Seq<TySpec> {
    models_from(tys, 0)
}

/// The model of an optional type value.
pub open spec fn opt_model(o: Option<Ty>) -> Option<TySpec> {
    match o {
        Some(t) => Some(t.model()),
        None => None,
    }
}

/// `models_from(tys, i)` is exactly the sequence of models of `tys[i..]`.
pub proof fn lemma_models_from(tys: Seq<Ty>, i: int)
    requires
        0 <= i <= tys.len(),
    ensures
        models_from(tys, i).len() == tys.len() - i,
        forall|j: int|
            0 <= j < tys.len() - i ==> models_from(tys, i)[j] == tys[i + j].model(),
    decreases tys.len() - i,
{
    if i < tys.len() {
        lemma_models_from(tys, i + 1);
    }
}

/// `models_of(tys)` is the pointwise model of `tys`.
pub proof fn lemma_models_of(tys: Seq<Ty>)
    ensures
        models_of(tys).len() == tys.len(),
        forall|j: int| 0 <= j < tys.len() ==> models_of(tys)[j] == tys[j].model(),
{
    lemma_models_from(tys, 0);
}

impl InferTy {
    /// The underlying table slot, with the category stripped.
    pub open spec fn id(self) -> TypeVarId {
        match self {
            InferTy::TypeVar(v) => v,
            InferTy::IntVar(v) => v,
            InferTy::FloatVar(v) => v,
        }
    }

    /// The same category wrapping the identifier `v`.
    pub open spec fn with_id(self, v: TypeVarId) -> InferTy {
        match self {
            InferTy::TypeVar(_) => InferTy::TypeVar(v),
            InferTy::IntVar(_) => InferTy::IntVar(v),
            InferTy::FloatVar(_) => InferTy::FloatVar(v),
        }
    }

    /// The designated fallback concrete type of this variable's category:
    /// the deliberately imprecise value that replaces a variable found to be
    /// part of a recursive (self-referential) resolution.
    pub open spec fn fallback_model(self) -> TySpec {
        match self {
            InferTy::TypeVar(_) => TySpec::Unknown,
            InferTy::IntVar(_) => TySpec::Apply(TypeCtor::Int, Seq::empty()),
            InferTy::FloatVar(_) => TySpec::Apply(TypeCtor::Float, Seq::empty()),
        }
    }

    /// The underlying table slot, with the category stripped.
    pub fn to_inner(self) -> (r: TypeVarId)
        ensures
            r == self.id(),
    {
        match self {
            InferTy::TypeVar(v) => v,
            InferTy::IntVar(v) => v,
            InferTy::FloatVar(v) => v,
        }
    }

    /// The fallback concrete value of this variable's category.
    pub fn fallback_value(self) -> (r: Ty)
        ensures
            r.model() == self.fallback_model(),
    {
        match self {
            InferTy::TypeVar(_) => Ty::Unknown,
            InferTy::IntVar(_) => Ty::Apply(TypeCtor::Int, Vec::new()),
            InferTy::FloatVar(_) => Ty::Apply(TypeCtor::Float, Vec::new()),
        }
    }
}

/// Every inference variable in `t` identifies a slot below `n`.
pub open spec fn wf_ty(t: TySpec, n: nat) -> bool
    decreases t,
{
    match t {
        TySpec::Infer(tv) => tv.id().0 < n,
        TySpec::Apply(_, args) => wf_tys(args, n),
        _ => true,
    }
}

/// Every inference variable in every element of `args` identifies a slot
/// below `n`.
pub open spec fn wf_tys(args: Seq<TySpec>, n: nat) -> bool
    decreases args, args.len(),
{
    forall|i: int| 0 <= i < args.len() ==> wf_ty(#[trigger] args[i], n)
}

/// Well-formedness is preserved when the table grows.
pub proof fn lemma_wf_ty_mono(t: TySpec, n1: nat, n2: nat)
    requires
        wf_ty(t, n1),
        n1 <= n2,
    ensures
        wf_ty(t, n2),
    decreases t,
{
    match t {
        TySpec::Apply(_, args) => {
            assert forall|i: int| 0 <= i < args.len() implies wf_ty(#[trigger] args[i], n2) by {
                assert(decreases_to!(t => args));
                assert(decreases_to!(args => args[i]));
                lemma_wf_ty_mono(args[i], n1, n2);
            }
        }
        _ => {}
    }
}

/// `t` contains no inference variable.
pub open spec fn no_infer(t: TySpec) -> bool
    decreases t,
{
    match t {
        TySpec::Infer(_) => false,
        TySpec::Apply(_, args) => forall|i: int|
            0 <= i < args.len() ==> no_infer(#[trigger] args[i]),
        _ => true,
    }
}

/// Every `Bound` placeholder in `t` has an index below `k`. With `k == 0`,
/// `t` contains no `Bound` placeholder at all.
pub open spec fn bounds_below(t: TySpec, k: nat) -> bool
    decreases t,
{
    match t {
        TySpec::Bound(i) => i < k,
        TySpec::Apply(_, args) => forall|i: int|
            0 <= i < args.len() ==> bounds_below(#[trigger] args[i], k),
        _ => true,
    }
}

/// Two inference variables of the same category.
pub open spec fn same_kind(v1: InferTy, v2: InferTy) -> bool {
    v1.with_id(v2.id()) == v2
}

/// A value without placeholders is untouched by substitution.
pub proof fn lemma_subst_noop(t: TySpec, repl: Seq<TySpec>)
    requires
        bounds_below(t, 0),
    ensures
        subst_bound(t, repl) == t,
    decreases t,
{
    match t {
        TySpec::Apply(_, args) => {
            lemma_subst_bound_from(args, repl, 0);
            assert forall|i: int| 0 <= i < args.len() implies #[trigger] subst_bound_from(
                args,
                repl,
                0,
            )[i] == args[i] by {
                assert(decreases_to!(t => args));
                assert(decreases_to!(args => args[i]));
                lemma_subst_noop(args[i], repl);
            }
            assert(subst_bound_from(args, repl, 0) =~= args);
        }
        _ => {}
    }
}

/// A bound on the placeholders of a value stays a bound when it grows.
pub proof fn lemma_bounds_mono(t: TySpec, k1: nat, k2: nat)
    requires
        bounds_below(t, k1),
        k1 <= k2,
    ensures
        bounds_below(t, k2),
    decreases t,
{
    match t {
        TySpec::Apply(_, args) => {
            assert forall|i: int| 0 <= i < args.len() implies bounds_below(
                #[trigger] args[i],
                k2,
            ) by {
                assert(decreases_to!(t => args));
                assert(decreases_to!(args => args[i]));
                lemma_bounds_mono(args[i], k1, k2);
            }
        }
        _ => {}
    }
}

/// `subst_bound(t, repl)` replaces each `Bound(i)` with `i` in range by
/// `repl[i]`, leaving every other node, and every out-of-range placeholder,
/// intact.
pub open spec fn subst_bound(t: TySpec, repl: Seq<TySpec>) -> TySpec
    decreases t, 0nat,
{
    match t {
        TySpec::Bound(i) => if i < repl.len() {
            repl[i as int]
        } else {
            t
        },
        TySpec::Apply(ctor, args) => TySpec::Apply(ctor, subst_bound_from(args, repl, 0)),
        _ => t,
    }
}

/// `subst_bound` applied to each element of `args` from position `i` on.
pub open spec fn subst_bound_from(args: Seq<TySpec>, repl: Seq<TySpec>, i: int) -> Seq<TySpec>
    decreases args, args.len() - i,
{
    if 0 <= i < args.len() {
        seq![subst_bound(args[i], repl)] + subst_bound_from(args, repl, i + 1)
    } else {
        Seq::empty()
    }
}

/// `subst_bound_from(args, repl, i)` substitutes pointwise in `args[i..]`.
pub proof fn lemma_subst_bound_from(args: Seq<TySpec>, repl: Seq<TySpec>, i: int)
    requires
        0 <= i <= args.len(),
    ensures
        subst_bound_from(args, repl, i).len() == args.len() - i,
        forall|j: int|
            0 <= j < args.len() - i ==> subst_bound_from(args, repl, i)[j] == subst_bound(
                args[i + j],
                repl,
            ),
    decreases args.len() - i,
{
    if i < args.len() {
        lemma_subst_bound_from(args, repl, i + 1);
    }
}

/// Substituting well-formed replacements into a value without inference
/// variables yields a well-formed value: every variable of the result comes
/// from `repl`.
pub proof fn lemma_subst_wf(t: TySpec, repl: Seq<TySpec>, n: nat)
    requires
        no_infer(t),
        forall|j: int| 0 <= j < repl.len() ==> wf_ty(#[trigger] repl[j], n),
    ensures
        wf_ty(subst_bound(t, repl), n),
    decreases t,
{
    match t {
        TySpec::Apply(_, args) => {
            lemma_subst_bound_from(args, repl, 0);
            assert forall|i: int| 0 <= i < args.len() implies wf_ty(
                #[trigger] subst_bound_from(args, repl, 0)[i],
                n,
            ) by {
                assert(decreases_to!(t => args));
                assert(decreases_to!(args => args[i]));
                lemma_subst_wf(args[i], repl, n);
            }
        }
        _ => {}
    }
}

impl Clone for Ty {
    /// A structurally identical copy.
    fn clone(&self) -> (r: Ty)
        ensures
            r.model() == self.model(),
        decreases self,
    {
        match self {
            Ty::Infer(tv) => Ty::Infer(*tv),
            Ty::Bound(idx) => Ty::Bound(*idx),
            Ty::Unknown => Ty::Unknown,
            Ty::Apply(ctor, args) => {
                proof {
                    assert(decreases_to!(self => args));
                }
                let out = clone_tys(args);
                proof {
                    lemma_models_of(args@);
                    lemma_models_of(out@);
                    assert(models_of(out@) =~= models_of(args@));
                }
                Ty::Apply(*ctor, out)
            }
        }
    }
}

/// Structurally identical copies of the elements of `args`.
fn clone_tys(args: &Vec<Ty>) -> (out: Vec<Ty>)
    ensures
        out@.len() == args@.len(),
        forall|j: int| 0 <= j < args@.len() ==> out@[j].model() == args@[j].model(),
    decreases args,
{
    let mut out: Vec<Ty> = Vec::new();
    let mut i: usize = 0;
    while i < args.len()
        invariant
            i <= args.len(),
            out@.len() == i,
            forall|j: int| 0 <= j < i ==> out@[j].model() == args@[j].model(),
        decreases args.len() - i,
    {
        proof {
            assert(decreases_to!(args => args@));
            assert(decreases_to!(args@ => args@[i as int]));
        }
        let t = args[i].clone();
        out.push(t);
        i += 1;
    }
    out
}

/// Structural equality of two type values, decided on the models.
pub fn ty_eq(a: &Ty, b: &Ty) -> (r: bool)
    ensures
        r == (a.model() == b.model()),
    decreases a,
{
    match (a, b) {
        (Ty::Infer(tv1), Ty::Infer(tv2)) => tv1 == tv2,
        (Ty::Bound(i1), Ty::Bound(i2)) => i1 == i2,
        (Ty::Unknown, Ty::Unknown) => true,
        (Ty::Apply(c1, args1), Ty::Apply(c2, args2)) => {
            proof {
                assert(decreases_to!(a => args1));
                lemma_models_of(args1@);
                lemma_models_of(args2@);
            }
            if *c1 != *c2 {
                return false;
            }
            tys_eq(args1, args2)
        }
        _ => false,
    }
}

/// Structural equality of two argument lists, decided on the models.
fn tys_eq(args1: &Vec<Ty>, args2: &Vec<Ty>) -> (r: bool)
    ensures
        r == (models_of(args1@) == models_of(args2@)),
    decreases args1,
{
    proof {
        lemma_models_of(args1@);
        lemma_models_of(args2@);
    }
    if args1.len() != args2.len() {
        proof {
            assert(models_of(args1@).len() != models_of(args2@).len());
        }
        return false;
    }
    let mut i: usize = 0;
    while i < args1.len()
        invariant
            i <= args1.len(),
            args1@.len() == args2@.len(),
            models_of(args1@).len() == args1@.len(),
            models_of(args2@).len() == args2@.len(),
            forall|j: int| 0 <= j < args1@.len() ==> models_of(args1@)[j] == args1@[j].model(),
            forall|j: int| 0 <= j < args2@.len() ==> models_of(args2@)[j] == args2@[j].model(),
            forall|j: int| 0 <= j < i ==> args1@[j].model() == args2@[j].model(),
        decreases args1.len() - i,
    {
        proof {
            assert(decreases_to!(args1 => args1@));
            assert(decreases_to!(args1@ => args1@[i as int]));
        }
        if !ty_eq(&args1[i], &args2[i]) {
            proof {
                assert(models_of(args1@)[i as int] != models_of(args2@)[i as int]);
            }
            return false;
        }
        i += 1;
    }
    proof {
        assert(models_of(args1@) =~= models_of(args2@));
    }
    true
}

impl Ty {
    /// Replaces each `Bound(i)` with `i` in range by `repl[i]`, leaving all
    /// other structure, and every out-of-range placeholder, intact.
    pub fn subst_bound_vars(&self, repl: &Vec<Ty>) -> (r: Ty)
        ensures
            r.model() == subst_bound(self.model(), models_of(repl@)),
        decreases self,
    {
        match self {
            Ty::Infer(tv) => Ty::Infer(*tv),
            Ty::Unknown => Ty::Unknown,
            Ty::Bound(idx) => {
                proof {
                    lemma_models_of(repl@);
                }
                if *idx < repl.len() {
                    repl[*idx].clone()
                } else {
                    Ty::Bound(*idx)
                }
            }
            Ty::Apply(ctor, args) => {
                proof {
                    assert(decreases_to!(self => args));
                }
                let out = subst_tys(args, repl);
                proof {
                    lemma_models_of(args@);
                    lemma_models_of(out@);
                    lemma_subst_bound_from(models_of(args@), models_of(repl@), 0);
                    assert(models_of(out@) =~= subst_bound_from(
                        models_of(args@),
                        models_of(repl@),
                        0,
                    ));
                }
                Ty::Apply(*ctor, out)
            }
        }
    }
}

/// `subst_bound_vars` applied to each element of `args`.
fn subst_tys(args: &Vec<Ty>, repl: &Vec<Ty>) -> (out: Vec<Ty>)
    ensures
        out@.len() == args@.len(),
        forall|j: int|
            0 <= j < args@.len() ==> out@[j].model() == subst_bound(
                args@[j].model(),
                models_of(repl@),
            ),
    decreases args,
{
    let mut out: Vec<Ty> = Vec::new();
    let mut i: usize = 0;
    while i < args.len()
        invariant
            i <= args.len(),
            out@.len() == i,
            forall|j: int|
                0 <= j < i ==> out@[j].model() == subst_bound(args@[j].model(), models_of(repl@)),
        decreases args.len() - i,
    {
        proof {
            assert(decreases_to!(args => args@));
            assert(decreases_to!(args@ => args@[i as int]));
        }
        let t = args[i].subst_bound_vars(repl);
        out.push(t);
        i += 1;
    }
    out
}

} // verus!
