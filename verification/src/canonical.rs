//! The canonicalizer and the decanonicalizer / solution applier.
//!
//! Canonicalization rewrites a type (or a trait obligation) so that every
//! live inference variable becomes a positional `Bound` placeholder,
//! deduplicated by unification-class representative, with an explicit stack
//! guarding against recursive partial solutions. The resulting
//! [`Canonicalized`] value carries its own copy of the free-variable list
//! and can later translate the solver's answer back into the live inference
//! context.

use vstd::prelude::*;

use vstd::set_lib::{lemma_int_range, set_int_range};

use crate::infer::{unify_spec, InferenceContext};
use crate::table::TableModel;
use crate::ty::{
    bounds_below, lemma_models_of, lemma_subst_wf, models_of, no_infer, subst_bound, wf_ty,
    wf_tys, InferTy, Ty, TySpec, TypeVarId,
};

verus! {

/// A canonical value: `value` contains no live inference variable, and every
/// `Bound(i)` in it satisfies `i < num_vars`, provided the value it was made
/// from contained no foreign placeholders.
pub struct Canonical<T> {
    pub value: T,
    pub num_vars: usize,
}

/// Opaque background context, carried through canonicalization unchanged.
#[derive(Clone, Copy, PartialEq, Eq, Structural, Debug)]
pub struct Environment(pub u32);

/// A value paired with its opaque environment; the environment is not
/// canonicalized.
pub struct InEnvironment<T> {
    pub value: T,
    pub environment: Environment,
}

/// A trait obligation: an opaque trait identity over an ordered sequence of
/// type arguments, each of which is canonicalized.
pub struct TraitRef {
    pub trait_: u32,
    pub substs: Vec<Ty>,
}

/// An associated-type projection: an opaque associated-item identity over an
/// ordered sequence of type parameters.
pub struct ProjectionTy {
    pub associated_ty: u32,
    pub parameters: Vec<Ty>,
}

/// A projection predicate: the projection and the type it must equal.
pub struct ProjectionPredicate {
    pub projection_ty: ProjectionTy,
    pub ty: Ty,
}

/// The precondition threaded through canonicalization: a consistent table
/// model and a duplicate-free stack of in-range identifiers.
pub open spec fn canon_inv(m: TableModel, stack: Seq<TypeVarId>) -> bool {
    &&& m.wf()
    &&& stack.no_duplicates()
    &&& forall|i: int| 0 <= i < stack.len() ==> (#[trigger] stack[i]).0 < m.n()
}

/// A duplicate-free stack of identifiers below `n` holds at most `n` of
/// them.
pub proof fn lemma_stack_bound(stack: Seq<TypeVarId>, n: nat)
    requires
        stack.no_duplicates(),
        forall|i: int| 0 <= i < stack.len() ==> (#[trigger] stack[i]).0 < n,
    ensures
        stack.len() <= n,
{
    let ids = stack.map_values(|v: TypeVarId| v.0 as int);
    assert(ids.no_duplicates());
    ids.unique_seq_to_set();
    assert forall|x: int| ids.to_set().contains(x) implies set_int_range(0, n as int).contains(
        x,
    ) by {
        let i = choose|i: int| 0 <= i < ids.len() && ids[i] == x;
        assert(stack[i].0 < n);
    }
    lemma_int_range(0, n as int);
    vstd::set_lib::lemma_len_subset(ids.to_set(), set_int_range(0, n as int));
}

/// The position of the first occurrence of `x` in `s`.
pub open spec fn position_of(s: Seq<InferTy>, x: InferTy) -> nat
    decreases s.len(),
{
    if s.len() == 0 {
        0
    } else if s[0] == x {
        0
    } else {
        1 + position_of(s.drop_first(), x)
    }
}

/// If `x` first occurs at index `i`, `position_of` returns `i`.
pub proof fn lemma_position_of(s: Seq<InferTy>, x: InferTy, i: int)
    requires
        0 <= i < s.len(),
        s[i] == x,
        forall|j: int| 0 <= j < i ==> s[j] != x,
    ensures
        position_of(s, x) == i,
        s.contains(x),
    decreases i,
{
    if i > 0 {
        lemma_position_of(s.drop_first(), x, i - 1);
    }
}

/// For a present element, `position_of` is a valid index of an occurrence.
pub proof fn lemma_position_of_contains(s: Seq<InferTy>, x: InferTy)
    requires
        s.contains(x),
    ensures
        position_of(s, x) < s.len(),
        s[position_of(s, x) as int] == x,
    decreases s.len(),
{
    if s.len() > 0 && s[0] != x {
        let i = choose|i: int| 0 <= i < s.len() && s[i] == x;
        assert(s.drop_first()[i - 1] == x);
        assert(s.drop_first().contains(x));
        lemma_position_of_contains(s.drop_first(), x);
    }
}

/// Recording one free variable: if an equal entry is already present its
/// first position is reused, else the variable is appended at the end.
pub open spec fn add_spec(fvs: Seq<InferTy>, fv: InferTy) -> (Seq<InferTy>, nat) {
    if fvs.contains(fv) {
        (fvs, position_of(fvs, fv))
    } else {
        (fvs.push(fv), fvs.len())
    }
}

/// Canonicalization of one type model against the table model `m`:
/// * a variable already on `stack` is part of a recursive resolution and
///   becomes its category's fallback value;
/// * a variable resolved to a known value is expanded — the known value is
///   canonicalized with the variable pushed on the stack;
/// * an unresolved variable becomes `Bound(p)`, where `p` is the position of
///   its class representative (kept with the variable's category) in the
///   free-variable list, recorded by `add_spec`;
/// * every other node is rebuilt around its canonicalized children.
///
/// Returns the rewritten value and the extended free-variable list.
pub open spec fn canon_ty(m: TableModel, stack: Seq<TypeVarId>, fvs: Seq<InferTy>, t: TySpec) -> (
    TySpec,
    Seq<InferTy>,
)
    decreases m.n() - stack.len(), t, 0nat,
        when canon_inv(m, stack) && wf_ty(t, m.n())
{
    match t {
        TySpec::Infer(tv) => {
            let inner = tv.id();
            if stack.contains(inner) {
                (tv.fallback_model(), fvs)
            } else if m.val[inner.0 as int] is Some {
                proof {
                    lemma_stack_bound(stack.push(inner), m.n());
                }
                canon_ty(m, stack.push(inner), fvs, m.val[inner.0 as int]->Some_0)
            } else {
                let root = TypeVarId(m.repr[inner.0 as int] as u32);
                let fv = tv.with_id(root);
                let r = add_spec(fvs, fv);
                (TySpec::Bound(r.1), r.0)
            }
        }
        TySpec::Apply(ctor, args) => {
            let r = canon_args(m, stack, fvs, args, 0);
            (TySpec::Apply(ctor, r.0), r.1)
        }
        _ => (t, fvs),
    }
}

/// Canonicalization of the argument models `args[i..]`, threading the
/// free-variable list left to right.
pub open spec fn canon_args(
    m: TableModel,
    stack: Seq<TypeVarId>,
    fvs: Seq<InferTy>,
    args: Seq<TySpec>,
    i: int,
) -> (Seq<TySpec>, Seq<InferTy>)
    decreases m.n() - stack.len(), args, args.len() - i,
        when canon_inv(m, stack) && wf_tys(args, m.n()) && 0 <= i <= args.len()
{
    if i == args.len() {
        (Seq::empty(), fvs)
    } else {
        let h = canon_ty(m, stack, fvs, args[i]);
        let t = canon_args(m, stack, h.1, args, i + 1);
        (seq![h.0] + t.0, t.1)
    }
}

/// The canonicalizer: the free-variable list built so far and the stack of
/// variables currently being expanded, used to detect recursive types (which
/// are an error, but must be defused rather than overflow the stack). It
/// borrows the inference context one call at a time.
pub struct Canonicalizer {
    free_vars: Vec<InferTy>,
    var_stack: Vec<TypeVarId>,
}

/// A canonical value together with the free-variable list that produced it,
/// owned, so it outlives the canonicalizing borrow and can later be used to
/// decanonicalize or to apply a solver solution.
pub struct Canonicalized<T> {
    pub value: Canonical<T>,
    pub free_vars: Vec<InferTy>,
}

impl<T> Canonicalized<T> {
    /// The free-variable list captured at the end of canonicalization.
    pub open spec fn fvs(self) -> Seq<InferTy> {
        self.free_vars@
    }
}

impl InferenceContext {
    /// A fresh canonicalizer with an empty free-variable list and an empty
    /// stack.
    pub fn canonicalizer(&self) -> (c: Canonicalizer)
        ensures
            c.fvs() == Seq::<InferTy>::empty(),
            c.stack() == Seq::<TypeVarId>::empty(),
    {
        Canonicalizer { free_vars: Vec::new(), var_stack: Vec::new() }
    }
}

/// Whether `x` occurs in `stack`.
fn contains_var(stack: &Vec<TypeVarId>, x: TypeVarId) -> (b: bool)
    ensures
        b == stack@.contains(x),
{
    let mut i: usize = 0;
    while i < stack.len()
        invariant
            i <= stack@.len(),
            forall|j: int| 0 <= j < i ==> stack@[j] != x,
        decreases stack@.len() - i,
    {
        if stack[i] == x {
            return true;
        }
        i += 1;
    }
    false
}

impl Canonicalizer {
    /// The free-variable list built so far.
    pub closed spec fn fvs(self) -> Seq<InferTy> {
        self.free_vars@
    }

    /// The stack of variables currently being expanded.
    pub closed spec fn stack(self) -> Seq<TypeVarId> {
        self.var_stack@
    }

    /// Records `free_var`, reusing the position of an equal existing entry.
    fn add(&mut self, free_var: InferTy) -> (position: usize)
        ensures
            final(self).stack() == old(self).stack(),
            (final(self).fvs(), position as nat) == add_spec(old(self).fvs(), free_var),
    {
        let mut i: usize = 0;
        while i < self.free_vars.len()
            invariant
                i <= self.free_vars@.len(),
                forall|j: int| 0 <= j < i ==> self.free_vars@[j] != free_var,
                *self == *old(self),
            decreases self.free_vars@.len() - i,
        {
            if self.free_vars[i] == free_var {
                proof {
                    lemma_position_of(self.free_vars@, free_var, i as int);
                }
                return i;
            }
            i += 1;
        }
        proof {
            assert(!self.free_vars@.contains(free_var));
        }
        let next_index = self.free_vars.len();
        self.free_vars.push(free_var);
        next_index
    }

    /// Rewrites one type value as `canon_ty` says, against the live table,
    /// extending the free-variable list and leaving the stack as it was.
    fn do_canonicalize_ty(&mut self, ctx: &mut InferenceContext, ty: &Ty) -> (r: Ty)
        requires
            old(ctx).wf(),
            canon_inv(old(ctx).model(), old(self).stack()),
            wf_ty(ty.model(), old(ctx).n()),
        ensures
            final(ctx).wf(),
            final(ctx).model() == old(ctx).model(),
            final(self).stack() == old(self).stack(),
            (r.model(), final(self).fvs()) == canon_ty(
                old(ctx).model(),
                old(self).stack(),
                old(self).fvs(),
                ty.model(),
            ),
        decreases old(ctx).n() - old(self).stack().len(), ty,
    {
        let ghost m = old(ctx).model();
        match ty {
            Ty::Infer(tv) => {
                let inner = tv.to_inner();
                if contains_var(&self.var_stack, inner) {
                    tv.fallback_value()
                } else {
                    let known = ctx.probe(*tv);
                    match known {
                        Some(known_ty) => {
                            proof {
                                assert(m.val[inner.0 as int] is Some);
                                assert(known_ty.model() == m.val[inner.0 as int]->Some_0);
                                assert(wf_ty(known_ty.model(), m.n()));
                                assert(self.var_stack@.push(inner).no_duplicates());
                                lemma_stack_bound(self.var_stack@.push(inner), m.n());
                            }
                            self.var_stack.push(inner);
                            let result = self.do_canonicalize_ty(ctx, &known_ty);
                            self.var_stack.pop();
                            proof {
                                assert(self.var_stack@ =~= old(self).var_stack@);
                            }
                            result
                        }
                        None => {
                            let root = ctx.find(inner);
                            let free_var = match tv {
                                InferTy::TypeVar(_) => InferTy::TypeVar(root),
                                InferTy::IntVar(_) => InferTy::IntVar(root),
                                InferTy::FloatVar(_) => InferTy::FloatVar(root),
                            };
                            proof {
                                assert(free_var == tv.with_id(root));
                            }
                            let position = self.add(free_var);
                            Ty::Bound(position)
                        }
                    }
                }
            }
            Ty::Bound(idx) => Ty::Bound(*idx),
            Ty::Unknown => Ty::Unknown,
            Ty::Apply(ctor, args) => {
                proof {
                    assert(decreases_to!(ty => args));
                }
                let new_args = self.do_canonicalize_tys(ctx, args);
                Ty::Apply(*ctor, new_args)
            }
        }
    }

    /// `do_canonicalize_ty` applied to each element in order, threading the
    /// free-variable list left to right as `canon_args` says.
    fn do_canonicalize_tys(&mut self, ctx: &mut InferenceContext, tys: &Vec<Ty>) -> (out: Vec<Ty>)
        requires
            old(ctx).wf(),
            canon_inv(old(ctx).model(), old(self).stack()),
            wf_tys(models_of(tys@), old(ctx).n()),
        ensures
            final(ctx).wf(),
            final(ctx).model() == old(ctx).model(),
            final(self).stack() == old(self).stack(),
            (models_of(out@), final(self).fvs()) == canon_args(
                old(ctx).model(),
                old(self).stack(),
                old(self).fvs(),
                models_of(tys@),
                0,
            ),
        decreases old(ctx).n() - old(self).stack().len(), tys,
    {
        let ghost m0 = old(ctx).model();
        let ghost s0 = old(self).stack();
        let ghost models = models_of(tys@);
        let ghost full = canon_args(m0, s0, old(self).fvs(), models, 0);
        proof {
            lemma_models_of(tys@);
        }
        let mut out: Vec<Ty> = Vec::new();
        let mut i: usize = 0;
        while i < tys.len()
            invariant
                i <= tys@.len(),
                ctx.wf(),
                ctx.model() == m0,
                m0 == old(ctx).model(),
                s0 == old(self).stack(),
                canon_inv(m0, s0),
                wf_tys(models, m0.n()),
                models == models_of(tys@),
                models.len() == tys@.len(),
                forall|j: int| 0 <= j < tys@.len() ==> models[j] == tys@[j].model(),
                self.var_stack@ == s0,
                out@.len() == i,
                full.0 == models_of(out@) + canon_args(m0, s0, self.free_vars@, models, i as int).0,
                full.1 == canon_args(m0, s0, self.free_vars@, models, i as int).1,
            decreases tys@.len() - i,
        {
            proof {
                assert(decreases_to!(tys => tys@));
                assert(decreases_to!(tys@ => tys@[i as int]));
                assert(decreases_to!(tys => tys@[i as int]));
                assert(ctx.n() == old(ctx).n());
                assert(self.stack().len() == old(self).stack().len());
                assert(wf_ty(tys@[i as int].model(), m0.n()));
            }
            let ghost f_prev = self.free_vars@;
            let ghost out_prev = out@;
            let t = self.do_canonicalize_ty(ctx, &tys[i]);
            proof {
                let h = canon_ty(m0, s0, f_prev, models[i as int]);
                assert(h == (t.model(), self.free_vars@));
                assert(canon_args(m0, s0, f_prev, models, i as int) == (
                    seq![h.0] + canon_args(m0, s0, h.1, models, i as int + 1).0,
                    canon_args(m0, s0, h.1, models, i as int + 1).1,
                ));
                lemma_models_of(out_prev.push(t));
                lemma_models_of(out_prev);
                assert(models_of(out_prev.push(t)) =~= models_of(out_prev) + seq![t.model()]);
                assert(models_of(out_prev) + (seq![h.0] + canon_args(
                    m0,
                    s0,
                    h.1,
                    models,
                    i as int + 1,
                ).0) =~= (models_of(out_prev) + seq![h.0]) + canon_args(
                    m0,
                    s0,
                    h.1,
                    models,
                    i as int + 1,
                ).0);
            }
            out.push(t);
            i += 1;
        }
        proof {
            assert(canon_args(m0, s0, self.free_vars@, models, i as int) == (
                Seq::<TySpec>::empty(),
                self.free_vars@,
            ));
            assert(models_of(out@) + Seq::<TySpec>::empty() =~= models_of(out@));
        }
        out
    }

    /// Canonicalizes every type argument of a trait obligation; its trait
    /// identity passes through unchanged.
    fn do_canonicalize_trait_ref(&mut self, ctx: &mut InferenceContext, trait_ref: TraitRef) -> (r:
        TraitRef)
        requires
            old(ctx).wf(),
            canon_inv(old(ctx).model(), old(self).stack()),
            wf_tys(models_of(trait_ref.substs@), old(ctx).n()),
        ensures
            final(ctx).wf(),
            final(ctx).model() == old(ctx).model(),
            final(self).stack() == old(self).stack(),
            r.trait_ == trait_ref.trait_,
            (models_of(r.substs@), final(self).fvs()) == canon_args(
                old(ctx).model(),
                old(self).stack(),
                old(self).fvs(),
                models_of(trait_ref.substs@),
                0,
            ),
    {
        let substs = self.do_canonicalize_tys(ctx, &trait_ref.substs);
        TraitRef { trait_: trait_ref.trait_, substs }
    }

    /// Canonicalizes every type parameter of a projection; its
    /// associated-item identity passes through unchanged.
    fn do_canonicalize_projection_ty(
        &mut self,
        ctx: &mut InferenceContext,
        projection_ty: ProjectionTy,
    ) -> (r: ProjectionTy)
        requires
            old(ctx).wf(),
            canon_inv(old(ctx).model(), old(self).stack()),
            wf_tys(models_of(projection_ty.parameters@), old(ctx).n()),
        ensures
            final(ctx).wf(),
            final(ctx).model() == old(ctx).model(),
            final(self).stack() == old(self).stack(),
            r.associated_ty == projection_ty.associated_ty,
            (models_of(r.parameters@), final(self).fvs()) == canon_args(
                old(ctx).model(),
                old(self).stack(),
                old(self).fvs(),
                models_of(projection_ty.parameters@),
                0,
            ),
    {
        let params = self.do_canonicalize_tys(ctx, &projection_ty.parameters);
        ProjectionTy { associated_ty: projection_ty.associated_ty, parameters: params }
    }

    /// Canonicalizes the equated type first, then the projection, threading
    /// one free-variable list through both so a variable occurring in either
    /// field receives one consistent `Bound` index.
    fn do_canonicalize_projection_predicate(
        &mut self,
        ctx: &mut InferenceContext,
        projection: ProjectionPredicate,
    ) -> (r: ProjectionPredicate)
        requires
            old(ctx).wf(),
            canon_inv(old(ctx).model(), old(self).stack()),
            wf_ty(projection.ty.model(), old(ctx).n()),
            wf_tys(models_of(projection.projection_ty.parameters@), old(ctx).n()),
        ensures
            final(ctx).wf(),
            final(ctx).model() == old(ctx).model(),
            final(self).stack() == old(self).stack(),
            r.projection_ty.associated_ty == projection.projection_ty.associated_ty,
            ({
                let c1 = canon_ty(
                    old(ctx).model(),
                    old(self).stack(),
                    old(self).fvs(),
                    projection.ty.model(),
                );
                let c2 = canon_args(
                    old(ctx).model(),
                    old(self).stack(),
                    c1.1,
                    models_of(projection.projection_ty.parameters@),
                    0,
                );
                &&& r.ty.model() == c1.0
                &&& models_of(r.projection_ty.parameters@) == c2.0
                &&& final(self).fvs() == c2.1
            }),
    {
        let ty = self.do_canonicalize_ty(ctx, &projection.ty);
        let projection_ty = self.do_canonicalize_projection_ty(ctx, projection.projection_ty);
        ProjectionPredicate { ty, projection_ty }
    }

    /// Wraps a fully canonicalized value with the final free-variable list:
    /// `num_vars` is exactly that list's length.
    fn into_canonicalized<T>(self, result: T) -> (r: Canonicalized<T>)
        ensures
            r.value.value == result,
            r.value.num_vars == self.fvs().len(),
            r.fvs() == self.fvs(),
    {
        Canonicalized {
            value: Canonical { value: result, num_vars: self.free_vars.len() },
            free_vars: self.free_vars,
        }
    }

    /// Canonicalizes one type: every live inference variable in `ty` becomes
    /// a `Bound` placeholder as `canon_ty` says, starting from an empty
    /// free-variable list, and `num_vars` is the number of distinct variable
    /// classes found.
    pub fn canonicalize_ty(self, ctx: &mut InferenceContext, ty: Ty) -> (r: Canonicalized<Ty>)
        requires
            old(ctx).wf(),
            self.fvs() == Seq::<InferTy>::empty(),
            self.stack() == Seq::<TypeVarId>::empty(),
            wf_ty(ty.model(), old(ctx).n()),
        ensures
            final(ctx).wf(),
            final(ctx).model() == old(ctx).model(),
            ({
                let c = canon_ty(
                    old(ctx).model(),
                    Seq::<TypeVarId>::empty(),
                    Seq::<InferTy>::empty(),
                    ty.model(),
                );
                r.value.value.model() == c.0 && r.fvs() == c.1 && r.value.num_vars == c.1.len()
            }),
    {
        proof {
            old(ctx).lemma_model_wf();
        }
        let mut this = self;
        let result = this.do_canonicalize_ty(ctx, &ty);
        this.into_canonicalized(result)
    }

    /// Canonicalizes a trait obligation; the environment and the trait
    /// identity pass through unchanged.
    pub fn canonicalize_trait_ref(
        self,
        ctx: &mut InferenceContext,
        trait_ref_in_env: InEnvironment<TraitRef>,
    ) -> (r: Canonicalized<InEnvironment<TraitRef>>)
        requires
            old(ctx).wf(),
            self.fvs() == Seq::<InferTy>::empty(),
            self.stack() == Seq::<TypeVarId>::empty(),
            wf_tys(models_of(trait_ref_in_env.value.substs@), old(ctx).n()),
        ensures
            final(ctx).wf(),
            final(ctx).model() == old(ctx).model(),
            r.value.value.environment == trait_ref_in_env.environment,
            r.value.value.value.trait_ == trait_ref_in_env.value.trait_,
            ({
                let c = canon_args(
                    old(ctx).model(),
                    Seq::<TypeVarId>::empty(),
                    Seq::<InferTy>::empty(),
                    models_of(trait_ref_in_env.value.substs@),
                    0,
                );
                models_of(r.value.value.value.substs@) == c.0 && r.fvs() == c.1
                    && r.value.num_vars == c.1.len()
            }),
    {
        proof {
            old(ctx).lemma_model_wf();
        }
        let mut this = self;
        let environment = trait_ref_in_env.environment;
        let result = this.do_canonicalize_trait_ref(ctx, trait_ref_in_env.value);
        this.into_canonicalized(InEnvironment { value: result, environment })
    }

    /// Canonicalizes a projection predicate: the equated type first, then
    /// the projection parameters, with one shared free-variable list.
    pub fn canonicalize_projection(
        self,
        ctx: &mut InferenceContext,
        projection: ProjectionPredicate,
    ) -> (r: Canonicalized<ProjectionPredicate>)
        requires
            old(ctx).wf(),
            self.fvs() == Seq::<InferTy>::empty(),
            self.stack() == Seq::<TypeVarId>::empty(),
            wf_ty(projection.ty.model(), old(ctx).n()),
            wf_tys(models_of(projection.projection_ty.parameters@), old(ctx).n()),
        ensures
            final(ctx).wf(),
            final(ctx).model() == old(ctx).model(),
            r.value.value.projection_ty.associated_ty == projection.projection_ty.associated_ty,
            ({
                let c1 = canon_ty(
                    old(ctx).model(),
                    Seq::<TypeVarId>::empty(),
                    Seq::<InferTy>::empty(),
                    projection.ty.model(),
                );
                let c2 = canon_args(
                    old(ctx).model(),
                    Seq::<TypeVarId>::empty(),
                    c1.1,
                    models_of(projection.projection_ty.parameters@),
                    0,
                );
                r.value.value.ty.model() == c1.0 && models_of(
                    r.value.value.projection_ty.parameters@,
                ) == c2.0 && r.fvs() == c2.1 && r.value.num_vars == c2.1.len()
            }),
    {
        proof {
            old(ctx).lemma_model_wf();
        }
        let mut this = self;
        let result = this.do_canonicalize_projection_predicate(ctx, projection);
        this.into_canonicalized(result)
    }
}

/// Decanonicalization of one model against the free-variable list `fvs`:
/// each `Bound(i)` with `i` in range becomes the inference variable
/// `fvs[i]`; an out-of-range index belongs to an outer canonical scope and
/// is left untouched.
pub open spec fn decanon(fvs: Seq<InferTy>, t: TySpec) -> TySpec
    decreases t, 0nat,
{
    match t {
        TySpec::Bound(i) => if i < fvs.len() {
            TySpec::Infer(fvs[i as int])
        } else {
            t
        },
        TySpec::Apply(ctor, args) => TySpec::Apply(ctor, decanon_from(fvs, args, 0)),
        _ => t,
    }
}

/// `decanon` applied to each element of `args` from position `i` on.
pub open spec fn decanon_from(fvs: Seq<InferTy>, args: Seq<TySpec>, i: int) -> Seq<TySpec>
    decreases args, args.len() - i,
{
    if 0 <= i < args.len() {
        seq![decanon(fvs, args[i])] + decanon_from(fvs, args, i + 1)
    } else {
        Seq::empty()
    }
}

/// `decanon_from(fvs, args, i)` decanonicalizes pointwise in `args[i..]`.
pub proof fn lemma_decanon_from(fvs: Seq<InferTy>, args: Seq<TySpec>, i: int)
    requires
        0 <= i <= args.len(),
    ensures
        decanon_from(fvs, args, i).len() == args.len() - i,
        forall|j: int|
            0 <= j < args.len() - i ==> decanon_from(fvs, args, i)[j] == decanon(
                fvs,
                args[i + j],
            ),
    decreases args.len() - i,
{
    if i < args.len() {
        lemma_decanon_from(fvs, args, i + 1);
    }
}

/// The replacement of every in-range `Bound` placeholder by the matching
/// entry of `fvs`.
fn decanon_ty(fvs: &Vec<InferTy>, ty: &Ty) -> (r: Ty)
    ensures
        r.model() == decanon(fvs@, ty.model()),
    decreases ty,
{
    match ty {
        Ty::Infer(tv) => Ty::Infer(*tv),
        Ty::Unknown => Ty::Unknown,
        Ty::Bound(idx) => {
            if *idx < fvs.len() {
                Ty::Infer(fvs[*idx])
            } else {
                Ty::Bound(*idx)
            }
        }
        Ty::Apply(ctor, args) => {
            proof {
                assert(decreases_to!(ty => args));
            }
            let out = decanon_tys(fvs, args);
            proof {
                lemma_models_of(args@);
                lemma_models_of(out@);
                lemma_decanon_from(fvs@, models_of(args@), 0);
                assert(models_of(out@) =~= decanon_from(fvs@, models_of(args@), 0));
            }
            Ty::Apply(*ctor, out)
        }
    }
}

/// `decanon_ty` applied to each element of `args`.
fn decanon_tys(fvs: &Vec<InferTy>, args: &Vec<Ty>) -> (out: Vec<Ty>)
    ensures
        out@.len() == args@.len(),
        forall|j: int|
            0 <= j < args@.len() ==> out@[j].model() == decanon(fvs@, args@[j].model()),
    decreases args,
{
    let mut out: Vec<Ty> = Vec::new();
    let mut i: usize = 0;
    while i < args.len()
        invariant
            i <= args.len(),
            out@.len() == i,
            forall|j: int| 0 <= j < i ==> out@[j].model() == decanon(fvs@, args@[j].model()),
        decreases args.len() - i,
    {
        proof {
            assert(decreases_to!(args => args@));
            assert(decreases_to!(args@ => args@[i as int]));
        }
        let t = decanon_ty(fvs, &args[i]);
        out.push(t);
        i += 1;
    }
    out
}

/// The table model after `k` fresh, unresolved slots have been appended.
pub open spec fn grow_model(m: TableModel, k: nat) -> TableModel {
    TableModel {
        repr: m.repr + Seq::new(k, |j: int| m.n() + j),
        val: m.val + Seq::new(k, |j: int| None::<TySpec>),
    }
}

/// The general type variables standing for a solution's `k` own variables,
/// allocated consecutively from slot `n0` on.
pub open spec fn fresh_args(n0: nat, k: nat) -> Seq<TySpec> {
    Seq::new(k, |j: int| TySpec::Infer(InferTy::TypeVar(TypeVarId((n0 + j) as u32))))
}

/// The table model after the solution entries `vals[i..]` have been unified,
/// in order, with the corresponding free variables: each entry has its
/// `Bound` placeholders replaced by the fresh variables first.
pub open spec fn apply_steps(
    m: TableModel,
    fvs: Seq<InferTy>,
    vals: Seq<TySpec>,
    fresh: Seq<TySpec>,
    i: int,
) -> TableModel
    decreases vals.len() - i,
        when 0 <= i <= vals.len()
{
    if i == vals.len() {
        m
    } else {
        apply_steps(
            unify_spec(m, TySpec::Infer(fvs[i]), subst_bound(vals[i], fresh)).0,
            fvs,
            vals,
            fresh,
            i + 1,
        )
    }
}

impl<T> Canonicalized<T> {
    /// Restores inference-variable form: every `Bound(i)` with `i` in range
    /// becomes `Infer(free_vars[i])`; out-of-range placeholders, which
    /// belong to an outer canonical scope, stay as they are.
    pub fn decanonicalize_ty(&self, ty: Ty) -> (r: Ty)
        ensures
            r.model() == decanon(self.fvs(), ty.model()),
    {
        decanon_ty(&self.free_vars, &ty)
    }

    /// Applies a solver solution: allocates exactly `solution.num_vars`
    /// fresh inference variables for the solution's own unknowns, then
    /// unifies each original free variable with the matching solution entry,
    /// its placeholders rewritten to the fresh variables — exactly
    /// `apply_steps` over the grown table.
    pub fn apply_solution(&self, ctx: &mut InferenceContext, solution: Canonical<Vec<Ty>>)
        requires
            old(ctx).wf(),
            solution.value@.len() == self.fvs().len(),
            forall|j: int|
                0 <= j < self.fvs().len() ==> (#[trigger] self.fvs()[j]).id().0 < old(ctx).n(),
            forall|j: int|
                0 <= j < solution.value@.len() ==> no_infer(#[trigger] solution.value@[j].model())
                    && bounds_below(solution.value@[j].model(), solution.num_vars as nat),
            old(ctx).n() + solution.num_vars <= u32::MAX,
        ensures
            final(ctx).wf(),
            final(ctx).n() == old(ctx).n() + solution.num_vars,
            final(ctx).model() == apply_steps(
                grow_model(old(ctx).model(), solution.num_vars as nat),
                self.fvs(),
                models_of(solution.value@),
                fresh_args(old(ctx).n(), solution.num_vars as nat),
                0,
            ),
    {
        let ghost n0 = old(ctx).n();
        let ghost m0 = old(ctx).model();
        let num = solution.num_vars;
        let mut new_vars: Vec<Ty> = Vec::new();
        let mut i: usize = 0;
        while i < num
            invariant
                i <= num,
                ctx.wf(),
                m0 == old(ctx).model(),
                n0 == m0.n(),
                n0 + num <= u32::MAX,
                ctx.model().repr == m0.repr + Seq::new(i as nat, |j: int| n0 + j),
                ctx.model().val == m0.val + Seq::new(i as nat, |j: int| None::<TySpec>),
                new_vars@.len() == i,
                forall|j: int|
                    0 <= j < i ==> new_vars@[j] == Ty::Infer(
                        InferTy::TypeVar(TypeVarId((n0 + j) as u32)),
                    ),
            decreases num - i,
        {
            proof {
                assert(ctx.n() == n0 + i);
            }
            let v = ctx.new_type_var();
            new_vars.push(v);
            proof {
                assert(ctx.model().repr =~= m0.repr + Seq::new((i + 1) as nat, |j: int| n0 + j));
                assert(ctx.model().val =~= m0.val + Seq::new(
                    (i + 1) as nat,
                    |j: int| None::<TySpec>,
                ));
            }
            i += 1;
        }
        proof {
            assert(ctx.model() =~= grow_model(m0, num as nat));
            lemma_models_of(new_vars@);
            assert(models_of(new_vars@) =~= fresh_args(n0, num as nat));
        }
        let ghost mg = ctx.model();
        let ghost fresh = models_of(new_vars@);
        let ghost vals = models_of(solution.value@);
        proof {
            lemma_models_of(solution.value@);
        }
        let mut j: usize = 0;
        while j < solution.value.len()
            invariant
                j <= solution.value@.len(),
                ctx.wf(),
                mg == grow_model(old(ctx).model(), solution.num_vars as nat),
                n0 == old(ctx).n(),
                num == solution.num_vars,
                n0 + num <= u32::MAX,
                fresh == fresh_args(n0, num as nat),
                fresh == models_of(new_vars@),
                new_vars@.len() == num,
                vals == models_of(solution.value@),
                vals.len() == solution.value@.len(),
                forall|q: int| 0 <= q < vals.len() ==> vals[q] == solution.value@[q].model(),
                solution.value@.len() == self.fvs().len(),
                forall|q: int|
                    0 <= q < self.fvs().len() ==> (#[trigger] self.fvs()[q]).id().0 < n0,
                forall|q: int|
                    0 <= q < vals.len() ==> no_infer(#[trigger] vals[q]) && bounds_below(
                        vals[q],
                        num as nat,
                    ),
                ctx.model().n() == n0 + num,
                apply_steps(mg, self.fvs(), vals, fresh, 0) == apply_steps(
                    ctx.model(),
                    self.fvs(),
                    vals,
                    fresh,
                    j as int,
                ),
            decreases solution.value@.len() - j,
        {
            let t = solution.value[j].subst_bound_vars(&new_vars);
            let v = self.free_vars[j];
            let ghost mprev = ctx.model();
            proof {
                assert(t.model() == subst_bound(vals[j as int], fresh));
                assert forall|q: int| 0 <= q < fresh.len() implies wf_ty(
                    #[trigger] fresh[q],
                    ctx.model().n(),
                ) by {}
                lemma_subst_wf(vals[j as int], fresh, ctx.model().n());
                assert(wf_ty(Ty::Infer(v).model(), ctx.model().n()));
            }
            let _compatible = ctx.unify(&Ty::Infer(v), &t);
            proof {
                crate::infer::lemma_unify_spec_n(mprev, TySpec::Infer(v), t.model());
                assert(apply_steps(mprev, self.fvs(), vals, fresh, j as int) == apply_steps(
                    ctx.model(),
                    self.fvs(),
                    vals,
                    fresh,
                    j as int + 1,
                ));
            }
            j += 1;
        }
        proof {
            assert(apply_steps(ctx.model(), self.fvs(), vals, fresh, j as int) == ctx.model());
        }
    }
}

} // verus!
