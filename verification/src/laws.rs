//! The laws of the canonicalization machinery, stated over the spec
//! functions that the executable functions are proved against.

use vstd::prelude::*;

use crate::canonical::{
    apply_steps, canon_args, canon_inv, canon_ty, decanon, fresh_args, grow_model,
    lemma_decanon_from, lemma_position_of_contains, position_of,
};
use crate::infer::unify_spec;
use crate::table::{assign_model, union_model, TableModel};
use crate::ty::{
    bounds_below, lemma_bounds_mono, lemma_subst_noop, no_infer, same_kind, subst_bound, wf_ty,
    wf_tys, InferTy, TySpec, TypeVarId,
};

verus! {

/// `f2` begins with `f1`: positions already assigned stay assigned.
pub open spec fn extends(f2: Seq<InferTy>, f1: Seq<InferTy>) -> bool {
    &&& f1.len() <= f2.len()
    &&& forall|j: int| 0 <= j < f1.len() ==> f2[j] == f1[j]
}

/// No value stored in the table carries a placeholder.
pub open spec fn table_no_bound(m: TableModel) -> bool {
    forall|k: int|
        0 <= k < m.n() && #[trigger] m.val[k] is Some ==> bounds_below(m.val[k]->Some_0, 0)
}

/// The shape of one canonicalization step: the free-variable list only ever
/// grows at the end, never acquires a duplicate, and the rewritten value
/// holds no inference variable and no placeholder at or past the list's
/// final length.
pub proof fn lemma_canon_ty_shape(m: TableModel, stack: Seq<TypeVarId>, fvs: Seq<InferTy>, t: TySpec)
    requires
        canon_inv(m, stack),
        wf_ty(t, m.n()),
        table_no_bound(m),
    ensures
        ({
            let r = canon_ty(m, stack, fvs, t);
            &&& extends(r.1, fvs)
            &&& fvs.no_duplicates() ==> r.1.no_duplicates()
            &&& no_infer(r.0)
            &&& bounds_below(t, 0) ==> bounds_below(r.0, r.1.len())
        }),
    decreases m.n() - stack.len(), t, 0nat,
{
    let r = canon_ty(m, stack, fvs, t);
    match t {
        TySpec::Infer(tv) => {
            let inner = tv.id();
            if stack.contains(inner) {
                assert(no_infer(tv.fallback_model()));
                assert(bounds_below(tv.fallback_model(), r.1.len()));
            } else if m.val[inner.0 as int] is Some {
                let known = m.val[inner.0 as int]->Some_0;
                assert(stack.push(inner).no_duplicates());
                crate::canonical::lemma_stack_bound(stack.push(inner), m.n());
                lemma_canon_ty_shape(m, stack.push(inner), fvs, known);
                assert(bounds_below(known, 0));
                assert(r == canon_ty(m, stack.push(inner), fvs, known));
            } else {
                let root = TypeVarId(m.repr[inner.0 as int] as u32);
                let fv = tv.with_id(root);
                if fvs.contains(fv) {
                    lemma_position_of_contains(fvs, fv);
                    assert(bounds_below(r.0, r.1.len()));
                } else {
                    assert(extends(fvs.push(fv), fvs));
                    assert(fvs.no_duplicates() ==> fvs.push(fv).no_duplicates());
                }
            }
        }
        TySpec::Apply(ctor, args) => {
            lemma_canon_args_shape(m, stack, fvs, args, 0);
            assert(no_infer(r.0));
            if bounds_below(t, 0) {
                assert forall|j: int| 0 <= j < args.len() implies bounds_below(
                    #[trigger] args[j],
                    0,
                ) by {}
                assert(bounds_below(r.0, r.1.len()));
            }
        }
        _ => {
            assert(no_infer(r.0));
            if bounds_below(t, 0) {
                assert(bounds_below(r.0, r.1.len()));
            }
        }
    }
}

/// The shape of canonicalizing the argument list `args[i..]`, threading the
/// free-variable list: as `lemma_canon_ty_shape`, elementwise.
pub proof fn lemma_canon_args_shape(
    m: TableModel,
    stack: Seq<TypeVarId>,
    fvs: Seq<InferTy>,
    args: Seq<TySpec>,
    i: int,
)
    requires
        canon_inv(m, stack),
        wf_tys(args, m.n()),
        table_no_bound(m),
        0 <= i <= args.len(),
    ensures
        ({
            let r = canon_args(m, stack, fvs, args, i);
            &&& extends(r.1, fvs)
            &&& fvs.no_duplicates() ==> r.1.no_duplicates()
            &&& r.0.len() == args.len() - i
            &&& forall|j: int| 0 <= j < r.0.len() ==> no_infer(#[trigger] r.0[j])
            &&& (forall|j: int| i <= j < args.len() ==> bounds_below(#[trigger] args[j], 0))
                ==> forall|j: int| 0 <= j < r.0.len() ==> bounds_below(#[trigger] r.0[j], r.1.len())
        }),
    decreases m.n() - stack.len(), args, args.len() - i,
{
    let r = canon_args(m, stack, fvs, args, i);
    if i == args.len() {
    } else {
        let h = canon_ty(m, stack, fvs, args[i]);
        let rest = canon_args(m, stack, h.1, args, i + 1);
        lemma_canon_ty_shape(m, stack, fvs, args[i]);
        lemma_canon_args_shape(m, stack, h.1, args, i + 1);
        assert(extends(r.1, fvs));
        assert(r.0 == seq![h.0] + rest.0);
        assert(r.0[0] == h.0);
        assert forall|j: int| 0 <= j < r.0.len() implies no_infer(#[trigger] r.0[j]) by {
            if j > 0 {
                assert(r.0[j] == rest.0[j - 1]);
            }
        }
        if forall|j: int| i <= j < args.len() ==> bounds_below(#[trigger] args[j], 0) {
            assert(bounds_below(args[i], 0));
            assert forall|j: int| 0 <= j < r.0.len() implies bounds_below(
                #[trigger] r.0[j],
                r.1.len(),
            ) by {
                if j == 0 {
                    lemma_bounds_mono(h.0, h.1.len(), r.1.len());
                } else {
                    assert(r.0[j] == rest.0[j - 1]);
                    assert(bounds_below(rest.0[j - 1], rest.1.len()));
                }
            }
        }
    }
}

/// The invariant of a canonical value, for a query without foreign
/// placeholders: the result holds no inference variable, every placeholder
/// in it lies below `num_vars`, and the free-variable list — whose length is
/// `num_vars` — counts every variable class exactly once.
pub proof fn lemma_canonical_invariant(m: TableModel, t: TySpec)
    requires
        m.wf(),
        wf_ty(t, m.n()),
        table_no_bound(m),
        bounds_below(t, 0),
    ensures
        ({
            let r = canon_ty(m, Seq::<TypeVarId>::empty(), Seq::<InferTy>::empty(), t);
            &&& no_infer(r.0)
            &&& bounds_below(r.0, r.1.len())
            &&& r.1.no_duplicates()
        }),
{
    lemma_canon_ty_shape(m, Seq::<TypeVarId>::empty(), Seq::<InferTy>::empty(), t);
}

/// A value with no live inference variable canonicalizes to itself, and
/// records no free variable.
pub proof fn lemma_no_vars_identity(
    m: TableModel,
    stack: Seq<TypeVarId>,
    fvs: Seq<InferTy>,
    t: TySpec,
)
    requires
        canon_inv(m, stack),
        wf_ty(t, m.n()),
        no_infer(t),
    ensures
        canon_ty(m, stack, fvs, t) == (t, fvs),
    decreases m.n() - stack.len(), t, 0nat,
{
    match t {
        TySpec::Apply(ctor, args) => {
            lemma_no_vars_identity_args(m, stack, fvs, args, 0);
            assert(args.subrange(0, args.len() as int) =~= args);
        }
        _ => {}
    }
}

/// `lemma_no_vars_identity`, elementwise over `args[i..]`.
pub proof fn lemma_no_vars_identity_args(
    m: TableModel,
    stack: Seq<TypeVarId>,
    fvs: Seq<InferTy>,
    args: Seq<TySpec>,
    i: int,
)
    requires
        canon_inv(m, stack),
        wf_tys(args, m.n()),
        0 <= i <= args.len(),
        forall|j: int| 0 <= j < args.len() ==> no_infer(#[trigger] args[j]),
    ensures
        canon_args(m, stack, fvs, args, i) == (args.subrange(i, args.len() as int), fvs),
    decreases m.n() - stack.len(), args, args.len() - i,
{
    if i == args.len() {
        assert(args.subrange(i, args.len() as int) =~= Seq::<TySpec>::empty());
    } else {
        lemma_no_vars_identity(m, stack, fvs, args[i]);
        lemma_no_vars_identity_args(m, stack, fvs, args, i + 1);
        assert(seq![args[i]] + args.subrange(i + 1, args.len() as int) =~= args.subrange(
            i,
            args.len() as int,
        ));
    }
}

/// Every inference variable of `t`, rewritten to its class representative,
/// its category kept: the variable renaming that a cycle-free round trip
/// comes back to.
pub open spec fn rename_roots(m: TableModel, t: TySpec) -> TySpec
    decreases t, 0nat,
{
    match t {
        TySpec::Infer(tv) => TySpec::Infer(
            tv.with_id(TypeVarId(m.repr[tv.id().0 as int] as u32)),
        ),
        TySpec::Apply(ctor, args) => TySpec::Apply(ctor, rename_roots_from(m, args, 0)),
        _ => t,
    }
}

/// `rename_roots` applied to each element of `args` from position `i` on.
pub open spec fn rename_roots_from(m: TableModel, args: Seq<TySpec>, i: int) -> Seq<TySpec>
    decreases args, args.len() - i,
{
    if 0 <= i < args.len() {
        seq![rename_roots(m, args[i])] + rename_roots_from(m, args, i + 1)
    } else {
        Seq::empty()
    }
}

/// `rename_roots_from(m, args, i)` renames pointwise in `args[i..]`.
pub proof fn lemma_rename_roots_from(m: TableModel, args: Seq<TySpec>, i: int)
    requires
        0 <= i <= args.len(),
    ensures
        rename_roots_from(m, args, i).len() == args.len() - i,
        forall|j: int|
            0 <= j < args.len() - i ==> rename_roots_from(m, args, i)[j] == rename_roots(
                m,
                args[i + j],
            ),
    decreases args.len() - i,
{
    if i < args.len() {
        lemma_rename_roots_from(m, args, i + 1);
    }
}

/// Every inference variable occurring in `t` is unresolved in `m`.
pub open spec fn all_unresolved(m: TableModel, t: TySpec) -> bool
    decreases t,
{
    match t {
        TySpec::Infer(tv) => m.val[tv.id().0 as int] is None,
        TySpec::Apply(_, args) => forall|i: int|
            0 <= i < args.len() ==> all_unresolved(m, #[trigger] args[i]),
        _ => true,
    }
}

/// Every identifier on `stack` belongs to a resolved class.
pub open spec fn stack_resolved(m: TableModel, stack: Seq<TypeVarId>) -> bool {
    forall|j: int| 0 <= j < stack.len() ==> m.val[(#[trigger] stack[j]).0 as int] is Some
}

/// Round trip, generalized over the threaded free-variable list: for a
/// value without placeholders whose variables are all unresolved,
/// decanonicalizing the canonical result against any final list that
/// extends the one produced gives back the value with each variable renamed
/// to its class representative.
pub proof fn lemma_roundtrip_ty(
    m: TableModel,
    stack: Seq<TypeVarId>,
    fvs: Seq<InferTy>,
    t: TySpec,
    f_final: Seq<InferTy>,
)
    requires
        canon_inv(m, stack),
        wf_ty(t, m.n()),
        table_no_bound(m),
        bounds_below(t, 0),
        all_unresolved(m, t),
        stack_resolved(m, stack),
        extends(f_final, canon_ty(m, stack, fvs, t).1),
    ensures
        decanon(f_final, canon_ty(m, stack, fvs, t).0) == rename_roots(m, t),
    decreases m.n() - stack.len(), t, 0nat,
{
    let r = canon_ty(m, stack, fvs, t);
    match t {
        TySpec::Infer(tv) => {
            let inner = tv.id();
            assert(!stack.contains(inner)) by {
                if stack.contains(inner) {
                    let j = choose|j: int| 0 <= j < stack.len() && stack[j] == inner;
                    assert(m.val[inner.0 as int] is Some);
                }
            }
            let root = TypeVarId(m.repr[inner.0 as int] as u32);
            let fv = tv.with_id(root);
            if fvs.contains(fv) {
                lemma_position_of_contains(fvs, fv);
                assert(r == (TySpec::Bound(position_of(fvs, fv)), fvs));
                assert(f_final[position_of(fvs, fv) as int] == fv);
            } else {
                assert(r == (TySpec::Bound(fvs.len()), fvs.push(fv)));
                assert(f_final[fvs.len() as int] == fv);
            }
        }
        TySpec::Apply(ctor, args) => {
            let ra = canon_args(m, stack, fvs, args, 0);
            assert(r == (TySpec::Apply(ctor, ra.0), ra.1));
            lemma_roundtrip_args(m, stack, fvs, args, 0, f_final);
            lemma_canon_args_shape(m, stack, fvs, args, 0);
            lemma_decanon_from(f_final, ra.0, 0);
            lemma_rename_roots_from(m, args, 0);
            assert(decanon_from_eq(m, f_final, ra.0, args));
            assert(decanon(f_final, r.0) == TySpec::Apply(
                ctor,
                crate::canonical::decanon_from(f_final, ra.0, 0),
            ));
            assert(crate::canonical::decanon_from(f_final, ra.0, 0) =~= rename_roots_from(
                m,
                args,
                0,
            ));
        }
        _ => {}
    }
}

/// The elementwise equality behind the `Apply` case of the round trip.
spec fn decanon_from_eq(
    m: TableModel,
    f_final: Seq<InferTy>,
    outs: Seq<TySpec>,
    args: Seq<TySpec>,
) -> bool {
    forall|j: int|
        0 <= j < outs.len() ==> decanon(f_final, #[trigger] outs[j]) == rename_roots(m, args[j])
}

/// Round trip over the argument list `args[i..]`, threading the
/// free-variable list.
pub proof fn lemma_roundtrip_args(
    m: TableModel,
    stack: Seq<TypeVarId>,
    fvs: Seq<InferTy>,
    args: Seq<TySpec>,
    i: int,
    f_final: Seq<InferTy>,
)
    requires
        canon_inv(m, stack),
        wf_tys(args, m.n()),
        table_no_bound(m),
        0 <= i <= args.len(),
        forall|j: int|
            i <= j < args.len() ==> bounds_below(#[trigger] args[j], 0) && all_unresolved(
                m,
                args[j],
            ),
        stack_resolved(m, stack),
        extends(f_final, canon_args(m, stack, fvs, args, i).1),
    ensures
        ({
            let r = canon_args(m, stack, fvs, args, i);
            forall|j: int|
                0 <= j < r.0.len() ==> decanon(f_final, #[trigger] r.0[j]) == rename_roots(
                    m,
                    args[i + j],
                )
        }),
    decreases m.n() - stack.len(), args, args.len() - i,
{
    let r = canon_args(m, stack, fvs, args, i);
    if i == args.len() {
    } else {
        let h = canon_ty(m, stack, fvs, args[i]);
        let rest = canon_args(m, stack, h.1, args, i + 1);
        lemma_canon_ty_shape(m, stack, fvs, args[i]);
        lemma_canon_args_shape(m, stack, h.1, args, i + 1);
        assert(extends(f_final, h.1));
        lemma_roundtrip_ty(m, stack, fvs, args[i], f_final);
        lemma_roundtrip_args(m, stack, h.1, args, i + 1, f_final);
        assert(r.0 == seq![h.0] + rest.0);
        assert forall|j: int| 0 <= j < r.0.len() implies decanon(f_final, #[trigger] r.0[j])
            == rename_roots(m, args[i + j]) by {
            if j == 0 {
                assert(r.0[0] == h.0);
            } else {
                assert(r.0[j] == rest.0[j - 1]);
            }
        }
    }
}

/// Round trip: for a query without recursive resolutions — here, with all
/// its variables unresolved — and without foreign placeholders,
/// `decanonicalize` after `canonicalize` rebuilds the query exactly, up to
/// renaming each variable to its class representative.
pub proof fn lemma_roundtrip(m: TableModel, t: TySpec)
    requires
        m.wf(),
        wf_ty(t, m.n()),
        table_no_bound(m),
        bounds_below(t, 0),
        all_unresolved(m, t),
    ensures
        ({
            let r = canon_ty(m, Seq::<TypeVarId>::empty(), Seq::<InferTy>::empty(), t);
            decanon(r.1, r.0) == rename_roots(m, t)
        }),
{
    let r = canon_ty(m, Seq::<TypeVarId>::empty(), Seq::<InferTy>::empty(), t);
    assert(extends(r.1, r.1));
    lemma_roundtrip_ty(m, Seq::<TypeVarId>::empty(), Seq::<InferTy>::empty(), t, r.1);
}

/// Deduplication: a type containing the same unification-class variable
/// twice canonicalizes with the identical `Bound` index for both
/// occurrences, and the free-variable list counts that class once.
pub proof fn lemma_deduplication(m: TableModel, c: crate::ty::TypeCtor, v1: InferTy, v2: InferTy)
    requires
        m.wf(),
        m.n() <= u32::MAX,
        v1.id().0 < m.n(),
        v2.id().0 < m.n(),
        m.val[v1.id().0 as int] is None,
        m.val[v2.id().0 as int] is None,
        m.repr[v1.id().0 as int] == m.repr[v2.id().0 as int],
        same_kind(v1, v2),
    ensures
        ({
            let root = TypeVarId(m.repr[v1.id().0 as int] as u32);
            canon_ty(
                m,
                Seq::<TypeVarId>::empty(),
                Seq::<InferTy>::empty(),
                TySpec::Apply(c, seq![TySpec::Infer(v1), TySpec::Infer(v2)]),
            ) == (
                TySpec::Apply(c, seq![TySpec::Bound(0), TySpec::Bound(0)]),
                seq![v1.with_id(root)],
            )
        }),
{
    let stack = Seq::<TypeVarId>::empty();
    let fvs0 = Seq::<InferTy>::empty();
    let args = seq![TySpec::Infer(v1), TySpec::Infer(v2)];
    let t = TySpec::Apply(c, args);
    let root = TypeVarId(m.repr[v1.id().0 as int] as u32);
    let fv = v1.with_id(root);
    assert(wf_ty(args[0], m.n()) && wf_ty(args[1], m.n()));
    assert(wf_ty(t, m.n()));
    assert(canon_ty(m, stack, fvs0, args[0]) == (TySpec::Bound(0nat), seq![fv]));
    assert(v2.with_id(root) == fv);
    assert(seq![fv].contains(fv)) by {
        assert(seq![fv][0] == fv);
    }
    assert(position_of(seq![fv], fv) == 0);
    assert(canon_ty(m, stack, seq![fv], args[1]) == (TySpec::Bound(0nat), seq![fv]));
    assert(canon_args(m, stack, seq![fv], args, 2) == (Seq::<TySpec>::empty(), seq![fv]));
    assert(canon_args(m, stack, seq![fv], args, 1) == (
        seq![TySpec::Bound(0nat)] + Seq::<TySpec>::empty(),
        seq![fv],
    ));
    assert(canon_args(m, stack, fvs0, args, 0) == (
        seq![TySpec::Bound(0nat)] + (seq![TySpec::Bound(0nat)] + Seq::<TySpec>::empty()),
        seq![fv],
    ));
    assert(seq![TySpec::Bound(0nat)] + (seq![TySpec::Bound(0nat)] + Seq::<TySpec>::empty())
        =~= seq![TySpec::Bound(0nat), TySpec::Bound(0nat)]);
}

/// Order stability: the position assigned to a variable is the order in
/// which its class was first encountered — here, two distinct classes met
/// left to right receive positions 0 and 1.
pub proof fn lemma_order_stability(m: TableModel, c: crate::ty::TypeCtor, v1: InferTy, v2: InferTy)
    requires
        m.wf(),
        m.n() <= u32::MAX,
        v1.id().0 < m.n(),
        v2.id().0 < m.n(),
        m.val[v1.id().0 as int] is None,
        m.val[v2.id().0 as int] is None,
        m.repr[v1.id().0 as int] != m.repr[v2.id().0 as int],
    ensures
        ({
            let root1 = TypeVarId(m.repr[v1.id().0 as int] as u32);
            let root2 = TypeVarId(m.repr[v2.id().0 as int] as u32);
            canon_ty(
                m,
                Seq::<TypeVarId>::empty(),
                Seq::<InferTy>::empty(),
                TySpec::Apply(c, seq![TySpec::Infer(v1), TySpec::Infer(v2)]),
            ) == (
                TySpec::Apply(c, seq![TySpec::Bound(0), TySpec::Bound(1)]),
                seq![v1.with_id(root1), v2.with_id(root2)],
            )
        }),
{
    let stack = Seq::<TypeVarId>::empty();
    let fvs0 = Seq::<InferTy>::empty();
    let args = seq![TySpec::Infer(v1), TySpec::Infer(v2)];
    let t = TySpec::Apply(c, args);
    let root1 = TypeVarId(m.repr[v1.id().0 as int] as u32);
    let root2 = TypeVarId(m.repr[v2.id().0 as int] as u32);
    let fv1 = v1.with_id(root1);
    let fv2 = v2.with_id(root2);
    assert(wf_ty(args[0], m.n()) && wf_ty(args[1], m.n()));
    assert(wf_ty(t, m.n()));
    assert(canon_ty(m, stack, fvs0, args[0]) == (TySpec::Bound(0nat), seq![fv1]));
    assert(fv2.id() == root2 && fv1.id() == root1);
    assert(root1 != root2);
    assert(!seq![fv1].contains(fv2)) by {
        if seq![fv1].contains(fv2) {
            let i = choose|i: int| 0 <= i < 1 && seq![fv1][i] == fv2;
            assert(fv1 == fv2);
        }
    }
    assert(canon_ty(m, stack, seq![fv1], args[1]) == (TySpec::Bound(1nat), seq![fv1, fv2])) by {
        assert(seq![fv1].push(fv2) =~= seq![fv1, fv2]);
    }
    assert(canon_args(m, stack, seq![fv1, fv2], args, 2) == (
        Seq::<TySpec>::empty(),
        seq![fv1, fv2],
    ));
    assert(canon_args(m, stack, seq![fv1], args, 1) == (
        seq![TySpec::Bound(1nat)] + Seq::<TySpec>::empty(),
        seq![fv1, fv2],
    ));
    assert(canon_args(m, stack, fvs0, args, 0) == (
        seq![TySpec::Bound(0nat)] + (seq![TySpec::Bound(1nat)] + Seq::<TySpec>::empty()),
        seq![fv1, fv2],
    ));
    assert(seq![TySpec::Bound(0nat)] + (seq![TySpec::Bound(1nat)] + Seq::<TySpec>::empty())
        =~= seq![TySpec::Bound(0nat), TySpec::Bound(1nat)]);
}

/// Recursion termination, at the cyclic point: a variable resolved directly
/// to itself canonicalizes to its category's fallback value instead of
/// recursing forever. (That every canonicalization terminates at all is
/// exactly the termination measure of `canon_ty`, which Verus checks.)
pub proof fn lemma_recursive_fallback(m: TableModel, tv: InferTy)
    requires
        m.wf(),
        tv.id().0 < m.n(),
        m.val[tv.id().0 as int] == Some(TySpec::Infer(tv)),
    ensures
        canon_ty(m, Seq::<TypeVarId>::empty(), Seq::<InferTy>::empty(), TySpec::Infer(tv)) == (
            tv.fallback_model(),
            Seq::<InferTy>::empty(),
        ),
{
    let stack = Seq::<TypeVarId>::empty();
    let fvs0 = Seq::<InferTy>::empty();
    let inner = tv.id();
    assert(!stack.contains(inner));
    assert(wf_ty(TySpec::Infer(tv), m.n()));
    assert(stack.push(inner).contains(inner)) by {
        assert(stack.push(inner)[0] == inner);
    }
    assert(canon_ty(m, stack.push(inner), fvs0, TySpec::Infer(tv)) == (
        tv.fallback_model(),
        fvs0,
    ));
}

/// Solution application: a solution with no variables of its own resolves
/// each original free variable to the matching solution entry — `v1` to
/// `t1` and `v2` to `t2`.
pub proof fn lemma_solution_application(
    m: TableModel,
    v1: InferTy,
    v2: InferTy,
    t1: TySpec,
    t2: TySpec,
)
    requires
        m.wf(),
        v1.id().0 < m.n(),
        v2.id().0 < m.n(),
        m.val[v1.id().0 as int] is None,
        m.val[v2.id().0 as int] is None,
        m.repr[v1.id().0 as int] != m.repr[v2.id().0 as int],
        no_infer(t1),
        bounds_below(t1, 0),
        no_infer(t2),
        bounds_below(t2, 0),
    ensures
        ({
            let m2 = apply_steps(grow_model(m, 0), seq![v1, v2], seq![t1, t2], fresh_args(
                m.n(),
                0,
            ), 0);
            &&& m2.val[v1.id().0 as int] == Some(t1)
            &&& m2.val[v2.id().0 as int] == Some(t2)
        }),
{
    let i1 = v1.id().0 as int;
    let i2 = v2.id().0 as int;
    let fresh = fresh_args(m.n(), 0);
    let mg = grow_model(m, 0);
    assert(mg.repr =~= m.repr);
    assert(mg.val =~= m.val);
    assert(mg =~= m);
    lemma_subst_noop(t1, fresh);
    lemma_subst_noop(t2, fresh);
    assert(!(t1 is Infer) && !(t2 is Infer));
    let m1 = assign_model(m, i1, t1);
    assert(unify_spec(m, TySpec::Infer(v1), t1) == (m1, true));
    assert(m1.val[i2] == m.val[i2]);
    assert(m1.repr == m.repr);
    let m2 = assign_model(m1, i2, t2);
    assert(unify_spec(m1, TySpec::Infer(v2), t2) == (m2, true));
    assert(apply_steps(m2, seq![v1, v2], seq![t1, t2], fresh, 2) == m2);
    assert(apply_steps(m1, seq![v1, v2], seq![t1, t2], fresh, 1) == m2);
    assert(apply_steps(m, seq![v1, v2], seq![t1, t2], fresh, 0) == m2);
    assert(m2.val[i1] == m1.val[i1]);
    assert(m1.val[i1] == Some(t1));
    assert(m2.val[i2] == Some(t2));
}

/// Fresh-variable allocation: a solution may hold more variables than the
/// query had free ones; each extra `Bound` index is rewritten to a fresh
/// slot, so the constrained free variable ends up sharing its class with
/// that fresh variable — not with any original one — and the table grows by
/// exactly the solution's variable count. (`apply_solution` itself
/// guarantees the count through its `grow_model` postcondition.)
pub proof fn lemma_fresh_allocation(m: TableModel, v1: InferTy)
    requires
        m.wf(),
        m.n() + 2 <= u32::MAX,
        v1.id().0 < m.n(),
        m.val[v1.id().0 as int] is None,
    ensures
        ({
            let n0 = m.n();
            let mg = grow_model(m, 2);
            let m2 = apply_steps(mg, seq![v1], seq![TySpec::Bound(1)], fresh_args(n0, 2), 0);
            &&& mg.n() == n0 + 2
            &&& m2.n() == n0 + 2
            &&& m2.repr[v1.id().0 as int] == m2.repr[n0 as int + 1]
            &&& m2.val[v1.id().0 as int] is None
        }),
{
    let n0 = m.n();
    let i1 = v1.id().0 as int;
    let fresh = fresh_args(n0, 2);
    let mg = grow_model(m, 2);
    assert(mg.n() == n0 + 2);
    assert(subst_bound(TySpec::Bound(1nat), fresh) == fresh[1]);
    assert(fresh[1] == TySpec::Infer(InferTy::TypeVar(TypeVarId((n0 + 1) as u32))));
    assert(mg.repr[i1] == m.repr[i1]);
    assert(mg.repr[n0 as int + 1] == n0 + 1);
    assert(0 <= m.repr[i1] < n0);
    assert(mg.val[i1] == m.val[i1]);
    assert(mg.val[n0 as int + 1] is None);
    let r1 = mg.repr[i1];
    let m2 = union_model(mg, r1, n0 as int + 1);
    assert(unify_spec(mg, TySpec::Infer(v1), fresh[1]) == (m2, true));
    assert(apply_steps(m2, seq![v1], seq![TySpec::Bound(1nat)], fresh, 1) == m2);
    assert(apply_steps(mg, seq![v1], seq![TySpec::Bound(1nat)], fresh, 0) == m2);
    assert(m2.repr[i1] == r1);
    assert(m2.repr[n0 as int + 1] == r1);
    assert(m2.val[i1] == mg.val[i1]);
}

/// Scenario: a container type over one unresolved variable canonicalizes to
/// the container over `Bound(0)` with a single free variable; a solution
/// carrying one concrete entry and no variables of its own then resolves
/// that variable to the entry.
pub proof fn lemma_scenario_container_query(c: crate::ty::TypeCtor, t1: TySpec)
    requires
        no_infer(t1),
        bounds_below(t1, 0),
    ensures
        ({
            let m = TableModel { repr: seq![0int], val: seq![None::<TySpec>] };
            let v0 = InferTy::TypeVar(TypeVarId(0));
            let query = TySpec::Apply(c, seq![TySpec::Infer(v0)]);
            let canon = canon_ty(m, Seq::<TypeVarId>::empty(), Seq::<InferTy>::empty(), query);
            &&& canon == (TySpec::Apply(c, seq![TySpec::Bound(0)]), seq![v0])
            &&& apply_steps(grow_model(m, 0), canon.1, seq![t1], fresh_args(1, 0), 0).val[0]
                == Some(t1)
        }),
{
    let m = TableModel { repr: seq![0int], val: seq![None::<TySpec>] };
    let v0 = InferTy::TypeVar(TypeVarId(0));
    let query = TySpec::Apply(c, seq![TySpec::Infer(v0)]);
    let stack = Seq::<TypeVarId>::empty();
    let fvs0 = Seq::<InferTy>::empty();
    let args = seq![TySpec::Infer(v0)];
    assert(m.wf());
    assert(wf_ty(args[0], m.n()));
    assert(wf_ty(query, m.n()));
    assert(v0.with_id(TypeVarId(0)) == v0);
    assert(canon_ty(m, stack, fvs0, args[0]) == (TySpec::Bound(0nat), seq![v0]));
    assert(canon_args(m, stack, seq![v0], args, 1) == (Seq::<TySpec>::empty(), seq![v0]));
    assert(canon_args(m, stack, fvs0, args, 0) == (
        seq![TySpec::Bound(0nat)] + Seq::<TySpec>::empty(),
        seq![v0],
    ));
    assert(seq![TySpec::Bound(0nat)] + Seq::<TySpec>::empty() =~= seq![TySpec::Bound(0nat)]);
    let fresh = fresh_args(1, 0);
    let mg = grow_model(m, 0);
    assert(mg.repr =~= m.repr);
    assert(mg.val =~= m.val);
    assert(mg =~= m);
    lemma_subst_noop(t1, fresh);
    assert(!(t1 is Infer));
    let m1 = assign_model(m, 0, t1);
    assert(unify_spec(m, TySpec::Infer(v0), t1) == (m1, true));
    assert(apply_steps(m1, seq![v0], seq![t1], fresh, 1) == m1);
    assert(m1.val[0] == Some(t1));
}

/// Scenario: a variable already resolved to a container over a second,
/// unresolved variable canonicalizes to the container over `Bound(0)` with
/// one free variable — the outer variable disappears; only the nested
/// unresolved one is bound.
pub proof fn lemma_scenario_resolved_query(c: crate::ty::TypeCtor)
    ensures
        ({
            let v0 = InferTy::TypeVar(TypeVarId(0));
            let v1 = InferTy::TypeVar(TypeVarId(1));
            let m = TableModel {
                repr: seq![0int, 1int],
                val: seq![Some(TySpec::Apply(c, seq![TySpec::Infer(v1)])), None::<TySpec>],
            };
            canon_ty(m, Seq::<TypeVarId>::empty(), Seq::<InferTy>::empty(), TySpec::Infer(v0))
                == (TySpec::Apply(c, seq![TySpec::Bound(0)]), seq![v1])
        }),
{
    let v0 = InferTy::TypeVar(TypeVarId(0));
    let v1 = InferTy::TypeVar(TypeVarId(1));
    let known = TySpec::Apply(c, seq![TySpec::Infer(v1)]);
    let m = TableModel { repr: seq![0int, 1int], val: seq![Some(known), None::<TySpec>] };
    let stack0 = Seq::<TypeVarId>::empty();
    let fvs0 = Seq::<InferTy>::empty();
    assert(m.wf()) by {
        assert(wf_ty(seq![TySpec::Infer(v1)][0], 2));
        assert(wf_ty(known, 2));
        assert(forall|k: int|
            0 <= k < 2 && #[trigger] m.val[k] is Some ==> wf_ty(m.val[k]->Some_0, 2));
    }
    assert(wf_ty(TySpec::Infer(v0), m.n()));
    let stack1 = stack0.push(TypeVarId(0));
    assert(stack1.no_duplicates());
    assert(!stack0.contains(TypeVarId(0)));
    assert(m.val[0] == Some(known));
    let args = seq![TySpec::Infer(v1)];
    assert(!stack1.contains(TypeVarId(1))) by {
        if stack1.contains(TypeVarId(1)) {
            let i = choose|i: int| 0 <= i < 1 && stack1[i] == TypeVarId(1);
        }
    }
    assert(wf_ty(args[0], m.n()));
    assert(wf_ty(known, m.n()));
    assert(v1.with_id(TypeVarId(1)) == v1);
    assert(canon_ty(m, stack1, fvs0, args[0]) == (TySpec::Bound(0nat), seq![v1]));
    assert(canon_args(m, stack1, seq![v1], args, 1) == (Seq::<TySpec>::empty(), seq![v1]));
    assert(canon_args(m, stack1, fvs0, args, 0) == (
        seq![TySpec::Bound(0nat)] + Seq::<TySpec>::empty(),
        seq![v1],
    ));
    assert(seq![TySpec::Bound(0nat)] + Seq::<TySpec>::empty() =~= seq![TySpec::Bound(0nat)]);
    assert(canon_ty(m, stack1, fvs0, known) == (
        TySpec::Apply(c, seq![TySpec::Bound(0nat)]),
        seq![v1],
    ));
}

} // verus!
