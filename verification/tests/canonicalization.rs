use ty_canon::ty::{ty_eq, InferTy, Ty, TypeCtor, TypeVarId};
use ty_canon::InferenceContext;

fn tv(i: u32) -> InferTy {
    InferTy::TypeVar(TypeVarId(i))
}

fn app(k: u32, args: Vec<Ty>) -> Ty {
    Ty::Apply(TypeCtor::Other(k), args)
}

fn int_ty() -> Ty {
    Ty::Apply(TypeCtor::Int, Vec::new())
}

fn float_ty() -> Ty {
    Ty::Apply(TypeCtor::Float, Vec::new())
}

#[test]
fn canonicalize_unresolved_var() {
    let mut ctx = InferenceContext::new();
    let v0 = ctx.new_type_var();
    let cz = ctx.canonicalizer();
    let c = cz.canonicalize_ty(&mut ctx, v0);
    assert!(ty_eq(&c.value.value, &Ty::Bound(0)));
    assert_eq!(c.value.num_vars, 1);
    assert_eq!(c.free_vars, vec![tv(0)]);
}

#[test]
fn no_vars_canonicalizes_to_itself() {
    let mut ctx = InferenceContext::new();
    let ty = app(3, vec![int_ty(), Ty::Unknown]);
    let expected = app(3, vec![int_ty(), Ty::Unknown]);
    let cz = ctx.canonicalizer();
    let c = cz.canonicalize_ty(&mut ctx, ty);
    assert!(ty_eq(&c.value.value, &expected));
    assert_eq!(c.value.num_vars, 0);
}

#[test]
fn deduplication_same_class_one_entry() {
    let mut ctx = InferenceContext::new();
    let v0 = ctx.new_type_var();
    let v1 = ctx.new_type_var();
    assert!(ctx.unify(&v0, &v1));
    let ty = app(7, vec![Ty::Infer(tv(0)), Ty::Infer(tv(1))]);
    let cz = ctx.canonicalizer();
    let c = cz.canonicalize_ty(&mut ctx, ty);
    let expected = app(7, vec![Ty::Bound(0), Ty::Bound(0)]);
    assert!(ty_eq(&c.value.value, &expected));
    assert_eq!(c.value.num_vars, 1);
    assert_eq!(c.free_vars, vec![tv(0)]);
}

#[test]
fn order_follows_first_encounter() {
    let mut ctx = InferenceContext::new();
    let _v0 = ctx.new_type_var();
    let _v1 = ctx.new_type_var();
    let ty = app(7, vec![Ty::Infer(tv(1)), Ty::Infer(tv(0)), Ty::Infer(tv(1))]);
    let cz = ctx.canonicalizer();
    let c = cz.canonicalize_ty(&mut ctx, ty);
    let expected = app(7, vec![Ty::Bound(0), Ty::Bound(1), Ty::Bound(0)]);
    assert!(ty_eq(&c.value.value, &expected));
    assert_eq!(c.value.num_vars, 2);
    assert_eq!(c.free_vars, vec![tv(1), tv(0)]);
}

#[test]
fn roundtrip_restores_unresolved_query() {
    let mut ctx = InferenceContext::new();
    let _v0 = ctx.new_type_var();
    let _v1 = ctx.new_type_var();
    let ty = app(3, vec![Ty::Infer(tv(0)), app(4, vec![Ty::Infer(tv(1))]), Ty::Unknown]);
    let expected = app(3, vec![Ty::Infer(tv(0)), app(4, vec![Ty::Infer(tv(1))]), Ty::Unknown]);
    let cz = ctx.canonicalizer();
    let c = cz.canonicalize_ty(&mut ctx, ty);
    let value = c.decanonicalize_ty(Ty::clone(&c.value.value));
    assert!(ty_eq(&value, &expected));
}

#[test]
fn roundtrip_maps_to_representative() {
    let mut ctx = InferenceContext::new();
    let v0 = ctx.new_type_var();
    let v1 = ctx.new_type_var();
    assert!(ctx.unify(&v0, &v1));
    let cz = ctx.canonicalizer();
    let c = cz.canonicalize_ty(&mut ctx, Ty::Infer(tv(1)));
    let back = c.decanonicalize_ty(Ty::clone(&c.value.value));
    assert!(ty_eq(&back, &Ty::Infer(tv(0))));
}

#[test]
fn decanonicalize_leaves_foreign_bound() {
    let mut ctx = InferenceContext::new();
    let v0 = ctx.new_type_var();
    let cz = ctx.canonicalizer();
    let c = cz.canonicalize_ty(&mut ctx, v0);
    let out = c.decanonicalize_ty(app(2, vec![Ty::Bound(0), Ty::Bound(5)]));
    let expected = app(2, vec![Ty::Infer(tv(0)), Ty::Bound(5)]);
    assert!(ty_eq(&out, &expected));
}

#[test]
fn recursive_type_falls_back_at_cycle() {
    let mut ctx = InferenceContext::new();
    let v0 = ctx.new_type_var();
    let wrapped = app(1, vec![Ty::Infer(tv(0))]);
    assert!(ctx.unify(&v0, &wrapped));
    let cz = ctx.canonicalizer();
    let c = cz.canonicalize_ty(&mut ctx, Ty::Infer(tv(0)));
    let expected = app(1, vec![Ty::Unknown]);
    assert!(ty_eq(&c.value.value, &expected));
    assert_eq!(c.value.num_vars, 0);
}

#[test]
fn recursive_chains_terminate_to_depth_fifty() {
    for k in 1..=50u32 {
        let mut ctx = InferenceContext::new();
        for _ in 0..=k {
            ctx.new_type_var();
        }
        for i in 0..k {
            let here = Ty::Infer(tv(i));
            let next = app(1, vec![Ty::Infer(tv(i + 1))]);
            assert!(ctx.unify(&here, &next));
        }
        let last = Ty::Infer(tv(k));
        let loop_back = app(1, vec![Ty::Infer(tv(0))]);
        assert!(ctx.unify(&last, &loop_back));
        let cz = ctx.canonicalizer();
        let c = cz.canonicalize_ty(&mut ctx, Ty::Infer(tv(0)));
        let mut expected = Ty::Unknown;
        for _ in 0..=k {
            expected = app(1, vec![expected]);
        }
        assert!(ty_eq(&c.value.value, &expected));
        assert_eq!(c.value.num_vars, 0);
    }
}

#[test]
fn int_var_falls_back_to_int() {
    let mut ctx = InferenceContext::new();
    let _v0 = ctx.new_type_var();
    let iv = InferTy::IntVar(TypeVarId(0));
    let wrapped = app(1, vec![Ty::Infer(iv)]);
    assert!(ctx.unify(&Ty::Infer(iv), &wrapped));
    let cz = ctx.canonicalizer();
    let c = cz.canonicalize_ty(&mut ctx, Ty::Infer(iv));
    let expected = app(1, vec![int_ty()]);
    assert!(ty_eq(&c.value.value, &expected));
}

#[test]
fn unify_compares_concrete_types() {
    let mut ctx = InferenceContext::new();
    assert!(ctx.unify(&int_ty(), &int_ty()));
    assert!(!ctx.unify(&int_ty(), &float_ty()));
    let v0 = ctx.new_type_var();
    assert!(ctx.unify(&v0, &int_ty()));
    assert!(ctx.unify(&Ty::Infer(tv(0)), &int_ty()));
    assert!(!ctx.unify(&Ty::Infer(tv(0)), &float_ty()));
}

#[test]
fn variable_kinds_compare_by_kind_and_id() {
    assert_eq!(InferTy::TypeVar(TypeVarId(3)), InferTy::TypeVar(TypeVarId(3)));
    assert_ne!(InferTy::TypeVar(TypeVarId(3)), InferTy::IntVar(TypeVarId(3)));
    assert_ne!(InferTy::TypeVar(TypeVarId(3)), InferTy::TypeVar(TypeVarId(4)));
}

#[test]
fn subst_bound_vars_replaces_in_range_only() {
    let ty = app(2, vec![Ty::Bound(0), Ty::Bound(2), Ty::Unknown]);
    let repl = vec![int_ty(), float_ty()];
    let out = ty.subst_bound_vars(&repl);
    let expected = app(2, vec![int_ty(), Ty::Bound(2), Ty::Unknown]);
    assert!(ty_eq(&out, &expected));
}
