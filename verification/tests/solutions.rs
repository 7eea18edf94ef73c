use ty_canon::ty::{ty_eq, InferTy, Ty, TypeCtor, TypeVarId};
use ty_canon::{
    Canonical, Environment, InEnvironment, InferenceContext, ProjectionPredicate, ProjectionTy,
    TraitRef,
};

fn tv(i: u32) -> InferTy {
    InferTy::TypeVar(TypeVarId(i))
}

fn app(k: u32, args: Vec<Ty>) -> Ty {
    Ty::Apply(TypeCtor::Other(k), args)
}

fn int_ty() -> Ty {
    Ty::Apply(TypeCtor::Int, Vec::new())
}

fn float_ty() -> Ty {
    Ty::Apply(TypeCtor::Float, Vec::new())
}

#[test]
fn solution_resolves_each_free_var() {
    let mut ctx = InferenceContext::new();
    let _v0 = ctx.new_type_var();
    let _v1 = ctx.new_type_var();
    let query = app(9, vec![Ty::Infer(tv(0)), Ty::Infer(tv(1))]);
    let cz = ctx.canonicalizer();
    let c = cz.canonicalize_ty(&mut ctx, query);
    assert_eq!(c.value.num_vars, 2);
    let solution = Canonical { value: vec![int_ty(), float_ty()], num_vars: 0 };
    c.apply_solution(&mut ctx, solution);
    let r0 = ctx.probe(tv(0)).expect("first variable should be resolved");
    let r1 = ctx.probe(tv(1)).expect("second variable should be resolved");
    assert!(ty_eq(&r0, &int_ty()));
    assert!(ty_eq(&r1, &float_ty()));
}

#[test]
fn solution_allocates_fresh_vars() {
    let mut ctx = InferenceContext::new();
    let _v0 = ctx.new_type_var();
    let cz = ctx.canonicalizer();
    let c = cz.canonicalize_ty(&mut ctx, Ty::Infer(tv(0)));
    assert_eq!(ctx.num_vars(), 1);
    let solution = Canonical { value: vec![Ty::Bound(1)], num_vars: 2 };
    c.apply_solution(&mut ctx, solution);
    assert_eq!(ctx.num_vars(), 3);
    assert!(ctx.probe(tv(0)).is_none());
    assert_eq!(ctx.find(TypeVarId(2)), TypeVarId(0));
    assert_eq!(ctx.find(TypeVarId(1)), TypeVarId(1));
}

#[test]
fn scenario_container_of_unresolved_var() {
    let mut ctx = InferenceContext::new();
    let v0 = ctx.new_type_var();
    let query = app(1, vec![v0]);
    let cz = ctx.canonicalizer();
    let c = cz.canonicalize_ty(&mut ctx, query);
    let expected = app(1, vec![Ty::Bound(0)]);
    assert!(ty_eq(&c.value.value, &expected));
    assert_eq!(c.value.num_vars, 1);
    let solution = Canonical { value: vec![int_ty()], num_vars: 0 };
    c.apply_solution(&mut ctx, solution);
    let r0 = ctx.probe(tv(0)).expect("the variable should be resolved");
    assert!(ty_eq(&r0, &int_ty()));
}

#[test]
fn scenario_resolved_var_expands() {
    let mut ctx = InferenceContext::new();
    let v0 = ctx.new_type_var();
    let _v1 = ctx.new_type_var();
    let container = app(1, vec![Ty::Infer(tv(1))]);
    assert!(ctx.unify(&v0, &container));
    let cz = ctx.canonicalizer();
    let c = cz.canonicalize_ty(&mut ctx, Ty::Infer(tv(0)));
    let expected = app(1, vec![Ty::Bound(0)]);
    assert!(ty_eq(&c.value.value, &expected));
    assert_eq!(c.value.num_vars, 1);
    assert_eq!(c.free_vars, vec![tv(1)]);
}

#[test]
fn empty_solution_is_a_no_op() {
    let mut ctx = InferenceContext::new();
    let query = app(4, vec![int_ty()]);
    let cz = ctx.canonicalizer();
    let c = cz.canonicalize_ty(&mut ctx, query);
    assert_eq!(c.value.num_vars, 0);
    let solution = Canonical { value: Vec::new(), num_vars: 0 };
    c.apply_solution(&mut ctx, solution);
    assert_eq!(ctx.num_vars(), 0);
}

#[test]
fn find_is_idempotent_without_mutation() {
    let mut ctx = InferenceContext::new();
    let v0 = ctx.new_type_var();
    let v1 = ctx.new_type_var();
    let v2 = ctx.new_type_var();
    assert!(ctx.unify(&v0, &v1));
    assert!(ctx.unify(&v1, &v2));
    let first = ctx.find(TypeVarId(2));
    let second = ctx.find(TypeVarId(2));
    assert_eq!(first, second);
    assert_eq!(ctx.find(first), first);
    assert_eq!(first, TypeVarId(0));
}

#[test]
fn trait_ref_shares_indices_and_keeps_environment() {
    let mut ctx = InferenceContext::new();
    let _v0 = ctx.new_type_var();
    let _v1 = ctx.new_type_var();
    let obligation = InEnvironment {
        value: TraitRef {
            trait_: 42,
            substs: vec![Ty::Infer(tv(0)), Ty::Infer(tv(1)), Ty::Infer(tv(0))],
        },
        environment: Environment(7),
    };
    let cz = ctx.canonicalizer();
    let c = cz.canonicalize_trait_ref(&mut ctx, obligation);
    assert_eq!(c.value.value.environment, Environment(7));
    assert_eq!(c.value.value.value.trait_, 42);
    assert_eq!(c.value.num_vars, 2);
    let substs = &c.value.value.value.substs;
    assert!(ty_eq(&substs[0], &Ty::Bound(0)));
    assert!(ty_eq(&substs[1], &Ty::Bound(1)));
    assert!(ty_eq(&substs[2], &Ty::Bound(0)));
}

#[test]
fn projection_canonicalizes_ty_before_parameters() {
    let mut ctx = InferenceContext::new();
    let _v0 = ctx.new_type_var();
    let _v1 = ctx.new_type_var();
    let projection = ProjectionPredicate {
        projection_ty: ProjectionTy { associated_ty: 5, parameters: vec![Ty::Infer(tv(1))] },
        ty: Ty::Infer(tv(0)),
    };
    let cz = ctx.canonicalizer();
    let c = cz.canonicalize_projection(&mut ctx, projection);
    assert_eq!(c.value.value.projection_ty.associated_ty, 5);
    assert_eq!(c.value.num_vars, 2);
    assert!(ty_eq(&c.value.value.ty, &Ty::Bound(0)));
    assert!(ty_eq(&c.value.value.projection_ty.parameters[0], &Ty::Bound(1)));
}

#[test]
fn projection_shares_variable_across_fields() {
    let mut ctx = InferenceContext::new();
    let _v0 = ctx.new_type_var();
    let projection = ProjectionPredicate {
        projection_ty: ProjectionTy { associated_ty: 8, parameters: vec![Ty::Infer(tv(0))] },
        ty: Ty::Infer(tv(0)),
    };
    let cz = ctx.canonicalizer();
    let c = cz.canonicalize_projection(&mut ctx, projection);
    assert_eq!(c.value.num_vars, 1);
    assert!(ty_eq(&c.value.value.ty, &Ty::Bound(0)));
    assert!(ty_eq(&c.value.value.projection_ty.parameters[0], &Ty::Bound(0)));
}
