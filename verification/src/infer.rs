//! The inference context: owner of the unification table, supplier of fresh
//! inference variables, and home of the shallow assign/unify primitive that
//! the solution applier feeds equality constraints into.

use vstd::prelude::*;

use crate::table::{assign_model, union_model, TableModel, UnificationTable};
use crate::ty::{opt_model, ty_eq, wf_ty, InferTy, Ty, TySpec, TypeVarId};

verus! {

/// The model of one `unify` call on the table model `m`: the updated model,
/// and whether the two values were compatible.
///
/// The primitive is deliberately shallow — the canonicalization core only
/// reads the table and feeds single equality constraints back into it:
/// * two unresolved variables have their classes merged;
/// * an unresolved variable is resolved to the opposite value;
/// * otherwise the two sides are compatible exactly when they are already
///   structurally equal (recursive merging of two resolved classes belongs
///   to the surrounding inference pass, not to this core).
pub open spec fn unify_spec(m: TableModel, a: TySpec, b: TySpec) -> (TableModel, bool) {
    if a is Infer && b is Infer {
        let i1 = a->Infer_0.id().0 as int;
        let i2 = b->Infer_0.id().0 as int;
        if m.repr[i1] == m.repr[i2] {
            (m, true)
        } else if m.val[i1] is None && m.val[i2] is None {
            (union_model(m, m.repr[i1], m.repr[i2]), true)
        } else if m.val[i1] is None {
            (assign_model(m, i1, b), true)
        } else if m.val[i2] is None {
            (assign_model(m, i2, a), true)
        } else {
            (m, m.val[i1]->Some_0 == m.val[i2]->Some_0)
        }
    } else if a is Infer {
        let i1 = a->Infer_0.id().0 as int;
        if m.val[i1] is None {
            (assign_model(m, i1, b), true)
        } else {
            (m, m.val[i1]->Some_0 == b)
        }
    } else if b is Infer {
        let i2 = b->Infer_0.id().0 as int;
        if m.val[i2] is None {
            (assign_model(m, i2, a), true)
        } else {
            (m, a == m.val[i2]->Some_0)
        }
    } else {
        (m, a == b)
    }
}

/// `unify` never changes the number of slots.
pub proof fn lemma_unify_spec_n(m: TableModel, a: TySpec, b: TySpec)
    ensures
        unify_spec(m, a, b).0.n() == m.n(),
{
}

/// The active inference state: exclusive owner of one unification table for
/// the duration of one inference pass.
pub struct InferenceContext {
    var_unification_table: UnificationTable,
}

impl InferenceContext {
    /// Structural well-formedness.
    pub closed spec fn wf(self) -> bool {
        self.var_unification_table.wf()
    }

    /// The model of the owned unification table.
    pub closed spec fn model(self) -> TableModel {
        self.var_unification_table.model()
    }

    /// The number of inference variables created so far.
    pub open spec fn n(self) -> nat {
        self.model().n()
    }

    /// A well-formed context has a well-formed model.
    pub proof fn lemma_model_wf(self)
        requires
            self.wf(),
        ensures
            self.model().wf(),
    {
        self.var_unification_table.lemma_model_wf();
    }

    /// A fresh inference pass with no variables.
    pub fn new() -> (r: Self)
        ensures
            r.wf(),
            r.n() == 0,
    {
        InferenceContext { var_unification_table: UnificationTable::new() }
    }

    /// The number of inference variables created so far.
    pub fn num_vars(&self) -> (r: usize)
        ensures
            r == self.n(),
    {
        self.var_unification_table.len()
    }

    /// Creates one fresh, unresolved general type variable.
    pub fn new_type_var(&mut self) -> (r: Ty)
        requires
            old(self).wf(),
            old(self).n() < u32::MAX,
        ensures
            final(self).wf(),
            r == Ty::Infer(InferTy::TypeVar(TypeVarId(old(self).n() as u32))),
            final(self).model().repr == old(self).model().repr.push(old(self).n() as int),
            final(self).model().val == old(self).model().val.push(None::<TySpec>),
    {
        let id = self.var_unification_table.new_key();
        Ty::Infer(InferTy::TypeVar(TypeVarId(id)))
    }

    /// The concrete type, if any, that `tv`'s equivalence class is currently
    /// resolved to.
    pub fn probe(&self, tv: InferTy) -> (r: Option<Ty>)
        requires
            self.wf(),
            tv.id().0 < self.n(),
        ensures
            opt_model(r) == self.model().val[tv.id().0 as int],
    {
        self.var_unification_table.probe_value(tv.to_inner().0)
    }

    /// The representative of `tv`'s equivalence class.
    pub fn find(&mut self, tv: TypeVarId) -> (root: TypeVarId)
        requires
            old(self).wf(),
            tv.0 < old(self).n(),
        ensures
            final(self).wf(),
            final(self).model() == old(self).model(),
            root.0 as int == old(self).model().repr[tv.0 as int],
    {
        TypeVarId(self.var_unification_table.find(tv.0))
    }

    /// Feeds one equality constraint into the table, as `unify_spec` says:
    /// merging or resolving variable classes, and reporting whether the two
    /// sides were compatible.
    pub fn unify(&mut self, t1: &Ty, t2: &Ty) -> (ok: bool)
        requires
            old(self).wf(),
            wf_ty(t1.model(), old(self).n()),
            wf_ty(t2.model(), old(self).n()),
        ensures
            final(self).wf(),
            (final(self).model(), ok) == unify_spec(old(self).model(), t1.model(), t2.model()),
    {
        proof {
            old(self).lemma_model_wf();
        }
        let ghost m = old(self).model();
        match (t1, t2) {
            (Ty::Infer(v1), Ty::Infer(v2)) => {
                let i1 = v1.to_inner().0;
                let i2 = v2.to_inner().0;
                let r1 = self.var_unification_table.find(i1);
                let r2 = self.var_unification_table.find(i2);
                if r1 == r2 {
                    true
                } else {
                    let p1 = self.var_unification_table.probe_value(i1);
                    let p2 = self.var_unification_table.probe_value(i2);
                    proof {
                        assert(m.val[i1 as int] == m.val[r1 as int]);
                        assert(m.val[i2 as int] == m.val[r2 as int]);
                        assert(m.repr[r1 as int] == m.repr[i1 as int] == r1 as int);
                        assert(m.repr[r2 as int] == m.repr[i2 as int] == r2 as int);
                    }
                    match (p1, p2) {
                        (None, None) => {
                            self.var_unification_table.union_roots(r1, r2);
                            true
                        }
                        (None, Some(_)) => {
                            self.var_unification_table.assign(i1, t2.clone());
                            true
                        }
                        (Some(_), None) => {
                            self.var_unification_table.assign(i2, t1.clone());
                            true
                        }
                        (Some(x), Some(y)) => ty_eq(&x, &y),
                    }
                }
            }
            (Ty::Infer(v1), _) => {
                let i1 = v1.to_inner().0;
                let p1 = self.var_unification_table.probe_value(i1);
                match p1 {
                    None => {
                        self.var_unification_table.assign(i1, t2.clone());
                        true
                    }
                    Some(x) => ty_eq(&x, t2),
                }
            }
            (_, Ty::Infer(v2)) => {
                let i2 = v2.to_inner().0;
                let p2 = self.var_unification_table.probe_value(i2);
                match p2 {
                    None => {
                        self.var_unification_table.assign(i2, t1.clone());
                        true
                    }
                    Some(y) => ty_eq(t1, &y),
                }
            }
            _ => ty_eq(t1, t2),
        }
    }
}

} // verus!
