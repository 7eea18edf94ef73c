//! The union-find unification table: a forest over inference-variable
//! identifiers, each equivalence class optionally resolved to a concrete
//! type value.

use vstd::prelude::*;

use crate::ty::{lemma_wf_ty_mono, opt_model, wf_ty, Ty, TySpec};

verus! {

/// The mathematical model of a unification table with `repr.len()` slots:
/// `repr[i]` is the representative of slot `i`'s equivalence class, and
/// `val[i]` is the concrete type, if any, that slot `i`'s class has been
/// resolved to.
#[verifier::ext_equal]
pub ghost struct TableModel {
    pub repr: Seq<int>,
    pub val: Seq<Option<TySpec>>,
}

impl TableModel {
    /// The number of slots.
    pub open spec fn n(self) -> nat {
        self.repr.len()
    }

    /// Internal consistency: representatives are in range and idempotent,
    /// resolution is a property of the class, and every resolved value only
    /// mentions slots of this table.
    pub open spec fn wf(self) -> bool {
        &&& self.val.len() == self.repr.len()
        &&& forall|k: int| 0 <= k < self.n() ==> 0 <= #[trigger] self.repr[k] < self.n()
        &&& forall|k: int| 0 <= k < self.n() ==> #[trigger] self.repr[self.repr[k]]
            == self.repr[k]
        &&& forall|k: int| 0 <= k < self.n() ==> #[trigger] self.val[self.repr[k]] == self.val[k]
        &&& forall|k: int|
            0 <= k < self.n() && #[trigger] self.val[k] is Some ==> wf_ty(
                self.val[k]->Some_0,
                self.n(),
            )
    }
}

/// A parent forest is well formed when every slot's parent lies at or below
/// it; a slot is a root exactly when it is its own parent. This orders every
/// chain strictly downward and so bounds every walk.
pub open spec fn parents_wf(p: Seq<u32>) -> bool {
    forall|i: int| 0 <= i < p.len() ==> #[trigger] p[i] as int <= i
}

/// The representative of slot `i`: the root reached by following parents.
pub open spec fn repr_in(p: Seq<u32>, i: int) -> int
    decreases i,
        when parents_wf(p) && 0 <= i < p.len()
{
    if p[i] as int == i {
        i
    } else {
        repr_in(p, p[i] as int)
    }
}

/// The representative lies at or below its slot and is itself a root.
pub proof fn lemma_repr_basic(p: Seq<u32>, i: int)
    requires
        parents_wf(p),
        0 <= i < p.len(),
    ensures
        0 <= repr_in(p, i) <= i,
        p[repr_in(p, i)] as int == repr_in(p, i),
        repr_in(p, repr_in(p, i)) == repr_in(p, i),
    decreases i,
{
    if p[i] as int != i {
        lemma_repr_basic(p, p[i] as int);
    }
}

/// Re-pointing one slot directly at its own representative changes no
/// slot's representative.
pub proof fn lemma_repr_update_one(p: Seq<u32>, c: int, r: int, k: int)
    requires
        parents_wf(p),
        0 <= c < p.len(),
        r == repr_in(p, c),
        0 <= k < p.len(),
    ensures
        parents_wf(p.update(c, r as u32)),
        repr_in(p.update(c, r as u32), k) == repr_in(p, k),
    decreases k,
{
    lemma_repr_basic(p, c);
    let q = p.update(c, r as u32);
    assert(parents_wf(q));
    if k == c {
        if p[k] as int == k {
            assert(repr_in(q, k) == repr_in(p, k));
        } else {
            assert(r < c);
            lemma_repr_update_one(p, c, r, r);
            assert(repr_in(q, k) == repr_in(q, r));
        }
    } else {
        if p[k] as int != k {
            lemma_repr_update_one(p, c, r, p[k] as int);
        }
    }
}

/// Appending a fresh root slot changes no existing slot's representative.
pub proof fn lemma_repr_push_one(p: Seq<u32>, k: int)
    requires
        parents_wf(p),
        p.len() < u32::MAX,
        0 <= k < p.len(),
    ensures
        parents_wf(p.push(p.len() as u32)),
        repr_in(p.push(p.len() as u32), k) == repr_in(p, k),
    decreases k,
{
    let q = p.push(p.len() as u32);
    assert(parents_wf(q));
    if p[k] as int != k {
        lemma_repr_push_one(p, p[k] as int);
    }
}

/// Attaching the root `r2` under the root `r1` moves exactly the slots of
/// `r2`'s class to `r1`, and no others.
pub proof fn lemma_repr_union_one(p: Seq<u32>, r1: int, r2: int, k: int)
    requires
        parents_wf(p),
        0 <= r1 < r2 < p.len(),
        p[r1] as int == r1,
        p[r2] as int == r2,
        0 <= k < p.len(),
    ensures
        parents_wf(p.update(r2, r1 as u32)),
        repr_in(p.update(r2, r1 as u32), k) == if repr_in(p, k) == r2 {
            r1
        } else {
            repr_in(p, k)
        },
    decreases k,
{
    let q = p.update(r2, r1 as u32);
    assert(parents_wf(q));
    if k == r2 {
        assert(repr_in(q, k) == repr_in(q, r1));
    } else if p[k] as int != k {
        lemma_repr_union_one(p, r1, r2, p[k] as int);
    }
}

/// The union-find unification table. `parents` is the forest; `values`
/// holds, at each root, the concrete type its class is resolved to, if any.
pub struct UnificationTable {
    parents: Vec<u32>,
    values: Vec<Option<Ty>>,
}

impl UnificationTable {
    /// The number of slots.
    pub open spec fn n(self) -> nat {
        self.model().n()
    }

    /// Structural well-formedness of the concrete table.
    pub closed spec fn wf(self) -> bool {
        &&& self.values@.len() == self.parents@.len()
        &&& parents_wf(self.parents@)
        &&& forall|i: int|
            0 <= i < self.parents@.len() && #[trigger] self.values@[i] is Some ==> wf_ty(
                self.values@[i]->Some_0.model(),
                self.parents@.len(),
            )
    }

    /// The model of this table.
    pub closed spec fn model(self) -> TableModel {
        TableModel {
            repr: Seq::new(self.parents@.len(), |i: int| repr_in(self.parents@, i)),
            val: Seq::new(
                self.parents@.len(),
                |i: int| opt_model(self.values@[repr_in(self.parents@, i)]),
            ),
        }
    }

    /// A well-formed table has a well-formed model.
    pub proof fn lemma_model_wf(self)
        requires
            self.wf(),
        ensures
            self.model().wf(),
    {
        assert forall|k: int| 0 <= k < self.n() implies 0 <= #[trigger] self.model().repr[k]
            < self.n() && self.model().repr[self.model().repr[k]] == self.model().repr[k]
            && self.model().val[self.model().repr[k]] == self.model().val[k] by {
            lemma_repr_basic(self.parents@, k);
        }
        assert forall|k: int|
            0 <= k < self.n() && #[trigger] self.model().val[k] is Some implies wf_ty(
            self.model().val[k]->Some_0,
            self.n(),
        ) by {
            lemma_repr_basic(self.parents@, k);
        }
    }

    /// An empty table.
    pub fn new() -> (r: Self)
        ensures
            r.wf(),
            r.n() == 0,
    {
        UnificationTable { parents: Vec::new(), values: Vec::new() }
    }

    /// The number of slots.
    pub fn len(&self) -> (r: usize)
        ensures
            r == self.n(),
    {
        self.parents.len()
    }

    /// Creates one fresh, unresolved slot in a class of its own and returns
    /// its identifier.
    pub fn new_key(&mut self) -> (id: u32)
        requires
            old(self).wf(),
            old(self).n() < u32::MAX,
        ensures
            final(self).wf(),
            id == old(self).n(),
            final(self).model().repr == old(self).model().repr.push(old(self).n() as int),
            final(self).model().val == old(self).model().val.push(None::<TySpec>),
    {
        let id = self.parents.len() as u32;
        self.parents.push(id);
        self.values.push(None);
        proof {
            let p0 = old(self).parents@;
            assert forall|k: int| 0 <= k < p0.len() implies repr_in(self.parents@, k) == repr_in(
                p0,
                k,
            ) by {
                lemma_repr_push_one(p0, k);
            }
            assert(parents_wf(self.parents@)) by {
                if p0.len() > 0 {
                    lemma_repr_push_one(p0, 0);
                }
            }
            assert forall|i: int|
                0 <= i < self.parents@.len() && #[trigger] self.values@[i] is Some implies wf_ty(
                self.values@[i]->Some_0.model(),
                self.parents@.len(),
            ) by {
                if i < p0.len() {
                    lemma_wf_ty_mono(
                        self.values@[i]->Some_0.model(),
                        p0.len() as nat,
                        self.parents@.len() as nat,
                    );
                }
            }
            assert forall|k: int| 0 <= k < p0.len() implies 0 <= #[trigger] repr_in(p0, k) < p0.len() by {
                lemma_repr_basic(p0, k);
            }
            assert(self.model().repr =~= old(self).model().repr.push(old(self).n() as int));
            assert(self.model().val =~= old(self).model().val.push(None::<TySpec>));
        }
        id
    }

    /// The representative of `id`'s equivalence class, with the walked path
    /// re-pointed directly at the root. The model — and so every observable
    /// answer of the table — is unchanged.
    pub fn find(&mut self, id: u32) -> (root: u32)
        requires
            old(self).wf(),
            id < old(self).n(),
        ensures
            final(self).wf(),
            final(self).model() == old(self).model(),
            root as int == old(self).model().repr[id as int],
    {
        let mut c: u32 = id;
        while self.parents[c as usize] != c
            invariant
                self.wf(),
                *self == *old(self),
                c < self.n(),
                repr_in(self.parents@, c as int) == repr_in(self.parents@, id as int),
            decreases c,
        {
            c = self.parents[c as usize];
        }
        let root = c;
        let ghost p0 = old(self).parents@;
        let mut c2: u32 = id;
        while self.parents[c2 as usize] != c2
            invariant
                self.wf(),
                self.values@ == old(self).values@,
                self.n() == old(self).n(),
                c2 < self.n(),
                root < self.n(),
                forall|k: int|
                    0 <= k < self.n() ==> repr_in(#[trigger] self.parents@, k) == repr_in(p0, k),
                repr_in(self.parents@, c2 as int) == root as int,
                repr_in(p0, root as int) == root as int,
            decreases c2,
        {
            let next = self.parents[c2 as usize];
            let ghost pbefore = self.parents@;
            proof {
                lemma_repr_basic(pbefore, c2 as int);
                assert forall|k: int| 0 <= k < pbefore.len() implies repr_in(
                    #[trigger] pbefore.update(c2 as int, root),
                    k,
                ) == repr_in(pbefore, k) by {
                    lemma_repr_update_one(pbefore, c2 as int, root as int, k);
                }
                assert(repr_in(pbefore, next as int) == root as int);
            }
            self.parents[c2 as usize] = root;
            proof {
                assert(self.parents@ == pbefore.update(c2 as int, root));
                assert forall|k: int| 0 <= k < self.n() implies repr_in(
                    #[trigger] self.parents@,
                    k,
                ) == repr_in(p0, k) by {
                    assert(repr_in(pbefore.update(c2 as int, root), k) == repr_in(pbefore, k));
                    assert(repr_in(pbefore, k) == repr_in(p0, k));
                }
                assert(repr_in(self.parents@, next as int) == repr_in(pbefore, next as int));
            }
            c2 = next;
        }
        proof {
            assert(self.model().repr =~= old(self).model().repr);
            assert(self.model().val =~= old(self).model().val);
            assert(self.model() =~= old(self).model());
        }
        root
    }

    /// The concrete type, if any, that `id`'s equivalence class is currently
    /// resolved to.
    pub fn probe_value(&self, id: u32) -> (r: Option<Ty>)
        requires
            self.wf(),
            id < self.n(),
        ensures
            opt_model(r) == self.model().val[id as int],
    {
        let mut c: u32 = id;
        while self.parents[c as usize] != c
            invariant
                self.wf(),
                c < self.n(),
                repr_in(self.parents@, c as int) == repr_in(self.parents@, id as int),
            decreases c,
        {
            c = self.parents[c as usize];
        }
        match &self.values[c as usize] {
            Some(t) => Some(t.clone()),
            None => None,
        }
    }

    /// Merges the two equivalence classes of the distinct, unresolved roots
    /// `a` and `b`; the smaller identifier becomes the representative of the
    /// merged class.
    pub fn union_roots(&mut self, a: u32, b: u32)
        requires
            old(self).wf(),
            a < old(self).n(),
            b < old(self).n(),
            a != b,
            old(self).model().repr[a as int] == a as int,
            old(self).model().repr[b as int] == b as int,
            old(self).model().val[a as int] is None,
            old(self).model().val[b as int] is None,
        ensures
            final(self).wf(),
            final(self).model() == union_model(old(self).model(), a as int, b as int),
    {
        let (r1, r2) = if a < b {
            (a, b)
        } else {
            (b, a)
        };
        proof {
            let p = self.parents@;
            assert(repr_in(p, a as int) == a as int);
            assert(repr_in(p, b as int) == b as int);
            assert(p[a as int] as int == a as int && p[b as int] as int == b as int) by {
                lemma_repr_basic(p, a as int);
                lemma_repr_basic(p, b as int);
            }
            assert forall|k: int| 0 <= k < p.len() implies repr_in(
                #[trigger] p.update(r2 as int, r1),
                k,
            ) == (if repr_in(p, k) == r2 as int {
                r1 as int
            } else {
                repr_in(p, k)
            }) by {
                lemma_repr_union_one(p, r1 as int, r2 as int, k);
            }
            lemma_repr_union_one(p, r1 as int, r2 as int, r1 as int);
        }
        self.parents[r2 as usize] = r1;
        proof {
            let m0 = old(self).model();
            let p0 = old(self).parents@;
            assert forall|k: int| 0 <= k < self.n() implies 0 <= #[trigger] repr_in(p0, k)
                < self.n() && m0.repr[k] == repr_in(p0, k) by {
                lemma_repr_basic(p0, k);
            }
            assert(self.model().repr =~= union_model(m0, a as int, b as int).repr);
            assert forall|k: int| 0 <= k < self.n() implies #[trigger] self.model().val[k]
                == union_model(m0, a as int, b as int).val[k] by {
                lemma_repr_basic(p0, k);
                if repr_in(p0, k) == r2 as int {
                    assert(m0.val[k] == m0.val[r2 as int]);
                    assert(m0.val[k] is None);
                    assert(self.model().val[k] == opt_model(self.values@[r1 as int]));
                    assert(m0.val[r1 as int] == opt_model(old(self).values@[r1 as int]));
                }
            }
            assert(self.model().val =~= union_model(m0, a as int, b as int).val);
            assert(self.model() =~= union_model(m0, a as int, b as int));
        }
    }

    /// Resolves the equivalence class of `a`, currently unresolved, to the
    /// concrete type `t`.
    pub fn assign(&mut self, a: u32, t: Ty)
        requires
            old(self).wf(),
            a < old(self).n(),
            old(self).model().val[a as int] is None,
            wf_ty(t.model(), old(self).n()),
        ensures
            final(self).wf(),
            final(self).model() == assign_model(old(self).model(), a as int, t.model()),
    {
        let root = self.find(a);
        let ghost m0 = old(self).model();
        let ghost tmid = *self;
        proof {
            assert(tmid.model() == m0);
            tmid.lemma_model_wf();
            assert((root as int) < tmid.n() && m0.repr[root as int] == root as int && m0.val[root
                as int] is None);
        }
        self.values[root as usize] = Some(t);
        proof {
            let p = tmid.parents@;
            let vgoal = assign_model(m0, a as int, t.model()).val;
            assert(self.parents@ == p);
            assert(self.values@ == tmid.values@.update(root as int, Some(t)));
            assert forall|k: int| 0 <= k < self.n() implies 0 <= #[trigger] repr_in(p, k)
                < self.n() && m0.repr[k] == repr_in(p, k) by {
                lemma_repr_basic(p, k);
            }
            assert(self.model().repr =~= assign_model(m0, a as int, t.model()).repr);
            assert forall|k: int| 0 <= k < self.n() implies #[trigger] self.model().val[k]
                == vgoal[k] by {
                assert(repr_in(p, k) == m0.repr[k]);
                if m0.repr[k] == root as int {
                    assert(self.values@[m0.repr[k]] == Some(t));
                } else {
                    assert(self.values@[m0.repr[k]] == tmid.values@[m0.repr[k]]);
                    assert(opt_model(tmid.values@[repr_in(p, k)]) == tmid.model().val[k]);
                }
            }
            assert(self.model().val =~= assign_model(m0, a as int, t.model()).val);
            assert(self.model() =~= assign_model(m0, a as int, t.model()));
        }
    }
}

/// The model after merging the classes of the roots `a` and `b`: the smaller
/// root represents the union; nothing else changes, and the merged class is
/// as unresolved as both halves were.
pub open spec fn union_model(m: TableModel, a: int, b: int) -> TableModel {
    let rmin = if a < b {
        a
    } else {
        b
    };
    let rmax = if a < b {
        b
    } else {
        a
    };
    TableModel {
        repr: Seq::new(
            m.n(),
            |k: int|
                if m.repr[k] == rmax {
                    rmin
                } else {
                    m.repr[k]
                },
        ),
        val: m.val,
    }
}

/// The model after resolving the class of slot `a` to the value `t`.
pub open spec fn assign_model(m: TableModel, a: int, t: TySpec) -> TableModel {
    TableModel {
        repr: m.repr,
        val: Seq::new(
            m.n(),
            |k: int|
                if m.repr[k] == m.repr[a] {
                    Some(t)
                } else {
                    m.val[k]
                },
        ),
    }
}

} // verus!
