//! Building a context, and checking one that was built elsewhere.

use vstd::prelude::*;
use crate::context::{holds_signature, LateContext, TyCtxt};
use crate::drop_order::no_infer;
use crate::model::{
    children, DefData, DefId, HirTyId, HirTyKind, LangItems, TyData, TyId, TyKind,
};
use crate::sig::{is_normal_form, normalization_settled, normalized};
use crate::traits::needs_infer;
use crate::walk::children_of;

verus! {

/// Whether all of `cs` are below `bound`.
#[verifier::loop_isolation(false)]
fn all_below(cs: &Vec<TyId>, bound: TyId) -> (r: bool)
    ensures
        r == forall|j: int| 0 <= j < cs.len() ==> (#[trigger] cs[j]) < bound,
{
    let mut j: usize = 0;
    while j < cs.len()
        invariant
            0 <= j <= cs.len(),
            forall|k: int| 0 <= k < j ==> (#[trigger] cs[k]) < bound,
        decreases cs.len() - j,
    {
        if cs[j] >= bound {
            return false;
        }
        j += 1;
    }
    true
}

/// Whether the node holds its signature if it is a function item or a
/// closure.
fn has_signature(d: &TyData) -> (r: bool)
    ensures
        r == holds_signature(*d),
{
    match &d.kind {
        TyKind::FnDef(_, _) => d.sig.is_some(),
        TyKind::Closure(_, _) => d.sig.is_some(),
        _ => true,
    }
}

impl TyCtxt {
    /// A context without types and definitions.
    pub fn new(lang_items: LangItems) -> (r: Self)
        ensures
            r.wf(),
            r.types.len() == 0,
            r.defs.len() == 0,
            r.hir_tys.len() == 0,
            r.lang_items == lang_items,
    {
        TyCtxt { types: Vec::new(), defs: Vec::new(), hir_tys: Vec::new(), lang_items }
    }

    /// Adds a type at the end of the arena and returns its index. A type
    /// that is not built from types of the context is refused, and so is a
    /// function item or closure without its signature. The arena is not
    /// searched for an equal type: the caller adds each type once.
    pub fn mk_ty(&mut self, data: TyData) -> (r: Option<TyId>)
        requires
            old(self).wf(),
        ensures
            final(self).wf(),
            final(self).defs == old(self).defs,
            final(self).hir_tys == old(self).hir_tys,
            final(self).lang_items == old(self).lang_items,
            match r {
                Some(id) => id == old(self).types.len() && final(self).types@ == old(
                    self,
                ).types@.push(data),
                None => final(self).types == old(self).types && (!holds_signature(data)
                    || exists|j: int|
                    0 <= j < children(data.kind).len() && #[trigger] children(data.kind)[j] >= old(
                        self,
                    ).types.len()),
            },
    {
        let id = self.types.len();
        if !has_signature(&data) {
            return None;
        }
        let cs = children_of(&data.kind);
        if !all_below(&cs, id) {
            let ghost j = choose|j: int| 0 <= j < cs.len() && cs[j] >= id;
            assert(children(data.kind)[j] >= id);
            return None;
        }
        self.types.push(data);
        assert forall|t: int, j: int|
            0 <= t < self.types.len() && 0 <= j < children(
                self.types[t].kind,
            ).len() implies #[trigger] children(self.types[t].kind)[j] < t by {
            if t < id {
                assert(self.types[t] == old(self).types[t]);
                assert(children(old(self).types[t].kind)[j] < t);
            } else {
                assert(cs[j] < id);
            }
        }
        assert forall|t: int| 0 <= t < self.types.len() implies holds_signature(
            #[trigger] self.types[t],
        ) by {
            if t < id {
                assert(self.types[t] == old(self).types[t]);
            }
        }
        Some(id)
    }

    /// Adds a definition and returns its index. A definition that inherits
    /// predicates from one that is not there yet is refused.
    pub fn add_def(&mut self, data: DefData) -> (r: Option<DefId>)
        requires
            old(self).wf(),
        ensures
            final(self).wf(),
            final(self).types == old(self).types,
            final(self).hir_tys == old(self).hir_tys,
            final(self).lang_items == old(self).lang_items,
            match r {
                Some(id) => id == old(self).defs.len() && final(self).defs@ == old(self).defs@.push(
                    data,
                ),
                None => final(self).defs == old(self).defs && (
                data.predicates_parent matches Some(p) && p >= old(self).defs.len()),
            },
    {
        let id = self.defs.len();
        if let Some(p) = data.predicates_parent {
            if p >= id {
                return None;
            }
        }
        self.defs.push(data);
        assert forall|d: int| 0 <= d < self.defs.len() implies match (
        #[trigger] self.defs[d]).predicates_parent {
            Some(p) => p < d,
            None => true,
        } by {
            if d < id {
                assert(self.defs[d] == old(self).defs[d]);
            }
        }
        Some(id)
    }

    /// Adds a surface-syntax type and returns its index. A pointer to a
    /// type that is not there yet is refused.
    pub fn add_hir_ty(&mut self, kind: HirTyKind) -> (r: Option<HirTyId>)
        requires
            old(self).wf(),
        ensures
            final(self).wf(),
            final(self).types == old(self).types,
            final(self).defs == old(self).defs,
            final(self).lang_items == old(self).lang_items,
            match r {
                Some(id) => id == old(self).hir_tys.len() && final(self).hir_tys@ == old(
                    self,
                ).hir_tys@.push(kind),
                None => final(self).hir_tys == old(self).hir_tys && match kind {
                    HirTyKind::Ptr(t) | HirTyKind::Rptr(t) => t >= old(self).hir_tys.len(),
                    HirTyKind::Other => false,
                },
            },
    {
        let id = self.hir_tys.len();
        let ok = match kind {
            HirTyKind::Ptr(t) => t < id,
            HirTyKind::Rptr(t) => t < id,
            HirTyKind::Other => true,
        };
        if !ok {
            return None;
        }
        self.hir_tys.push(kind);
        assert forall|h: int| 0 <= h < self.hir_tys.len() implies match #[trigger] self.hir_tys[h] {
            HirTyKind::Ptr(t) | HirTyKind::Rptr(t) => t < h,
            HirTyKind::Other => true,
        } by {
            if h < id {
                assert(self.hir_tys[h] == old(self).hir_tys[h]);
            }
        }
        Some(id)
    }

    /// Whether the context is well-formed.
    #[verifier::loop_isolation(false)]
    pub fn is_well_formed(&self) -> (r: bool)
        ensures
            r == self.wf(),
    {
        let mut t: usize = 0;
        while t < self.types.len()
            invariant
                0 <= t <= self.types.len(),
                forall|id: int, j: int|
                    0 <= id < t && 0 <= j < children(self.types[id].kind).len()
                        ==> #[trigger] children(self.types[id].kind)[j] < id,
                forall|id: int| 0 <= id < t ==> holds_signature(#[trigger] self.types[id]),
            decreases self.types.len() - t,
        {
            if !has_signature(&self.types[t]) {
                assert(!holds_signature(self.types[t as int]));
                return false;
            }
            let cs = children_of(&self.types[t].kind);
            if !all_below(&cs, t) {
                let ghost j = choose|j: int| 0 <= j < cs.len() && cs[j] >= t;
                assert(!(children(self.types[t as int].kind)[j] < t));
                return false;
            }
            assert forall|j: int|
                0 <= j < children(self.types[t as int].kind).len() implies #[trigger] children(
                self.types[t as int].kind,
            )[j] < t by {
                assert(cs[j] < t);
            }
            t += 1;
        }
        let mut h: usize = 0;
        while h < self.hir_tys.len()
            invariant
                0 <= h <= self.hir_tys.len(),
                forall|k: int|
                    0 <= k < h ==> match #[trigger] self.hir_tys[k] {
                        HirTyKind::Ptr(t) | HirTyKind::Rptr(t) => t < k,
                        HirTyKind::Other => true,
                    },
            decreases self.hir_tys.len() - h,
        {
            let ok = match self.hir_tys[h] {
                HirTyKind::Ptr(t) => t < h,
                HirTyKind::Rptr(t) => t < h,
                HirTyKind::Other => true,
            };
            if !ok {
                return false;
            }
            h += 1;
        }
        let mut d: usize = 0;
        while d < self.defs.len()
            invariant
                0 <= d <= self.defs.len(),
                forall|k: int|
                    0 <= k < d ==> match (#[trigger] self.defs[k]).predicates_parent {
                        Some(p) => p < k,
                        None => true,
                    },
            decreases self.defs.len() - d,
        {
            let ok = match self.defs[d].predicates_parent {
                Some(p) => p < d,
                None => true,
            };
            if !ok {
                return false;
            }
            d += 1;
        }
        true
    }

    /// Whether no type of the context holds an inference placeholder.
    #[verifier::loop_isolation(false)]
    pub fn has_no_infer(&self) -> (r: bool)
        ensures
            r == no_infer(self),
    {
        let mut t: usize = 0;
        while t < self.types.len()
            invariant
                0 <= t <= self.types.len(),
                forall|k: TyId| k < t ==> !needs_infer(self, k),
            decreases self.types.len() - t,
        {
            if self.types[t].needs_infer {
                assert(needs_infer(self, t));
                return false;
            }
            t += 1;
        }
        true
    }
}

impl LateContext {
    fn is_normal(&self, ty: TyId) -> (r: bool)
        ensures
            r == is_normal_form(self, ty),
    {
        match self.tcx.get_facts(self.param_env.id, ty) {
            Some(f) => match f.normalized {
                Some(n) => n == ty,
                None => false,
            },
            None => false,
        }
    }

    /// Whether normalization has settled in this context.
    #[verifier::loop_isolation(false)]
    pub fn is_normalization_settled(&self) -> (r: bool)
        ensures
            r == normalization_settled(self),
    {
        let tcx = &self.tcx;
        let mut t: usize = 0;
        while t < tcx.types.len()
            invariant
                0 <= t <= tcx.types.len(),
                forall|k: TyId|
                    k < t ==> match #[trigger] normalized(self, k) {
                        Some(n) => is_normal_form(self, n),
                        None => true,
                    },
                forall|k: TyId, j: int|
                    k < t && is_normal_form(self, k) && 0 <= j < children(
                        tcx.types[k as int].kind,
                    ).len() ==> is_normal_form(self, #[trigger] children(tcx.types[k as int].kind)[j]),
            decreases tcx.types.len() - t,
        {
            let n = match tcx.get_facts(self.param_env.id, t) {
                Some(f) => f.normalized,
                None => None,
            };
            if let Some(n) = n {
                if !self.is_normal(n) {
                    assert(normalized(self, t) == Some(n));
                    return false;
                }
            }
            if self.is_normal(t) {
                let cs = children_of(&tcx.types[t].kind);
                let mut j: usize = 0;
                while j < cs.len()
                    invariant
                        0 <= j <= cs.len(),
                        forall|i: int| 0 <= i < j ==> is_normal_form(self, #[trigger] cs[i]),
                    decreases cs.len() - j,
                {
                    if !self.is_normal(cs[j]) {
                        assert(!is_normal_form(
                            self,
                            children(tcx.types[t as int].kind)[j as int],
                        ));
                        return false;
                    }
                    j += 1;
                }
                assert forall|i: int|
                    0 <= i < children(tcx.types[t as int].kind).len() implies is_normal_form(
                    self,
                    #[trigger] children(tcx.types[t as int].kind)[i],
                ) by {
                    assert(is_normal_form(self, cs[i]));
                }
            }
            t += 1;
        }
        assert forall|k: TyId|
            match #[trigger] normalized(self, k) {
                Some(n) => is_normal_form(self, n),
                None => true,
            } by {
            if k >= tcx.types.len() {
                assert(normalized(self, k).is_none());
            }
        }
        true
    }
}

} // verus!
