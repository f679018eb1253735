//! The type context: the arena of type nodes and definitions, with its
//! well-formedness and the total lookups that every query goes through.

use vstd::prelude::*;
use crate::model::{
    arg_ty, children, lemma_somes_contains, somes, GenericArg, DefData, DefId, EnvFacts, HirTyKind, LangItems, ParamEnv, TyData, TyId,
    TyKind,
};

verus! {

/// Whether the node holds its signature if it is a function item or a
/// closure.
pub open spec fn holds_signature(d: TyData) -> bool {
    (d.kind is FnDef || d.kind is Closure) ==> d.sig.is_some()
}

/// The arena that all queries read. It is meant to hold each type once:
/// the queries take two indices for two types, and whoever fills the arena
/// sees to it that no type is added twice.
pub struct TyCtxt {
    pub types: Vec<TyData>,
    pub defs: Vec<DefData>,
    pub hir_tys: Vec<HirTyKind>,
    pub lang_items: LangItems,
}

/// A type context together with the parameter environment of the item that
/// is being looked at.
pub struct LateContext {
    pub tcx: TyCtxt,
    pub param_env: ParamEnv,
}

impl TyCtxt {
    /// Every type is built from types added before it, every function item
    /// and closure holds its signature, every surface-syntax pointer points
    /// at an earlier node, and predicates are inherited from earlier
    /// definitions only.
    pub open spec fn wf(&self) -> bool {
        &&& forall|id: int, j: int|
            0 <= id < self.types.len() && 0 <= j < children(self.types[id].kind).len()
                ==> #[trigger] children(self.types[id].kind)[j] < id
        &&& forall|id: int| 0 <= id < self.types.len() ==> holds_signature(#[trigger] self.types[id])
        &&& forall|h: int|
            0 <= h < self.hir_tys.len() ==> match #[trigger] self.hir_tys[h] {
                HirTyKind::Ptr(t) | HirTyKind::Rptr(t) => t < h,
                HirTyKind::Other => true,
            }
        &&& forall|d: int|
            0 <= d < self.defs.len() ==> match (#[trigger] self.defs[d]).predicates_parent {
                Some(p) => p < d,
                None => true,
            }
    }

    /// The node of `ty`, if `ty` is a type of this context.
    pub open spec fn ty_data(&self, ty: TyId) -> Option<TyData> {
        if ty < self.types.len() {
            Some(self.types[ty as int])
        } else {
            None
        }
    }

    /// The shape of `ty`, if `ty` is a type of this context.
    pub open spec fn kind(&self, ty: TyId) -> Option<TyKind> {
        if ty < self.types.len() {
            Some(self.types[ty as int].kind)
        } else {
            None
        }
    }

    /// The definition `id`, if there is one.
    pub open spec fn def(&self, id: DefId) -> Option<DefData> {
        if id < self.defs.len() {
            Some(self.defs[id as int])
        } else {
            None
        }
    }

    /// What is known of `ty` in the environment `env`, if anything.
    pub open spec fn facts(&self, env: usize, ty: TyId) -> Option<EnvFacts> {
        if ty < self.types.len() && env < self.types[ty as int].facts.len() {
            Some(self.types[ty as int].facts[env as int])
        } else {
            None
        }
    }

    pub fn get(&self, ty: TyId) -> (r: Option<&TyData>)
        ensures
            r.is_some() == (ty < self.types.len()),
            r matches Some(d) ==> *d == self.types[ty as int],
            (match r { Some(d) => Some(*d), None => None }) == self.ty_data(ty),
            (match r { Some(d) => Some(d.kind), None => None }) == self.kind(ty),
    {
        if ty < self.types.len() {
            Some(&self.types[ty])
        } else {
            None
        }
    }

    pub fn get_def(&self, id: DefId) -> (r: Option<&DefData>)
        ensures
            (match r { Some(d) => Some(*d), None => None }) == self.def(id),
    {
        if id < self.defs.len() {
            Some(&self.defs[id])
        } else {
            None
        }
    }

    pub fn get_facts(&self, env: usize, ty: TyId) -> (r: Option<&EnvFacts>)
        ensures
            (match r { Some(d) => Some(*d), None => None }) == self.facts(env, ty),
    {
        if ty < self.types.len() {
            let d = &self.types[ty];
            if env < d.facts.len() {
                Some(&d.facts[env])
            } else {
                None
            }
        } else {
            None
        }
    }
}

/// Under well-formedness a type is built from earlier types only.
pub proof fn lemma_child_below(tcx: &TyCtxt, ty: TyId, c: TyId)
    requires
        tcx.wf(),
        ty < tcx.types.len(),
        children(tcx.types[ty as int].kind).contains(c),
    ensures
        c < ty,
{
    let s = children(tcx.types[ty as int].kind);
    let j = choose|j: int| 0 <= j < s.len() && s[j] == c;
    assert(children(tcx.types[ty as int].kind)[j] < ty);
}

/// A type argument of a generic type is built before the type.
pub proof fn lemma_arg_below(tcx: &TyCtxt, ty: TyId, args: Seq<GenericArg>, j: int, t: TyId)
    requires
        tcx.wf(),
        ty < tcx.types.len(),
        children(tcx.types[ty as int].kind) == somes(args.map_values(|a: GenericArg| arg_ty(a))),
        0 <= j < args.len(),
        args[j] == GenericArg::Type(t),
    ensures
        t < ty,
{
    let opts = args.map_values(|a: GenericArg| arg_ty(a));
    assert(opts[j] == Some(t));
    lemma_somes_contains(opts, t);
    lemma_child_below(tcx, ty, t);
}

} // verus!
