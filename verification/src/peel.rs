//! Peeling references and pointers off a type.

use vstd::prelude::*;
use crate::context::TyCtxt;
use crate::model::{children, HirTyId, HirTyKind, Mutability, TyId, TyKind};

verus! {

/// The type that is left when all layers of reference are taken off `ty`.
pub open spec fn peeled(tcx: &TyCtxt, ty: TyId) -> TyId
    decreases ty,
{
    match tcx.kind(ty) {
        Some(TyKind::Ref(inner, _)) => if inner < ty {
            peeled(tcx, inner)
        } else {
            ty
        },
        _ => ty,
    }
}

/// The number of layers of reference around `ty`.
pub open spec fn ref_depth(tcx: &TyCtxt, ty: TyId) -> nat
    decreases ty,
{
    match tcx.kind(ty) {
        Some(TyKind::Ref(inner, _)) => if inner < ty {
            1 + ref_depth(tcx, inner)
        } else {
            0
        },
        _ => 0,
    }
}

/// The mutability that peeling `ty` ends with when it starts with `m`: a
/// mutable layer leaves it as it is, an immutable one makes it immutable
/// for good.
pub open spec fn peeled_mutability(tcx: &TyCtxt, ty: TyId, m: Mutability) -> Mutability
    decreases ty,
{
    match tcx.kind(ty) {
        Some(TyKind::Ref(inner, layer)) => if inner < ty {
            match layer {
                Mutability::Mut => peeled_mutability(tcx, inner, m),
                Mutability::Not => peeled_mutability(tcx, inner, Mutability::Not),
            }
        } else {
            m
        },
        _ => m,
    }
}

/// A type has at most as many layers of reference as types were added
/// before it.
pub proof fn lemma_ref_depth_bound(tcx: &TyCtxt, ty: TyId)
    ensures
        ref_depth(tcx, ty) <= ty,
    decreases ty,
{
    match tcx.kind(ty) {
        Some(TyKind::Ref(inner, _)) => {
            if inner < ty {
                lemma_ref_depth_bound(tcx, inner);
            }
        },
        _ => {},
    }
}

fn peel(tcx: &TyCtxt, ty: TyId, count: usize) -> (r: (TyId, usize))
    requires
        tcx.wf(),
        count + ref_depth(tcx, ty) <= usize::MAX,
    ensures
        r.0 == peeled(tcx, ty),
        r.1 == count + ref_depth(tcx, ty),
    decreases ty,
{
    match tcx.get(ty) {
        Some(d) => match &d.kind {
            TyKind::Ref(inner, _) => {
                assert(children(tcx.types[ty as int].kind)[0] == *inner);
                peel(tcx, *inner, count + 1)
            },
            _ => (ty, count),
        },
        None => (ty, count),
    }
}

/// Peels off all references on the type. Returns the underlying type and the
/// number of references removed.
pub fn peel_mid_ty_refs(tcx: &TyCtxt, ty: TyId) -> (r: (TyId, usize))
    requires
        tcx.wf(),
    ensures
        r.0 == peeled(tcx, ty),
        r.1 == ref_depth(tcx, ty),
{
    proof {
        lemma_ref_depth_bound(tcx, ty);
    }
    peel(tcx, ty, 0)
}

fn peel_is_mutable(tcx: &TyCtxt, ty: TyId, count: usize, mutability: Mutability) -> (r: (
    TyId,
    usize,
    Mutability,
))
    requires
        tcx.wf(),
        count + ref_depth(tcx, ty) <= usize::MAX,
    ensures
        r.0 == peeled(tcx, ty),
        r.1 == count + ref_depth(tcx, ty),
        r.2 == peeled_mutability(tcx, ty, mutability),
    decreases ty,
{
    match tcx.get(ty) {
        Some(d) => match &d.kind {
            TyKind::Ref(inner, Mutability::Mut) => {
                assert(children(tcx.types[ty as int].kind)[0] == *inner);
                peel_is_mutable(tcx, *inner, count + 1, mutability)
            },
            TyKind::Ref(inner, Mutability::Not) => {
                assert(children(tcx.types[ty as int].kind)[0] == *inner);
                peel_is_mutable(tcx, *inner, count + 1, Mutability::Not)
            },
            _ => (ty, count, mutability),
        },
        None => (ty, count, mutability),
    }
}

/// Peels off all references on the type. Returns the underlying type, the
/// number of references removed, and whether the pointer is ultimately
/// mutable or not.
pub fn peel_mid_ty_refs_is_mutable(tcx: &TyCtxt, ty: TyId) -> (r: (TyId, usize, Mutability))
    requires
        tcx.wf(),
    ensures
        r.0 == peeled(tcx, ty),
        r.1 == ref_depth(tcx, ty),
        r.2 == peeled_mutability(tcx, ty, Mutability::Mut),
{
    proof {
        lemma_ref_depth_bound(tcx, ty);
    }
    peel_is_mutable(tcx, ty, 0, Mutability::Mut)
}

/// Returns the base type for references, and counts the reference depth.
pub fn walk_ptrs_ty_depth(tcx: &TyCtxt, ty: TyId) -> (r: (TyId, usize))
    requires
        tcx.wf(),
    ensures
        r.0 == peeled(tcx, ty),
        r.1 == ref_depth(tcx, ty),
{
    proof {
        lemma_ref_depth_bound(tcx, ty);
    }
    peel(tcx, ty, 0)
}

/// Whether `chain` is `ty` with its layers of reference laid out: each
/// entry but the last is a reference to the next with the mutability in
/// `layers`, and the last is no reference.
pub open spec fn is_ref_chain(tcx: &TyCtxt, chain: Seq<TyId>, layers: Seq<Mutability>) -> bool {
    &&& chain.len() == layers.len() + 1
    &&& forall|i: int|
        0 <= i < layers.len() ==> (#[trigger] tcx.kind(chain[i]) matches Some(TyKind::Ref(t, m))
            && t == chain[i + 1] && m == layers[i])
    &&& !(tcx.kind(chain.last()) matches Some(TyKind::Ref(_, _)))
}

/// Peeling a type of `n` layers of reference gives the innermost type and
/// the count `n`; the mutability that comes out is the one that went in if
/// every layer is mutable, and immutable otherwise.
pub proof fn lemma_peel_ref_chain(
    tcx: &TyCtxt,
    chain: Seq<TyId>,
    layers: Seq<Mutability>,
    m: Mutability,
)
    requires
        tcx.wf(),
        is_ref_chain(tcx, chain, layers),
    ensures
        peeled(tcx, chain[0]) == chain.last(),
        ref_depth(tcx, chain[0]) == layers.len(),
        peeled_mutability(tcx, chain[0], m) == if forall|i: int|
            0 <= i < layers.len() ==> layers[i] == Mutability::Mut {
            m
        } else {
            Mutability::Not
        },
    decreases layers.len(),
{
    if layers.len() == 0 {
    } else {
        let ty = chain[0];
        assert(tcx.kind(chain[0]) matches Some(TyKind::Ref(t, l)) && t == chain[1] && l
            == layers[0]);
        assert(children(tcx.types[ty as int].kind)[0] == chain[1]);
        let rest = chain.subrange(1, chain.len() as int);
        let rest_layers = layers.subrange(1, layers.len() as int);
        assert forall|i: int| 0 <= i < rest_layers.len() implies (#[trigger] tcx.kind(
            rest[i],
        ) matches Some(TyKind::Ref(t, l)) && t == rest[i + 1] && l == rest_layers[i]) by {
            assert(rest[i] == chain[i + 1]);
            assert(tcx.kind(chain[i + 1]) matches Some(TyKind::Ref(t, l)) && t == chain[i + 2] && l
                == layers[i + 1]);
        }
        assert(rest.last() == chain.last());
        let all_mut = forall|i: int| 0 <= i < layers.len() ==> layers[i] == Mutability::Mut;
        let rest_mut = forall|i: int|
            0 <= i < rest_layers.len() ==> rest_layers[i] == Mutability::Mut;
        if layers[0] == Mutability::Mut {
            lemma_peel_ref_chain(tcx, rest, rest_layers, m);
            if all_mut {
                assert forall|i: int| 0 <= i < rest_layers.len() implies rest_layers[i]
                    == Mutability::Mut by {
                    assert(rest_layers[i] == layers[i + 1]);
                }
            } else {
                let i = choose|i: int| 0 <= i < layers.len() && layers[i] != Mutability::Mut;
                assert(rest_layers[i - 1] == layers[i]);
            }
        } else {
            lemma_peel_ref_chain(tcx, rest, rest_layers, Mutability::Not);
            assert(!all_mut);
        }
    }
}

/// The surface-syntax type that is left when all pointers and references
/// are taken off `ty`.
pub open spec fn hir_base(tcx: &TyCtxt, ty: HirTyId) -> HirTyId
    decreases ty,
{
    if ty < tcx.hir_tys.len() {
        match tcx.hir_tys[ty as int] {
            HirTyKind::Ptr(inner) | HirTyKind::Rptr(inner) => if inner < ty {
                hir_base(tcx, inner)
            } else {
                ty
            },
            HirTyKind::Other => ty,
        }
    } else {
        ty
    }
}

/// Returns the base type for surface-syntax references and pointers.
pub fn walk_ptrs_hir_ty(tcx: &TyCtxt, ty: HirTyId) -> (r: HirTyId)
    requires
        tcx.wf(),
    ensures
        r == hir_base(tcx, ty),
    decreases ty,
{
    if ty < tcx.hir_tys.len() {
        match tcx.hir_tys[ty] {
            HirTyKind::Ptr(inner) | HirTyKind::Rptr(inner) => walk_ptrs_hir_ty(tcx, inner),
            HirTyKind::Other => ty,
        }
    } else {
        ty
    }
}

} // verus!
