//! Walking a type: the types it is built from, directly and in all depth.

use vstd::prelude::*;
use crate::context::TyCtxt;
use crate::model::{children, existential_ty, somes, DefId, ExistentialPredicate, TyId, TyKind};
use crate::traits::{adt_did, ty_adt_did};
use crate::visited::{arg_types, copy_ids};

verus! {

/// The types among the bounds of a trait object, in order.
#[verifier::loop_isolation(false)]
pub fn existential_types(preds: &Vec<ExistentialPredicate>) -> (r: Vec<TyId>)
    ensures
        r@ == somes(preds@.map_values(|p: ExistentialPredicate| existential_ty(p))),
{
    let ghost opts = preds@.map_values(|p: ExistentialPredicate| existential_ty(p));
    let mut out: Vec<TyId> = Vec::new();
    let mut i: usize = 0;
    while i < preds.len()
        invariant
            0 <= i <= preds.len(),
            out@ == somes(opts.take(i as int)),
        decreases preds.len() - i,
    {
        assert(opts.take(i + 1).drop_last() =~= opts.take(i as int));
        assert(opts.take(i + 1).last() == existential_ty(preds[i as int]));
        match preds[i] {
            ExistentialPredicate::Trait(_, Some(t)) => {
                out.push(t);
            },
            ExistentialPredicate::Projection(_, t) => {
                out.push(t);
            },
            _ => {},
        }
        i += 1;
    }
    assert(opts.take(i as int) =~= opts);
    out
}

/// The types that a shape is built from, in order.
pub fn children_of(kind: &TyKind) -> (r: Vec<TyId>)
    ensures
        r@ == children(*kind),
{
    match kind {
        TyKind::Adt(_, args) => arg_types(args),
        TyKind::FnDef(_, args) => arg_types(args),
        TyKind::Closure(_, args) => arg_types(args),
        TyKind::Projection(_, args) => arg_types(args),
        TyKind::Opaque(_, args) => arg_types(args),
        TyKind::Array(t, _) => {
            let mut v: Vec<TyId> = Vec::new();
            v.push(*t);
            assert(v@ =~= seq![*t]);
            v
        },
        TyKind::Slice(t) => {
            let mut v: Vec<TyId> = Vec::new();
            v.push(*t);
            assert(v@ =~= seq![*t]);
            v
        },
        TyKind::RawPtr(t, _) => {
            let mut v: Vec<TyId> = Vec::new();
            v.push(*t);
            assert(v@ =~= seq![*t]);
            v
        },
        TyKind::Ref(t, _) => {
            let mut v: Vec<TyId> = Vec::new();
            v.push(*t);
            assert(v@ =~= seq![*t]);
            v
        },
        TyKind::FnPtr(sig) => {
            let mut v = copy_ids(&sig.inputs);
            v.push(sig.output);
            v
        },
        TyKind::Dynamic(preds) => existential_types(preds),
        TyKind::Tuple(ts) => copy_ids(ts),
        _ => {
            let v: Vec<TyId> = Vec::new();
            assert(v@ =~= Seq::empty());
            v
        },
    }
}

/// The types of `cs`, each followed by everything it is built from, in all
/// depth; `bound` is the type that `cs` are the parts of.
pub open spec fn walk_list(tcx: &TyCtxt, cs: Seq<TyId>, bound: TyId) -> Seq<TyId>
    decreases bound, cs.len(),
{
    if cs.len() == 0 {
        Seq::empty()
    } else {
        let c = cs.last();
        let below = if c < bound && c < tcx.types.len() {
            walk_list(tcx, children(tcx.types[c as int].kind), c)
        } else {
            Seq::empty()
        };
        walk_list(tcx, cs.drop_last(), bound) + seq![c] + below
    }
}

/// Everything that `ty` is built from, in all depth, parents before their
/// parts. `ty` itself is not among them.
pub open spec fn proper_descendants(tcx: &TyCtxt, ty: TyId) -> Seq<TyId> {
    if ty < tcx.types.len() {
        walk_list(tcx, children(tcx.types[ty as int].kind), ty)
    } else {
        Seq::empty()
    }
}

#[verifier::loop_isolation(false)]
fn walk_into(tcx: &TyCtxt, ty: TyId, out: &mut Vec<TyId>)
    requires
        tcx.wf(),
    ensures
        final(out)@ == old(out)@ + proper_descendants(tcx, ty),
    decreases ty,
{
    let d = match tcx.get(ty) {
        Some(d) => d,
        None => {
            assert(out@ =~= old(out)@ + proper_descendants(tcx, ty));
            return ;
        },
    };
    let cs = children_of(&d.kind);
    let mut i: usize = 0;
    assert(out@ =~= old(out)@ + walk_list(tcx, cs@.take(0), ty));
    while i < cs.len()
        invariant
            0 <= i <= cs.len(),
            out@ == old(out)@ + walk_list(tcx, cs@.take(i as int), ty),
        decreases cs.len() - i,
    {
        let c = cs[i];
        assert(children(tcx.types[ty as int].kind)[i as int] == c);
        let ghost before = out@;
        out.push(c);
        walk_into(tcx, c, out);
        proof {
            let next = cs@.take(i + 1);
            assert(next.drop_last() =~= cs@.take(i as int));
            assert(next.last() == c);
            assert(out@ =~= old(out)@ + walk_list(tcx, next, ty));
        }
        i += 1;
    }
    assert(cs@.take(i as int) =~= cs@);
}

/// Everything that `ty` is built from, in all depth.
pub fn walk(tcx: &TyCtxt, ty: TyId) -> (r: Vec<TyId>)
    requires
        tcx.wf(),
    ensures
        r@ == proper_descendants(tcx, ty),
{
    let mut out: Vec<TyId> = Vec::new();
    walk_into(tcx, ty, &mut out);
    assert(out@ =~= proper_descendants(tcx, ty));
    out
}

/// Walks into `ty` and returns `true` if `ty` or any type it is built from
/// is an instance of the algebraic type `adt`.
#[verifier::loop_isolation(false)]
pub fn contains_adt_constructor(tcx: &TyCtxt, ty: TyId, adt: DefId) -> (r: bool)
    requires
        tcx.wf(),
    ensures
        r == (adt_did(tcx, ty) == Some(adt) || exists|j: int|
            0 <= j < proper_descendants(tcx, ty).len() && adt_did(
                tcx,
                #[trigger] proper_descendants(tcx, ty)[j],
            ) == Some(adt)),
{
    if ty_adt_did(tcx, ty) == Some(adt) {
        return true;
    }
    let inner = walk(tcx, ty);
    let mut j: usize = 0;
    while j < inner.len()
        invariant
            0 <= j <= inner.len(),
            forall|k: int| 0 <= k < j ==> adt_did(tcx, #[trigger] inner[k]) != Some(adt),
        decreases inner.len() - j,
    {
        if ty_adt_did(tcx, inner[j]) == Some(adt) {
            return true;
        }
        j += 1;
    }
    false
}

} // verus!
