//! Whether the order in which values of a type are dropped can be observed.

use vstd::prelude::*;
use crate::classify::{
    adt_path, diagnostic_name, get_type_diagnostic_name, is_type_lang_item, match_type,
};
use crate::context::{LateContext, TyCtxt};
use crate::model::{arg_ty, somes, GenericArg, LangItem, TyId, TyKind};
use crate::sym;
use crate::traits::{adt_did, implements, implements_trait, needs_infer};
use crate::visited::{
    arg_types, copy_ids, flat, flatten_fields, lemma_count_true_bound, TySet,
};

verus! {

/// The path of the weak counterpart of the reference-counted pointer.
pub open spec fn weak_rc_path() -> Seq<u32> {
    seq![sym::ALLOC, sym::RC_MOD, sym::WEAK]
}

/// The path of the weak counterpart of the atomically reference-counted
/// pointer.
pub open spec fn weak_arc_path() -> Seq<u32> {
    seq![sym::ALLOC, sym::SYNC, sym::WEAK]
}

/// Whether `ty` is one of the types whose destructor only gives memory
/// back: the owning box, a hash set, a reference-counted pointer or its weak
/// counterpart.
pub open spec fn frees_memory_only(tcx: &TyCtxt, ty: TyId) -> bool {
    ||| (adt_did(tcx, ty) matches Some(did) && tcx.lang_items.owned_box == Some(did))
    ||| (diagnostic_name(tcx, ty) matches Some(n) && (n == sym::HASH_SET || n == sym::RC || n
        == sym::ARC))
    ||| adt_path(tcx, ty) == Some(weak_rc_path())
    ||| adt_path(tcx, ty) == Some(weak_arc_path())
}

/// Whether dropping `ty` has been recorded as significant.
pub open spec fn significant_drop(cx: &LateContext, ty: TyId) -> bool {
    match cx.tcx.facts(cx.param_env.id, ty) {
        Some(f) => f.has_significant_drop,
        None => false,
    }
}

/// Whether `ty` implements the destructor trait.
pub open spec fn implements_drop(cx: &LateContext, ty: TyId) -> bool {
    match cx.tcx.lang_items.drop_trait {
        Some(id) => implements(&cx.tcx, cx.param_env.id, ty, id, Seq::empty()),
        None => false,
    }
}

/// What the drop order of `ty` depends on. `None`: the order matters at `ty`
/// itself. `Some(parts)`: it matters exactly when it matters for one of
/// `parts`.
///
/// A type whose drop is not significant depends on nothing. A type that
/// only frees memory depends on its type arguments. A type without a
/// destructor of its own depends on its fields if it is a tuple, an array or
/// an algebraic type, and matters itself otherwise. A type with a
/// destructor of its own matters itself.
pub open spec fn drop_parts(cx: &LateContext, ty: TyId) -> Option<Seq<TyId>> {
    match cx.tcx.ty_data(ty) {
        None => Some(Seq::empty()),
        Some(d) => if !significant_drop(cx, ty) {
            Some(Seq::empty())
        } else if frees_memory_only(&cx.tcx, ty) {
            match d.kind {
                TyKind::Adt(_, subs) => Some(somes(subs@.map_values(|a: GenericArg| arg_ty(a)))),
                _ => None,
            }
        } else if !implements_drop(cx, ty) {
            match d.kind {
                TyKind::Tuple(fields) => Some(fields@),
                TyKind::Array(t, _) => Some(seq![t]),
                TyKind::Adt(_, _) => Some(flat(d.variant_fields@)),
                _ => None,
            }
        } else {
            None
        },
    }
}

/// Whether each type of `p` but the last depends on the next for its drop
/// order.
pub open spec fn is_drop_path(cx: &LateContext, p: Seq<TyId>) -> bool {
    p.len() > 0 && forall|i: int|
        0 <= i < p.len() - 1 ==> (#[trigger] drop_parts(cx, p[i]) matches Some(s) && s.contains(
            p[i + 1],
        ))
}

/// Whether the drop order of `ty` matters: from `ty`, going from a type to
/// the types its drop order depends on, a type can be reached at which the
/// order matters itself.
pub open spec fn drop_order_matters(cx: &LateContext, ty: TyId) -> bool {
    exists|p: Seq<TyId>| #[trigger]
        is_drop_path(cx, p) && p[0] == ty && drop_parts(cx, p.last()).is_none()
}

/// Whether no type of the context holds an inference placeholder.
pub open spec fn no_infer(tcx: &TyCtxt) -> bool {
    forall|t: TyId| !needs_infer(tcx, t)
}

/// Whether telling what the drop order of `ty` depends on takes asking
/// whether `ty` implements the destructor trait.
pub open spec fn asks_for_drop_impl(cx: &LateContext, ty: TyId) -> bool {
    cx.tcx.ty_data(ty).is_some() && significant_drop(cx, ty) && !frees_memory_only(&cx.tcx, ty)
        && cx.tcx.lang_items.drop_trait.is_some()
}

/// Whether `t` can be reached from `ty`, going from a type to the types
/// its drop order depends on.
pub open spec fn drop_reaches(cx: &LateContext, ty: TyId, t: TyId) -> bool {
    exists|p: Seq<TyId>| #[trigger] is_drop_path(cx, p) && p[0] == ty && p.last() == t
}

/// Whether the drop order of `ty` can be asked for: no type that can be
/// reached from `ty` and is asked about the destructor trait holds an
/// inference placeholder.
pub open spec fn drop_impls_can_be_asked(cx: &LateContext, ty: TyId) -> bool {
    forall|t: TyId|
        #![trigger drop_reaches(cx, ty, t)]
        drop_reaches(cx, ty, t) && asks_for_drop_impl(cx, t) ==> !needs_infer(&cx.tcx, t)
}

/// In a context without inference placeholders the drop order of any type
/// can be asked for.
pub proof fn lemma_no_infer_can_be_asked(cx: &LateContext, ty: TyId)
    requires
        no_infer(&cx.tcx),
    ensures
        drop_impls_can_be_asked(cx, ty),
{
}

/// A type reaches itself.
pub proof fn lemma_reaches_self(cx: &LateContext, ty: TyId)
    ensures
        drop_reaches(cx, ty, ty),
{
    let p = seq![ty];
    assert(is_drop_path(cx, p) && p[0] == ty && p.last() == ty);
}

/// A path from a part of a type goes on from the type.
pub proof fn lemma_prepend_path(cx: &LateContext, ty: TyId, q: Seq<TyId>)
    requires
        is_drop_path(cx, q),
        drop_parts(cx, ty) matches Some(s) && s.contains(q[0]),
    ensures
        is_drop_path(cx, seq![ty] + q),
        (seq![ty] + q)[0] == ty,
        (seq![ty] + q).last() == q.last(),
{
    let p = seq![ty] + q;
    assert forall|i: int| 0 <= i < p.len() - 1 implies (#[trigger] drop_parts(
        cx,
        p[i],
    ) matches Some(s) && s.contains(p[i + 1])) by {
        if i == 0 {
            assert(p[1] == q[0]);
        } else {
            assert(p[i] == q[i - 1]);
            assert(p[i + 1] == q[i]);
            assert(drop_parts(cx, q[i - 1]) matches Some(s) && s.contains(q[i]));
        }
    }
    assert(p.last() == q.last());
}

/// Where the drop order of a type can be asked for, that of each type it
/// depends on can.
pub proof fn lemma_part_can_be_asked(cx: &LateContext, ty: TyId, part: TyId)
    requires
        drop_parts(cx, ty) matches Some(s) && s.contains(part),
        drop_impls_can_be_asked(cx, ty),
    ensures
        drop_impls_can_be_asked(cx, part),
{
    assert forall|t: TyId|
        #![trigger drop_reaches(cx, part, t)]
        drop_reaches(cx, part, t) && asks_for_drop_impl(cx, t) implies !needs_infer(
        &cx.tcx,
        t,
    ) by {
        let q = choose|q: Seq<TyId>| #[trigger]
            is_drop_path(cx, q) && q[0] == part && q.last() == t;
        lemma_prepend_path(cx, ty, q);
        let p = seq![ty] + q;
        assert(is_drop_path(cx, p) && p[0] == ty && p.last() == t);
        assert(drop_reaches(cx, ty, t));
    }
}

fn is_alloc_only(cx: &LateContext, ty: TyId) -> (r: bool)
    ensures
        r == frees_memory_only(&cx.tcx, ty),
{
    if is_type_lang_item(cx, ty, LangItem::OwnedBox) {
        return true;
    }
    let named = match get_type_diagnostic_name(cx, ty) {
        Some(n) => n == sym::HASH_SET || n == sym::RC || n == sym::ARC,
        None => false,
    };
    if named {
        return true;
    }
    let weak_rc: [u32; 3] = [sym::ALLOC, sym::RC_MOD, sym::WEAK];
    let weak_arc: [u32; 3] = [sym::ALLOC, sym::SYNC, sym::WEAK];
    assert(weak_rc@ =~= weak_rc_path());
    assert(weak_arc@ =~= weak_arc_path());
    match_type(cx, ty, weak_rc.as_slice()) || match_type(cx, ty, weak_arc.as_slice())
}

/// The types that the drop order of `ty` depends on, or `None` where the
/// order matters at `ty` itself.
pub fn drop_parts_of(cx: &LateContext, ty: TyId) -> (r: Option<Vec<TyId>>)
    requires
        asks_for_drop_impl(cx, ty) ==> !needs_infer(&cx.tcx, ty),
    ensures
        (match r {
            Some(v) => Some(v@),
            None => None,
        }) == drop_parts(cx, ty),
{
    let d = match cx.tcx.get(ty) {
        Some(d) => d,
        None => { return Some(Vec::new()); },
    };
    let significant = match cx.tcx.get_facts(cx.param_env.id, ty) {
        Some(f) => f.has_significant_drop,
        None => false,
    };
    if !significant {
        Some(Vec::new())
    } else if is_alloc_only(cx, ty) {
        match &d.kind {
            TyKind::Adt(_, subs) => Some(arg_types(subs)),
            _ => None,
        }
    } else {
        let has_impl = match cx.tcx.lang_items.drop_trait {
            Some(id) => {
                let no_args: Vec<GenericArg> = Vec::new();
                assert(no_args@ =~= Seq::empty());
                implements_trait(cx, ty, id, no_args.as_slice())
            },
            None => false,
        };
        if !has_impl {
            match &d.kind {
                TyKind::Tuple(fields) => Some(copy_ids(fields)),
                TyKind::Array(t, _) => {
                    let mut v: Vec<TyId> = Vec::new();
                    v.push(*t);
                    assert(v@ =~= seq![*t]);
                    Some(v)
                },
                TyKind::Adt(_, _) => Some(flatten_fields(&d.variant_fields)),
                _ => None,
            }
        } else {
            None
        }
    }
}

/// Whether the drop order of `t` has been settled not to matter as far as
/// the types in `seen` go: `t` depends on its parts only, and each part is
/// in `seen` or no type of the context.
pub open spec fn settled(cx: &LateContext, t: TyId, seen: &TySet) -> bool {
    drop_parts(cx, t) matches Some(s) && forall|j: int|
        0 <= j < s.len() ==> (#[trigger] s[j]) >= seen.size() || seen.contains(s[j])
}

/// From a set whose types are all settled no type can be reached at which
/// the drop order matters.
pub proof fn lemma_settled_set_is_closed(cx: &LateContext, seen: &TySet, p: Seq<TyId>)
    requires
        seen.size() == cx.tcx.types.len(),
        forall|t: TyId| seen.contains(t) ==> settled(cx, t, seen),
        is_drop_path(cx, p),
        p[0] >= seen.size() || seen.contains(p[0]),
    ensures
        drop_parts(cx, p.last()).is_some(),
    decreases p.len(),
{
    if p.len() == 1 {
    } else {
        assert(drop_parts(cx, p[0]) matches Some(s) && s.contains(p[1]));
        let s = drop_parts(cx, p[0]).unwrap();
        let j = choose|j: int| 0 <= j < s.len() && s[j] == p[1];
        assert(s[j] >= seen.size() || seen.contains(s[j]));
        let q = p.subrange(1, p.len() as int);
        assert forall|i: int| 0 <= i < q.len() - 1 implies (#[trigger] drop_parts(
            cx,
            q[i],
        ) matches Some(s) && s.contains(q[i + 1])) by {
            assert(q[i] == p[i + 1]);
            assert(drop_parts(cx, p[i + 1]) matches Some(s) && s.contains(p[i + 2]));
        }
        assert(q.last() == p.last());
        lemma_settled_set_is_closed(cx, seen, q);
    }
}

/// A type depends on a part at which the order matters: then it matters
/// for the type.
pub proof fn lemma_part_matters(cx: &LateContext, ty: TyId, part: TyId)
    requires
        drop_parts(cx, ty) matches Some(s) && s.contains(part),
        drop_order_matters(cx, part),
    ensures
        drop_order_matters(cx, ty),
{
    let q = choose|q: Seq<TyId>| #[trigger]
        is_drop_path(cx, q) && q[0] == part && drop_parts(cx, q.last()).is_none();
    lemma_prepend_path(cx, ty, q);
    let p = seq![ty] + q;
    assert(is_drop_path(cx, p) && p[0] == ty && drop_parts(cx, p.last()).is_none());
}

/// Whether `ty` is asked about the destructor trait while it holds an
/// inference placeholder.
fn asks_a_placeholder(cx: &LateContext, ty: TyId) -> (r: bool)
    ensures
        r == (asks_for_drop_impl(cx, ty) && needs_infer(&cx.tcx, ty)),
{
    let d = match cx.tcx.get(ty) {
        Some(d) => d,
        None => { return false; },
    };
    if !d.needs_infer {
        return false;
    }
    let significant = match cx.tcx.get_facts(cx.param_env.id, ty) {
        Some(f) => f.has_significant_drop,
        None => false,
    };
    significant && !is_alloc_only(cx, ty) && cx.tcx.lang_items.drop_trait.is_some()
}

#[verifier::loop_isolation(false)]
fn needs_ordered_drop_inner(cx: &LateContext, ty: TyId, seen: &mut TySet) -> (r: Option<bool>)
    requires
        old(seen).wf(),
        old(seen).size() == cx.tcx.types.len(),
    ensures
        final(seen).wf(),
        old(seen).subset_of(final(seen)),
        old(seen).count() <= final(seen).count(),
        r.is_none() ==> !drop_impls_can_be_asked(cx, ty),
        r == Some(true) ==> drop_order_matters(cx, ty),
        r == Some(false) ==> ty >= final(seen).size() || final(seen).contains(ty),
        r == Some(false) ==> forall|t: TyId|
            final(seen).contains(t) && !old(seen).contains(t) ==> settled(cx, t, final(seen)),
    decreases old(seen).size() - old(seen).count(),
{
    if ty >= cx.tcx.types.len() {
        return Some(false);
    }
    if !seen.insert(ty) {
        return Some(false);
    }
    proof {
        lemma_reaches_self(cx, ty);
    }
    if asks_a_placeholder(cx, ty) {
        return None;
    }
    let parts = match drop_parts_of(cx, ty) {
        Some(parts) => parts,
        None => {
            proof {
                let p = seq![ty];
                assert(is_drop_path(cx, p) && p[0] == ty && drop_parts(cx, p.last()).is_none());
            }
            return Some(true);
        },
    };
    let mut k: usize = 0;
    while k < parts.len()
        invariant
            0 <= k <= parts.len(),
            seen.wf(),
            seen.size() == cx.tcx.types.len(),
            old(seen).subset_of(seen),
            seen.contains(ty),
            seen.count() > old(seen).count(),
            forall|t: TyId|
                seen.contains(t) && !old(seen).contains(t) && t != ty ==> settled(cx, t, seen),
            forall|j: int|
                0 <= j < k ==> (#[trigger] parts[j]) >= seen.size() || seen.contains(parts[j]),
        decreases parts.len() - k,
    {
        let ghost before = *seen;
        proof {
            lemma_count_true_bound(seen.marks@.bits);
            assert(drop_parts(cx, ty).unwrap()[k as int] == parts[k as int]);
        }
        match needs_ordered_drop_inner(cx, parts[k], seen) {
            None => {
                proof {
                    if drop_impls_can_be_asked(cx, ty) {
                        lemma_part_can_be_asked(cx, ty, parts[k as int]);
                    }
                }
                return None;
            },
            Some(true) => {
                proof {
                    lemma_part_matters(cx, ty, parts[k as int]);
                }
                return Some(true);
            },
            Some(false) => {},
        }
        assert forall|t: TyId|
            seen.contains(t) && !old(seen).contains(t) && t != ty implies settled(
            cx,
            t,
            seen,
        ) by {
            if before.contains(t) {
                assert(settled(cx, t, &before));
                let s = drop_parts(cx, t).unwrap();
                assert forall|j: int| 0 <= j < s.len() implies (#[trigger] s[j])
                    >= seen.size() || seen.contains(s[j]) by {
                    assert(s[j] >= before.size() || before.contains(s[j]));
                }
            }
        }
        assert forall|j: int| 0 <= j < k + 1 implies (#[trigger] parts[j]) >= seen.size()
            || seen.contains(parts[j]) by {
            if j < k {
                assert(parts[j] >= before.size() || before.contains(parts[j]));
            }
        }
        k += 1;
    }
    Some(false)
}

/// Checks if the drop order for a type matters, as far as it can be asked
/// for. The search stops at the first type at which the order matters, and
/// gives up, with `None`, at a type that is asked about the destructor
/// trait while it holds an inference placeholder; which of the two it
/// meets first is a matter of the order of the parts.
pub fn try_needs_ordered_drop(cx: &LateContext, ty: TyId) -> (r: Option<bool>)
    ensures
        drop_impls_can_be_asked(cx, ty) ==> r.is_some(),
        r matches Some(b) ==> b == drop_order_matters(cx, ty),
{
    let mut seen = TySet::new(cx.tcx.types.len());
    let r = needs_ordered_drop_inner(cx, ty, &mut seen);
    proof {
        if r == Some(false) && drop_order_matters(cx, ty) {
            let p = choose|p: Seq<TyId>| #[trigger]
                is_drop_path(cx, p) && p[0] == ty && drop_parts(cx, p.last()).is_none();
            lemma_settled_set_is_closed(cx, &seen, p);
        }
    }
    r
}

/// Checks if the drop order for a type matters. Some types implement drop
/// solely to deallocate memory. For these types, and composites containing
/// them, changing the drop order won't result in any observable side
/// effects.
pub fn needs_ordered_drop(cx: &LateContext, ty: TyId) -> (r: bool)
    requires
        drop_impls_can_be_asked(cx, ty),
    ensures
        r == drop_order_matters(cx, ty),
{
    try_needs_ordered_drop(cx, ty).unwrap()
}

/// Where every type that can be reached from `ty` depends on its parts
/// only, the drop order of `ty` does not matter, whether or not a type is
/// reached again on the way.
pub proof fn lemma_no_destructor_reached(cx: &LateContext, ty: TyId)
    requires
        forall|t: TyId| #[trigger] drop_reaches(cx, ty, t) ==> drop_parts(cx, t).is_some(),
    ensures
        !drop_order_matters(cx, ty),
{
    if drop_order_matters(cx, ty) {
        let p = choose|p: Seq<TyId>| #[trigger]
            is_drop_path(cx, p) && p[0] == ty && drop_parts(cx, p.last()).is_none();
        assert(is_drop_path(cx, p) && p[0] == ty && p.last() == p.last());
        assert(drop_reaches(cx, ty, p.last()));
    }
}

} // verus!
