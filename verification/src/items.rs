//! Queries about definitions: variants, inherited predicates, associated
//! types, and the call traits that bound a type parameter.

use vstd::prelude::*;
use crate::context::{LateContext, TyCtxt};
use crate::model::{
    AdtKind, AssocItem, CtorOf, DefId, DefKind, Predicate, ProjectionFact, Res, TyId,
    TyKind, VariantDef,
};
use crate::sym;
use crate::traits::{
    adt_did, get_diagnostic_item, names_diagnostic_item, ty_adt_did,
};

verus! {

/// The predicates of `id` followed by those of the items it inherits from.
pub open spec fn inherited_predicates(tcx: &TyCtxt, id: DefId) -> Seq<Predicate>
    decreases id,
{
    match tcx.def(id) {
        Some(x) => x.predicates@ + match x.predicates_parent {
            Some(p) => if p < id {
                inherited_predicates(tcx, p)
            } else {
                Seq::empty()
            },
            None => Seq::empty(),
        },
        None => Seq::empty(),
    }
}

/// Gets all predicates which apply to the given item.
#[verifier::loop_isolation(false)]
pub fn all_predicates_of(tcx: &TyCtxt, id: DefId) -> (r: Vec<Predicate>)
    requires
        tcx.wf(),
    ensures
        r@ == inherited_predicates(tcx, id),
{
    let mut out: Vec<Predicate> = Vec::new();
    let mut next_id = Some(id);
    assert(out@ + inherited_predicates(tcx, id) =~= inherited_predicates(tcx, id));
    while next_id.is_some()
        invariant
            match next_id {
                Some(cur) => out@ + inherited_predicates(tcx, cur) == inherited_predicates(tcx, id),
                None => out@ == inherited_predicates(tcx, id),
            },
        decreases
                (match next_id {
                    Some(cur) => cur + 1,
                    None => 0,
                }),
    {
        let cur = next_id.unwrap();
        let ghost before = out@;
        match tcx.get_def(cur) {
            Some(x) => {
                let mut j: usize = 0;
                while j < x.predicates.len()
                    invariant
                        0 <= j <= x.predicates.len(),
                        out@ == before + x.predicates@.take(j as int),
                    decreases x.predicates.len() - j,
                {
                    out.push(x.predicates[j]);
                    assert(x.predicates@.take(j + 1) =~= x.predicates@.take(j as int).push(
                        x.predicates[j as int],
                    ));
                    j += 1;
                }
                assert(x.predicates@.take(j as int) =~= x.predicates@);
                next_id = x.predicates_parent;
                proof {
                    match x.predicates_parent {
                        Some(p) => {
                            assert(tcx.defs[cur as int].predicates_parent == Some(p));
                            assert(out@ + inherited_predicates(tcx, p) =~= before + (x.predicates@
                                + inherited_predicates(tcx, p)));
                        },
                        None => {
                            assert(out@ =~= before + (x.predicates@ + Seq::empty()));
                        },
                    }
                }
            },
            None => {
                next_id = None;
                assert(out@ =~= before + Seq::empty());
            },
        }
    }
    out
}

/// The one variant of the struct or union `did`.
pub open spec fn non_enum_variant(tcx: &TyCtxt, did: DefId) -> Option<VariantDef> {
    match tcx.def(did) {
        Some(x) => match x.adt {
            Some(a) => if a.kind != AdtKind::Enum && a.variants.len() > 0 {
                Some(a.variants[0])
            } else {
                None
            },
            None => None,
        },
        None => None,
    }
}

fn get_non_enum_variant(tcx: &TyCtxt, did: DefId) -> (r: Option<VariantDef>)
    ensures
        r == non_enum_variant(tcx, did),
{
    match tcx.get_def(did) {
        Some(x) => match &x.adt {
            Some(a) => {
                let is_enum = match a.kind {
                    AdtKind::Enum => true,
                    _ => false,
                };
                if !is_enum && a.variants.len() > 0 {
                    Some(a.variants[0])
                } else {
                    None
                }
            },
            None => None,
        },
        None => None,
    }
}

/// The variants of the algebraic type `did`.
pub open spec fn variants_of(tcx: &TyCtxt, did: DefId) -> Seq<VariantDef> {
    match tcx.def(did) {
        Some(x) => match x.adt {
            Some(a) => a.variants@,
            None => Seq::empty(),
        },
        None => Seq::empty(),
    }
}

/// Whether `r` is the first variant of `did` with the definition `vid`.
pub open spec fn is_variant_with_id(
    tcx: &TyCtxt,
    did: DefId,
    vid: DefId,
    r: Option<VariantDef>,
) -> bool {
    let vs = variants_of(tcx, did);
    match r {
        Some(v) => exists|k: int|
            0 <= k < vs.len() && #[trigger] vs[k] == v && v.def_id == vid && forall|m: int|
                0 <= m < k ==> (#[trigger] vs[m]).def_id != vid,
        None => forall|k: int| 0 <= k < vs.len() ==> (#[trigger] vs[k]).def_id != vid,
    }
}

#[verifier::loop_isolation(false)]
fn get_variant_with_id(tcx: &TyCtxt, did: DefId, vid: DefId) -> (r: Option<VariantDef>)
    ensures
        is_variant_with_id(tcx, did, vid, r),
{
    let a = match tcx.get_def(did) {
        Some(x) => match &x.adt {
            Some(a) => a,
            None => { return None; },
        },
        None => { return None; },
    };
    let mut k: usize = 0;
    while k < a.variants.len()
        invariant
            0 <= k <= a.variants.len(),
            forall|m: int| 0 <= m < k ==> (#[trigger] a.variants[m]).def_id != vid,
        decreases a.variants.len() - k,
    {
        if a.variants[k].def_id == vid {
            assert(variants_of(tcx, did)[k as int] == a.variants[k as int]);
            return Some(a.variants[k]);
        }
        k += 1;
    }
    None
}

/// The item that the definition `id` lies in.
pub open spec fn parent(tcx: &TyCtxt, id: DefId) -> Option<DefId> {
    match tcx.def(id) {
        Some(x) => x.parent,
        None => None,
    }
}

fn get_parent(tcx: &TyCtxt, id: DefId) -> (r: Option<DefId>)
    ensures
        r == parent(tcx, id),
{
    match tcx.get_def(id) {
        Some(x) => x.parent,
        None => None,
    }
}

/// The algebraic type that the type of the definition `id` is an instance
/// of.
pub open spec fn self_adt(tcx: &TyCtxt, id: DefId) -> Option<DefId> {
    match tcx.def(id) {
        Some(x) => match x.type_of {
            Some(t) => adt_did(tcx, t),
            None => None,
        },
        None => None,
    }
}

/// Whether `r` is the variant that `res` names: the one variant of a struct
/// named directly, through its constructor or through `Self`; the variant
/// of an enum named directly or through its constructor; none for anything
/// else, or where a definition on the way is not there.
pub open spec fn is_variant_of_res(tcx: &TyCtxt, res: Res, r: Option<VariantDef>) -> bool {
    match res {
        Res::Def(DefKind::Struct, id) => r == non_enum_variant(tcx, id),
        Res::Def(DefKind::Variant, id) => match parent(tcx, id) {
            Some(p) => is_variant_with_id(tcx, p, id, r),
            None => r.is_none(),
        },
        Res::Def(DefKind::Ctor(CtorOf::Struct, _), id) => match parent(tcx, id) {
            Some(p) => r == non_enum_variant(tcx, p),
            None => r.is_none(),
        },
        Res::Def(DefKind::Ctor(CtorOf::Variant, _), id) => match parent(tcx, id) {
            Some(var_id) => match parent(tcx, var_id) {
                Some(p) => is_variant_with_id(tcx, p, var_id, r),
                None => r.is_none(),
            },
            None => r.is_none(),
        },
        Res::SelfCtor(id) => match self_adt(tcx, id) {
            Some(a) => r == non_enum_variant(tcx, a),
            None => r.is_none(),
        },
        _ => r.is_none(),
    }
}

/// Gets the struct or enum variant from the given `Res`.
pub fn variant_of_res(cx: &LateContext, res: Res) -> (r: Option<VariantDef>)
    ensures
        is_variant_of_res(&cx.tcx, res, r),
{
    let tcx = &cx.tcx;
    match res {
        Res::Def(DefKind::Struct, id) => get_non_enum_variant(tcx, id),
        Res::Def(DefKind::Variant, id) => match get_parent(tcx, id) {
            Some(p) => get_variant_with_id(tcx, p, id),
            None => None,
        },
        Res::Def(DefKind::Ctor(CtorOf::Struct, _), id) => match get_parent(tcx, id) {
            Some(p) => get_non_enum_variant(tcx, p),
            None => None,
        },
        Res::Def(DefKind::Ctor(CtorOf::Variant, _), id) => match get_parent(tcx, id) {
            Some(var_id) => match get_parent(tcx, var_id) {
                Some(p) => get_variant_with_id(tcx, p, var_id),
                None => None,
            },
            None => None,
        },
        Res::SelfCtor(id) => {
            let a = match tcx.get_def(id) {
                Some(x) => match x.type_of {
                    Some(t) => ty_adt_did(tcx, t),
                    None => None,
                },
                None => None,
            };
            match a {
                Some(a) => get_non_enum_variant(tcx, a),
                None => None,
            }
        },
        _ => None,
    }
}

/// Whether `p` bounds the type parameter with the index `index` by the
/// trait `trait_id`.
pub open spec fn bounds_param(tcx: &TyCtxt, p: Predicate, index: u32, trait_id: DefId) -> bool {
    p matches Predicate::Trait { trait_id: t, self_ty, .. } && t == trait_id && (tcx.kind(
        self_ty,
    ) matches Some(TyKind::Param(i)) && i == index)
}

/// Whether `ty` is a type parameter that `predicates` bound by the trait of
/// calls that consume, and by neither of the two traits of calls that
/// borrow; all three traits must be defined.
pub open spec fn fn_once_param(tcx: &TyCtxt, ty: TyId, predicates: Seq<Predicate>) -> bool {
    let lang = tcx.lang_items;
    tcx.kind(ty) matches Some(TyKind::Param(index)) && (lang.fn_once_trait matches Some(once) && (
    lang.fn_mut_trait matches Some(fn_mut) && (lang.fn_trait matches Some(fn_) && ((exists|j: int|
        0 <= j < predicates.len() && bounds_param(tcx, #[trigger] predicates[j], index, once))
        && (forall|j: int|
        0 <= j < predicates.len() ==> !(!bounds_param(tcx, #[trigger] predicates[j], index, once)
            && (bounds_param(tcx, predicates[j], index, fn_mut) || bounds_param(
            tcx,
            predicates[j],
            index,
            fn_,
        ))))))))
}

/// Checks if the type is a type parameter implementing `FnOnce`, but not
/// `FnMut`.
#[verifier::loop_isolation(false)]
pub fn ty_is_fn_once_param(tcx: &TyCtxt, ty: TyId, predicates: &[Predicate]) -> (r: bool)
    ensures
        r == fn_once_param(tcx, ty, predicates@),
{
    let index = match tcx.get(ty) {
        Some(d) => match &d.kind {
            TyKind::Param(index) => *index,
            _ => { return false; },
        },
        None => { return false; },
    };
    let (fn_once_id, fn_mut_id, fn_id) = match (
        tcx.lang_items.fn_once_trait,
        tcx.lang_items.fn_mut_trait,
        tcx.lang_items.fn_trait,
    ) {
        (Some(a), Some(b), Some(c)) => (a, b, c),
        _ => { return false; },
    };
    let mut found = false;
    let mut j: usize = 0;
    while j < predicates.len()
        invariant
            0 <= j <= predicates.len(),
            found == exists|k: int|
                0 <= k < j && bounds_param(tcx, #[trigger] predicates[k], index, fn_once_id),
            forall|k: int|
                0 <= k < j ==> !(!bounds_param(tcx, #[trigger] predicates[k], index, fn_once_id)
                    && (bounds_param(tcx, predicates[k], index, fn_mut_id) || bounds_param(
                    tcx,
                    predicates[k],
                    index,
                    fn_id,
                ))),
        decreases predicates.len() - j,
    {
        if let Predicate::Trait { trait_id, self_ty, .. } = predicates[j] {
            let on_param = match tcx.get(self_ty) {
                Some(d) => match &d.kind {
                    TyKind::Param(i) => *i == index,
                    _ => false,
                },
                None => false,
            };
            if on_param {
                if trait_id == fn_once_id {
                    found = true;
                    assert(bounds_param(tcx, predicates[j as int], index, fn_once_id));
                } else if trait_id == fn_mut_id || trait_id == fn_id {
                    assert(!bounds_param(tcx, predicates[j as int], index, fn_once_id));
                    return false;
                }
            }
        }
        j += 1;
    }
    found
}

/// The associated types of the trait `trait_id`.
pub open spec fn assoc_items(tcx: &TyCtxt, trait_id: DefId) -> Seq<AssocItem> {
    match tcx.def(trait_id) {
        Some(x) => x.assoc_types@,
        None => Seq::empty(),
    }
}

/// What is recorded of the associated types of `ty`.
pub open spec fn projection_facts(cx: &LateContext, ty: TyId) -> Seq<ProjectionFact> {
    match cx.tcx.facts(cx.param_env.id, ty) {
        Some(f) => f.projections@,
        None => Seq::empty(),
    }
}

/// Whether `r` is the first associated type of the trait `trait_id` with
/// the name `name`.
pub open spec fn is_assoc_type(tcx: &TyCtxt, trait_id: DefId, name: u32, r: Option<DefId>) -> bool {
    let items = assoc_items(tcx, trait_id);
    match r {
        Some(id) => exists|k: int|
            0 <= k < items.len() && (#[trigger] items[k]).name == name && items[k].def_id == id
                && forall|m: int| 0 <= m < k ==> (#[trigger] items[m]).name != name,
        None => forall|k: int| 0 <= k < items.len() ==> (#[trigger] items[k]).name != name,
    }
}

/// Whether `r` is what the associated type `item` of `ty` normalizes to:
/// the first fact recorded about it, if there is one.
pub open spec fn is_projection_of(cx: &LateContext, ty: TyId, item: DefId, r: Option<TyId>) -> bool {
    let facts = projection_facts(cx, ty);
    match r {
        Some(t) => exists|k: int|
            0 <= k < facts.len() && (#[trigger] facts[k]).item == item && facts[k].ty == t
                && forall|m: int| 0 <= m < k ==> (#[trigger] facts[m]).item != item,
        None => forall|k: int| 0 <= k < facts.len() ==> (#[trigger] facts[k]).item != item,
    }
}

/// Whether `r` is the associated type `name` of `ty` as an implementation
/// of `trait_id`: what the associated type of that name normalizes to, or
/// nothing where the trait has none of that name or it does not normalize.
pub open spec fn is_associated_type(
    cx: &LateContext,
    ty: TyId,
    trait_id: DefId,
    name: u32,
    r: Option<TyId>,
) -> bool {
    exists|item: Option<DefId>| #[trigger]
        is_assoc_type(&cx.tcx, trait_id, name, item) && match item {
            Some(id) => is_projection_of(cx, ty, id, r),
            None => r.is_none(),
        }
}

#[verifier::loop_isolation(false)]
fn find_assoc_type(tcx: &TyCtxt, trait_id: DefId, name: u32) -> (r: Option<DefId>)
    ensures
        is_assoc_type(tcx, trait_id, name, r),
{
    let x = match tcx.get_def(trait_id) {
        Some(x) => x,
        None => { return None; },
    };
    let mut k: usize = 0;
    while k < x.assoc_types.len()
        invariant
            0 <= k <= x.assoc_types.len(),
            forall|m: int| 0 <= m < k ==> (#[trigger] x.assoc_types[m]).name != name,
        decreases x.assoc_types.len() - k,
    {
        if x.assoc_types[k].name == name {
            assert(assoc_items(tcx, trait_id)[k as int].name == name);
            return Some(x.assoc_types[k].def_id);
        }
        k += 1;
    }
    None
}

#[verifier::loop_isolation(false)]
fn find_projection(cx: &LateContext, ty: TyId, item: DefId) -> (r: Option<TyId>)
    ensures
        is_projection_of(cx, ty, item, r),
{
    let f = match cx.tcx.get_facts(cx.param_env.id, ty) {
        Some(f) => f,
        None => { return None; },
    };
    let mut k: usize = 0;
    while k < f.projections.len()
        invariant
            0 <= k <= f.projections.len(),
            forall|m: int| 0 <= m < k ==> (#[trigger] f.projections[m]).item != item,
        decreases f.projections.len() - k,
    {
        if f.projections[k].item == item {
            assert(projection_facts(cx, ty)[k as int].item == item);
            return Some(f.projections[k].ty);
        }
        k += 1;
    }
    None
}

/// Returns the associated type `name` for `ty` as an implementation of
/// `trait_id`.
pub fn get_associated_type(cx: &LateContext, ty: TyId, trait_id: DefId, name: u32) -> (r: Option<
    TyId,
>)
    ensures
        is_associated_type(cx, ty, trait_id, name, r),
{
    let item = find_assoc_type(&cx.tcx, trait_id, name);
    let r = match item {
        Some(id) => find_projection(cx, ty, id),
        None => None,
    };
    assert(is_assoc_type(&cx.tcx, trait_id, name, item) && match item {
        Some(id) => is_projection_of(cx, ty, id, r),
        None => r.is_none(),
    });
    r
}

/// Resolves the item type of `ty` as an iterator: the associated type of
/// that name of the trait that the diagnostic name of iterators stands for.
pub fn get_iterator_item_ty(cx: &LateContext, ty: TyId) -> (r: Option<TyId>)
    ensures
        match r {
            Some(t) => exists|d: DefId| #[trigger]
                names_diagnostic_item(&cx.tcx, sym::ITERATOR, d) && is_associated_type(
                    cx,
                    ty,
                    d,
                    sym::ITEM,
                    Some(t),
                ),
            None => forall|d: DefId| #[trigger]
                names_diagnostic_item(&cx.tcx, sym::ITERATOR, d) ==> is_associated_type(
                    cx,
                    ty,
                    d,
                    sym::ITEM,
                    None,
                ),
        },
{
    match get_diagnostic_item(&cx.tcx, sym::ITERATOR) {
        Some(iter_did) => {
            let r = get_associated_type(cx, ty, iter_did, sym::ITEM);
            proof {
                assert forall|d: DefId| #[trigger]
                    names_diagnostic_item(&cx.tcx, sym::ITERATOR, d) implies d == iter_did by {
                    if d < iter_did {
                    } else if iter_did < d {
                    }
                }
            }
            r
        },
        None => None,
    }
}

/// An enum has one first variant with a given definition only.
pub proof fn lemma_variant_with_id_unique(
    tcx: &TyCtxt,
    did: DefId,
    vid: DefId,
    a: Option<VariantDef>,
    b: Option<VariantDef>,
)
    requires
        is_variant_with_id(tcx, did, vid, a),
        is_variant_with_id(tcx, did, vid, b),
    ensures
        a == b,
{
    let vs = variants_of(tcx, did);
    if let Some(x) = a {
        let k = choose|k: int|
            0 <= k < vs.len() && #[trigger] vs[k] == x && x.def_id == vid && forall|m: int|
                0 <= m < k ==> (#[trigger] vs[m]).def_id != vid;
        if let Some(y) = b {
            let n = choose|n: int|
                0 <= n < vs.len() && #[trigger] vs[n] == y && y.def_id == vid && forall|m: int|
                    0 <= m < n ==> (#[trigger] vs[m]).def_id != vid;
            if k < n {
                assert(vs[k].def_id != vid);
            } else if n < k {
                assert(vs[n].def_id != vid);
            }
        } else {
            assert(vs[k].def_id != vid);
        }
    } else if let Some(y) = b {
        let n = choose|n: int| 0 <= n < vs.len() && #[trigger] vs[n] == y && y.def_id == vid;
        assert(vs[n].def_id != vid);
    }
}

/// A resolution names one variant only.
pub proof fn lemma_variant_of_res_unique(
    tcx: &TyCtxt,
    res: Res,
    a: Option<VariantDef>,
    b: Option<VariantDef>,
)
    requires
        is_variant_of_res(tcx, res, a),
        is_variant_of_res(tcx, res, b),
    ensures
        a == b,
{
    match res {
        Res::Def(DefKind::Variant, id) => {
            if let Some(p) = parent(tcx, id) {
                lemma_variant_with_id_unique(tcx, p, id, a, b);
            }
        },
        Res::Def(DefKind::Ctor(CtorOf::Variant, _), id) => {
            if let Some(var_id) = parent(tcx, id) {
                if let Some(p) = parent(tcx, var_id) {
                    lemma_variant_with_id_unique(tcx, p, var_id, a, b);
                }
            }
        },
        _ => {},
    }
}

/// A trait has one first associated type of a given name only.
pub proof fn lemma_assoc_type_unique(
    tcx: &TyCtxt,
    trait_id: DefId,
    name: u32,
    a: Option<DefId>,
    b: Option<DefId>,
)
    requires
        is_assoc_type(tcx, trait_id, name, a),
        is_assoc_type(tcx, trait_id, name, b),
    ensures
        a == b,
{
    let items = assoc_items(tcx, trait_id);
    if let Some(x) = a {
        let k = choose|k: int|
            0 <= k < items.len() && (#[trigger] items[k]).name == name && items[k].def_id == x
                && forall|m: int| 0 <= m < k ==> (#[trigger] items[m]).name != name;
        if let Some(y) = b {
            let n = choose|n: int|
                0 <= n < items.len() && (#[trigger] items[n]).name == name && items[n].def_id == y
                    && forall|m: int| 0 <= m < n ==> (#[trigger] items[m]).name != name;
            if k < n {
                assert(items[k].name != name);
            } else if n < k {
                assert(items[n].name != name);
            }
        } else {
            assert(items[k].name != name);
        }
    } else if let Some(y) = b {
        let n = choose|n: int| 0 <= n < items.len() && (#[trigger] items[n]).name == name;
        assert(items[n].name != name);
    }
}

/// An associated type of a type normalizes to one type only.
pub proof fn lemma_projection_of_unique(
    cx: &LateContext,
    ty: TyId,
    item: DefId,
    a: Option<TyId>,
    b: Option<TyId>,
)
    requires
        is_projection_of(cx, ty, item, a),
        is_projection_of(cx, ty, item, b),
    ensures
        a == b,
{
    let facts = projection_facts(cx, ty);
    if let Some(x) = a {
        let k = choose|k: int|
            0 <= k < facts.len() && (#[trigger] facts[k]).item == item && facts[k].ty == x
                && forall|m: int| 0 <= m < k ==> (#[trigger] facts[m]).item != item;
        if let Some(y) = b {
            let n = choose|n: int|
                0 <= n < facts.len() && (#[trigger] facts[n]).item == item && facts[n].ty == y
                    && forall|m: int| 0 <= m < n ==> (#[trigger] facts[m]).item != item;
            if k < n {
                assert(facts[k].item != item);
            } else if n < k {
                assert(facts[n].item != item);
            }
        } else {
            assert(facts[k].item != item);
        }
    } else if let Some(y) = b {
        let n = choose|n: int| 0 <= n < facts.len() && (#[trigger] facts[n]).item == item;
        assert(facts[n].item != item);
    }
}

/// A type has one associated type of a given name of a trait only.
pub proof fn lemma_associated_type_unique(
    cx: &LateContext,
    ty: TyId,
    trait_id: DefId,
    name: u32,
    a: Option<TyId>,
    b: Option<TyId>,
)
    requires
        is_associated_type(cx, ty, trait_id, name, a),
        is_associated_type(cx, ty, trait_id, name, b),
    ensures
        a == b,
{
    let ia = choose|item: Option<DefId>| #[trigger]
        is_assoc_type(&cx.tcx, trait_id, name, item) && match item {
            Some(id) => is_projection_of(cx, ty, id, a),
            None => a.is_none(),
        };
    let ib = choose|item: Option<DefId>| #[trigger]
        is_assoc_type(&cx.tcx, trait_id, name, item) && match item {
            Some(id) => is_projection_of(cx, ty, id, b),
            None => b.is_none(),
        };
    lemma_assoc_type_unique(&cx.tcx, trait_id, name, ia, ib);
    if let Some(id) = ia {
        lemma_projection_of_unique(cx, ty, id, a, b);
    }
}

} // verus!
