//! Structural classification: queries that read the shape of a type and the
//! attributes of the definitions it names.

use vstd::prelude::*;
use crate::context::{lemma_arg_below, LateContext, TyCtxt};
use crate::model::{
    opt_is, DefId, ExistentialPredicate, GenericArg, IntTy, LangItem, Predicate, TyId, TyKind,
    UintTy,
};
use crate::sym;
use crate::traits::{adt_did, is_diagnostic_item, is_diagnostic_item_spec, ty_adt_did};

verus! {

/// Whether `kind` is `bool`, `char`, an integer or a floating-point number.
pub open spec fn is_scalar_kind(kind: TyKind) -> bool {
    kind is Bool || kind is Char || kind is Int || kind is Uint || kind is Float
}

/// Whether `ty` is a type of the context whose shape is a scalar.
pub open spec fn non_aggregate_primitive(tcx: &TyCtxt, ty: TyId) -> bool {
    match tcx.kind(ty) {
        Some(k) => is_scalar_kind(k),
        None => false,
    }
}

/// Returns `true` if the given type is a non aggregate primitive (a `bool` or
/// `char`, any integer or floating-point number type).
pub fn is_non_aggregate_primitive_type(tcx: &TyCtxt, ty: TyId) -> (r: bool)
    ensures
        r == non_aggregate_primitive(tcx, ty),
{
    match tcx.get(ty) {
        Some(d) => match &d.kind {
            TyKind::Bool | TyKind::Char | TyKind::Int(_) | TyKind::Uint(_) | TyKind::Float(_) => true,
            _ => false,
        },
        None => false,
    }
}

/// Whether `ty` is a scalar, `str`, a reference to `str`, or an array, slice
/// or tuple of such types.
pub open spec fn recursively_primitive(tcx: &TyCtxt, ty: TyId) -> bool
    decreases ty,
{
    match tcx.kind(ty) {
        Some(TyKind::Bool) | Some(TyKind::Char) | Some(TyKind::Int(_)) | Some(TyKind::Uint(_))
        | Some(TyKind::Float(_)) | Some(TyKind::Str) => true,
        Some(TyKind::Ref(inner, _)) => tcx.kind(inner) matches Some(TyKind::Str),
        Some(TyKind::Array(inner, _)) | Some(TyKind::Slice(inner)) => inner < ty
            && recursively_primitive(tcx, inner),
        Some(TyKind::Tuple(ts)) => forall|j: int|
            0 <= j < ts.len() ==> (#[trigger] ts[j]) < ty && recursively_primitive(tcx, ts[j]),
        _ => false,
    }
}

/// Returns `true` if the given type is a primitive (a `bool` or `char`, any
/// integer or floating-point number type, a `str`, or an array, slice, or
/// tuple of those types).
#[verifier::loop_isolation(false)]
pub fn is_recursively_primitive_type(tcx: &TyCtxt, ty: TyId) -> (r: bool)
    requires
        tcx.wf(),
    ensures
        r == recursively_primitive(tcx, ty),
    decreases ty,
{
    let d = match tcx.get(ty) {
        Some(d) => d,
        None => { return false; },
    };
    match &d.kind {
        TyKind::Bool | TyKind::Char | TyKind::Int(_) | TyKind::Uint(_) | TyKind::Float(_)
        | TyKind::Str => true,
        TyKind::Ref(inner, _) => match tcx.get(*inner) {
            Some(i) => match &i.kind {
                TyKind::Str => true,
                _ => false,
            },
            None => false,
        },
        TyKind::Array(inner, _) => {
            assert(crate::model::children(tcx.types[ty as int].kind)[0] == *inner);
            is_recursively_primitive_type(tcx, *inner)
        },
        TyKind::Slice(inner) => {
            assert(crate::model::children(tcx.types[ty as int].kind)[0] == *inner);
            is_recursively_primitive_type(tcx, *inner)
        },
        TyKind::Tuple(ts) => {
            let mut j: usize = 0;
            while j < ts.len()
                invariant
                    0 <= j <= ts.len(),
                    forall|k: int|
                        0 <= k < j ==> (#[trigger] ts[k]) < ty && recursively_primitive(tcx, ts[k]),
                decreases ts.len() - j,
            {
                assert(crate::model::children(tcx.types[ty as int].kind)[j as int] == ts[j as int]);
                if !is_recursively_primitive_type(tcx, ts[j]) {
                    return false;
                }
                j += 1;
            }
            true
        },
        _ => false,
    }
}

/// Every scalar type is recursively primitive.
pub proof fn lemma_scalar_is_recursively_primitive(tcx: &TyCtxt, ty: TyId)
    requires
        non_aggregate_primitive(tcx, ty),
    ensures
        recursively_primitive(tcx, ty),
{
}

/// `str` and a reference to `str` are recursively primitive.
pub proof fn lemma_str_is_recursively_primitive(tcx: &TyCtxt, ty: TyId)
    requires
        tcx.kind(ty) matches Some(k) && (k is Str || (k matches TyKind::Ref(inner, _) && tcx.kind(
            inner,
        ) matches Some(TyKind::Str))),
    ensures
        recursively_primitive(tcx, ty),
{
}

/// An array or a slice is recursively primitive exactly when its element
/// type is.
pub proof fn lemma_sequence_recursively_primitive(tcx: &TyCtxt, ty: TyId, inner: TyId)
    requires
        tcx.wf(),
        tcx.kind(ty) matches Some(k) && ((k matches TyKind::Array(t, _) && t == inner) || (
        k matches TyKind::Slice(t) && t == inner)),
    ensures
        recursively_primitive(tcx, ty) == recursively_primitive(tcx, inner),
{
    assert(crate::model::children(tcx.types[ty as int].kind)[0] == inner);
}

/// A tuple is recursively primitive exactly when all its fields are.
pub proof fn lemma_tuple_recursively_primitive(tcx: &TyCtxt, ty: TyId, fields: Seq<TyId>)
    requires
        tcx.wf(),
        tcx.kind(ty) matches Some(TyKind::Tuple(ts)) && ts@ == fields,
    ensures
        recursively_primitive(tcx, ty) == (forall|j: int|
            0 <= j < fields.len() ==> recursively_primitive(tcx, #[trigger] fields[j])),
{
    assert forall|j: int| 0 <= j < fields.len() implies fields[j] < ty by {
        assert(crate::model::children(tcx.types[ty as int].kind)[j] == fields[j]);
    }
}

/// Whether the definition `did` carries the attribute that asks for its
/// values to be used.
pub open spec fn def_must_use(tcx: &TyCtxt, did: DefId) -> bool {
    match tcx.def(did) {
        Some(x) => x.must_use,
        None => false,
    }
}

pub fn has_must_use_attr(tcx: &TyCtxt, did: DefId) -> (r: bool)
    ensures
        r == def_must_use(tcx, did),
{
    match tcx.get_def(did) {
        Some(x) => x.must_use,
        None => false,
    }
}

/// The bounds of the definition `did` as declared.
pub open spec fn explicit_item_bounds(tcx: &TyCtxt, did: DefId) -> Seq<Predicate> {
    match tcx.def(did) {
        Some(x) => x.explicit_item_bounds@,
        None => Seq::empty(),
    }
}

/// Whether `ty` must be used: its definition says so, or that of a trait it
/// is bound by, or it is a slice, array, pointer or reference to such a type
/// or a tuple that holds one.
pub open spec fn must_use(tcx: &TyCtxt, ty: TyId) -> bool
    decreases ty,
{
    match tcx.kind(ty) {
        Some(TyKind::Adt(did, _)) => def_must_use(tcx, did),
        Some(TyKind::Foreign(did)) => def_must_use(tcx, did),
        Some(TyKind::Slice(inner)) | Some(TyKind::Array(inner, _)) | Some(
            TyKind::RawPtr(inner, _),
        ) | Some(TyKind::Ref(inner, _)) => inner < ty && must_use(tcx, inner),
        Some(TyKind::Tuple(ts)) => exists|j: int|
            0 <= j < ts.len() && (#[trigger] ts[j]) < ty && must_use(tcx, ts[j]),
        Some(TyKind::Opaque(did, _)) => exists|j: int|
            0 <= j < explicit_item_bounds(tcx, did).len() && (
            #[trigger] explicit_item_bounds(tcx, did)[j] matches Predicate::Trait { trait_id, .. }
                && def_must_use(tcx, trait_id)),
        Some(TyKind::Dynamic(preds)) => exists|j: int|
            0 <= j < preds.len() && (#[trigger] preds[j] matches ExistentialPredicate::Trait(did, _)
                && def_must_use(tcx, did)),
        _ => false,
    }
}

/// Returns whether the type must be used.
#[verifier::loop_isolation(false)]
pub fn is_must_use_ty(cx: &LateContext, ty: TyId) -> (r: bool)
    requires
        cx.tcx.wf(),
    ensures
        r == must_use(&cx.tcx, ty),
    decreases ty,
{
    let tcx = &cx.tcx;
    let d = match tcx.get(ty) {
        Some(d) => d,
        None => { return false; },
    };
    match &d.kind {
        TyKind::Adt(did, _) => has_must_use_attr(tcx, *did),
        TyKind::Foreign(did) => has_must_use_attr(tcx, *did),
        TyKind::Slice(inner) | TyKind::Array(inner, _) | TyKind::RawPtr(inner, _) | TyKind::Ref(
            inner,
            _,
        ) => {
            assert(crate::model::children(tcx.types[ty as int].kind)[0] == *inner);
            is_must_use_ty(cx, *inner)
        },
        TyKind::Tuple(ts) => {
            let mut j: usize = 0;
            while j < ts.len()
                invariant
                    0 <= j <= ts.len(),
                    forall|k: int| 0 <= k < j ==> !must_use(tcx, #[trigger] ts[k]),
                decreases ts.len() - j,
            {
                assert(crate::model::children(tcx.types[ty as int].kind)[j as int] == ts[j as int]);
                if is_must_use_ty(cx, ts[j]) {
                    return true;
                }
                j += 1;
            }
            false
        },
        TyKind::Opaque(did, _) => {
            let x = match tcx.get_def(*did) {
                Some(x) => x,
                None => { return false; },
            };
            let mut j: usize = 0;
            while j < x.explicit_item_bounds.len()
                invariant
                    0 <= j <= x.explicit_item_bounds.len(),
                    forall|k: int|
                        0 <= k < j ==> !(#[trigger] x.explicit_item_bounds[k] matches Predicate::Trait {
                            trait_id,
                            ..
                        } && def_must_use(tcx, trait_id)),
                decreases x.explicit_item_bounds.len() - j,
            {
                if let Predicate::Trait { trait_id, .. } = x.explicit_item_bounds[j] {
                    if has_must_use_attr(tcx, trait_id) {
                        assert(explicit_item_bounds(tcx, *did)[j as int] == x.explicit_item_bounds[j as int]);
                        return true;
                    }
                }
                j += 1;
            }
            false
        },
        TyKind::Dynamic(preds) => {
            let mut j: usize = 0;
            while j < preds.len()
                invariant
                    0 <= j <= preds.len(),
                    forall|k: int|
                        0 <= k < j ==> !(#[trigger] preds[k] matches ExistentialPredicate::Trait(
                            did,
                            _,
                        ) && def_must_use(tcx, did)),
                decreases preds.len() - j,
            {
                if let ExistentialPredicate::Trait(did, _) = preds[j] {
                    if has_must_use_attr(tcx, did) {
                        return true;
                    }
                }
                j += 1;
            }
            false
        },
        _ => false,
    }
}

/// The diagnostic name of the definition of `ty`, if `ty` is an algebraic
/// type and its definition has one.
pub open spec fn diagnostic_name(tcx: &TyCtxt, ty: TyId) -> Option<u32> {
    match adt_did(tcx, ty) {
        Some(did) => match tcx.def(did) {
            Some(x) => x.diagnostic_name,
            None => None,
        },
        None => None,
    }
}

/// Get the diagnostic name of a type.
pub fn get_type_diagnostic_name(cx: &LateContext, ty: TyId) -> (r: Option<u32>)
    ensures
        r == diagnostic_name(&cx.tcx, ty),
{
    match ty_adt_did(&cx.tcx, ty) {
        Some(did) => match cx.tcx.get_def(did) {
            Some(x) => x.diagnostic_name,
            None => None,
        },
        None => None,
    }
}

/// Checks if the type is an algebraic type whose definition carries the
/// diagnostic name `diag_item`.
pub fn is_type_diagnostic_item(cx: &LateContext, ty: TyId, diag_item: u32) -> (r: bool)
    ensures
        r == (diagnostic_name(&cx.tcx, ty) == Some(diag_item)),
{
    match ty_adt_did(&cx.tcx, ty) {
        Some(did) => is_diagnostic_item(&cx.tcx, diag_item, did),
        None => false,
    }
}

/// Checks if the type is a reference to an algebraic type whose definition
/// carries the diagnostic name `diag_item`.
pub fn is_type_ref_to_diagnostic_item(cx: &LateContext, ty: TyId, diag_item: u32) -> (r: bool)
    ensures
        r == (cx.tcx.kind(ty) matches Some(TyKind::Ref(inner, _)) && diagnostic_name(
            &cx.tcx,
            inner,
        ) == Some(diag_item)),
{
    match cx.tcx.get(ty) {
        Some(d) => match &d.kind {
            TyKind::Ref(inner, _) => is_type_diagnostic_item(cx, *inner, diag_item),
            _ => false,
        },
        None => false,
    }
}

/// Checks if the type is an instance of the language item `lang_item`, which
/// it is not where the item is not defined.
pub fn is_type_lang_item(cx: &LateContext, ty: TyId, lang_item: LangItem) -> (r: bool)
    ensures
        r == (adt_did(&cx.tcx, ty) matches Some(did) && cx.tcx.lang_items.require_spec(lang_item)
            == Some(did)),
{
    match ty_adt_did(&cx.tcx, ty) {
        Some(did) => opt_is(cx.tcx.lang_items.require(lang_item), did),
        None => false,
    }
}

/// Return `true` if the passed `typ` is `isize` or `usize`.
pub fn is_isize_or_usize(tcx: &TyCtxt, typ: TyId) -> (r: bool)
    ensures
        r == (tcx.kind(typ) matches Some(k) && (k matches TyKind::Int(IntTy::Isize)
            || k matches TyKind::Uint(UintTy::Usize))),
{
    match tcx.get(typ) {
        Some(d) => match &d.kind {
            TyKind::Int(IntTy::Isize) => true,
            TyKind::Uint(UintTy::Usize) => true,
            _ => false,
        },
        None => false,
    }
}

/// Whether two lists of names are equal.
pub fn names_eq(a: &[u32], b: &[u32]) -> (r: bool)
    ensures
        r == (a@ == b@),
{
    if a.len() != b.len() {
        return false;
    }
    let mut i: usize = 0;
    while i < a.len()
        invariant
            a@.len() == b@.len(),
            0 <= i <= a@.len(),
            forall|j: int| 0 <= j < i ==> a@[j] == b@[j],
        decreases a@.len() - i,
    {
        if a[i] != b[i] {
            return false;
        }
        i += 1;
    }
    assert(a@ =~= b@);
    true
}

/// The path of the definition of `ty`, if `ty` is an algebraic type with a
/// known definition.
pub open spec fn adt_path(tcx: &TyCtxt, ty: TyId) -> Option<Seq<u32>> {
    match adt_did(tcx, ty) {
        Some(did) => match tcx.def(did) {
            Some(x) => Some(x.path@),
            None => None,
        },
        None => None,
    }
}

/// Checks if type is struct, enum or union type with the given def path.
pub fn match_type(cx: &LateContext, ty: TyId, path: &[u32]) -> (r: bool)
    ensures
        r == (adt_path(&cx.tcx, ty) == Some(path@)),
{
    match ty_adt_did(&cx.tcx, ty) {
        Some(did) => match cx.tcx.get_def(did) {
            Some(x) => names_eq(x.path.as_slice(), path),
            None => false,
        },
        None => false,
    }
}

/// Whether `ty` is a function item or pointer whose signature is unsafe.
pub open spec fn unsafe_function(tcx: &TyCtxt, ty: TyId) -> bool {
    match tcx.ty_data(ty) {
        Some(d) => match d.kind {
            TyKind::FnDef(_, _) => d.sig matches Some(s) && s.is_unsafe,
            TyKind::FnPtr(s) => s.is_unsafe,
            _ => false,
        },
        None => false,
    }
}

/// Returns `true` if the given type is an `unsafe` function.
pub fn type_is_unsafe_function(cx: &LateContext, ty: TyId) -> (r: bool)
    ensures
        r == unsafe_function(&cx.tcx, ty),
{
    match cx.tcx.get(ty) {
        Some(d) => match &d.kind {
            TyKind::FnDef(_, _) => match &d.sig {
                Some(s) => s.is_unsafe,
                None => false,
            },
            TyKind::FnPtr(s) => s.is_unsafe,
            _ => false,
        },
        None => false,
    }
}

/// Whether a value of `ty` may be left uninitialized: `ty` is the wrapper
/// for uninitialized memory, or an array or tuple of such types.
pub open spec fn uninit_valid(tcx: &TyCtxt, ty: TyId) -> bool
    decreases ty,
{
    match tcx.kind(ty) {
        Some(TyKind::Array(inner, _)) => inner < ty && uninit_valid(tcx, inner),
        Some(TyKind::Tuple(ts)) => forall|j: int|
            0 <= j < ts.len() ==> (#[trigger] ts[j]) < ty && uninit_valid(tcx, ts[j]),
        Some(TyKind::Adt(did, _)) => tcx.lang_items.maybe_uninit == Some(did),
        _ => false,
    }
}

/// Checks if a given type looks safe to be uninitialized.
#[verifier::loop_isolation(false)]
pub fn is_uninit_value_valid_for_ty(cx: &LateContext, ty: TyId) -> (r: bool)
    requires
        cx.tcx.wf(),
    ensures
        r == uninit_valid(&cx.tcx, ty),
    decreases ty,
{
    let tcx = &cx.tcx;
    let d = match tcx.get(ty) {
        Some(d) => d,
        None => { return false; },
    };
    match &d.kind {
        TyKind::Array(inner, _) => {
            assert(crate::model::children(tcx.types[ty as int].kind)[0] == *inner);
            is_uninit_value_valid_for_ty(cx, *inner)
        },
        TyKind::Tuple(ts) => {
            let mut j: usize = 0;
            while j < ts.len()
                invariant
                    0 <= j <= ts.len(),
                    forall|k: int|
                        0 <= k < j ==> (#[trigger] ts[k]) < ty && uninit_valid(tcx, ts[k]),
                decreases ts.len() - j,
            {
                assert(crate::model::children(tcx.types[ty as int].kind)[j as int] == ts[j as int]);
                if !is_uninit_value_valid_for_ty(cx, ts[j]) {
                    return false;
                }
                j += 1;
            }
            true
        },
        TyKind::Adt(did, _) => opt_is(tcx.lang_items.maybe_uninit, *did),
        _ => false,
    }
}

/// Whether `path` starts at one of the crates that define the C void type
/// and ends in its name.
pub open spec fn is_c_void_path(path: Seq<u32>) -> bool {
    path.len() >= 2 && (path[0] == sym::LIBC || path[0] == sym::CORE || path[0] == sym::STD)
        && path.last() == sym::C_VOID
}

/// Check if the given type is the C void type of the core library, the
/// standard library or the C library bindings.
pub fn is_c_void(cx: &LateContext, ty: TyId) -> (r: bool)
    ensures
        r == (adt_path(&cx.tcx, ty) matches Some(p) && is_c_void_path(p)),
{
    match ty_adt_did(&cx.tcx, ty) {
        Some(did) => match cx.tcx.get_def(did) {
            Some(x) => {
                let n = x.path.len();
                n >= 2 && (x.path[0] == sym::LIBC || x.path[0] == sym::CORE || x.path[0]
                    == sym::STD) && x.path[n - 1] == sym::C_VOID
            },
            None => false,
        },
        None => false,
    }
}

/// Whether `name` is one of the collections known to have an `iter` method.
pub open spec fn is_iter_collection(name: u32) -> bool {
    name == sym::VEC || name == sym::OPTION || name == sym::RESULT || name == sym::BTREE_MAP
        || name == sym::BTREE_SET || name == sym::VEC_DEQUE || name == sym::LINKED_LIST || name
        == sym::BINARY_HEAP || name == sym::HASH_SET || name == sym::HASH_MAP || name
        == sym::PATH_BUF || name == sym::PATH || name == sym::RECEIVER
}

/// The type behind one layer of reference, or the type itself.
pub open spec fn behind_ref(tcx: &TyCtxt, ty: TyId) -> TyId {
    match tcx.kind(ty) {
        Some(TyKind::Ref(inner, _)) => inner,
        _ => ty,
    }
}

/// The name under which `ty`, or the type that `ty` refers to, offers
/// `iter`: that of arrays, that of slices, or the item name of a known
/// collection.
pub open spec fn iter_method_name(tcx: &TyCtxt, ty: TyId) -> Option<u32> {
    match tcx.kind(behind_ref(tcx, ty)) {
        Some(TyKind::Array(_, _)) => Some(sym::ARRAY),
        Some(TyKind::Slice(_)) => Some(sym::SLICE),
        Some(TyKind::Adt(did, _)) => match tcx.def(did) {
            Some(x) => if x.diagnostic_name matches Some(n) && is_iter_collection(n) {
                Some(x.name)
            } else {
                None
            },
            None => None,
        },
        _ => None,
    }
}

/// Returns the name of the type if it has `iter` or `iter_mut` methods.
#[verifier::loop_isolation(false)]
pub fn has_iter_method(cx: &LateContext, probably_ref_ty: TyId) -> (r: Option<u32>)
    ensures
        r == iter_method_name(&cx.tcx, probably_ref_ty),
{
    let tcx = &cx.tcx;
    let into_iter_collections: [u32; 13] = [
        sym::VEC,
        sym::OPTION,
        sym::RESULT,
        sym::BTREE_MAP,
        sym::BTREE_SET,
        sym::VEC_DEQUE,
        sym::LINKED_LIST,
        sym::BINARY_HEAP,
        sym::HASH_SET,
        sym::HASH_MAP,
        sym::PATH_BUF,
        sym::PATH,
        sym::RECEIVER,
    ];
    let ty_to_check = match tcx.get(probably_ref_ty) {
        Some(d) => match &d.kind {
            TyKind::Ref(inner, _) => *inner,
            _ => probably_ref_ty,
        },
        None => probably_ref_ty,
    };
    let def_id = match tcx.get(ty_to_check) {
        Some(d) => match &d.kind {
            TyKind::Array(_, _) => { return Some(sym::ARRAY); },
            TyKind::Slice(_) => { return Some(sym::SLICE); },
            TyKind::Adt(did, _) => *did,
            _ => { return None; },
        },
        None => { return None; },
    };
    let x = match tcx.get_def(def_id) {
        Some(x) => x,
        None => { return None; },
    };
    let mut i: usize = 0;
    while i < 13
        invariant
            0 <= i <= 13,
            forall|k: int|
                0 <= k < i ==> !is_diagnostic_item_spec(tcx, #[trigger] into_iter_collections[k], def_id),
        decreases 13 - i,
    {
        if is_diagnostic_item(tcx, into_iter_collections[i], def_id) {
            return Some(x.name);
        }
        i += 1;
    }
    proof {
        if x.diagnostic_name matches Some(n) && is_iter_collection(n) {
            let n = x.diagnostic_name.unwrap();
            let k = choose|k: int| 0 <= k < 13 && into_iter_collections[k] == n;
            assert(!is_diagnostic_item_spec(tcx, into_iter_collections[k], def_id));
        }
    }
    None
}

/// Whether `a` and `b` are the same type up to what their arguments leave
/// open: two algebraic types of one definition whose arguments agree pairwise
/// (constants equal, types the same in this sense, anything else paired
/// freely), or otherwise one and the same type.
pub open spec fn same_type(tcx: &TyCtxt, a: TyId, b: TyId) -> bool
    decreases a,
{
    match (tcx.kind(a), tcx.kind(b)) {
        (Some(TyKind::Adt(did_a, args_a)), Some(TyKind::Adt(did_b, args_b))) => did_a == did_b
            && forall|j: int|
            0 <= j < args_a.len() && j < args_b.len() ==> match (#[trigger] args_a[j], args_b[j]) {
                (GenericArg::Const(x), GenericArg::Const(y)) => x == y,
                (GenericArg::Type(x), GenericArg::Type(y)) => x < a && same_type(tcx, x, y),
                _ => true,
            },
        _ => a == b,
    }
}

/// Returns `true` if types `a` and `b` are same types having same `Const`
/// generic args, otherwise returns `false`.
#[verifier::loop_isolation(false)]
pub fn same_type_and_consts(tcx: &TyCtxt, a: TyId, b: TyId) -> (r: bool)
    requires
        tcx.wf(),
    ensures
        r == same_type(tcx, a, b),
    decreases a,
{
    let (da, db) = match (tcx.get(a), tcx.get(b)) {
        (Some(x), Some(y)) => (x, y),
        _ => { return a == b; },
    };
    match (&da.kind, &db.kind) {
        (TyKind::Adt(did_a, args_a), TyKind::Adt(did_b, args_b)) => {
            if *did_a != *did_b {
                return false;
            }
            let mut j: usize = 0;
            while j < args_a.len() && j < args_b.len()
                invariant
                    0 <= j <= args_a.len(),
                    j <= args_b.len(),
                    forall|k: int|
                        0 <= k < j ==> match (#[trigger] args_a[k], args_b[k]) {
                            (GenericArg::Const(x), GenericArg::Const(y)) => x == y,
                            (GenericArg::Type(x), GenericArg::Type(y)) => x < a && same_type(
                                tcx,
                                x,
                                y,
                            ),
                            _ => true,
                        },
                decreases args_a.len() - j,
            {
                let ok = match (args_a[j], args_b[j]) {
                    (GenericArg::Const(x), GenericArg::Const(y)) => x == y,
                    (GenericArg::Type(x), GenericArg::Type(y)) => {
                        proof {
                            lemma_arg_below(tcx, a, args_a@, j as int, x);
                        }
                        same_type_and_consts(tcx, x, y)
                    },
                    _ => true,
                };
                if !ok {
                    assert(!(match (args_a[j as int], args_b[j as int]) {
                        (GenericArg::Const(x), GenericArg::Const(y)) => x == y,
                        (GenericArg::Type(x), GenericArg::Type(y)) => x < a && same_type(tcx, x, y),
                        _ => true,
                    }));
                    return false;
                }
                j += 1;
            }
            true
        },
        _ => a == b,
    }
}

} // verus!
