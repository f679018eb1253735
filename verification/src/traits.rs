//! Trait and capability queries: what trait resolution has recorded about a
//! type in a parameter environment.

use vstd::prelude::*;
use crate::context::{LateContext, TyCtxt};
use crate::model::{DefId, GenericArg, ParamEnv, TraitImpl, TyId, TyKind};
use crate::sym;

verus! {

/// Whether two argument lists are equal.
pub fn args_eq(a: &[GenericArg], b: &[GenericArg]) -> (r: bool)
    ensures
        r == (a@ == b@),
{
    if a.len() != b.len() {
        return false;
    }
    let mut i: usize = 0;
    while i < a.len()
        invariant
            a@.len() == b@.len(),
            0 <= i <= a@.len(),
            forall|j: int| 0 <= j < i ==> a@[j] == b@[j],
        decreases a@.len() - i,
    {
        if a[i] != b[i] {
            return false;
        }
        i += 1;
    }
    assert(a@ =~= b@);
    true
}

/// Whether `impls` holds the fact `trait_id<params>`.
pub open spec fn has_impl(impls: Seq<TraitImpl>, trait_id: DefId, params: Seq<GenericArg>) -> bool {
    exists|i: int|
        0 <= i < impls.len() && (#[trigger] impls[i]).trait_id == trait_id && impls[i].params@
            == params
}

/// Whether `ty` implements `trait_id<ty_params>` in the environment `env`:
/// it is a type of the context without escaping bound variables, and trait
/// resolution has recorded that impl for it there.
pub open spec fn implements(
    tcx: &TyCtxt,
    env: usize,
    ty: TyId,
    trait_id: DefId,
    ty_params: Seq<GenericArg>,
) -> bool {
    match tcx.ty_data(ty) {
        Some(d) => !d.has_escaping_bound_vars && match tcx.facts(env, ty) {
            Some(f) => has_impl(f.impls@, trait_id, ty_params),
            None => false,
        },
        None => false,
    }
}

/// Whether `ty` still holds an inference placeholder.
pub open spec fn needs_infer(tcx: &TyCtxt, ty: TyId) -> bool {
    match tcx.ty_data(ty) {
        Some(d) => d.needs_infer,
        None => false,
    }
}

/// Checks whether a type implements a trait, in the given environment. The
/// type must not hold inference placeholders.
#[verifier::loop_isolation(false)]
pub fn implements_trait_with_env(
    tcx: &TyCtxt,
    param_env: &ParamEnv,
    ty: TyId,
    trait_id: DefId,
    ty_params: &[GenericArg],
) -> (r: bool)
    requires
        !needs_infer(tcx, ty),
    ensures
        r == implements(tcx, param_env.id, ty, trait_id, ty_params@),
{
    let d = match tcx.get(ty) {
        Some(d) => d,
        None => { return false; },
    };
    if d.has_escaping_bound_vars {
        return false;
    }
    let f = match tcx.get_facts(param_env.id, ty) {
        Some(f) => f,
        None => { return false; },
    };
    let mut i: usize = 0;
    while i < f.impls.len()
        invariant
            0 <= i <= f.impls@.len(),
            forall|j: int|
                0 <= j < i ==> !((#[trigger] f.impls@[j]).trait_id == trait_id && f.impls@[j].params@
                    == ty_params@),
        decreases f.impls@.len() - i,
    {
        if f.impls[i].trait_id == trait_id && args_eq(f.impls[i].params.as_slice(), ty_params) {
            assert(f.impls@[i as int].trait_id == trait_id && f.impls@[i as int].params@
                == ty_params@);
            return true;
        }
        i += 1;
    }
    false
}

/// Checks whether a type implements a trait in the context's environment.
pub fn implements_trait(cx: &LateContext, ty: TyId, trait_id: DefId, ty_params: &[GenericArg]) -> (r:
    bool)
    requires
        !needs_infer(&cx.tcx, ty),
    ensures
        r == implements(&cx.tcx, cx.param_env.id, ty, trait_id, ty_params@),
{
    implements_trait_with_env(&cx.tcx, &cx.param_env, ty, trait_id, ty_params)
}

/// Whether values of `ty` are copied rather than moved.
pub open spec fn copy_spec(cx: &LateContext, ty: TyId) -> bool {
    match cx.tcx.facts(cx.param_env.id, ty) {
        Some(f) => f.is_copy,
        None => false,
    }
}

/// Checks if the given type implements copy.
pub fn is_copy(cx: &LateContext, ty: TyId) -> (r: bool)
    ensures
        r == copy_spec(cx, ty),
{
    match cx.tcx.get_facts(cx.param_env.id, ty) {
        Some(f) => f.is_copy,
        None => false,
    }
}

/// Whether the definition `d` carries the diagnostic name `name`.
pub open spec fn is_diagnostic_item_spec(tcx: &TyCtxt, name: u32, d: DefId) -> bool {
    match tcx.def(d) {
        Some(x) => x.diagnostic_name == Some(name),
        None => false,
    }
}

/// Whether `d` is the first definition that carries the diagnostic name
/// `name`: the one that the name stands for.
pub open spec fn names_diagnostic_item(tcx: &TyCtxt, name: u32, d: DefId) -> bool {
    is_diagnostic_item_spec(tcx, name, d) && forall|e: DefId|
        e < d ==> !is_diagnostic_item_spec(tcx, name, e)
}

/// A diagnostic name stands for one definition only.
pub proof fn lemma_diagnostic_item_unique(tcx: &TyCtxt, name: u32, a: DefId, b: DefId)
    requires
        names_diagnostic_item(tcx, name, a),
        names_diagnostic_item(tcx, name, b),
    ensures
        a == b,
{
    if a < b {
    } else if b < a {
    }
}

/// Whether the definition `d` carries the diagnostic name `name`.
pub fn is_diagnostic_item(tcx: &TyCtxt, name: u32, d: DefId) -> (r: bool)
    ensures
        r == is_diagnostic_item_spec(tcx, name, d),
{
    match tcx.get_def(d) {
        Some(x) => match x.diagnostic_name {
            Some(n) => n == name,
            None => false,
        },
        None => false,
    }
}

/// The definition that the diagnostic name `name` stands for.
pub fn get_diagnostic_item(tcx: &TyCtxt, name: u32) -> (r: Option<DefId>)
    ensures
        r matches Some(d) ==> names_diagnostic_item(tcx, name, d),
        r.is_none() ==> forall|d: DefId| !is_diagnostic_item_spec(tcx, name, d),
{
    let mut i: usize = 0;
    while i < tcx.defs.len()
        invariant
            0 <= i <= tcx.defs.len(),
            forall|e: DefId| e < i ==> !is_diagnostic_item_spec(tcx, name, e),
        decreases tcx.defs.len() - i,
    {
        if is_diagnostic_item(tcx, name, i) {
            return Some(i);
        }
        i += 1;
    }
    None
}

/// This checks whether a given type is known to implement the trait that
/// the diagnostic name of debug formatting stands for.
pub fn has_debug_impl(cx: &LateContext, ty: TyId) -> (r: bool)
    requires
        (exists|d: DefId| is_diagnostic_item_spec(&cx.tcx, sym::DEBUG, d)) ==> !needs_infer(
            &cx.tcx,
            ty,
        ),
    ensures
        r == exists|d: DefId| #[trigger]
            names_diagnostic_item(&cx.tcx, sym::DEBUG, d) && implements(
                &cx.tcx,
                cx.param_env.id,
                ty,
                d,
                Seq::empty(),
            ),
{
    match get_diagnostic_item(&cx.tcx, sym::DEBUG) {
        Some(debug) => {
            let no_args: Vec<GenericArg> = Vec::new();
            let r = implements_trait(cx, ty, debug, no_args.as_slice());
            assert(no_args@ =~= Seq::empty());
            proof {
                if !r {
                    assert forall|d: DefId| #[trigger]
                        names_diagnostic_item(&cx.tcx, sym::DEBUG, d) implies d == debug by {
                        if d < debug {
                        } else if debug < d {
                        }
                    }
                }
            }
            r
        },
        None => false,
    }
}

/// The definition of the algebraic type that `ty` is an instance of.
pub open spec fn adt_did(tcx: &TyCtxt, ty: TyId) -> Option<DefId> {
    match tcx.kind(ty) {
        Some(TyKind::Adt(did, _)) => Some(did),
        _ => None,
    }
}

/// The definition of the algebraic type that `ty` is an instance of.
pub fn ty_adt_did(tcx: &TyCtxt, ty: TyId) -> (r: Option<DefId>)
    ensures
        r == adt_did(tcx, ty),
{
    match tcx.get(ty) {
        Some(d) => match &d.kind {
            TyKind::Adt(did, _) => Some(*did),
            _ => None,
        },
        None => None,
    }
}

/// Whether the definition `did` is an algebraic type with a destructor.
pub open spec fn def_has_dtor(tcx: &TyCtxt, did: DefId) -> bool {
    match tcx.def(did) {
        Some(x) => match x.adt {
            Some(a) => a.has_dtor,
            None => false,
        },
        None => false,
    }
}

/// Whether `ty` is an algebraic type whose definition has a destructor.
pub open spec fn drop_spec(tcx: &TyCtxt, ty: TyId) -> bool {
    match adt_did(tcx, ty) {
        Some(did) => def_has_dtor(tcx, did),
        None => false,
    }
}

/// Checks whether this type implements `Drop`.
pub fn has_drop(cx: &LateContext, ty: TyId) -> (r: bool)
    ensures
        r == drop_spec(&cx.tcx, ty),
{
    match ty_adt_did(&cx.tcx, ty) {
        Some(did) => match cx.tcx.get_def(did) {
            Some(x) => match &x.adt {
                Some(a) => a.has_dtor,
                None => false,
            },
            None => false,
        },
        None => false,
    }
}

/// Whether a value of `ty` can be moved out of in part: the type has no
/// destructor, is not copied, and is neither a type parameter nor an
/// algebraic type whose fields are all copied.
pub open spec fn partially_movable(cx: &LateContext, ty: TyId) -> bool {
    !drop_spec(&cx.tcx, ty) && !copy_spec(cx, ty) && match cx.tcx.kind(ty) {
        Some(TyKind::Param(_)) => false,
        Some(TyKind::Adt(_, _)) => exists|v: int, f: int|
            0 <= v < cx.tcx.types[ty as int].variant_fields.len() && 0 <= f
                < cx.tcx.types[ty as int].variant_fields[v].len() && !copy_spec(
                cx,
                #[trigger] cx.tcx.types[ty as int].variant_fields[v][f],
            ),
        _ => true,
    }
}

/// Checks whether a type can be partially moved.
#[verifier::loop_isolation(false)]
pub fn can_partially_move_ty(cx: &LateContext, ty: TyId) -> (r: bool)
    ensures
        r == partially_movable(cx, ty),
{
    if has_drop(cx, ty) || is_copy(cx, ty) {
        return false;
    }
    let d = match cx.tcx.get(ty) {
        Some(d) => d,
        None => { return true; },
    };
    match &d.kind {
        TyKind::Param(_) => false,
        TyKind::Adt(_, _) => {
            let mut v: usize = 0;
            while v < d.variant_fields.len()
                invariant
                    0 <= v <= d.variant_fields.len(),
                    forall|a: int, b: int|
                        0 <= a < v && 0 <= b < d.variant_fields[a].len() ==> copy_spec(
                            cx,
                            #[trigger] d.variant_fields[a][b],
                        ),
                decreases d.variant_fields.len() - v,
            {
                let fields = &d.variant_fields[v];
                let mut f: usize = 0;
                while f < fields.len()
                    invariant
                        0 <= f <= fields.len(),
                        forall|b: int| 0 <= b < f ==> copy_spec(cx, #[trigger] fields[b]),
                    decreases fields.len() - f,
                {
                    if !is_copy(cx, fields[f]) {
                        assert(!copy_spec(cx, cx.tcx.types[ty as int].variant_fields[v as int][f as int]));
                        return true;
                    }
                    f += 1;
                }
                v += 1;
            }
            false
        },
        _ => true,
    }
}

} // verus!
