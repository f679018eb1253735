use ty_utils::context::{LateContext, TyCtxt};
use ty_utils::drop_order::{drop_parts_of, needs_ordered_drop, try_needs_ordered_drop};
use ty_utils::model::{
    AdtDef, AdtKind, DefData, EnvFacts, GenericArg, IntTy, LangItems, Mutability, ParamEnv,
    TraitImpl, TyData, TyKind,
};
use ty_utils::normalize::is_normalizable;
use ty_utils::size::{approx_ty_size, try_approx_ty_size};
use ty_utils::sym;
use ty_utils::traits::{
    can_partially_move_ty, get_diagnostic_item, has_debug_impl, has_drop, implements_trait,
    implements_trait_with_env, is_copy,
};

fn ty(tcx: &mut TyCtxt, kind: TyKind) -> usize {
    let mut data = TyData::new(kind);
    let mut f = EnvFacts::new();
    f.normalizes = true;
    data.facts = vec![f];
    tcx.mk_ty(data).unwrap()
}

fn adt_def(tcx: &mut TyCtxt, kind: AdtKind, has_dtor: bool) -> usize {
    let mut d = DefData::new(1000);
    let did = tcx.defs.len();
    d.adt = Some(AdtDef { did, kind, has_dtor, repr_signed: false, variants: vec![] });
    tcx.add_def(d).unwrap()
}

fn env() -> ParamEnv {
    ParamEnv { id: 0, caller_bounds: vec![] }
}

fn late(tcx: TyCtxt) -> LateContext {
    LateContext { tcx, param_env: env() }
}

#[test]
fn recursive_type_is_not_normalizable() {
    let mut tcx = TyCtxt::new(LangItems::none());
    let list_def = adt_def(&mut tcx, AdtKind::Struct, false);
    let int = ty(&mut tcx, TyKind::Int(IntTy::I32));
    let list = ty(&mut tcx, TyKind::Adt(list_def, vec![]));
    let ptr = ty(&mut tcx, TyKind::RawPtr(list, Mutability::Not));
    let holder = ty(&mut tcx, TyKind::Tuple(vec![int, list]));
    tcx.types[list].variant_fields = vec![vec![int, ptr]];
    let cx = late(tcx);
    assert!(cx.tcx.is_well_formed());
    assert!(is_normalizable(&cx, &env(), int));
    assert!(!is_normalizable(&cx, &env(), list));
    assert!(!is_normalizable(&cx, &env(), ptr));
    assert!(!is_normalizable(&cx, &env(), holder));
    assert_eq!(approx_ty_size(&cx, list), 0);
    assert_eq!(approx_ty_size(&cx, holder), 0);
}

#[test]
fn normalizable_needs_every_part_to_normalize() {
    let mut tcx = TyCtxt::new(LangItems::none());
    let d = adt_def(&mut tcx, AdtKind::Struct, false);
    let int = ty(&mut tcx, TyKind::Int(IntTy::I32));
    let bad = ty(&mut tcx, TyKind::Param(0));
    tcx.types[bad].facts[0].normalizes = false;
    let good_tuple = ty(&mut tcx, TyKind::Tuple(vec![int, int]));
    let nested = ty(&mut tcx, TyKind::Slice(good_tuple));
    let bad_nested = ty(&mut tcx, TyKind::Tuple(vec![int, bad]));
    let deep = ty(&mut tcx, TyKind::Ref(bad_nested, Mutability::Not));
    let generic = ty(&mut tcx, TyKind::Adt(d, vec![GenericArg::Type(bad)]));
    let with_field = ty(&mut tcx, TyKind::Adt(d, vec![]));
    tcx.types[with_field].variant_fields = vec![vec![int], vec![deep]];
    let shared = ty(&mut tcx, TyKind::Tuple(vec![good_tuple, good_tuple, nested]));
    let cx = late(tcx);
    assert!(is_normalizable(&cx, &env(), good_tuple));
    assert!(is_normalizable(&cx, &env(), nested));
    assert!(!is_normalizable(&cx, &env(), bad));
    assert!(!is_normalizable(&cx, &env(), bad_nested));
    assert!(!is_normalizable(&cx, &env(), deep));
    assert!(is_normalizable(&cx, &env(), generic));
    assert!(!is_normalizable(&cx, &env(), with_field));
    assert!(is_normalizable(&cx, &env(), shared));
    assert!(!is_normalizable(&cx, &env(), 400));
    assert!(!is_normalizable(&cx, &ParamEnv { id: 1, caller_bounds: vec![] }, int));
}

#[test]
fn sizes_are_summed_and_maximized() {
    let mut tcx = TyCtxt::new(LangItems::none());
    let s = adt_def(&mut tcx, AdtKind::Struct, false);
    let e = adt_def(&mut tcx, AdtKind::Enum, false);
    let u = adt_def(&mut tcx, AdtKind::Union, false);
    let no_adt = tcx.add_def(DefData::new(5)).unwrap();
    let one = ty(&mut tcx, TyKind::Uint(ty_utils::model::UintTy::U8));
    tcx.types[one].facts[0].layout_size = Some(1);
    let four = ty(&mut tcx, TyKind::Int(IntTy::I32));
    tcx.types[four].facts[0].layout_size = Some(4);
    let eight = ty(&mut tcx, TyKind::Int(IntTy::I64));
    tcx.types[eight].facts[0].layout_size = Some(8);
    let param = ty(&mut tcx, TyKind::Param(0));
    let tuple = ty(&mut tcx, TyKind::Tuple(vec![one, four, param, eight]));
    let array = ty(&mut tcx, TyKind::Array(tuple, Some(3)));
    let open_array = ty(&mut tcx, TyKind::Array(tuple, None));
    let strukt = ty(&mut tcx, TyKind::Adt(s, vec![]));
    tcx.types[strukt].variant_fields = vec![vec![four, array, one]];
    let enumeration = ty(&mut tcx, TyKind::Adt(e, vec![]));
    tcx.types[enumeration].variant_fields = vec![vec![one, one], vec![four, eight], vec![], vec![tuple]];
    let union = ty(&mut tcx, TyKind::Adt(u, vec![]));
    tcx.types[union].variant_fields = vec![vec![one, four, strukt, eight]];
    let empty_enum = ty(&mut tcx, TyKind::Adt(e, vec![]));
    let unknown = ty(&mut tcx, TyKind::Adt(no_adt, vec![]));
    tcx.types[unknown].variant_fields = vec![vec![eight]];
    let known = ty(&mut tcx, TyKind::Adt(s, vec![]));
    tcx.types[known].variant_fields = vec![vec![eight, eight]];
    tcx.types[known].facts[0].layout_size = Some(24);
    let slice = ty(&mut tcx, TyKind::Slice(eight));
    let cx = late(tcx);
    assert_eq!(approx_ty_size(&cx, one), 1);
    assert_eq!(approx_ty_size(&cx, param), 0);
    assert_eq!(approx_ty_size(&cx, tuple), 13);
    assert_eq!(approx_ty_size(&cx, array), 39);
    assert_eq!(approx_ty_size(&cx, open_array), 0);
    assert_eq!(approx_ty_size(&cx, strukt), 44);
    assert_eq!(approx_ty_size(&cx, enumeration), 13);
    assert_eq!(approx_ty_size(&cx, union), 44);
    assert_eq!(approx_ty_size(&cx, empty_enum), 0);
    assert_eq!(approx_ty_size(&cx, unknown), 0);
    assert_eq!(approx_ty_size(&cx, known), 24);
    assert_eq!(approx_ty_size(&cx, slice), 0);
    assert_eq!(approx_ty_size(&cx, 999), 0);
}

fn significant(tcx: &mut TyCtxt, kind: TyKind) -> usize {
    let t = ty(tcx, kind);
    tcx.types[t].facts[0].has_significant_drop = true;
    t
}

#[test]
fn drop_order_of_recursive_types_terminates() {
    let mut lang = LangItems::none();
    lang.drop_trait = Some(0);
    let mut tcx = TyCtxt::new(lang);
    let _drop_trait = tcx.add_def(DefData::new(1)).unwrap();
    let node_def = adt_def(&mut tcx, AdtKind::Struct, false);
    let int = ty(&mut tcx, TyKind::Int(IntTy::I32));
    let node = significant(&mut tcx, TyKind::Adt(node_def, vec![]));
    let pair = significant(&mut tcx, TyKind::Tuple(vec![node, int]));
    tcx.types[node].variant_fields = vec![vec![int], vec![pair, node]];
    let cx = late(tcx);
    assert!(cx.tcx.has_no_infer());
    assert!(!needs_ordered_drop(&cx, node));
    assert!(!needs_ordered_drop(&cx, pair));
    assert!(!needs_ordered_drop(&cx, int));
    assert!(!needs_ordered_drop(&cx, 12345));
}

#[test]
fn drop_order_matters_where_a_destructor_is_reached() {
    let mut lang = LangItems::none();
    lang.drop_trait = Some(0);
    lang.owned_box = Some(1);
    let mut tcx = TyCtxt::new(lang);
    let drop_trait = tcx.add_def(DefData::new(1)).unwrap();
    let box_def = adt_def(&mut tcx, AdtKind::Struct, true);
    let guard_def = adt_def(&mut tcx, AdtKind::Struct, true);
    let plain_def = adt_def(&mut tcx, AdtKind::Struct, false);
    let mut rc = DefData::new(7);
    rc.diagnostic_name = Some(sym::RC);
    let rc_def = tcx.add_def(rc).unwrap();
    let int = ty(&mut tcx, TyKind::Int(IntTy::I32));
    let guard = significant(&mut tcx, TyKind::Adt(guard_def, vec![]));
    tcx.types[guard].facts[0].impls = vec![TraitImpl { trait_id: drop_trait, params: vec![] }];
    let quiet_guard = ty(&mut tcx, TyKind::Adt(guard_def, vec![]));
    tcx.types[quiet_guard].facts[0].impls =
        vec![TraitImpl { trait_id: drop_trait, params: vec![] }];
    let boxed_int = significant(&mut tcx, TyKind::Adt(box_def, vec![GenericArg::Type(int)]));
    tcx.types[boxed_int].variant_fields = vec![vec![guard]];
    let boxed_guard = significant(
        &mut tcx,
        TyKind::Adt(box_def, vec![GenericArg::Lifetime, GenericArg::Type(guard)]),
    );
    let rc_boxed = significant(&mut tcx, TyKind::Adt(rc_def, vec![GenericArg::Type(boxed_guard)]));
    let holder = significant(&mut tcx, TyKind::Adt(plain_def, vec![]));
    tcx.types[holder].variant_fields = vec![vec![int, boxed_int], vec![rc_boxed]];
    let clean = significant(&mut tcx, TyKind::Adt(plain_def, vec![]));
    tcx.types[clean].variant_fields = vec![vec![int, boxed_int, quiet_guard]];
    let array = significant(&mut tcx, TyKind::Array(guard, Some(2)));
    let slice = significant(&mut tcx, TyKind::Slice(int));
    let tuple = significant(&mut tcx, TyKind::Tuple(vec![int, clean]));
    let cx = late(tcx);
    assert!(needs_ordered_drop(&cx, guard));
    assert!(!needs_ordered_drop(&cx, quiet_guard));
    assert!(!needs_ordered_drop(&cx, boxed_int));
    assert!(needs_ordered_drop(&cx, boxed_guard));
    assert!(needs_ordered_drop(&cx, rc_boxed));
    assert!(needs_ordered_drop(&cx, holder));
    assert!(!needs_ordered_drop(&cx, clean));
    assert!(needs_ordered_drop(&cx, array));
    assert!(needs_ordered_drop(&cx, slice));
    assert!(!needs_ordered_drop(&cx, tuple));
    assert_eq!(drop_parts_of(&cx, guard), None);
    assert_eq!(drop_parts_of(&cx, boxed_guard), Some(vec![guard]));
    assert_eq!(drop_parts_of(&cx, holder), Some(vec![int, boxed_int, rc_boxed]));
    assert_eq!(drop_parts_of(&cx, int), Some(vec![]));
}

#[test]
fn trait_facts_are_looked_up_by_environment() {
    let mut tcx = TyCtxt::new(LangItems::none());
    let mut dbg = DefData::new(1);
    dbg.diagnostic_name = Some(sym::DEBUG);
    let debug = tcx.add_def(dbg).unwrap();
    let mut dbg2 = DefData::new(2);
    dbg2.diagnostic_name = Some(sym::DEBUG);
    let late_debug = tcx.add_def(dbg2).unwrap();
    let other = tcx.add_def(DefData::new(3)).unwrap();
    let int = ty(&mut tcx, TyKind::Int(IntTy::I32));
    let t = ty(&mut tcx, TyKind::Param(0));
    tcx.types[t].facts[0].impls = vec![
        TraitImpl { trait_id: other, params: vec![GenericArg::Type(int)] },
        TraitImpl { trait_id: debug, params: vec![] },
    ];
    tcx.types[t].facts[0].is_copy = true;
    let u = ty(&mut tcx, TyKind::Param(1));
    tcx.types[u].facts[0].impls = vec![TraitImpl { trait_id: late_debug, params: vec![] }];
    let escaping = ty(&mut tcx, TyKind::Param(2));
    tcx.types[escaping].facts[0].impls = vec![TraitImpl { trait_id: debug, params: vec![] }];
    tcx.types[escaping].has_escaping_bound_vars = true;
    let cx = late(tcx);
    assert_eq!(get_diagnostic_item(&cx.tcx, sym::DEBUG), Some(debug));
    assert_eq!(get_diagnostic_item(&cx.tcx, sym::ITERATOR), None);
    assert!(implements_trait(&cx, t, debug, &[]));
    assert!(implements_trait(&cx, t, other, &[GenericArg::Type(int)]));
    assert!(!implements_trait(&cx, t, other, &[]));
    assert!(!implements_trait(&cx, t, other, &[GenericArg::Type(t)]));
    assert!(!implements_trait(&cx, int, debug, &[]));
    assert!(!implements_trait(&cx, escaping, debug, &[]));
    assert!(!implements_trait(&cx, 99, debug, &[]));
    let elsewhere = ParamEnv { id: 1, caller_bounds: vec![] };
    assert!(implements_trait_with_env(&cx.tcx, &cx.param_env, t, debug, &[]));
    assert!(!implements_trait_with_env(&cx.tcx, &elsewhere, t, debug, &[]));
    assert!(has_debug_impl(&cx, t));
    assert!(!has_debug_impl(&cx, u));
    assert!(!has_debug_impl(&cx, int));
    assert!(is_copy(&cx, t));
    assert!(!is_copy(&cx, int));
    assert!(!is_copy(&cx, 99));
}

#[test]
fn partial_moves_need_a_field_that_is_moved() {
    let mut tcx = TyCtxt::new(LangItems::none());
    let plain = adt_def(&mut tcx, AdtKind::Struct, false);
    let dropping = adt_def(&mut tcx, AdtKind::Struct, true);
    let int = ty(&mut tcx, TyKind::Int(IntTy::I32));
    tcx.types[int].facts[0].is_copy = true;
    let string = ty(&mut tcx, TyKind::Adt(plain, vec![]));
    let all_copy = ty(&mut tcx, TyKind::Adt(plain, vec![]));
    tcx.types[all_copy].variant_fields = vec![vec![int, int], vec![int]];
    let mixed = ty(&mut tcx, TyKind::Adt(plain, vec![]));
    tcx.types[mixed].variant_fields = vec![vec![int], vec![int, string]];
    let with_dtor = ty(&mut tcx, TyKind::Adt(dropping, vec![]));
    tcx.types[with_dtor].variant_fields = vec![vec![string]];
    let param = ty(&mut tcx, TyKind::Param(0));
    let tuple = ty(&mut tcx, TyKind::Tuple(vec![int, int]));
    let cx = late(tcx);
    assert!(!has_drop(&cx, mixed));
    assert!(has_drop(&cx, with_dtor));
    assert!(!has_drop(&cx, int));
    assert!(!can_partially_move_ty(&cx, int));
    assert!(!can_partially_move_ty(&cx, string));
    assert!(!can_partially_move_ty(&cx, all_copy));
    assert!(can_partially_move_ty(&cx, mixed));
    assert!(!can_partially_move_ty(&cx, with_dtor));
    assert!(!can_partially_move_ty(&cx, param));
    assert!(can_partially_move_ty(&cx, tuple));
}

#[test]
fn estimates_that_do_not_fit_are_reported() {
    let mut tcx = TyCtxt::new(LangItems::none());
    let e = adt_def(&mut tcx, AdtKind::Enum, false);
    let huge = ty(&mut tcx, TyKind::Int(IntTy::I64));
    tcx.types[huge].facts[0].layout_size = Some(u64::MAX);
    let one = ty(&mut tcx, TyKind::Bool);
    tcx.types[one].facts[0].layout_size = Some(1);
    let zero = ty(&mut tcx, TyKind::Tuple(vec![]));
    let fits = ty(&mut tcx, TyKind::Tuple(vec![huge, zero]));
    let sum = ty(&mut tcx, TyKind::Tuple(vec![huge, one]));
    let product = ty(&mut tcx, TyKind::Array(huge, Some(2)));
    let once = ty(&mut tcx, TyKind::Array(huge, Some(1)));
    let empty = ty(&mut tcx, TyKind::Array(sum, Some(0)));
    let variants = ty(&mut tcx, TyKind::Adt(e, vec![]));
    tcx.types[variants].variant_fields = vec![vec![one], vec![one, huge]];
    let cx = late(tcx);
    assert_eq!(try_approx_ty_size(&cx, fits), Some(u64::MAX));
    assert_eq!(approx_ty_size(&cx, fits), u64::MAX);
    assert_eq!(try_approx_ty_size(&cx, sum), None);
    assert_eq!(try_approx_ty_size(&cx, product), None);
    assert_eq!(try_approx_ty_size(&cx, once), Some(u64::MAX));
    assert_eq!(try_approx_ty_size(&cx, empty), Some(0));
    assert_eq!(try_approx_ty_size(&cx, variants), None);
}

#[test]
fn visited_set_tells_new_types_from_seen_ones() {
    let mut seen = ty_utils::visited::TySet::new(4);
    assert!(seen.insert(2));
    assert!(!seen.insert(2));
    assert!(seen.insert(3));
    assert!(seen.insert(0));
    assert!(!seen.insert(3));
}

#[test]
fn cache_remembers_what_was_found() {
    let mut cache = ty_utils::normalize::NormCache::new(3);
    assert_eq!(cache.get(1), None);
    cache.enter(1);
    assert_eq!(cache.get(1), Some(false));
    assert_eq!(cache.get(0), None);
    cache.enter(2);
    cache.settle(1);
    assert_eq!(cache.get(1), Some(true));
    assert_eq!(cache.get(2), Some(false));
    assert_eq!(cache.get(7), None);
}

#[test]
fn owned_c_string_with_a_destructor_matters() {
    let mut lang = LangItems::none();
    lang.drop_trait = Some(0);
    let mut tcx = TyCtxt::new(lang);
    let drop_trait = tcx.add_def(DefData::new(1)).unwrap();
    let mut c = DefData::new(2);
    c.diagnostic_name = Some(4000);
    c.adt = Some(AdtDef {
        did: 1,
        kind: AdtKind::Struct,
        has_dtor: true,
        repr_signed: false,
        variants: vec![],
    });
    let c_string_def = tcx.add_def(c).unwrap();
    let c_string = significant(&mut tcx, TyKind::Adt(c_string_def, vec![]));
    tcx.types[c_string].facts[0].impls = vec![TraitImpl { trait_id: drop_trait, params: vec![] }];
    let cx = late(tcx);
    assert!(needs_ordered_drop(&cx, c_string));
}

#[test]
fn placeholders_out_of_reach_do_not_matter() {
    let mut lang = LangItems::none();
    lang.drop_trait = Some(0);
    let mut tcx = TyCtxt::new(lang);
    let _drop_trait = tcx.add_def(DefData::new(1)).unwrap();
    let int = ty(&mut tcx, TyKind::Int(IntTy::I32));
    let unknown = significant(&mut tcx, TyKind::Infer);
    tcx.types[unknown].needs_infer = true;
    let pair = significant(&mut tcx, TyKind::Tuple(vec![int, int]));
    let guarded = significant(&mut tcx, TyKind::Slice(int));
    let first = significant(&mut tcx, TyKind::Tuple(vec![guarded, unknown]));
    let second = significant(&mut tcx, TyKind::Tuple(vec![unknown, guarded]));
    let cx = late(tcx);
    assert!(!cx.tcx.has_no_infer());
    assert!(!needs_ordered_drop(&cx, pair));
    assert_eq!(try_needs_ordered_drop(&cx, pair), Some(false));
    assert_eq!(try_needs_ordered_drop(&cx, unknown), None);
    assert_eq!(try_needs_ordered_drop(&cx, first), Some(true));
    assert_eq!(try_needs_ordered_drop(&cx, second), None);
}
