use ty_utils::classify::{
    has_iter_method, is_c_void, is_isize_or_usize, is_must_use_ty, is_non_aggregate_primitive_type,
    is_recursively_primitive_type, is_type_diagnostic_item, is_type_lang_item,
    is_type_ref_to_diagnostic_item, is_uninit_value_valid_for_ty, get_type_diagnostic_name,
    match_type, same_type_and_consts, type_is_unsafe_function,
};
use ty_utils::context::{LateContext, TyCtxt};
use ty_utils::model::{
    DefData, ExistentialPredicate, FloatTy, FnSig, GenericArg, IntTy, LangItem, LangItems,
    Mutability, ParamEnv, Predicate, TyData, TyKind, UintTy,
};
use ty_utils::peel::{
    peel_mid_ty_refs, peel_mid_ty_refs_is_mutable, walk_ptrs_hir_ty, walk_ptrs_ty_depth,
};
use ty_utils::model::HirTyKind;
use ty_utils::sym;
use ty_utils::walk::{contains_adt_constructor, walk};

fn ty(tcx: &mut TyCtxt, kind: TyKind) -> usize {
    tcx.mk_ty(TyData::new(kind)).unwrap()
}

fn def(tcx: &mut TyCtxt, name: u32) -> usize {
    tcx.add_def(DefData::new(name)).unwrap()
}

fn late(tcx: TyCtxt) -> LateContext {
    LateContext { tcx, param_env: ParamEnv { id: 0, caller_bounds: vec![] } }
}

#[test]
fn scalars_are_primitive() {
    let mut tcx = TyCtxt::new(LangItems::none());
    let kinds = vec![
        TyKind::Bool,
        TyKind::Char,
        TyKind::Int(IntTy::I32),
        TyKind::Uint(UintTy::U64),
        TyKind::Float(FloatTy::Double),
    ];
    for kind in kinds {
        let t = ty(&mut tcx, kind);
        assert!(is_non_aggregate_primitive_type(&tcx, t));
        assert!(is_recursively_primitive_type(&tcx, t));
    }
    let s = ty(&mut tcx, TyKind::Str);
    assert!(!is_non_aggregate_primitive_type(&tcx, s));
    assert!(is_recursively_primitive_type(&tcx, s));
    assert!(!is_non_aggregate_primitive_type(&tcx, 1000));
    assert!(!is_recursively_primitive_type(&tcx, 1000));
}

#[test]
fn aggregates_of_primitives_are_recursively_primitive() {
    let mut tcx = TyCtxt::new(LangItems::none());
    let int = ty(&mut tcx, TyKind::Int(IntTy::I8));
    let s = ty(&mut tcx, TyKind::Str);
    let str_ref = ty(&mut tcx, TyKind::Ref(s, Mutability::Not));
    let int_ref = ty(&mut tcx, TyKind::Ref(int, Mutability::Not));
    let array = ty(&mut tcx, TyKind::Array(int, Some(4)));
    let slice = ty(&mut tcx, TyKind::Slice(array));
    let tuple = ty(&mut tcx, TyKind::Tuple(vec![int, str_ref, slice]));
    let unit = ty(&mut tcx, TyKind::Tuple(vec![]));
    let bad_tuple = ty(&mut tcx, TyKind::Tuple(vec![int, int_ref]));
    let nested = ty(&mut tcx, TyKind::Array(bad_tuple, None));
    let param = ty(&mut tcx, TyKind::Param(0));
    assert!(is_recursively_primitive_type(&tcx, str_ref));
    assert!(!is_recursively_primitive_type(&tcx, int_ref));
    assert!(is_recursively_primitive_type(&tcx, array));
    assert!(is_recursively_primitive_type(&tcx, slice));
    assert!(is_recursively_primitive_type(&tcx, tuple));
    assert!(is_recursively_primitive_type(&tcx, unit));
    assert!(!is_recursively_primitive_type(&tcx, bad_tuple));
    assert!(!is_recursively_primitive_type(&tcx, nested));
    assert!(!is_recursively_primitive_type(&tcx, param));
    assert!(!is_non_aggregate_primitive_type(&tcx, array));
}

#[test]
fn isize_and_usize_only() {
    let mut tcx = TyCtxt::new(LangItems::none());
    let a = ty(&mut tcx, TyKind::Int(IntTy::Isize));
    let b = ty(&mut tcx, TyKind::Uint(UintTy::Usize));
    let c = ty(&mut tcx, TyKind::Int(IntTy::I64));
    let d = ty(&mut tcx, TyKind::Uint(UintTy::U64));
    assert!(is_isize_or_usize(&tcx, a));
    assert!(is_isize_or_usize(&tcx, b));
    assert!(!is_isize_or_usize(&tcx, c));
    assert!(!is_isize_or_usize(&tcx, d));
    assert!(!is_isize_or_usize(&tcx, 77));
}

#[test]
fn peeling_counts_layers_and_keeps_immutability() {
    let mut tcx = TyCtxt::new(LangItems::none());
    let base = ty(&mut tcx, TyKind::Bool);
    let r1 = ty(&mut tcx, TyKind::Ref(base, Mutability::Mut));
    let r2 = ty(&mut tcx, TyKind::Ref(r1, Mutability::Not));
    let r3 = ty(&mut tcx, TyKind::Ref(r2, Mutability::Mut));
    assert!(tcx.is_well_formed());
    assert_eq!(peel_mid_ty_refs(&tcx, base), (base, 0));
    assert_eq!(peel_mid_ty_refs(&tcx, r3), (base, 3));
    assert_eq!(walk_ptrs_ty_depth(&tcx, r2), (base, 2));
    assert_eq!(peel_mid_ty_refs_is_mutable(&tcx, base), (base, 0, Mutability::Mut));
    assert_eq!(peel_mid_ty_refs_is_mutable(&tcx, r1), (base, 1, Mutability::Mut));
    assert_eq!(peel_mid_ty_refs_is_mutable(&tcx, r2), (base, 2, Mutability::Not));
    assert_eq!(peel_mid_ty_refs_is_mutable(&tcx, r3), (base, 3, Mutability::Not));
}

#[test]
fn raw_pointers_are_not_peeled() {
    let mut tcx = TyCtxt::new(LangItems::none());
    let base = ty(&mut tcx, TyKind::Bool);
    let p = ty(&mut tcx, TyKind::RawPtr(base, Mutability::Mut));
    let r = ty(&mut tcx, TyKind::Ref(p, Mutability::Mut));
    assert_eq!(peel_mid_ty_refs(&tcx, r), (p, 1));
    assert_eq!(walk_ptrs_ty_depth(&tcx, r), (p, 1));
}

#[test]
fn surface_types_lose_pointers_and_references() {
    let mut tcx = TyCtxt::new(LangItems::none());
    let base = tcx.add_hir_ty(HirTyKind::Other).unwrap();
    let p = tcx.add_hir_ty(HirTyKind::Ptr(base)).unwrap();
    let r = tcx.add_hir_ty(HirTyKind::Rptr(p)).unwrap();
    assert_eq!(walk_ptrs_hir_ty(&tcx, r), base);
    assert_eq!(walk_ptrs_hir_ty(&tcx, base), base);
    assert_eq!(walk_ptrs_hir_ty(&tcx, 50), 50);
    assert_eq!(tcx.add_hir_ty(HirTyKind::Ptr(9)), None);
}

#[test]
fn must_use_follows_definitions_and_bounds() {
    let mut tcx = TyCtxt::new(LangItems::none());
    let plain = def(&mut tcx, 100);
    let mut d = DefData::new(101);
    d.must_use = true;
    let marked = tcx.add_def(d).unwrap();
    let mut o = DefData::new(102);
    o.explicit_item_bounds = vec![
        Predicate::Other,
        Predicate::Trait { trait_id: marked, self_ty: 0, first_arg: None },
    ];
    let opaque_def = tcx.add_def(o).unwrap();
    let mut o2 = DefData::new(103);
    o2.explicit_item_bounds = vec![Predicate::Trait { trait_id: plain, self_ty: 0, first_arg: None }];
    let plain_opaque_def = tcx.add_def(o2).unwrap();

    let a_plain = ty(&mut tcx, TyKind::Adt(plain, vec![]));
    let a_marked = ty(&mut tcx, TyKind::Adt(marked, vec![]));
    let foreign = ty(&mut tcx, TyKind::Foreign(marked));
    let slice = ty(&mut tcx, TyKind::Slice(a_marked));
    let ptr = ty(&mut tcx, TyKind::RawPtr(slice, Mutability::Not));
    let tuple = ty(&mut tcx, TyKind::Tuple(vec![a_plain, ptr]));
    let plain_tuple = ty(&mut tcx, TyKind::Tuple(vec![a_plain, a_plain]));
    let opaque = ty(&mut tcx, TyKind::Opaque(opaque_def, vec![]));
    let plain_opaque = ty(&mut tcx, TyKind::Opaque(plain_opaque_def, vec![]));
    let dynamic = ty(
        &mut tcx,
        TyKind::Dynamic(vec![
            ExistentialPredicate::AutoTrait(marked),
            ExistentialPredicate::Trait(marked, None),
        ]),
    );
    let auto_only = ty(&mut tcx, TyKind::Dynamic(vec![ExistentialPredicate::AutoTrait(marked)]));
    let generic = ty(&mut tcx, TyKind::Adt(plain, vec![GenericArg::Type(a_marked)]));
    let cx = late(tcx);
    assert!(!is_must_use_ty(&cx, a_plain));
    assert!(is_must_use_ty(&cx, a_marked));
    assert!(is_must_use_ty(&cx, foreign));
    assert!(is_must_use_ty(&cx, slice));
    assert!(is_must_use_ty(&cx, ptr));
    assert!(is_must_use_ty(&cx, tuple));
    assert!(!is_must_use_ty(&cx, plain_tuple));
    assert!(is_must_use_ty(&cx, opaque));
    assert!(!is_must_use_ty(&cx, plain_opaque));
    assert!(is_must_use_ty(&cx, dynamic));
    assert!(!is_must_use_ty(&cx, auto_only));
    assert!(!is_must_use_ty(&cx, generic));
}

#[test]
fn diagnostic_names_and_lang_items() {
    let mut lang = LangItems::none();
    lang.owned_box = Some(1);
    let mut tcx = TyCtxt::new(lang);
    let mut v = DefData::new(500);
    v.diagnostic_name = Some(sym::VEC);
    let vec_def = tcx.add_def(v).unwrap();
    let box_def = def(&mut tcx, 501);
    assert_eq!(box_def, 1);
    let int = ty(&mut tcx, TyKind::Int(IntTy::I32));
    let vec_ty = ty(&mut tcx, TyKind::Adt(vec_def, vec![GenericArg::Type(int)]));
    let vec_ref = ty(&mut tcx, TyKind::Ref(vec_ty, Mutability::Not));
    let box_ty = ty(&mut tcx, TyKind::Adt(box_def, vec![GenericArg::Type(int)]));
    let cx = late(tcx);
    assert_eq!(get_type_diagnostic_name(&cx, vec_ty), Some(sym::VEC));
    assert_eq!(get_type_diagnostic_name(&cx, box_ty), None);
    assert_eq!(get_type_diagnostic_name(&cx, vec_ref), None);
    assert!(is_type_diagnostic_item(&cx, vec_ty, sym::VEC));
    assert!(!is_type_diagnostic_item(&cx, vec_ty, sym::OPTION));
    assert!(!is_type_diagnostic_item(&cx, vec_ref, sym::VEC));
    assert!(is_type_ref_to_diagnostic_item(&cx, vec_ref, sym::VEC));
    assert!(!is_type_ref_to_diagnostic_item(&cx, vec_ty, sym::VEC));
    assert!(!is_type_ref_to_diagnostic_item(&cx, vec_ref, sym::OPTION));
    assert!(is_type_lang_item(&cx, box_ty, LangItem::OwnedBox));
    assert!(!is_type_lang_item(&cx, vec_ty, LangItem::OwnedBox));
    assert!(!is_type_lang_item(&cx, box_ty, LangItem::MaybeUninit));
    assert!(!is_type_lang_item(&cx, int, LangItem::OwnedBox));
}

#[test]
fn paths_are_matched_whole() {
    let mut tcx = TyCtxt::new(LangItems::none());
    let mut d = DefData::new(sym::WEAK);
    d.path = vec![sym::ALLOC, sym::SYNC, sym::WEAK];
    let weak = tcx.add_def(d).unwrap();
    let mut c = DefData::new(sym::C_VOID);
    c.path = vec![sym::CORE, 700, sym::C_VOID];
    let void_def = tcx.add_def(c).unwrap();
    let mut c2 = DefData::new(sym::C_VOID);
    c2.path = vec![sym::ALLOC, sym::C_VOID];
    let other_void = tcx.add_def(c2).unwrap();
    let mut c3 = DefData::new(sym::C_VOID);
    c3.path = vec![sym::C_VOID];
    let short_void = tcx.add_def(c3).unwrap();
    let mut c4 = DefData::new(sym::C_VOID);
    c4.path = vec![sym::LIBC, sym::C_VOID];
    let libc_void = tcx.add_def(c4).unwrap();
    let w = ty(&mut tcx, TyKind::Adt(weak, vec![]));
    let v = ty(&mut tcx, TyKind::Adt(void_def, vec![]));
    let v2 = ty(&mut tcx, TyKind::Adt(other_void, vec![]));
    let v3 = ty(&mut tcx, TyKind::Adt(short_void, vec![]));
    let v4 = ty(&mut tcx, TyKind::Adt(libc_void, vec![]));
    let cx = late(tcx);
    assert!(match_type(&cx, w, &[sym::ALLOC, sym::SYNC, sym::WEAK]));
    assert!(!match_type(&cx, w, &[sym::ALLOC, sym::SYNC]));
    assert!(!match_type(&cx, w, &[sym::ALLOC, sym::RC_MOD, sym::WEAK]));
    assert!(!match_type(&cx, 99, &[]));
    assert!(is_c_void(&cx, v));
    assert!(!is_c_void(&cx, v2));
    assert!(!is_c_void(&cx, v3));
    assert!(is_c_void(&cx, v4));
    assert!(!is_c_void(&cx, w));
}

#[test]
fn iter_method_names() {
    let mut tcx = TyCtxt::new(LangItems::none());
    let mut d = DefData::new(900);
    d.diagnostic_name = Some(sym::HASH_MAP);
    let map_def = tcx.add_def(d).unwrap();
    let mut e = DefData::new(901);
    e.diagnostic_name = Some(sym::RC);
    let rc_def = tcx.add_def(e).unwrap();
    let unnamed = def(&mut tcx, 902);
    let int = ty(&mut tcx, TyKind::Int(IntTy::I32));
    let array = ty(&mut tcx, TyKind::Array(int, Some(2)));
    let slice = ty(&mut tcx, TyKind::Slice(int));
    let slice_ref = ty(&mut tcx, TyKind::Ref(slice, Mutability::Not));
    let slice_ref_ref = ty(&mut tcx, TyKind::Ref(slice_ref, Mutability::Not));
    let map = ty(&mut tcx, TyKind::Adt(map_def, vec![]));
    let map_ref = ty(&mut tcx, TyKind::Ref(map, Mutability::Mut));
    let rc = ty(&mut tcx, TyKind::Adt(rc_def, vec![]));
    let other = ty(&mut tcx, TyKind::Adt(unnamed, vec![]));
    let cx = late(tcx);
    assert_eq!(has_iter_method(&cx, array), Some(sym::ARRAY));
    assert_eq!(has_iter_method(&cx, slice), Some(sym::SLICE));
    assert_eq!(has_iter_method(&cx, slice_ref), Some(sym::SLICE));
    assert_eq!(has_iter_method(&cx, slice_ref_ref), None);
    assert_eq!(has_iter_method(&cx, map), Some(900));
    assert_eq!(has_iter_method(&cx, map_ref), Some(900));
    assert_eq!(has_iter_method(&cx, rc), None);
    assert_eq!(has_iter_method(&cx, other), None);
    assert_eq!(has_iter_method(&cx, int), None);
}

#[test]
fn same_type_ignores_lifetimes_but_not_consts() {
    let mut tcx = TyCtxt::new(LangItems::none());
    let d0 = def(&mut tcx, 1);
    let d1 = def(&mut tcx, 2);
    let int = ty(&mut tcx, TyKind::Int(IntTy::I32));
    let uint = ty(&mut tcx, TyKind::Uint(UintTy::U32));
    let a = ty(&mut tcx, TyKind::Adt(d0, vec![GenericArg::Lifetime, GenericArg::Const(3)]));
    let b = ty(&mut tcx, TyKind::Adt(d0, vec![GenericArg::Lifetime, GenericArg::Const(3)]));
    let c = ty(&mut tcx, TyKind::Adt(d0, vec![GenericArg::Lifetime, GenericArg::Const(4)]));
    let e = ty(&mut tcx, TyKind::Adt(d1, vec![GenericArg::Lifetime, GenericArg::Const(3)]));
    let outer_a = ty(&mut tcx, TyKind::Adt(d1, vec![GenericArg::Type(a)]));
    let outer_b = ty(&mut tcx, TyKind::Adt(d1, vec![GenericArg::Type(b)]));
    let outer_c = ty(&mut tcx, TyKind::Adt(d1, vec![GenericArg::Type(c)]));
    let outer_int = ty(&mut tcx, TyKind::Adt(d1, vec![GenericArg::Type(int)]));
    let outer_uint = ty(&mut tcx, TyKind::Adt(d1, vec![GenericArg::Type(uint)]));
    let mixed = ty(&mut tcx, TyKind::Adt(d1, vec![GenericArg::Const(1)]));
    assert!(same_type_and_consts(&tcx, a, a));
    assert!(same_type_and_consts(&tcx, a, b));
    assert!(!same_type_and_consts(&tcx, a, c));
    assert!(!same_type_and_consts(&tcx, a, e));
    assert!(same_type_and_consts(&tcx, outer_a, outer_b));
    assert!(!same_type_and_consts(&tcx, outer_a, outer_c));
    assert!(!same_type_and_consts(&tcx, outer_int, outer_uint));
    assert!(same_type_and_consts(&tcx, outer_int, mixed));
    assert!(same_type_and_consts(&tcx, int, int));
    assert!(!same_type_and_consts(&tcx, int, uint));
    assert!(!same_type_and_consts(&tcx, int, a));
}

#[test]
fn uninit_is_valid_for_the_wrapper_only() {
    let mut lang = LangItems::none();
    lang.maybe_uninit = Some(0);
    let mut tcx = TyCtxt::new(lang);
    let wrapper = def(&mut tcx, 1);
    let other = def(&mut tcx, 2);
    let int = ty(&mut tcx, TyKind::Int(IntTy::I32));
    let w = ty(&mut tcx, TyKind::Adt(wrapper, vec![GenericArg::Type(int)]));
    let o = ty(&mut tcx, TyKind::Adt(other, vec![]));
    let arr = ty(&mut tcx, TyKind::Array(w, Some(8)));
    let tup = ty(&mut tcx, TyKind::Tuple(vec![w, arr]));
    let bad = ty(&mut tcx, TyKind::Tuple(vec![w, int]));
    let unit = ty(&mut tcx, TyKind::Tuple(vec![]));
    let slice = ty(&mut tcx, TyKind::Slice(w));
    let cx = late(tcx);
    assert!(is_uninit_value_valid_for_ty(&cx, w));
    assert!(!is_uninit_value_valid_for_ty(&cx, o));
    assert!(!is_uninit_value_valid_for_ty(&cx, int));
    assert!(is_uninit_value_valid_for_ty(&cx, arr));
    assert!(is_uninit_value_valid_for_ty(&cx, tup));
    assert!(!is_uninit_value_valid_for_ty(&cx, bad));
    assert!(is_uninit_value_valid_for_ty(&cx, unit));
    assert!(!is_uninit_value_valid_for_ty(&cx, slice));
}

#[test]
fn unsafe_functions() {
    let mut tcx = TyCtxt::new(LangItems::none());
    let f = def(&mut tcx, 1);
    let int = ty(&mut tcx, TyKind::Int(IntTy::I32));
    let sig = |is_unsafe| FnSig { inputs: vec![int], output: int, c_variadic: false, is_unsafe };
    let safe_ptr = ty(&mut tcx, TyKind::FnPtr(sig(false)));
    let unsafe_ptr = ty(&mut tcx, TyKind::FnPtr(sig(true)));
    let mut data = TyData::new(TyKind::FnDef(f, vec![]));
    data.sig = Some(sig(true));
    let unsafe_def = tcx.mk_ty(data).unwrap();
    assert_eq!(tcx.mk_ty(TyData::new(TyKind::FnDef(f, vec![]))), None);
    assert_eq!(tcx.mk_ty(TyData::new(TyKind::Closure(f, vec![]))), None);
    let mut closure = TyData::new(TyKind::Closure(f, vec![]));
    closure.sig = Some(sig(true));
    let closure = tcx.mk_ty(closure).unwrap();
    assert!(tcx.is_well_formed());
    let no_sig = tcx.types.len();
    tcx.types.push(TyData::new(TyKind::FnDef(f, vec![])));
    assert!(!tcx.is_well_formed());
    let cx = late(tcx);
    assert!(!type_is_unsafe_function(&cx, safe_ptr));
    assert!(type_is_unsafe_function(&cx, unsafe_ptr));
    assert!(type_is_unsafe_function(&cx, unsafe_def));
    assert!(!type_is_unsafe_function(&cx, no_sig));
    assert!(!type_is_unsafe_function(&cx, closure));
    assert!(!type_is_unsafe_function(&cx, int));
}

#[test]
fn walking_finds_nested_constructors() {
    let mut tcx = TyCtxt::new(LangItems::none());
    let d0 = def(&mut tcx, 1);
    let d1 = def(&mut tcx, 2);
    let int = ty(&mut tcx, TyKind::Int(IntTy::I32));
    let a = ty(&mut tcx, TyKind::Adt(d0, vec![GenericArg::Lifetime, GenericArg::Type(int)]));
    let r = ty(&mut tcx, TyKind::Ref(a, Mutability::Not));
    let sig = FnSig { inputs: vec![int, r], output: int, c_variadic: false, is_unsafe: false };
    let f = ty(&mut tcx, TyKind::FnPtr(sig));
    let t = ty(&mut tcx, TyKind::Tuple(vec![f, int]));
    assert_eq!(walk(&tcx, int), Vec::<usize>::new());
    assert_eq!(walk(&tcx, r), vec![a, int]);
    assert_eq!(walk(&tcx, t), vec![f, int, r, a, int, int, int]);
    assert!(contains_adt_constructor(&tcx, a, d0));
    assert!(contains_adt_constructor(&tcx, t, d0));
    assert!(!contains_adt_constructor(&tcx, t, d1));
    assert!(!contains_adt_constructor(&tcx, int, d0));
}

#[test]
fn contexts_are_built_from_earlier_types_only() {
    let mut tcx = TyCtxt::new(LangItems::none());
    assert_eq!(tcx.mk_ty(TyData::new(TyKind::Slice(0))), None);
    assert_eq!(tcx.types.len(), 0);
    let b = ty(&mut tcx, TyKind::Bool);
    assert_eq!(tcx.mk_ty(TyData::new(TyKind::Tuple(vec![b, 1]))), None);
    assert_eq!(tcx.mk_ty(TyData::new(TyKind::Tuple(vec![b, b]))), Some(1));
    let mut d = DefData::new(1);
    d.predicates_parent = Some(0);
    assert_eq!(tcx.add_def(d), None);
    assert!(tcx.is_well_formed());
    tcx.types.push(TyData::new(TyKind::Slice(2)));
    assert!(!tcx.is_well_formed());
}
