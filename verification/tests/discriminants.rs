use ty_utils::context::TyCtxt;
use ty_utils::discr::{
    get_discriminant_value, read_explicit_enum_value, try_get_discriminant_value, EnumValue,
};
use ty_utils::model::{
    AdtDef, AdtKind, DefData, IntTy, LangItems, ScalarInt, TyData, TyKind, UintTy, VariantDef,
    VariantDiscr,
};

fn const_def(data: u128, size: u8, ty: usize) -> DefData {
    let mut d = DefData::new(100);
    d.const_value = Some(ScalarInt { data, size });
    d.type_of = Some(ty);
    d
}

fn context() -> TyCtxt {
    TyCtxt {
        types: vec![
            TyData::new(TyKind::Int(IntTy::I8)),
            TyData::new(TyKind::Uint(UintTy::U8)),
            TyData::new(TyKind::Bool),
        ],
        defs: vec![
            const_def(0xff, 1, 0),
            const_def(0xff, 1, 1),
            const_def(0x8000, 2, 0),
            const_def(5, 4, 0),
            const_def(u128::MAX, 16, 0),
            const_def(u128::MAX, 16, 1),
            const_def(7, 3, 0),
            const_def(7, 1, 2),
            DefData::new(101),
        ],
        hir_tys: vec![],
        lang_items: LangItems::none(),
    }
}

#[test]
fn enum_value_add_keeps_signedness() {
    assert_eq!(EnumValue::Unsigned(3).add(4), EnumValue::Unsigned(7));
    assert_eq!(EnumValue::Signed(-3).add(4), EnumValue::Signed(1));
    assert_eq!(EnumValue::Signed(-3).add(0), EnumValue::Signed(-3));
}

#[test]
fn explicit_value_reads_sign_from_type() {
    let tcx = context();
    assert_eq!(read_explicit_enum_value(&tcx, 0), Some(EnumValue::Signed(-1)));
    assert_eq!(read_explicit_enum_value(&tcx, 1), Some(EnumValue::Unsigned(255)));
    assert_eq!(read_explicit_enum_value(&tcx, 2), Some(EnumValue::Signed(-32768)));
    assert_eq!(read_explicit_enum_value(&tcx, 3), Some(EnumValue::Signed(5)));
    assert_eq!(read_explicit_enum_value(&tcx, 4), Some(EnumValue::Signed(-1)));
    assert_eq!(read_explicit_enum_value(&tcx, 5), Some(EnumValue::Unsigned(u128::MAX)));
}

#[test]
fn explicit_value_absent_for_other_widths_and_types() {
    let tcx = context();
    assert_eq!(read_explicit_enum_value(&tcx, 6), None);
    assert_eq!(read_explicit_enum_value(&tcx, 7), None);
    assert_eq!(read_explicit_enum_value(&tcx, 8), None);
    assert_eq!(read_explicit_enum_value(&tcx, 99), None);
}

fn variant(discr: VariantDiscr) -> VariantDef {
    VariantDef { def_id: 0, ctor_def_id: None, discr }
}

#[test]
fn relative_discriminants_count_from_nearest_explicit() {
    let tcx = context();
    let adt = AdtDef {
        did: 8,
        kind: AdtKind::Enum,
        has_dtor: false,
        repr_signed: false,
        variants: vec![
            variant(VariantDiscr::Relative(0)),
            variant(VariantDiscr::Relative(1)),
            variant(VariantDiscr::Explicit(3)),
            variant(VariantDiscr::Relative(1)),
            variant(VariantDiscr::Relative(2)),
            variant(VariantDiscr::Explicit(0)),
            variant(VariantDiscr::Relative(1)),
        ],
    };
    assert_eq!(get_discriminant_value(&tcx, &adt, 0), EnumValue::Unsigned(0));
    assert_eq!(get_discriminant_value(&tcx, &adt, 1), EnumValue::Unsigned(1));
    assert_eq!(get_discriminant_value(&tcx, &adt, 2), EnumValue::Signed(5));
    assert_eq!(get_discriminant_value(&tcx, &adt, 3), EnumValue::Signed(6));
    assert_eq!(get_discriminant_value(&tcx, &adt, 4), EnumValue::Signed(7));
    assert_eq!(get_discriminant_value(&tcx, &adt, 5), EnumValue::Signed(-1));
    assert_eq!(get_discriminant_value(&tcx, &adt, 6), EnumValue::Signed(0));
}

#[test]
fn unresolvable_discriminants_are_reported() {
    let tcx = context();
    let adt = AdtDef {
        did: 8,
        kind: AdtKind::Enum,
        has_dtor: false,
        repr_signed: false,
        variants: vec![
            variant(VariantDiscr::Explicit(6)),
            variant(VariantDiscr::Relative(5)),
            variant(VariantDiscr::Explicit(5)),
            variant(VariantDiscr::Relative(1)),
            variant(VariantDiscr::Explicit(1)),
            variant(VariantDiscr::Relative(1)),
        ],
    };
    assert_eq!(try_get_discriminant_value(&tcx, &adt, 0), None);
    assert_eq!(try_get_discriminant_value(&tcx, &adt, 1), None);
    assert_eq!(try_get_discriminant_value(&tcx, &adt, 2), Some(EnumValue::Unsigned(u128::MAX)));
    assert_eq!(try_get_discriminant_value(&tcx, &adt, 3), None);
    assert_eq!(try_get_discriminant_value(&tcx, &adt, 5), Some(EnumValue::Unsigned(256)));
    assert_eq!(try_get_discriminant_value(&tcx, &adt, 6), None);
}

#[test]
fn counting_from_the_start_follows_the_declared_representation() {
    let tcx = context();
    let variants = vec![
        variant(VariantDiscr::Relative(0)),
        variant(VariantDiscr::Relative(1)),
        variant(VariantDiscr::Relative(2)),
    ];
    let signed = AdtDef {
        did: 8,
        kind: AdtKind::Enum,
        has_dtor: false,
        repr_signed: true,
        variants: variants.clone(),
    };
    let unsigned = AdtDef { did: 8, kind: AdtKind::Enum, has_dtor: false, repr_signed: false, variants };
    assert_eq!(get_discriminant_value(&tcx, &signed, 0), EnumValue::Signed(0));
    assert_eq!(get_discriminant_value(&tcx, &signed, 2), EnumValue::Signed(2));
    assert_eq!(get_discriminant_value(&tcx, &unsigned, 2), EnumValue::Unsigned(2));
    assert_eq!(try_get_discriminant_value(&tcx, &signed, 1), Some(EnumValue::Signed(1)));
    assert_eq!(try_get_discriminant_value(&tcx, &unsigned, 1), Some(EnumValue::Unsigned(1)));
}
