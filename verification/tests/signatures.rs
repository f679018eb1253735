use ty_utils::context::{LateContext, TyCtxt};
use ty_utils::items::{
    all_predicates_of, get_associated_type, get_iterator_item_ty, ty_is_fn_once_param,
    variant_of_res,
};
use ty_utils::model::{
    AdtDef, AdtKind, AssocItem, CtorKind, CtorOf, DefData, DefKind, EnvFacts,
    ExistentialPredicate, FnDecl, FnSig, GenericArg, IntTy, LangItems, Mutability, ParamEnv,
    Predicate, ProjectionFact, Res, TyData, TyKind, VariantDef, VariantDiscr,
};
use ty_utils::sig::{expr_sig, scan_bounds, sig_for_projection, sig_from_bounds, ty_sig, ExprFnSig};
use ty_utils::sym;

const FN: usize = 0;
const FN_MUT: usize = 1;
const FN_ONCE: usize = 2;
const OUTPUT: usize = 3;
const BOX: usize = 4;

fn context() -> TyCtxt {
    let mut lang = LangItems::none();
    lang.fn_trait = Some(FN);
    lang.fn_mut_trait = Some(FN_MUT);
    lang.fn_once_trait = Some(FN_ONCE);
    lang.fn_once_output = Some(OUTPUT);
    lang.owned_box = Some(BOX);
    let mut tcx = TyCtxt::new(lang);
    for name in 0..5 {
        tcx.add_def(DefData::new(name)).unwrap();
    }
    tcx
}

fn ty(tcx: &mut TyCtxt, kind: TyKind) -> usize {
    let mut data = TyData::new(kind);
    data.facts = vec![EnvFacts::new()];
    let id = tcx.types.len();
    data.facts[0].normalized = Some(id);
    tcx.mk_ty(data).unwrap()
}

fn callable(tcx: &mut TyCtxt, kind: TyKind, sig: FnSig) -> usize {
    let mut data = TyData::new(kind);
    data.facts = vec![EnvFacts::new()];
    data.facts[0].normalized = Some(tcx.types.len());
    data.sig = Some(sig);
    tcx.mk_ty(data).unwrap()
}

fn late(tcx: TyCtxt, caller_bounds: Vec<Predicate>) -> LateContext {
    LateContext { tcx, param_env: ParamEnv { id: 0, caller_bounds } }
}

fn sig(inputs: Vec<usize>, output: usize, c_variadic: bool) -> FnSig {
    FnSig { inputs, output, c_variadic, is_unsafe: false }
}

fn call(trait_id: usize, self_ty: usize, args: usize) -> Predicate {
    Predicate::Trait { trait_id, self_ty, first_arg: Some(args) }
}

fn out(self_ty: usize, term: usize) -> Predicate {
    Predicate::Projection { item_id: OUTPUT, self_ty, term }
}

#[test]
fn closure_and_function_agree_on_first_argument() {
    let mut tcx = context();
    let int = ty(&mut tcx, TyKind::Int(IntTy::I32));
    let unit = ty(&mut tcx, TyKind::Tuple(vec![]));
    let params = ty(&mut tcx, TyKind::Tuple(vec![int]));
    let function = sig(vec![int], unit, false);
    let closure = sig(vec![params], unit, false);
    let f = ExprFnSig::Sig(&function, Some(9));
    let c = ExprFnSig::Closure(None, &closure);
    assert_eq!(f.input(&tcx, 0), Some(int));
    assert_eq!(c.input(&tcx, 0), Some(int));
    assert_eq!(f.input(&tcx, 0), c.input(&tcx, 0));
    assert_eq!(f.output(), Some(unit));
    assert_eq!(c.output(), Some(unit));
    assert_eq!(f.predicates_id(), Some(9));
    assert_eq!(c.predicates_id(), None);
}

#[test]
fn variadic_signature_has_no_argument_past_its_parameters() {
    let mut tcx = context();
    let int = ty(&mut tcx, TyKind::Int(IntTy::I32));
    let variadic = sig(vec![int], int, true);
    let s = ExprFnSig::Sig(&variadic, None);
    assert_eq!(s.input(&tcx, 0), Some(int));
    assert_eq!(s.input(&tcx, 1), None);
    assert!(s.has_input(&tcx, 1));
    let fixed = sig(vec![int], int, false);
    assert!(ExprFnSig::Sig(&fixed, None).has_input(&tcx, 0));
    assert!(!ExprFnSig::Sig(&fixed, None).has_input(&tcx, 1));
    assert!(!ExprFnSig::Closure(None, &fixed).has_input(&tcx, 0));
    assert!(!ExprFnSig::Trait(int, None, None).has_input(&tcx, 0));
    assert_eq!(s.input_with_hir(&tcx, 0), Some((None, int)));
    assert_eq!(s.input_with_hir(&tcx, 5), None);
    assert_eq!(s.predicates_id(), None);
}

#[test]
fn closure_arguments_come_with_their_written_types() {
    let mut tcx = context();
    let int = ty(&mut tcx, TyKind::Int(IntTy::I32));
    let b = ty(&mut tcx, TyKind::Bool);
    let params = ty(&mut tcx, TyKind::Tuple(vec![int, b]));
    let closure = sig(vec![params], b, false);
    let decl = FnDecl { inputs: vec![40] };
    let with_decl = ExprFnSig::Closure(Some(&decl), &closure);
    let without = ExprFnSig::Closure(None, &closure);
    assert_eq!(with_decl.input_with_hir(&tcx, 0), Some((Some(40), int)));
    assert_eq!(with_decl.input_with_hir(&tcx, 1), Some((None, b)));
    assert_eq!(without.input_with_hir(&tcx, 1), Some((None, b)));
    let bound = ExprFnSig::Trait(params, None, Some(3));
    assert_eq!(bound.input(&tcx, 1), Some(b));
    assert_eq!(bound.input_with_hir(&tcx, 0), Some((None, int)));
    assert_eq!(bound.output(), None);
    assert_eq!(bound.predicates_id(), Some(3));
}

#[test]
fn bounds_give_one_signature_or_none() {
    let lang = context().lang_items;
    let t = 7;
    assert_eq!(scan_bounds(&lang, &vec![], Some(t)), None);
    assert_eq!(scan_bounds(&lang, &vec![out(t, 1)], Some(t)), None);
    assert_eq!(scan_bounds(&lang, &vec![call(FN, t, 5)], Some(t)), Some((5, None)));
    assert_eq!(
        scan_bounds(&lang, &vec![Predicate::Other, call(FN_MUT, t, 5), out(t, 6)], Some(t)),
        Some((5, Some(6)))
    );
    assert_eq!(
        scan_bounds(&lang, &vec![call(FN_ONCE, t, 5), call(FN, t, 5)], Some(t)),
        Some((5, None))
    );
    assert_eq!(scan_bounds(&lang, &vec![call(FN_ONCE, t, 5), call(FN, t, 4)], Some(t)), None);
    assert_eq!(
        scan_bounds(&lang, &vec![call(FN, t, 5), out(t, 6), out(t, 6)], Some(t)),
        Some((5, Some(6)))
    );
    assert_eq!(
        scan_bounds(&lang, &vec![out(t, 6), call(FN, t, 5), out(8, 7), out(t, 6)], Some(t)),
        Some((5, Some(6)))
    );
    assert_eq!(scan_bounds(&lang, &vec![call(FN, t, 5), out(t, 6), out(t, 7)], Some(t)), None);
    assert_eq!(scan_bounds(&lang, &vec![out(t, 6), out(t, 7), call(FN, t, 5)], Some(t)), None);
    assert_eq!(scan_bounds(&lang, &vec![out(t, 6), out(t, 6)], Some(t)), None);
    assert_eq!(scan_bounds(&lang, &vec![call(FN, 8, 5), out(8, 6)], Some(t)), None);
    assert_eq!(scan_bounds(&lang, &vec![call(FN, 8, 5), out(8, 6)], None), Some((5, Some(6))));
    assert_eq!(scan_bounds(&lang, &vec![call(OUTPUT, t, 5)], Some(t)), None);
    assert_eq!(
        scan_bounds(
            &lang,
            &vec![Predicate::Trait { trait_id: FN, self_ty: t, first_arg: None }, call(FN, t, 2)],
            Some(t)
        ),
        Some((2, None))
    );
}

fn model(s: Option<ExprFnSig<'_>>) -> Option<(u8, Vec<usize>, Option<usize>, Option<usize>)> {
    s.map(|s| match s {
        ExprFnSig::Sig(sig, id) => (0, sig.inputs.clone(), Some(sig.output), id),
        ExprFnSig::Closure(decl, sig) => {
            (1, sig.inputs.clone(), Some(sig.output), decl.map(|d| d.inputs.len()))
        },
        ExprFnSig::Trait(inputs, output, id) => (2, vec![inputs], output, id),
    })
}

#[test]
fn signatures_of_types() {
    let mut tcx = context();
    let mut closure_def = DefData::new(50);
    closure_def.fn_decl = Some(FnDecl { inputs: vec![1, 2] });
    let closure_id = tcx.add_def(closure_def).unwrap();
    let mut fn_def = DefData::new(51);
    fn_def.fn_sig = Some(sig(vec![], 0, false));
    let fn_id = tcx.add_def(fn_def).unwrap();
    let mut opaque_def = DefData::new(52);
    opaque_def.parent = Some(fn_id);
    let opaque_id = tcx.add_def(opaque_def).unwrap();

    let int = ty(&mut tcx, TyKind::Int(IntTy::I32));
    let params = ty(&mut tcx, TyKind::Tuple(vec![int, int]));
    let ptr = ty(&mut tcx, TyKind::FnPtr(sig(vec![int], int, false)));
    let closure = callable(
        &mut tcx,
        TyKind::Closure(closure_id, vec![]),
        sig(vec![params], int, false),
    );
    let item = callable(&mut tcx, TyKind::FnDef(fn_id, vec![]), sig(vec![int, int], int, false));
    let boxed = ty(&mut tcx, TyKind::Adt(BOX, vec![GenericArg::Type(ptr)]));
    let boxed_twice = ty(&mut tcx, TyKind::Adt(BOX, vec![GenericArg::Type(boxed)]));
    let object = ty(
        &mut tcx,
        TyKind::Dynamic(vec![
            ExistentialPredicate::Trait(FN_MUT, Some(params)),
            ExistentialPredicate::AutoTrait(77),
            ExistentialPredicate::Projection(OUTPUT, int),
            ExistentialPredicate::Projection(OUTPUT, params),
        ]),
    );
    let plain_object = ty(&mut tcx, TyKind::Dynamic(vec![ExistentialPredicate::Trait(77, None)]));
    let param = ty(&mut tcx, TyKind::Param(0));
    let other_param = ty(&mut tcx, TyKind::Param(1));
    let opaque = ty(&mut tcx, TyKind::Opaque(opaque_id, vec![]));
    tcx.defs[opaque_id].item_bounds = vec![call(FN, opaque, params), out(opaque, int)];
    let resolved = ty(&mut tcx, TyKind::Projection(60, vec![]));
    tcx.types[resolved].facts[0].normalized = Some(ptr);
    let declared = ty(&mut tcx, TyKind::Projection(61, vec![]));
    tcx.types[declared].item_bounds = vec![call(FN_ONCE, 999, params)];
    let in_scope = ty(&mut tcx, TyKind::Projection(62, vec![]));
    tcx.types[in_scope].facts[0].normalized = None;
    let unknown = ty(&mut tcx, TyKind::Projection(63, vec![]));
    let cx = late(
        tcx,
        vec![call(FN, param, params), out(param, int), call(FN, in_scope, params)],
    );
    assert!(cx.tcx.is_well_formed());
    assert!(cx.is_normalization_settled());
    assert_eq!(model(ty_sig(&cx, int)), None);
    assert_eq!(model(ty_sig(&cx, ptr)), Some((0, vec![int], Some(int), None)));
    assert_eq!(model(ty_sig(&cx, closure)), Some((1, vec![params], Some(int), Some(2))));
    assert_eq!(model(ty_sig(&cx, item)), Some((0, vec![int, int], Some(int), Some(fn_id))));
    assert_eq!(model(ty_sig(&cx, boxed)), Some((0, vec![int], Some(int), None)));
    assert_eq!(model(ty_sig(&cx, boxed_twice)), Some((0, vec![int], Some(int), None)));
    assert_eq!(model(ty_sig(&cx, object)), Some((2, vec![params], Some(int), None)));
    assert_eq!(model(ty_sig(&cx, plain_object)), None);
    assert_eq!(model(ty_sig(&cx, param)), Some((2, vec![params], Some(int), None)));
    assert_eq!(model(ty_sig(&cx, other_param)), None);
    assert_eq!(model(ty_sig(&cx, opaque)), Some((2, vec![params], Some(int), Some(fn_id))));
    assert_eq!(model(ty_sig(&cx, resolved)), Some((0, vec![int], Some(int), None)));
    assert_eq!(model(ty_sig(&cx, declared)), Some((2, vec![params], None, None)));
    assert_eq!(model(ty_sig(&cx, in_scope)), Some((2, vec![params], None, None)));
    assert_eq!(model(ty_sig(&cx, unknown)), None);
    assert_eq!(model(ty_sig(&cx, 5000)), None);
    assert_eq!(model(sig_for_projection(&cx, declared)), Some((2, vec![params], None, None)));
    assert_eq!(model(sig_for_projection(&cx, in_scope)), None);
    assert_eq!(
        model(sig_from_bounds(&cx, param, &cx.param_env.caller_bounds, Some(1))),
        Some((2, vec![params], Some(int), Some(1)))
    );

    let ptr_ref = {
        let r = Res::Other;
        model(expr_sig(&cx, r, ptr))
    };
    assert_eq!(ptr_ref, Some((0, vec![int], Some(int), None)));
    let named = Res::Def(DefKind::Fn, fn_id);
    assert_eq!(model(expr_sig(&cx, named, int)), Some((0, vec![], Some(0), Some(fn_id))));
    let ctor = Res::Def(DefKind::Ctor(CtorOf::Struct, CtorKind::Fn), fn_id);
    assert_eq!(model(expr_sig(&cx, ctor, int)), Some((0, vec![], Some(0), Some(fn_id))));
    let constant = Res::Def(DefKind::Ctor(CtorOf::Struct, CtorKind::Const), fn_id);
    assert_eq!(model(expr_sig(&cx, constant, ptr)), Some((0, vec![int], Some(int), None)));
    assert_eq!(model(expr_sig(&cx, Res::Def(DefKind::AssocFn, closure_id), ptr)), None);
}

#[test]
fn expression_signature_peels_references() {
    let mut tcx = context();
    let int = ty(&mut tcx, TyKind::Int(IntTy::I32));
    let ptr = ty(&mut tcx, TyKind::FnPtr(sig(vec![int], int, false)));
    let r1 = ty(&mut tcx, TyKind::Ref(ptr, Mutability::Not));
    let r2 = ty(&mut tcx, TyKind::Ref(r1, Mutability::Mut));
    let cx = late(tcx, vec![]);
    assert_eq!(model(expr_sig(&cx, Res::Other, r2)), Some((0, vec![int], Some(int), None)));
    assert_eq!(model(ty_sig(&cx, r2)), None);
}

#[test]
fn fn_once_parameters() {
    let mut tcx = context();
    let t = ty(&mut tcx, TyKind::Param(0));
    let u = ty(&mut tcx, TyKind::Param(1));
    let t_again = ty(&mut tcx, TyKind::Param(0));
    let int = ty(&mut tcx, TyKind::Int(IntTy::I32));
    let once_t = call(FN_ONCE, t, int);
    let mut_t = call(FN_MUT, t, int);
    let fn_u = call(FN, u, int);
    let other_t = call(77, t, int);
    assert!(ty_is_fn_once_param(&tcx, t, &[once_t]));
    assert!(ty_is_fn_once_param(&tcx, t_again, &[once_t]));
    assert!(ty_is_fn_once_param(&tcx, t, &[other_t, once_t, fn_u]));
    assert!(!ty_is_fn_once_param(&tcx, t, &[once_t, mut_t]));
    assert!(!ty_is_fn_once_param(&tcx, t, &[mut_t, once_t]));
    assert!(!ty_is_fn_once_param(&tcx, t, &[fn_u, other_t]));
    assert!(!ty_is_fn_once_param(&tcx, t, &[]));
    assert!(!ty_is_fn_once_param(&tcx, u, &[once_t]));
    assert!(!ty_is_fn_once_param(&tcx, int, &[call(FN_ONCE, int, int)]));
    tcx.lang_items.fn_trait = None;
    assert!(!ty_is_fn_once_param(&tcx, t, &[once_t]));
}

#[test]
fn predicates_are_inherited_from_parents() {
    let mut tcx = context();
    let mut outer = DefData::new(10);
    outer.predicates = vec![call(FN, 0, 1)];
    let outer_id = tcx.add_def(outer).unwrap();
    let mut middle = DefData::new(11);
    middle.predicates_parent = Some(outer_id);
    let middle_id = tcx.add_def(middle).unwrap();
    let mut inner = DefData::new(12);
    inner.predicates = vec![Predicate::Other, out(0, 2)];
    inner.predicates_parent = Some(middle_id);
    let inner_id = tcx.add_def(inner).unwrap();
    assert_eq!(all_predicates_of(&tcx, inner_id), vec![Predicate::Other, out(0, 2), call(FN, 0, 1)]);
    assert_eq!(all_predicates_of(&tcx, middle_id), vec![call(FN, 0, 1)]);
    assert_eq!(all_predicates_of(&tcx, 4), vec![]);
    assert_eq!(all_predicates_of(&tcx, 404), vec![]);
}

#[test]
fn variants_of_resolutions() {
    let mut tcx = context();
    let first = VariantDef { def_id: 21, ctor_def_id: Some(22), discr: VariantDiscr::Relative(0) };
    let second = VariantDef { def_id: 23, ctor_def_id: None, discr: VariantDiscr::Relative(1) };
    let only = VariantDef { def_id: 6, ctor_def_id: Some(7), discr: VariantDiscr::Relative(0) };
    let mut e = DefData::new(20);
    e.adt = Some(AdtDef { did: 5, kind: AdtKind::Enum, has_dtor: false, repr_signed: false, variants: vec![first, second] });
    let enum_id = tcx.add_def(e).unwrap();
    let mut s = DefData::new(21);
    s.adt = Some(AdtDef { did: 6, kind: AdtKind::Struct, has_dtor: false, repr_signed: false, variants: vec![only] });
    let struct_id = tcx.add_def(s).unwrap();
    let mut ctor = DefData::new(22);
    ctor.parent = Some(struct_id);
    let ctor_id = tcx.add_def(ctor).unwrap();
    while tcx.defs.len() < 24 {
        let id = tcx.defs.len();
        let mut d = DefData::new(100);
        d.parent = Some(if id == 22 { 21 } else { enum_id });
        tcx.add_def(d).unwrap();
    }
    let strukt = ty(&mut tcx, TyKind::Adt(struct_id, vec![]));
    let mut imp = DefData::new(30);
    imp.type_of = Some(strukt);
    let impl_id = tcx.add_def(imp).unwrap();
    let cx = late(tcx, vec![]);
    assert_eq!(variant_of_res(&cx, Res::Def(DefKind::Struct, struct_id)), Some(only));
    assert_eq!(variant_of_res(&cx, Res::Def(DefKind::Struct, enum_id)), None);
    assert_eq!(variant_of_res(&cx, Res::Def(DefKind::Variant, 23)), Some(second));
    assert_eq!(variant_of_res(&cx, Res::Def(DefKind::Variant, 21)), Some(first));
    assert_eq!(variant_of_res(&cx, Res::Def(DefKind::Variant, 8)), None);
    assert_eq!(
        variant_of_res(&cx, Res::Def(DefKind::Ctor(CtorOf::Struct, CtorKind::Fn), ctor_id)),
        Some(only)
    );
    assert_eq!(
        variant_of_res(&cx, Res::Def(DefKind::Ctor(CtorOf::Variant, CtorKind::Fn), 22)),
        Some(first)
    );
    assert_eq!(variant_of_res(&cx, Res::SelfCtor(impl_id)), Some(only));
    assert_eq!(variant_of_res(&cx, Res::SelfCtor(enum_id)), None);
    assert_eq!(variant_of_res(&cx, Res::Def(DefKind::Fn, struct_id)), None);
    assert_eq!(variant_of_res(&cx, Res::Other), None);
}

#[test]
fn associated_types_are_normalized() {
    let mut tcx = context();
    let mut iter = DefData::new(40);
    iter.diagnostic_name = Some(sym::ITERATOR);
    iter.assoc_types = vec![
        AssocItem { name: 900, def_id: 70 },
        AssocItem { name: sym::ITEM, def_id: 71 },
        AssocItem { name: sym::ITEM, def_id: 72 },
    ];
    let iter_id = tcx.add_def(iter).unwrap();
    let int = ty(&mut tcx, TyKind::Int(IntTy::I32));
    let range = ty(&mut tcx, TyKind::Param(0));
    tcx.types[range].facts[0].projections = vec![
        ProjectionFact { item: 72, ty: range },
        ProjectionFact { item: 71, ty: int },
        ProjectionFact { item: 71, ty: range },
    ];
    let cx = late(tcx, vec![]);
    assert_eq!(get_associated_type(&cx, range, iter_id, sym::ITEM), Some(int));
    assert_eq!(get_associated_type(&cx, range, iter_id, 900), None);
    assert_eq!(get_associated_type(&cx, range, iter_id, 901), None);
    assert_eq!(get_associated_type(&cx, int, iter_id, sym::ITEM), None);
    assert_eq!(get_associated_type(&cx, range, 0, sym::ITEM), None);
    assert_eq!(get_iterator_item_ty(&cx, range), Some(int));
    assert_eq!(get_iterator_item_ty(&cx, int), None);
}

#[test]
fn equal_output_bindings_do_not_abort() {
    let mut tcx = context();
    let int = ty(&mut tcx, TyKind::Int(IntTy::I32));
    let params = ty(&mut tcx, TyKind::Tuple(vec![int]));
    let param = ty(&mut tcx, TyKind::Param(0));
    let other = ty(&mut tcx, TyKind::Param(1));
    let cx = late(
        tcx,
        vec![
            out(param, int),
            call(FN_ONCE, param, params),
            out(param, int),
            call(FN, other, params),
            out(other, int),
            out(other, params),
        ],
    );
    assert_eq!(model(ty_sig(&cx, param)), Some((2, vec![params], Some(int), None)));
    assert_eq!(model(ty_sig(&cx, other)), None);
}
