//! The data model: type nodes, definitions and the facts that the
//! compiler supplies about them.

use vstd::prelude::*;

verus! {

/// Index of a type node in [`crate::context::TyCtxt::types`]. The arena is
/// meant to hold each type once, so that two types are the same type
/// exactly when their indices are equal; nothing in the library adds a type
/// twice, and nothing checks that a caller does not.
pub type TyId = usize;

/// Index of a definition in [`crate::context::TyCtxt::defs`].
pub type DefId = usize;

/// Index of a surface-syntax type in [`crate::context::TyCtxt::hir_tys`].
pub type HirTyId = usize;

/// An interned name.
pub type Symbol = u32;

#[derive(Clone, Copy, Debug, PartialEq, Eq, Structural)]
pub enum Mutability {
    Not,
    Mut,
}

#[derive(Clone, Copy, Debug, PartialEq, Eq, Structural)]
pub enum IntTy {
    Isize,
    I8,
    I16,
    I32,
    I64,
    I128,
}

#[derive(Clone, Copy, Debug, PartialEq, Eq, Structural)]
pub enum UintTy {
    Usize,
    U8,
    U16,
    U32,
    U64,
    U128,
}

#[derive(Clone, Copy, Debug, PartialEq, Eq, Structural)]
pub enum FloatTy {
    Single,
    Double,
}

/// One argument of a generic item.
#[derive(Clone, Copy, Debug, PartialEq, Eq, Structural)]
pub enum GenericArg {
    Lifetime,
    Type(TyId),
    /// A constant, by its interned identity.
    Const(u64),
}

/// The signature of a callable. For a closure `inputs` holds one tuple type
/// whose fields are the closure's parameters.
#[derive(Clone, Debug)]
pub struct FnSig {
    pub inputs: Vec<TyId>,
    pub output: TyId,
    pub c_variadic: bool,
    pub is_unsafe: bool,
}

/// One bound of a trait object.
#[derive(Clone, Copy, Debug, PartialEq, Eq, Structural)]
pub enum ExistentialPredicate {
    /// A trait with its first type argument after `Self`, where it has one.
    Trait(DefId, Option<TyId>),
    /// An associated item bound to a type.
    Projection(DefId, TyId),
    AutoTrait(DefId),
}

/// One predicate of a bound list.
#[derive(Clone, Copy, Debug, PartialEq, Eq, Structural)]
pub enum Predicate {
    /// `self_ty: trait_id<first_arg, ..>`.
    Trait { trait_id: DefId, self_ty: TyId, first_arg: Option<TyId> },
    /// `<self_ty as _>::item_id == term`.
    Projection { item_id: DefId, self_ty: TyId, term: TyId },
    Other,
}

/// The shape of a type.
#[derive(Clone, Debug)]
pub enum TyKind {
    Bool,
    Char,
    Int(IntTy),
    Uint(UintTy),
    Float(FloatTy),
    Str,
    Never,
    Adt(DefId, Vec<GenericArg>),
    Foreign(DefId),
    /// Element type and, where it evaluates, the length.
    Array(TyId, Option<u64>),
    Slice(TyId),
    RawPtr(TyId, Mutability),
    Ref(TyId, Mutability),
    FnDef(DefId, Vec<GenericArg>),
    FnPtr(FnSig),
    Dynamic(Vec<ExistentialPredicate>),
    Closure(DefId, Vec<GenericArg>),
    Tuple(Vec<TyId>),
    Projection(DefId, Vec<GenericArg>),
    Opaque(DefId, Vec<GenericArg>),
    /// A type parameter, by its index.
    Param(u32),
    Infer,
}

/// A fact "this type implements `trait_id<params>`".
#[derive(Clone, Debug)]
pub struct TraitImpl {
    pub trait_id: DefId,
    pub params: Vec<GenericArg>,
}

/// What trait resolution, normalization and layout computation say about one
/// type in one parameter environment.
#[derive(Clone, Debug)]
pub struct EnvFacts {
    pub is_copy: bool,
    pub has_significant_drop: bool,
    /// Whether normalizing the type succeeds.
    pub normalizes: bool,
    /// The type with projections resolved and regions erased, if that succeeds.
    pub normalized: Option<TyId>,
    /// The size in bytes, where a layout can be computed.
    pub layout_size: Option<u64>,
    pub impls: Vec<TraitImpl>,
    /// What the associated types of this type's traits normalize to.
    pub projections: Vec<ProjectionFact>,
}

/// A fact "the associated type `item` of this type normalizes to `ty`".
#[derive(Clone, Copy, Debug, PartialEq, Eq, Structural)]
pub struct ProjectionFact {
    pub item: DefId,
    pub ty: TyId,
}

/// An associated type of a trait.
#[derive(Clone, Copy, Debug, PartialEq, Eq, Structural)]
pub struct AssocItem {
    pub name: Symbol,
    pub def_id: DefId,
}

/// A type node.
#[derive(Clone, Debug)]
pub struct TyData {
    pub kind: TyKind,
    pub needs_infer: bool,
    pub has_escaping_bound_vars: bool,
    /// For an algebraic type: the field types of each variant, with the
    /// type's arguments put in. These may refer back to the type itself.
    pub variant_fields: Vec<Vec<TyId>>,
    /// For a function item or a closure: its signature with the arguments
    /// put in.
    pub sig: Option<FnSig>,
    /// For a projection: the declared bounds of the projected item with the
    /// arguments put in.
    pub item_bounds: Vec<Predicate>,
    /// Indexed by [`ParamEnv::id`].
    pub facts: Vec<EnvFacts>,
}

/// A parameter environment: the bounds in scope.
#[derive(Clone, Debug)]
pub struct ParamEnv {
    pub id: usize,
    pub caller_bounds: Vec<Predicate>,
}

#[derive(Clone, Copy, Debug, PartialEq, Eq, Structural)]
pub enum AdtKind {
    Struct,
    Enum,
    Union,
}

/// How a variant's discriminant is declared.
#[derive(Clone, Copy, Debug, PartialEq, Eq, Structural)]
pub enum VariantDiscr {
    /// By the constant with this definition.
    Explicit(DefId),
    /// As this many steps after the last explicit one, or after zero at the
    /// first variant if none is explicit.
    Relative(u32),
}

#[derive(Clone, Copy, Debug, PartialEq, Eq, Structural)]
pub struct VariantDef {
    pub def_id: DefId,
    pub ctor_def_id: Option<DefId>,
    pub discr: VariantDiscr,
}

#[derive(Clone, Debug)]
pub struct AdtDef {
    pub did: DefId,
    pub kind: AdtKind,
    pub has_dtor: bool,
    /// Whether the integer type that the discriminants are declared to be
    /// kept in is signed.
    pub repr_signed: bool,
    pub variants: Vec<VariantDef>,
}

/// An evaluated integer constant: its bits and its width in bytes.
#[derive(Clone, Copy, Debug, PartialEq, Eq, Structural)]
pub struct ScalarInt {
    pub data: u128,
    pub size: u8,
}

#[derive(Clone, Copy, Debug, PartialEq, Eq, Structural)]
pub enum CtorOf {
    Struct,
    Variant,
}

#[derive(Clone, Copy, Debug, PartialEq, Eq, Structural)]
pub enum CtorKind {
    Fn,
    Const,
    Fictive,
}

#[derive(Clone, Copy, Debug, PartialEq, Eq, Structural)]
pub enum DefKind {
    Struct,
    Union,
    Enum,
    Variant,
    Trait,
    Fn,
    AssocFn,
    Const,
    Ctor(CtorOf, CtorKind),
    Closure,
    Other,
}

/// What a path resolves to.
#[derive(Clone, Copy, Debug, PartialEq, Eq, Structural)]
pub enum Res {
    Def(DefKind, DefId),
    /// The constructor `Self(..)` inside the impl with this definition.
    SelfCtor(DefId),
    Other,
}

/// The parameter types of a closure or function as written.
#[derive(Clone, Debug)]
pub struct FnDecl {
    pub inputs: Vec<HirTyId>,
}

/// A surface-syntax type.
#[derive(Clone, Copy, Debug, PartialEq, Eq, Structural)]
pub enum HirTyKind {
    Ptr(HirTyId),
    Rptr(HirTyId),
    Other,
}

/// A definition.
#[derive(Clone, Debug)]
pub struct DefData {
    pub name: Symbol,
    pub diagnostic_name: Option<Symbol>,
    /// The names from the crate down to the item.
    pub path: Vec<Symbol>,
    pub must_use: bool,
    pub parent: Option<DefId>,
    pub adt: Option<AdtDef>,
    /// For a constant: its value, where evaluation gives an integer.
    pub const_value: Option<ScalarInt>,
    pub type_of: Option<TyId>,
    pub fn_sig: Option<FnSig>,
    pub fn_decl: Option<FnDecl>,
    /// For an opaque type: its bounds with what follows from them.
    pub item_bounds: Vec<Predicate>,
    /// For an opaque type: its bounds as declared.
    pub explicit_item_bounds: Vec<Predicate>,
    pub predicates: Vec<Predicate>,
    /// The item whose predicates this one inherits.
    pub predicates_parent: Option<DefId>,
    /// For a trait: its associated types.
    pub assoc_types: Vec<AssocItem>,
}

impl EnvFacts {
    /// The facts of a type of which nothing is known.
    pub fn new() -> (r: Self)
        ensures
            !r.is_copy,
            !r.has_significant_drop,
            !r.normalizes,
            r.normalized.is_none(),
            r.layout_size.is_none(),
            r.impls@.len() == 0,
            r.projections@.len() == 0,
    {
        EnvFacts {
            is_copy: false,
            has_significant_drop: false,
            normalizes: false,
            normalized: None,
            layout_size: None,
            impls: Vec::new(),
            projections: Vec::new(),
        }
    }
}

impl TyData {
    /// A node of the given shape with nothing else known of it.
    pub fn new(kind: TyKind) -> (r: Self)
        ensures
            r.kind == kind,
            !r.needs_infer,
            !r.has_escaping_bound_vars,
            r.variant_fields@.len() == 0,
            r.sig.is_none(),
            r.item_bounds@.len() == 0,
            r.facts@.len() == 0,
    {
        TyData {
            kind,
            needs_infer: false,
            has_escaping_bound_vars: false,
            variant_fields: Vec::new(),
            sig: None,
            item_bounds: Vec::new(),
            facts: Vec::new(),
        }
    }
}

impl DefData {
    /// A definition of the given name with nothing else known of it.
    pub fn new(name: Symbol) -> (r: Self)
        ensures
            r.name == name,
            r.diagnostic_name.is_none(),
            r.path@.len() == 0,
            !r.must_use,
            r.parent.is_none(),
            r.adt.is_none(),
            r.const_value.is_none(),
            r.type_of.is_none(),
            r.fn_sig.is_none(),
            r.fn_decl.is_none(),
            r.item_bounds@.len() == 0,
            r.explicit_item_bounds@.len() == 0,
            r.predicates@.len() == 0,
            r.predicates_parent.is_none(),
            r.assoc_types@.len() == 0,
    {
        DefData {
            name,
            diagnostic_name: None,
            path: Vec::new(),
            must_use: false,
            parent: None,
            adt: None,
            const_value: None,
            type_of: None,
            fn_sig: None,
            fn_decl: None,
            item_bounds: Vec::new(),
            explicit_item_bounds: Vec::new(),
            predicates: Vec::new(),
            predicates_parent: None,
            assoc_types: Vec::new(),
        }
    }
}

impl LangItems {
    /// No language item defined.
    pub fn none() -> (r: Self)
        ensures
            r.owned_box.is_none(),
            r.maybe_uninit.is_none(),
            r.drop_trait.is_none(),
            r.fn_trait.is_none(),
            r.fn_mut_trait.is_none(),
            r.fn_once_trait.is_none(),
            r.fn_once_output.is_none(),
    {
        LangItems {
            owned_box: None,
            maybe_uninit: None,
            drop_trait: None,
            fn_trait: None,
            fn_mut_trait: None,
            fn_once_trait: None,
            fn_once_output: None,
        }
    }

    /// The definition of `item`, if it is defined.
    pub open spec fn require_spec(&self, item: LangItem) -> Option<DefId> {
        match item {
            LangItem::OwnedBox => self.owned_box,
            LangItem::MaybeUninit => self.maybe_uninit,
            LangItem::Drop => self.drop_trait,
            LangItem::Fn => self.fn_trait,
            LangItem::FnMut => self.fn_mut_trait,
            LangItem::FnOnce => self.fn_once_trait,
            LangItem::FnOnceOutput => self.fn_once_output,
        }
    }

    pub fn require(&self, item: LangItem) -> (r: Option<DefId>)
        ensures
            r == self.require_spec(item),
    {
        match item {
            LangItem::OwnedBox => self.owned_box,
            LangItem::MaybeUninit => self.maybe_uninit,
            LangItem::Drop => self.drop_trait,
            LangItem::Fn => self.fn_trait,
            LangItem::FnMut => self.fn_mut_trait,
            LangItem::FnOnce => self.fn_once_trait,
            LangItem::FnOnceOutput => self.fn_once_output,
        }
    }

    /// Whether `id` is one of the three call traits.
    pub open spec fn is_fn_family_spec(&self, id: DefId) -> bool {
        self.fn_trait == Some(id) || self.fn_mut_trait == Some(id) || self.fn_once_trait == Some(id)
    }

    pub fn is_fn_family(&self, id: DefId) -> (r: bool)
        ensures
            r == self.is_fn_family_spec(id),
    {
        opt_is(self.fn_trait, id) || opt_is(self.fn_mut_trait, id) || opt_is(self.fn_once_trait, id)
    }
}

/// Whether `o` holds `id`.
pub fn opt_is(o: Option<DefId>, id: DefId) -> (r: bool)
    ensures
        r == (o == Some(id)),
{
    match o {
        Some(x) => x == id,
        None => false,
    }
}

/// The definitions that the language itself knows.
#[derive(Clone, Copy, Debug)]
pub struct LangItems {
    pub owned_box: Option<DefId>,
    pub maybe_uninit: Option<DefId>,
    pub drop_trait: Option<DefId>,
    pub fn_trait: Option<DefId>,
    pub fn_mut_trait: Option<DefId>,
    pub fn_once_trait: Option<DefId>,
    pub fn_once_output: Option<DefId>,
}

#[derive(Clone, Copy, Debug, PartialEq, Eq, Structural)]
pub enum LangItem {
    OwnedBox,
    MaybeUninit,
    Drop,
    Fn,
    FnMut,
    FnOnce,
    FnOnceOutput,
}

/// The type that an argument holds, if it is a type.
pub open spec fn arg_ty(a: GenericArg) -> Option<TyId> {
    match a {
        GenericArg::Type(t) => Some(t),
        _ => None,
    }
}

/// The type that a trait-object bound mentions, if any.
pub open spec fn existential_ty(p: ExistentialPredicate) -> Option<TyId> {
    match p {
        ExistentialPredicate::Trait(_, t) => t,
        ExistentialPredicate::Projection(_, t) => Some(t),
        ExistentialPredicate::AutoTrait(_) => None,
    }
}

/// The types that a shape is built from, in order.
pub open spec fn children(kind: TyKind) -> Seq<TyId> {
    match kind {
        TyKind::Adt(_, args)
        | TyKind::FnDef(_, args)
        | TyKind::Closure(_, args)
        | TyKind::Projection(_, args)
        | TyKind::Opaque(_, args) => somes(args@.map_values(|a: GenericArg| arg_ty(a))),
        TyKind::Array(t, _) => seq![t],
        TyKind::Slice(t) => seq![t],
        TyKind::RawPtr(t, _) => seq![t],
        TyKind::Ref(t, _) => seq![t],
        TyKind::FnPtr(sig) => sig.inputs@.push(sig.output),
        TyKind::Dynamic(preds) => somes(
            preds@.map_values(|p: ExistentialPredicate| existential_ty(p)),
        ),
        TyKind::Tuple(ts) => ts@,
        _ => Seq::empty(),
    }
}

/// The values of the `Some` entries of `s`, in order.
pub open spec fn somes(s: Seq<Option<TyId>>) -> Seq<TyId>
    decreases s.len(),
{
    if s.len() == 0 {
        Seq::empty()
    } else {
        match s.last() {
            Some(t) => somes(s.drop_last()).push(t),
            None => somes(s.drop_last()),
        }
    }
}

/// Every `Some` entry of `s` occurs in `somes(s)`, and nothing else does.
pub proof fn lemma_somes_contains(s: Seq<Option<TyId>>, t: TyId)
    ensures
        somes(s).contains(t) <==> s.contains(Some(t)),
    decreases s.len(),
{
    if s.len() == 0 {
    } else {
        let init = s.drop_last();
        lemma_somes_contains(init, t);
        if somes(s).contains(t) {
            let j = choose|j: int| 0 <= j < somes(s).len() && somes(s)[j] == t;
            if s.last() == Some(t) {
                assert(s[s.len() - 1] == Some(t));
            } else {
                assert(somes(init).contains(t)) by {
                    match s.last() {
                        Some(u) => {
                            assert(somes(s) == somes(init).push(u));
                            assert(j < somes(init).len());
                            assert(somes(init)[j] == t);
                        },
                        None => {},
                    }
                }
                let k = choose|k: int| 0 <= k < init.len() && init[k] == Some(t);
                assert(s[k] == Some(t));
            }
        }
        if s.contains(Some(t)) {
            let k = choose|k: int| 0 <= k < s.len() && s[k] == Some(t);
            if k == s.len() - 1 {
                assert(somes(s) == somes(init).push(t));
                assert(somes(s)[somes(init).len() as int] == t);
            } else {
                assert(init[k] == Some(t));
                assert(somes(init).contains(t));
                let j = choose|j: int| 0 <= j < somes(init).len() && somes(init)[j] == t;
                match s.last() {
                    Some(u) => {
                        assert(somes(s)[j] == t);
                    },
                    None => {},
                }
            }
        }
    }
}

} // verus!
