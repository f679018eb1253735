//! Signatures of things that can be called: functions, closures, and types
//! bound by one of the call traits.

use vstd::prelude::*;
use crate::context::{lemma_arg_below, LateContext, TyCtxt};
use crate::model::{
    opt_is, CtorKind, DefId, DefKind, ExistentialPredicate, FnDecl, FnSig, GenericArg, HirTyId,
    LangItems, Predicate, Res, TyId, TyKind,
};
use crate::peel::{peel_mid_ty_refs, peeled};

verus! {

/// A signature for a function like type.
#[derive(Clone, Copy)]
pub enum ExprFnSig<'a> {
    /// A function signature, with the definition it comes from if any.
    Sig(&'a FnSig, Option<DefId>),
    /// A closure: its parameters as written, where they can be had, and its
    /// signature, whose one input is the tuple of the parameters.
    Closure(Option<&'a FnDecl>, &'a FnSig),
    /// A type bound by a call trait: the tuple of the inputs, the output if
    /// it is bound, and the definition that the bounds come from.
    Trait(TyId, Option<TyId>, Option<DefId>),
}

/// What a signature says, as plain values.
pub enum SigModel {
    Sig { inputs: Seq<TyId>, output: TyId, c_variadic: bool, id: Option<DefId> },
    Closure { decl: Option<Seq<HirTyId>>, inputs: Seq<TyId>, output: TyId },
    Trait { args: TyId, result: Option<TyId>, id: Option<DefId> },
}

impl<'a> View for ExprFnSig<'a> {
    type V = SigModel;

    open spec fn view(&self) -> SigModel {
        match *self {
            ExprFnSig::Sig(sig, id) => SigModel::Sig {
                inputs: sig.inputs@,
                output: sig.output,
                c_variadic: sig.c_variadic,
                id,
            },
            ExprFnSig::Closure(decl, sig) => SigModel::Closure {
                decl: match decl {
                    Some(d) => Some(d.inputs@),
                    None => None,
                },
                inputs: sig.inputs@,
                output: sig.output,
            },
            ExprFnSig::Trait(inputs, output, id) => SigModel::Trait { args: inputs, result: output, id },
        }
    }
}

/// The fields of `ty` if it is a tuple.
pub open spec fn tuple_fields(tcx: &TyCtxt, ty: TyId) -> Option<Seq<TyId>> {
    match tcx.kind(ty) {
        Some(TyKind::Tuple(ts)) => Some(ts@),
        _ => None,
    }
}

impl SigModel {
    /// The types of the parameters, where they can be told: those of a
    /// function signature, and otherwise the fields of the tuple that
    /// stands for them.
    pub open spec fn params(self, tcx: &TyCtxt) -> Option<Seq<TyId>> {
        match self {
            SigModel::Sig { inputs, .. } => Some(inputs),
            SigModel::Closure { inputs, .. } => if inputs.len() > 0 {
                tuple_fields(tcx, inputs[0])
            } else {
                None
            },
            SigModel::Trait { args, .. } => tuple_fields(tcx, args),
        }
    }

    /// Whether the signature takes further arguments after its parameters.
    pub open spec fn is_variadic(self) -> bool {
        self matches SigModel::Sig { c_variadic, .. } && c_variadic
    }

    /// Whether the argument at offset `i` can be asked for: the parameters
    /// can be told, and `i` is one of them unless the signature is variadic.
    pub open spec fn has_input(self, tcx: &TyCtxt, i: usize) -> bool {
        self.params(tcx) matches Some(ps) && (self.is_variadic() || i < ps.len())
    }

    /// The type of the argument at offset `i`; none past the parameters of
    /// a variadic signature.
    pub open spec fn input(self, tcx: &TyCtxt, i: usize) -> Option<TyId> {
        match self.params(tcx) {
            Some(ps) => if i < ps.len() {
                Some(ps[i as int])
            } else {
                None
            },
            None => None,
        }
    }

    /// The type as written of the argument at offset `i`, where the
    /// signature is a closure's and its parameters as written hold one.
    pub open spec fn written_input(self, i: usize) -> Option<HirTyId> {
        match self {
            SigModel::Closure { decl: Some(d), .. } => if i < d.len() {
                Some(d[i as int])
            } else {
                None
            },
            _ => None,
        }
    }

    pub open spec fn output(self) -> Option<TyId> {
        match self {
            SigModel::Sig { output, .. } => Some(output),
            SigModel::Closure { output, .. } => Some(output),
            SigModel::Trait { result, .. } => result,
        }
    }

    pub open spec fn predicates_id(self) -> Option<DefId> {
        match self {
            SigModel::Sig { id, .. } => id,
            SigModel::Closure { .. } => None,
            SigModel::Trait { id, .. } => id,
        }
    }
}

/// The field `i` of the tuple `ty`.
fn tuple_field(tcx: &TyCtxt, ty: TyId, i: usize) -> (r: TyId)
    requires
        tuple_fields(tcx, ty) matches Some(ts) && i < ts.len(),
    ensures
        r == tuple_fields(tcx, ty).unwrap()[i as int],
{
    match tcx.get(ty) {
        Some(d) => match &d.kind {
            TyKind::Tuple(ts) => ts[i],
            _ => ty,
        },
        None => ty,
    }
}

/// The number of fields of `ty` if it is a tuple.
fn tuple_len(tcx: &TyCtxt, ty: TyId) -> (r: Option<usize>)
    ensures
        match r {
            Some(n) => tuple_fields(tcx, ty) matches Some(ts) && ts.len() == n,
            None => tuple_fields(tcx, ty).is_none(),
        },
{
    match tcx.get(ty) {
        Some(d) => match &d.kind {
            TyKind::Tuple(ts) => Some(ts.len()),
            _ => None,
        },
        None => None,
    }
}

impl<'a> ExprFnSig<'a> {
    /// Whether the argument at offset `i` can be asked for.
    pub fn has_input(self, tcx: &TyCtxt, i: usize) -> (r: bool)
        ensures
            r == self@.has_input(tcx, i),
    {
        match self {
            ExprFnSig::Sig(sig, _) => {
                if sig.c_variadic {
                    true
                } else {
                    i < sig.inputs.len()
                }
            },
            ExprFnSig::Closure(_, sig) => {
                if sig.inputs.len() > 0 {
                    match tuple_len(tcx, sig.inputs[0]) {
                        Some(n) => i < n,
                        None => false,
                    }
                } else {
                    false
                }
            },
            ExprFnSig::Trait(inputs, _, _) => match tuple_len(tcx, inputs) {
                Some(n) => i < n,
                None => false,
            },
        }
    }

    /// Gets the argument type at the given offset. This will return `None`
    /// when the index is out of bounds only for variadic functions.
    pub fn input(self, tcx: &TyCtxt, i: usize) -> (r: Option<TyId>)
        requires
            self@.has_input(tcx, i),
        ensures
            r == self@.input(tcx, i),
    {
        match self {
            ExprFnSig::Sig(sig, _) => {
                if sig.c_variadic {
                    if i < sig.inputs.len() {
                        Some(sig.inputs[i])
                    } else {
                        None
                    }
                } else {
                    Some(sig.inputs[i])
                }
            },
            ExprFnSig::Closure(_, sig) => Some(tuple_field(tcx, sig.inputs[0], i)),
            ExprFnSig::Trait(inputs, _, _) => Some(tuple_field(tcx, inputs, i)),
        }
    }

    /// Gets the argument type at the given offset. For closures this will
    /// also get the type as written. This will return `None` when the index
    /// is out of bounds only for variadic functions.
    pub fn input_with_hir(self, tcx: &TyCtxt, i: usize) -> (r: Option<(Option<HirTyId>, TyId)>)
        requires
            self@.has_input(tcx, i),
        ensures
            r == match self@.input(tcx, i) {
                Some(t) => Some((self@.written_input(i), t)),
                None => None,
            },
    {
        match self {
            ExprFnSig::Sig(sig, _) => {
                if sig.c_variadic {
                    if i < sig.inputs.len() {
                        Some((None, sig.inputs[i]))
                    } else {
                        None
                    }
                } else {
                    Some((None, sig.inputs[i]))
                }
            },
            ExprFnSig::Closure(decl, sig) => {
                let written = match decl {
                    Some(d) => if i < d.inputs.len() {
                        Some(d.inputs[i])
                    } else {
                        None
                    },
                    None => None,
                };
                Some((written, tuple_field(tcx, sig.inputs[0], i)))
            },
            ExprFnSig::Trait(inputs, _, _) => Some((None, tuple_field(tcx, inputs, i))),
        }
    }

    /// Gets the result type, if one could be found. Note that the result
    /// type of a trait may not be specified.
    pub fn output(self) -> (r: Option<TyId>)
        ensures
            r == self@.output(),
    {
        match self {
            ExprFnSig::Sig(sig, _) => Some(sig.output),
            ExprFnSig::Closure(_, sig) => Some(sig.output),
            ExprFnSig::Trait(_, output, _) => output,
        }
    }

    /// The definition whose predicates apply to the signature, if any.
    pub fn predicates_id(&self) -> (r: Option<DefId>)
        ensures
            r == self@.predicates_id(),
    {
        match *self {
            ExprFnSig::Sig(_, id) => id,
            ExprFnSig::Trait(_, _, id) => id,
            ExprFnSig::Closure(_, _) => None,
        }
    }
}

/// A closure and a function with the same parameters give the same type
/// for each argument.
pub proof fn lemma_closure_and_function_inputs_agree(
    tcx: &TyCtxt,
    function: SigModel,
    closure: SigModel,
    i: usize,
)
    requires
        function is Sig,
        closure is Closure,
        !function.is_variadic(),
        function.params(tcx) == closure.params(tcx),
        function.has_input(tcx, i),
    ensures
        closure.has_input(tcx, i),
        function.input(tcx, i) == closure.input(tcx, i),
        function.input(tcx, i) is Some,
{
}

/// Whether a bound on `self_ty` is one on the type asked for, if one is.
pub open spec fn self_matches(self_ty: TyId, want: Option<TyId>) -> bool {
    match want {
        Some(t) => self_ty == t,
        None => true,
    }
}

/// The tuple of inputs that `p` binds, if `p` is a bound by one of the call
/// traits on the type asked for.
pub open spec fn call_bound(lang: LangItems, p: Predicate, want: Option<TyId>) -> Option<TyId> {
    match p {
        Predicate::Trait { trait_id, self_ty, first_arg } => if lang.is_fn_family_spec(trait_id)
            && self_matches(self_ty, want) {
            first_arg
        } else {
            None
        },
        _ => None,
    }
}

/// The output that `p` binds, if `p` binds the output of a call on the type
/// asked for.
pub open spec fn output_bound(lang: LangItems, p: Predicate, want: Option<TyId>) -> Option<TyId> {
    match p {
        Predicate::Projection { item_id, self_ty, term } => if lang.fn_once_output == Some(item_id)
            && self_matches(self_ty, want) {
            Some(term)
        } else {
            None
        },
        _ => None,
    }
}

/// Whether the bounds disagree: two call bounds with different inputs, or
/// two bounds on the output with different outputs.
pub open spec fn bounds_conflict(lang: LangItems, preds: Seq<Predicate>, want: Option<TyId>) -> bool {
    ||| exists|j: int, k: int|
        #![trigger preds[j], preds[k]]
        0 <= j < preds.len() && 0 <= k < preds.len() && call_bound(lang, preds[j], want) is Some
            && call_bound(lang, preds[k], want) is Some && call_bound(lang, preds[j], want)
            != call_bound(lang, preds[k], want)
    ||| exists|j: int, k: int|
        #![trigger preds[j], preds[k]]
        0 <= j < preds.len() && 0 <= k < preds.len() && output_bound(lang, preds[j], want) is Some
            && output_bound(lang, preds[k], want) is Some && output_bound(lang, preds[j], want)
            != output_bound(lang, preds[k], want)
}

/// Whether `inputs` is what a call bound among `preds` binds.
pub open spec fn binds_inputs(
    lang: LangItems,
    preds: Seq<Predicate>,
    want: Option<TyId>,
    inputs: TyId,
) -> bool {
    exists|j: int| 0 <= j < preds.len() && call_bound(lang, #[trigger] preds[j], want) == Some(inputs)
}

/// Whether `output` is what an output bound among `preds` binds.
pub open spec fn binds_output(
    lang: LangItems,
    preds: Seq<Predicate>,
    want: Option<TyId>,
    output: TyId,
) -> bool {
    exists|k: int|
        0 <= k < preds.len() && output_bound(lang, #[trigger] preds[k], want) == Some(output)
}

/// Whether `r` is what the bounds `preds` say of a call: nothing where they
/// disagree or hold no call bound; else the inputs that the call bounds
/// bind, with the output if one is bound.
pub open spec fn is_bounds_sig(
    lang: LangItems,
    preds: Seq<Predicate>,
    want: Option<TyId>,
    r: Option<(TyId, Option<TyId>)>,
) -> bool {
    match r {
        None => bounds_conflict(lang, preds, want) || forall|j: int|
            0 <= j < preds.len() ==> call_bound(lang, #[trigger] preds[j], want).is_none(),
        Some((inputs, output)) => {
            &&& !bounds_conflict(lang, preds, want)
            &&& binds_inputs(lang, preds, want, inputs)
            &&& match output {
                Some(o) => binds_output(lang, preds, want, o),
                None => forall|k: int|
                    0 <= k < preds.len() ==> output_bound(lang, #[trigger] preds[k], want).is_none(),
            }
        },
    }
}

/// What the bounds say of a call, is one thing only.
pub proof fn lemma_bounds_sig_unique(
    lang: LangItems,
    preds: Seq<Predicate>,
    want: Option<TyId>,
    a: Option<(TyId, Option<TyId>)>,
    b: Option<(TyId, Option<TyId>)>,
)
    requires
        is_bounds_sig(lang, preds, want, a),
        is_bounds_sig(lang, preds, want, b),
    ensures
        a == b,
{
    match (a, b) {
        (Some((ia, oa)), Some((ib, ob))) => {
            let j = choose|j: int|
                0 <= j < preds.len() && call_bound(lang, #[trigger] preds[j], want) == Some(ia);
            let k = choose|k: int|
                0 <= k < preds.len() && call_bound(lang, #[trigger] preds[k], want) == Some(ib);
            assert(ia == ib) by {
                let _ = (preds[j], preds[k]);
            }
            match (oa, ob) {
                (Some(x), Some(y)) => {
                    let m = choose|m: int|
                        0 <= m < preds.len() && output_bound(lang, #[trigger] preds[m], want)
                            == Some(x);
                    let n = choose|n: int|
                        0 <= n < preds.len() && output_bound(lang, #[trigger] preds[n], want)
                            == Some(y);
                    assert(x == y) by {
                        let _ = (preds[m], preds[n]);
                    }
                },
                (Some(x), None) => {
                    let m = choose|m: int|
                        0 <= m < preds.len() && output_bound(lang, #[trigger] preds[m], want)
                            == Some(x);
                },
                (None, Some(y)) => {
                    let n = choose|n: int|
                        0 <= n < preds.len() && output_bound(lang, #[trigger] preds[n], want)
                            == Some(y);
                },
                (None, None) => {},
            }
        },
        (Some((ia, _)), None) => {
            let j = choose|j: int|
                0 <= j < preds.len() && call_bound(lang, #[trigger] preds[j], want) == Some(ia);
        },
        (None, Some((ib, _))) => {
            let k = choose|k: int|
                0 <= k < preds.len() && call_bound(lang, #[trigger] preds[k], want) == Some(ib);
        },
        (None, None) => {},
    }
}

/// Scans bounds for what they say of a call on the type `want`, or on any
/// type where `want` is `None`.
#[verifier::loop_isolation(false)]
pub fn scan_bounds(lang: &LangItems, preds: &Vec<Predicate>, want: Option<TyId>) -> (r: Option<
    (TyId, Option<TyId>),
>)
    ensures
        is_bounds_sig(*lang, preds@, want, r),
{
    let mut inputs: Option<TyId> = None;
    let mut output: Option<TyId> = None;
    let mut i: usize = 0;
    while i < preds.len()
        invariant
            0 <= i <= preds.len(),
            forall|j: int|
                0 <= j < i ==> call_bound(*lang, #[trigger] preds[j], want).is_none() || call_bound(
                    *lang,
                    preds[j],
                    want,
                ) == inputs,
            inputs.is_some() ==> exists|j: int|
                0 <= j < i && call_bound(*lang, #[trigger] preds[j], want) == inputs,
            forall|k: int|
                0 <= k < i ==> output_bound(*lang, #[trigger] preds[k], want).is_none()
                    || output_bound(*lang, preds[k], want) == output,
            output.is_some() ==> exists|k: int|
                0 <= k < i && output_bound(*lang, #[trigger] preds[k], want) == output,
        decreases preds.len() - i,
    {
        match preds[i] {
            Predicate::Trait { trait_id, self_ty, first_arg } => {
                let on_self = match want {
                    Some(t) => self_ty == t,
                    None => true,
                };
                if lang.is_fn_family(trait_id) && on_self {
                    if let Some(a) = first_arg {
                        if let Some(prev) = inputs {
                            if prev != a {
                                proof {
                                    let j = choose|j: int|
                                        0 <= j < i && call_bound(*lang, #[trigger] preds[j], want)
                                            == inputs;
                                    let _ = (preds@[j], preds@[i as int]);
                                }
                                return None;
                            }
                        }
                        inputs = Some(a);
                    }
                }
            },
            Predicate::Projection { item_id, self_ty, term } => {
                let on_self = match want {
                    Some(t) => self_ty == t,
                    None => true,
                };
                if opt_is(lang.fn_once_output, item_id) && on_self {
                    if let Some(prev) = output {
                        if prev != term {
                            proof {
                                let k = choose|k: int|
                                    0 <= k < i && output_bound(*lang, #[trigger] preds[k], want)
                                        == output;
                                let _ = (preds@[k], preds@[i as int]);
                            }
                            return None;
                        }
                    }
                    output = Some(term);
                }
            },
            Predicate::Other => {},
        }
        i += 1;
    }
    match inputs {
        Some(a) => {
            proof {
                if bounds_conflict(*lang, preds@, want) {
                    if exists|j: int, k: int|
                        #![trigger preds@[j], preds@[k]]
                        0 <= j < preds.len() && 0 <= k < preds.len() && output_bound(
                            *lang,
                            preds@[j],
                            want,
                        ) is Some && output_bound(*lang, preds@[k], want) is Some && output_bound(
                            *lang,
                            preds@[j],
                            want,
                        ) != output_bound(*lang, preds@[k], want) {
                        let (j, k) = choose|j: int, k: int|
                            #![trigger preds@[j], preds@[k]]
                            0 <= j < preds.len() && 0 <= k < preds.len() && output_bound(
                                *lang,
                                preds@[j],
                                want,
                            ) is Some && output_bound(*lang, preds@[k], want) is Some
                                && output_bound(*lang, preds@[j], want) != output_bound(
                                *lang,
                                preds@[k],
                                want,
                            );
                        assert(false);
                    } else {
                        let (j, k) = choose|j: int, k: int|
                            #![trigger preds@[j], preds@[k]]
                            0 <= j < preds.len() && 0 <= k < preds.len() && call_bound(
                                *lang,
                                preds@[j],
                                want,
                            ) is Some && call_bound(*lang, preds@[k], want) is Some && call_bound(
                                *lang,
                                preds@[j],
                                want,
                            ) != call_bound(*lang, preds@[k], want);
                        assert(false);
                    }
                }
            }
            Some((a, output))
        },
        None => None,
    }
}

/// The model of a signature, if there is one.
pub open spec fn model_of(r: Option<ExprFnSig<'_>>) -> Option<SigModel> {
    match r {
        Some(s) => Some(s@),
        None => None,
    }
}

/// Whether `r` is the signature that the bounds `preds` give: none where
/// they give none, else that of a type bound by a call trait, with `id` as
/// the definition that the bounds come from.
pub open spec fn is_trait_sig(
    lang: LangItems,
    preds: Seq<Predicate>,
    want: Option<TyId>,
    id: Option<DefId>,
    r: Option<SigModel>,
) -> bool {
    match r {
        None => is_bounds_sig(lang, preds, want, None),
        Some(SigModel::Trait { args: inputs, result: output, id: from }) => from == id && is_bounds_sig(
            lang,
            preds,
            want,
            Some((inputs, output)),
        ),
        Some(_) => false,
    }
}

/// Gets the signature that the bounds `predicates` on `ty` give.
pub fn sig_from_bounds<'a>(
    cx: &'a LateContext,
    ty: TyId,
    predicates: &Vec<Predicate>,
    predicates_id: Option<DefId>,
) -> (r: Option<ExprFnSig<'a>>)
    ensures
        is_trait_sig(cx.tcx.lang_items, predicates@, Some(ty), predicates_id, model_of(r)),
{
    match scan_bounds(&cx.tcx.lang_items, predicates, Some(ty)) {
        Some((inputs, output)) => Some(ExprFnSig::Trait(inputs, output, predicates_id)),
        None => None,
    }
}

/// The declared bounds of the item that `ty` projects, with the arguments
/// of `ty` put in.
pub open spec fn projection_bounds(tcx: &TyCtxt, ty: TyId) -> Seq<Predicate> {
    match tcx.ty_data(ty) {
        Some(d) => d.item_bounds@,
        None => Seq::empty(),
    }
}

/// Gets the signature that the declared bounds of the projected item give
/// for the projection `ty`.
pub fn sig_for_projection<'a>(cx: &'a LateContext, ty: TyId) -> (r: Option<ExprFnSig<'a>>)
    ensures
        is_trait_sig(cx.tcx.lang_items, projection_bounds(&cx.tcx, ty), None, None, model_of(r)),
{
    match cx.tcx.get(ty) {
        Some(d) => match scan_bounds(&cx.tcx.lang_items, &d.item_bounds, None) {
            Some((inputs, output)) => Some(ExprFnSig::Trait(inputs, output, None)),
            None => None,
        },
        None => {
            let ghost preds = projection_bounds(&cx.tcx, ty);
            assert(is_bounds_sig(cx.tcx.lang_items, preds, None, None));
            None
        },
    }
}

/// Whether `p` binds the output of a call.
pub open spec fn is_output_projection(lang: LangItems, p: ExistentialPredicate) -> bool {
    p matches ExistentialPredicate::Projection(item, _) && lang.fn_once_output == Some(item)
}

/// Whether `r` is what the first bound on the output of a call among
/// `preds` binds.
pub open spec fn is_first_output(
    lang: LangItems,
    preds: Seq<ExistentialPredicate>,
    r: Option<TyId>,
) -> bool {
    match r {
        Some(t) => exists|k: int|
            0 <= k < preds.len() && is_output_projection(lang, #[trigger] preds[k]) && preds[k]
                == ExistentialPredicate::Projection(lang.fn_once_output.unwrap(), t) && forall|
                m: int,
            | 0 <= m < k ==> !is_output_projection(lang, #[trigger] preds[m]),
        None => forall|k: int|
            0 <= k < preds.len() ==> !is_output_projection(lang, #[trigger] preds[k]),
    }
}

/// The inputs of the call that a trait object stands for: the first type
/// argument of its first bound, where that bound is by a call trait.
pub open spec fn dyn_inputs(lang: LangItems, preds: Seq<ExistentialPredicate>) -> Option<TyId> {
    if preds.len() > 0 {
        match preds[0] {
            ExistentialPredicate::Trait(did, arg) => if lang.is_fn_family_spec(did) {
                arg
            } else {
                None
            },
            _ => None,
        }
    } else {
        None
    }
}

/// Whether `r` is the signature of the trait object with the bounds
/// `preds`.
pub open spec fn is_dyn_sig(
    lang: LangItems,
    preds: Seq<ExistentialPredicate>,
    r: Option<SigModel>,
) -> bool {
    match dyn_inputs(lang, preds) {
        Some(inputs) => r matches Some(SigModel::Trait { args: i, result: output, id }) && i == inputs
            && id.is_none() && is_first_output(lang, preds, output),
        None => r.is_none(),
    }
}

#[verifier::loop_isolation(false)]
fn dyn_sig<'a>(lang: &LangItems, preds: &Vec<ExistentialPredicate>) -> (r: Option<ExprFnSig<'a>>)
    ensures
        is_dyn_sig(*lang, preds@, model_of(r)),
{
    if preds.len() == 0 {
        return None;
    }
    let inputs = match preds[0] {
        ExistentialPredicate::Trait(did, Some(arg)) => {
            if lang.is_fn_family(did) {
                arg
            } else {
                return None;
            }
        },
        _ => { return None; },
    };
    let mut k: usize = 0;
    while k < preds.len()
        invariant
            0 <= k <= preds.len(),
            forall|m: int| 0 <= m < k ==> !is_output_projection(*lang, #[trigger] preds[m]),
        decreases preds.len() - k,
    {
        if let ExistentialPredicate::Projection(item, term) = preds[k] {
            if opt_is(lang.fn_once_output, item) {
                assert(is_output_projection(*lang, preds@[k as int]));
                return Some(ExprFnSig::Trait(inputs, Some(term), None));
            }
        }
        k += 1;
    }
    Some(ExprFnSig::Trait(inputs, None, None))
}

/// What `ty` normalizes to in the context's environment.
pub open spec fn normalized(cx: &LateContext, ty: TyId) -> Option<TyId> {
    match cx.tcx.facts(cx.param_env.id, ty) {
        Some(f) => f.normalized,
        None => None,
    }
}

/// Whether `ty` is its own normal form.
pub open spec fn is_normal_form(cx: &LateContext, ty: TyId) -> bool {
    normalized(cx, ty) == Some(ty)
}

/// Whether normalization has settled: what a type normalizes to is its own
/// normal form, and a normal form is built from normal forms.
pub open spec fn normalization_settled(cx: &LateContext) -> bool {
    &&& forall|t: TyId|
        match #[trigger] normalized(cx, t) {
            Some(n) => is_normal_form(cx, n),
            None => true,
        }
    &&& forall|t: TyId, j: int|
        t < cx.tcx.types.len() && is_normal_form(cx, t) && 0 <= j < crate::model::children(
            cx.tcx.types[t as int].kind,
        ).len() ==> is_normal_form(
            cx,
            #[trigger] crate::model::children(cx.tcx.types[t as int].kind)[j],
        )
}

/// The type inside the owning box `ty`.
pub open spec fn boxed_ty(tcx: &TyCtxt, ty: TyId) -> Option<TyId> {
    match tcx.kind(ty) {
        Some(TyKind::Adt(did, args)) => if tcx.lang_items.owned_box == Some(did) && args.len() > 0 {
            match args[0] {
                GenericArg::Type(t) => Some(t),
                _ => None,
            }
        } else {
            None
        },
        _ => None,
    }
}

/// One step for a type that is not its own normal form, none for one that
/// is.
pub open spec fn phase(cx: &LateContext, ty: TyId) -> nat {
    if is_normal_form(cx, ty) {
        0
    } else {
        1
    }
}

/// The parameters of the closure or function `id` as written.
pub open spec fn written_params(tcx: &TyCtxt, id: DefId) -> Option<Seq<HirTyId>> {
    match tcx.def(id) {
        Some(x) => match x.fn_decl {
            Some(d) => Some(d.inputs@),
            None => None,
        },
        None => None,
    }
}

/// The item that the definition `id` lies in.
pub open spec fn parent_of(tcx: &TyCtxt, id: DefId) -> Option<DefId> {
    match tcx.def(id) {
        Some(x) => x.parent,
        None => None,
    }
}

/// The bounds of the definition `id`, with what follows from them.
pub open spec fn declared_bounds(tcx: &TyCtxt, id: DefId) -> Seq<Predicate> {
    match tcx.def(id) {
        Some(x) => x.item_bounds@,
        None => Seq::empty(),
    }
}

/// Whether `r` is the signature of `ty`.
///
/// An owning box has the signature of what it holds. A closure and a
/// function item have their own, a function pointer the one it is made of.
/// An opaque type has what its declared bounds give, a trait object what
/// its bounds give, a type parameter what the bounds in scope give. A
/// projection has the signature of what it normalizes to, if that is
/// another type; else what the declared bounds of the projected item give,
/// and failing that what the bounds in scope give. Nothing else has one.
pub open spec fn is_ty_sig(cx: &LateContext, ty: TyId, r: Option<SigModel>) -> bool
    decreases phase(cx, ty), ty,
{
    let tcx = &cx.tcx;
    let lang = tcx.lang_items;
    if let Some(b) = boxed_ty(tcx, ty) {
        b < ty && phase(cx, b) <= phase(cx, ty) && is_ty_sig(cx, b, r)
    } else {
        match tcx.ty_data(ty) {
            Some(d) => match d.kind {
                TyKind::Closure(id, _) => r == match d.sig {
                    Some(s) => Some(
                        SigModel::Closure {
                            decl: written_params(tcx, id),
                            inputs: s.inputs@,
                            output: s.output,
                        },
                    ),
                    None => None,
                },
                TyKind::FnDef(id, _) => r == match d.sig {
                    Some(s) => Some(
                        SigModel::Sig {
                            inputs: s.inputs@,
                            output: s.output,
                            c_variadic: s.c_variadic,
                            id: Some(id),
                        },
                    ),
                    None => None,
                },
                TyKind::Opaque(id, _) => is_trait_sig(
                    lang,
                    declared_bounds(tcx, id),
                    Some(ty),
                    parent_of(tcx, id),
                    r,
                ),
                TyKind::FnPtr(s) => r == Some(
                    SigModel::Sig {
                        inputs: s.inputs@,
                        output: s.output,
                        c_variadic: s.c_variadic,
                        id: None,
                    },
                ),
                TyKind::Dynamic(preds) => is_dyn_sig(lang, preds@, r),
                TyKind::Projection(_, _) => match normalized(cx, ty) {
                    Some(n) => if n != ty {
                        phase(cx, n) < phase(cx, ty) && is_ty_sig(cx, n, r)
                    } else {
                        is_unresolved_projection_sig(cx, ty, r)
                    },
                    None => is_unresolved_projection_sig(cx, ty, r),
                },
                TyKind::Param(_) => is_trait_sig(
                    lang,
                    cx.param_env.caller_bounds@,
                    Some(ty),
                    None,
                    r,
                ),
                _ => r.is_none(),
            },
            None => r.is_none(),
        }
    }
}

/// Whether `r` is the signature of the projection `ty` that does not
/// normalize to another type: what the declared bounds of the projected
/// item give, or where they give nothing, what the bounds in scope give.
pub open spec fn is_unresolved_projection_sig(
    cx: &LateContext,
    ty: TyId,
    r: Option<SigModel>,
) -> bool {
    let lang = cx.tcx.lang_items;
    let declared = projection_bounds(&cx.tcx, ty);
    ||| (r.is_some() && is_trait_sig(lang, declared, None, None, r))
    ||| (is_trait_sig(lang, declared, None, None, None) && is_trait_sig(
        lang,
        cx.param_env.caller_bounds@,
        Some(ty),
        None,
        r,
    ))
}

/// If the type is function like, get the signature for it.
pub fn ty_sig<'a>(cx: &'a LateContext, ty: TyId) -> (r: Option<ExprFnSig<'a>>)
    requires
        cx.tcx.wf(),
        normalization_settled(cx),
    ensures
        is_ty_sig(cx, ty, model_of(r)),
    decreases phase(cx, ty), ty,
{
    let tcx = &cx.tcx;
    let d = match tcx.get(ty) {
        Some(d) => d,
        None => { return None; },
    };
    if let TyKind::Adt(did, args) = &d.kind {
        if opt_is(tcx.lang_items.owned_box, *did) && args.len() > 0 {
            if let GenericArg::Type(b) = args[0] {
                proof {
                    lemma_arg_below(tcx, ty, args@, 0, b);
                    let opts = args@.map_values(|a: GenericArg| crate::model::arg_ty(a));
                    assert(opts[0] == Some(b));
                    crate::model::lemma_somes_contains(opts, b);
                    let cs = crate::model::children(tcx.types[ty as int].kind);
                    let j = choose|j: int| 0 <= j < cs.len() && cs[j] == b;
                    assert(is_normal_form(cx, ty) ==> is_normal_form(
                        cx,
                        crate::model::children(tcx.types[ty as int].kind)[j],
                    ));
                }
                return ty_sig(cx, b);
            }
        }
    }
    match &d.kind {
        TyKind::Closure(id, _) => {
            let decl = match tcx.get_def(*id) {
                Some(x) => match &x.fn_decl {
                    Some(decl) => Some(decl),
                    None => None,
                },
                None => None,
            };
            match &d.sig {
                Some(s) => Some(ExprFnSig::Closure(decl, s)),
                None => None,
            }
        },
        TyKind::FnDef(id, _) => match &d.sig {
            Some(s) => Some(ExprFnSig::Sig(s, Some(*id))),
            None => None,
        },
        TyKind::Opaque(id, _) => match tcx.get_def(*id) {
            Some(x) => sig_from_bounds(cx, ty, &x.item_bounds, x.parent),
            None => {
                let none: Vec<Predicate> = Vec::new();
                assert(none@ =~= declared_bounds(tcx, *id));
                sig_from_bounds(cx, ty, &none, None)
            },
        },
        TyKind::FnPtr(s) => Some(ExprFnSig::Sig(s, None)),
        TyKind::Dynamic(preds) => dyn_sig(&tcx.lang_items, preds),
        TyKind::Projection(_, _) => {
            let n = match tcx.get_facts(cx.param_env.id, ty) {
                Some(f) => f.normalized,
                None => None,
            };
            match n {
                Some(n) if n != ty => {
                    assert(normalized(cx, ty) == Some(n));
                    ty_sig(cx, n)
                },
                _ => match sig_for_projection(cx, ty) {
                    Some(s) => Some(s),
                    None => sig_from_bounds(cx, ty, &cx.param_env.caller_bounds, None),
                },
            }
        },
        TyKind::Param(_) => sig_from_bounds(cx, ty, &cx.param_env.caller_bounds, None),
        _ => None,
    }
}

/// Whether `res` names something that is called like a function.
pub open spec fn is_fn_res(res: Res) -> bool {
    res matches Res::Def(k, _) && (k is Fn || k is AssocFn || k matches DefKind::Ctor(
        _,
        CtorKind::Fn,
    ))
}

/// Whether `r` is the signature of an expression that resolves to `res`
/// and has the type `ty` after adjustment: that of the function that `res`
/// names, if it names one, else that of `ty` with its references peeled.
pub open spec fn is_expr_sig(cx: &LateContext, res: Res, ty: TyId, r: Option<SigModel>) -> bool {
    if is_fn_res(res) {
        r == match cx.tcx.def(res->Def_1) {
            Some(x) => match x.fn_sig {
                Some(s) => Some(
                    SigModel::Sig {
                        inputs: s.inputs@,
                        output: s.output,
                        c_variadic: s.c_variadic,
                        id: Some(res->Def_1),
                    },
                ),
                None => None,
            },
            None => None,
        }
    } else {
        is_ty_sig(cx, peeled(&cx.tcx, ty), r)
    }
}

/// If the expression is function like, get the signature for it. The
/// expression is given by what its path resolves to and by its type after
/// adjustment.
pub fn expr_sig<'a>(cx: &'a LateContext, res: Res, ty: TyId) -> (r: Option<ExprFnSig<'a>>)
    requires
        cx.tcx.wf(),
        normalization_settled(cx),
    ensures
        is_expr_sig(cx, res, ty, model_of(r)),
{
    let named = match res {
        Res::Def(DefKind::Fn, id) => Some(id),
        Res::Def(DefKind::AssocFn, id) => Some(id),
        Res::Def(DefKind::Ctor(_, CtorKind::Fn), id) => Some(id),
        _ => None,
    };
    match named {
        Some(id) => match cx.tcx.get_def(id) {
            Some(x) => match &x.fn_sig {
                Some(s) => Some(ExprFnSig::Sig(s, Some(id))),
                None => None,
            },
            None => None,
        },
        None => {
            let (base, _) = peel_mid_ty_refs(&cx.tcx, ty);
            ty_sig(cx, base)
        },
    }
}

/// The inputs and the output of the signature of a type bound by a call
/// trait.
pub open spec fn bound_parts(r: Option<SigModel>) -> Option<(TyId, Option<TyId>)> {
    match r {
        Some(SigModel::Trait { args, result, .. }) => Some((args, result)),
        _ => None,
    }
}

/// The bounds give one signature only.
pub proof fn lemma_trait_sig_unique(
    lang: LangItems,
    preds: Seq<Predicate>,
    want: Option<TyId>,
    id: Option<DefId>,
    a: Option<SigModel>,
    b: Option<SigModel>,
)
    requires
        is_trait_sig(lang, preds, want, id, a),
        is_trait_sig(lang, preds, want, id, b),
    ensures
        a == b,
{
    lemma_bounds_sig_unique(lang, preds, want, bound_parts(a), bound_parts(b));
}

/// A trait object has one signature only.
pub proof fn lemma_dyn_sig_unique(
    lang: LangItems,
    preds: Seq<ExistentialPredicate>,
    a: Option<SigModel>,
    b: Option<SigModel>,
)
    requires
        is_dyn_sig(lang, preds, a),
        is_dyn_sig(lang, preds, b),
    ensures
        a == b,
{
    if dyn_inputs(lang, preds).is_some() {
        let oa = a->Some_0->result;
        let ob = b->Some_0->result;
        match (oa, ob) {
            (Some(x), Some(y)) => {
                let k = choose|k: int|
                    0 <= k < preds.len() && is_output_projection(lang, #[trigger] preds[k])
                        && preds[k] == ExistentialPredicate::Projection(
                        lang.fn_once_output.unwrap(),
                        x,
                    ) && forall|m: int|
                        0 <= m < k ==> !is_output_projection(lang, #[trigger] preds[m]);
                let n = choose|n: int|
                    0 <= n < preds.len() && is_output_projection(lang, #[trigger] preds[n])
                        && preds[n] == ExistentialPredicate::Projection(
                        lang.fn_once_output.unwrap(),
                        y,
                    ) && forall|m: int|
                        0 <= m < n ==> !is_output_projection(lang, #[trigger] preds[m]);
                if k < n {
                    assert(!is_output_projection(lang, preds[k]));
                } else if n < k {
                    assert(!is_output_projection(lang, preds[n]));
                }
            },
            (Some(x), None) => {
                let k = choose|k: int|
                    0 <= k < preds.len() && is_output_projection(lang, #[trigger] preds[k]);
                assert(!is_output_projection(lang, preds[k]));
            },
            (None, Some(y)) => {
                let n = choose|n: int|
                    0 <= n < preds.len() && is_output_projection(lang, #[trigger] preds[n]);
                assert(!is_output_projection(lang, preds[n]));
            },
            (None, None) => {},
        }
    }
}

/// A type has one signature only.
pub proof fn lemma_ty_sig_unique(
    cx: &LateContext,
    ty: TyId,
    a: Option<SigModel>,
    b: Option<SigModel>,
)
    requires
        is_ty_sig(cx, ty, a),
        is_ty_sig(cx, ty, b),
    ensures
        a == b,
    decreases phase(cx, ty), ty,
{
    let tcx = &cx.tcx;
    let lang = tcx.lang_items;
    let scope = cx.param_env.caller_bounds@;
    if let Some(inner) = boxed_ty(tcx, ty) {
        lemma_ty_sig_unique(cx, inner, a, b);
    } else if let Some(d) = tcx.ty_data(ty) {
        match d.kind {
            TyKind::Opaque(id, _) => {
                lemma_trait_sig_unique(
                    lang,
                    declared_bounds(tcx, id),
                    Some(ty),
                    parent_of(tcx, id),
                    a,
                    b,
                );
            },
            TyKind::Dynamic(preds) => {
                lemma_dyn_sig_unique(lang, preds@, a, b);
            },
            TyKind::Param(_) => {
                lemma_trait_sig_unique(lang, scope, Some(ty), None, a, b);
            },
            TyKind::Projection(_, _) => {
                if normalized(cx, ty) matches Some(n) && n != ty {
                    lemma_ty_sig_unique(cx, normalized(cx, ty).unwrap(), a, b);
                } else {
                    let declared = projection_bounds(tcx, ty);
                    let a_declared = a.is_some() && is_trait_sig(lang, declared, None, None, a);
                    let b_declared = b.is_some() && is_trait_sig(lang, declared, None, None, b);
                    if a_declared && b_declared {
                        lemma_trait_sig_unique(lang, declared, None, None, a, b);
                    } else if a_declared {
                        lemma_trait_sig_unique(lang, declared, None, None, a, None);
                    } else if b_declared {
                        lemma_trait_sig_unique(lang, declared, None, None, b, None);
                    } else {
                        lemma_trait_sig_unique(lang, scope, Some(ty), None, a, b);
                    }
                }
            },
            _ => {},
        }
    }
}

/// A function pointer, a function item and a closure each have a
/// signature.
pub proof fn lemma_callable_has_signature(cx: &LateContext, ty: TyId, r: Option<SigModel>)
    requires
        cx.tcx.wf(),
        is_ty_sig(cx, ty, r),
        cx.tcx.kind(ty) matches Some(k) && (k is FnPtr || k is FnDef || k is Closure),
    ensures
        r.is_some(),
        cx.tcx.kind(ty) matches Some(TyKind::FnPtr(_)) ==> r matches Some(SigModel::Sig { id, .. })
            && id.is_none(),
        cx.tcx.kind(ty) matches Some(TyKind::FnDef(def, _)) ==> r matches Some(
            SigModel::Sig { id, .. },
        ) && id == Some(def),
        cx.tcx.kind(ty) matches Some(TyKind::Closure(_, _)) ==> r is Some && r->Some_0 is Closure,
{
    assert(crate::context::holds_signature(cx.tcx.types[ty as int]));
}

} // verus!
