//! An "at least" estimate of the size of a type.

use vstd::prelude::*;
use crate::context::{LateContext, TyCtxt};
use crate::model::{children, AdtKind, DefId, TyId, TyKind};
use crate::normalize::{certifies, is_normalizable, norm_parts, normalizable};
use crate::visited::{flat, flatten_fields, lemma_flat_contains};
use crate::walk::walk_list;

verus! {

/// The size that layout computation gives for `ty`, where it gives one.
pub open spec fn layout_size(cx: &LateContext, ty: TyId) -> Option<u64> {
    match cx.tcx.facts(cx.param_env.id, ty) {
        Some(f) => f.layout_size,
        None => None,
    }
}

/// Whether the algebraic type `did` is a struct, an enum or a union.
pub open spec fn adt_kind(tcx: &TyCtxt, did: DefId) -> Option<AdtKind> {
    match tcx.def(did) {
        Some(x) => match x.adt {
            Some(a) => Some(a.kind),
            None => None,
        },
        None => None,
    }
}

/// Whether all of `ts` are ranked, below `limit`.
pub open spec fn parts_ranked(rank: Map<TyId, nat>, ts: Seq<TyId>, limit: nat) -> bool {
    forall|j: int| 0 <= j < ts.len() ==> rank.dom().contains(#[trigger] ts[j]) && rank[ts[j]] < limit
}

/// The estimate for a ranked type: its layout size where there is one;
/// else the sum over the fields of a tuple or struct, the length times the
/// element for an array, the largest variant of an enum, the largest field
/// of a union, and zero for anything else. The ranking bounds the descent.
pub open spec fn size_at(cx: &LateContext, rank: Map<TyId, nat>, ty: TyId) -> nat
    decreases
            (if rank.dom().contains(ty) {
                rank[ty]
            } else {
                0
            }),
            3nat,
            0nat,
{
    if !rank.dom().contains(ty) {
        0
    } else {
        match layout_size(cx, ty) {
            Some(s) => s as nat,
            None => match cx.tcx.ty_data(ty) {
                Some(d) => match d.kind {
                    TyKind::Tuple(ts) => sum_seq(cx, rank, ts@, rank[ty]),
                    TyKind::Array(t, n) => {
                        let len: nat = match n {
                            Some(n) => n as nat,
                            None => 0,
                        };
                        if rank.dom().contains(t) && rank[t] < rank[ty] {
                            len * size_at(cx, rank, t)
                        } else {
                            0
                        }
                    },
                    TyKind::Adt(did, _) => match adt_kind(&cx.tcx, did) {
                        Some(AdtKind::Struct) => sum_seq(
                            cx,
                            rank,
                            flat(d.variant_fields@),
                            rank[ty],
                        ),
                        Some(AdtKind::Enum) => max_sums(cx, rank, d.variant_fields@, rank[ty]),
                        Some(AdtKind::Union) => max_seq(
                            cx,
                            rank,
                            flat(d.variant_fields@),
                            rank[ty],
                        ),
                        None => 0,
                    },
                    _ => 0,
                },
                None => 0,
            },
        }
    }
}

/// The sum of the estimates of `ts`, all ranked below `limit`.
pub open spec fn sum_seq(cx: &LateContext, rank: Map<TyId, nat>, ts: Seq<TyId>, limit: nat) -> nat
    decreases limit, 1nat, ts.len(),
{
    if ts.len() == 0 {
        0
    } else {
        let t = ts.last();
        sum_seq(cx, rank, ts.drop_last(), limit) + if rank.dom().contains(t) && rank[t] < limit {
            size_at(cx, rank, t)
        } else {
            0
        }
    }
}

/// The largest of the estimates of `ts`, all ranked below `limit`; zero for
/// none.
pub open spec fn max_seq(cx: &LateContext, rank: Map<TyId, nat>, ts: Seq<TyId>, limit: nat) -> nat
    decreases limit, 1nat, ts.len(),
{
    if ts.len() == 0 {
        0
    } else {
        let t = ts.last();
        let rest = max_seq(cx, rank, ts.drop_last(), limit);
        let x = if rank.dom().contains(t) && rank[t] < limit {
            size_at(cx, rank, t)
        } else {
            0
        };
        if x > rest {
            x
        } else {
            rest
        }
    }
}

/// The largest of the sums of the estimates of each of `vs`; zero for none.
pub open spec fn max_sums(
    cx: &LateContext,
    rank: Map<TyId, nat>,
    vs: Seq<Vec<TyId>>,
    limit: nat,
) -> nat
    decreases limit, 2nat, vs.len(),
{
    if vs.len() == 0 {
        0
    } else {
        let rest = max_sums(cx, rank, vs.drop_last(), limit);
        let x = sum_seq(cx, rank, vs.last()@, limit);
        if x > rest {
            x
        } else {
            rest
        }
    }
}

/// The types whose estimates make up the estimate of `ty`.
pub open spec fn size_parts(tcx: &TyCtxt, ty: TyId) -> Seq<TyId> {
    match tcx.ty_data(ty) {
        Some(d) => match d.kind {
            TyKind::Tuple(ts) => ts@,
            TyKind::Array(t, _) => seq![t],
            TyKind::Adt(_, _) => flat(d.variant_fields@),
            _ => Seq::empty(),
        },
        None => Seq::empty(),
    }
}

/// What a type is built from directly is among all it is built from.
pub proof fn lemma_walk_list_has_heads(tcx: &TyCtxt, cs: Seq<TyId>, bound: TyId, j: int)
    requires
        0 <= j < cs.len(),
    ensures
        walk_list(tcx, cs, bound).contains(cs[j]),
    decreases cs.len(),
{
    let init = walk_list(tcx, cs.drop_last(), bound);
    let w = walk_list(tcx, cs, bound);
    if j == cs.len() - 1 {
        assert(w[init.len() as int] == cs[j]);
    } else {
        lemma_walk_list_has_heads(tcx, cs.drop_last(), bound, j);
        let k = choose|k: int| 0 <= k < init.len() && init[k] == cs.drop_last()[j];
        assert(w[k] == cs[j]);
    }
}

/// In a certificate the parts that make up the estimate of a type are
/// ranked below the type.
pub proof fn lemma_size_parts_ranked(cx: &LateContext, rank: Map<TyId, nat>, ty: TyId)
    requires
        certifies(&cx.tcx, cx.param_env.id, rank),
        rank.dom().contains(ty),
    ensures
        parts_ranked(rank, size_parts(&cx.tcx, ty), rank[ty]),
{
    let tcx = &cx.tcx;
    let ts = size_parts(tcx, ty);
    assert forall|j: int| 0 <= j < ts.len() implies rank.dom().contains(#[trigger] ts[j])
        && rank[ts[j]] < rank[ty] by {
        let d = tcx.ty_data(ty).unwrap();
        match d.kind {
            TyKind::Adt(_, _) => {},
            _ => {
                assert(children(d.kind)[j] == ts[j]);
                lemma_walk_list_has_heads(tcx, children(d.kind), ty, j);
            },
        }
        assert(norm_parts(tcx, ty).contains(ts[j]));
        let k = choose|k: int| 0 <= k < norm_parts(tcx, ty).len() && norm_parts(tcx, ty)[k] == ts[j];
        assert(rank.dom().contains(norm_parts(tcx, ty)[k]));
    }
}

/// The sum over a prefix is at most the sum over the whole.
pub proof fn lemma_sum_prefix(
    cx: &LateContext,
    rank: Map<TyId, nat>,
    ts: Seq<TyId>,
    limit: nat,
    i: int,
)
    requires
        0 <= i <= ts.len(),
    ensures
        sum_seq(cx, rank, ts.take(i), limit) <= sum_seq(cx, rank, ts, limit),
    decreases ts.len(),
{
    if i == ts.len() {
        assert(ts.take(i) =~= ts);
    } else {
        lemma_sum_prefix(cx, rank, ts.drop_last(), limit, i);
        assert(ts.drop_last().take(i) =~= ts.take(i));
    }
}

/// The largest estimate over a prefix is at most the largest over the whole.
pub proof fn lemma_max_prefix(
    cx: &LateContext,
    rank: Map<TyId, nat>,
    ts: Seq<TyId>,
    limit: nat,
    i: int,
)
    requires
        0 <= i <= ts.len(),
    ensures
        max_seq(cx, rank, ts.take(i), limit) <= max_seq(cx, rank, ts, limit),
    decreases ts.len(),
{
    if i == ts.len() {
        assert(ts.take(i) =~= ts);
    } else {
        lemma_max_prefix(cx, rank, ts.drop_last(), limit, i);
        assert(ts.drop_last().take(i) =~= ts.take(i));
    }
}

/// The largest sum over a prefix is at most the largest over the whole.
pub proof fn lemma_max_sums_prefix(
    cx: &LateContext,
    rank: Map<TyId, nat>,
    vs: Seq<Vec<TyId>>,
    limit: nat,
    i: int,
)
    requires
        0 <= i <= vs.len(),
    ensures
        max_sums(cx, rank, vs.take(i), limit) <= max_sums(cx, rank, vs, limit),
    decreases vs.len(),
{
    if i == vs.len() {
        assert(vs.take(i) =~= vs);
    } else {
        lemma_max_sums_prefix(cx, rank, vs.drop_last(), limit, i);
        assert(vs.drop_last().take(i) =~= vs.take(i));
    }
}

/// The number as a machine size, where it fits one.
pub open spec fn fit(n: nat) -> Option<u64> {
    if n <= u64::MAX {
        Some(n as u64)
    } else {
        None
    }
}

#[verifier::loop_isolation(false)]
fn sum_sizes(
    cx: &LateContext,
    ts: &Vec<TyId>,
    Ghost(rank): Ghost<Map<TyId, nat>>,
    Ghost(limit): Ghost<nat>,
) -> (r: Option<u64>)
    requires
        cx.tcx.wf(),
        certifies(&cx.tcx, cx.param_env.id, rank),
        parts_ranked(rank, ts@, limit),
    ensures
        r == fit(sum_seq(cx, rank, ts@, limit)),
    decreases limit, 1nat, ts.len(),
{
    let mut total: u64 = 0;
    let mut i: usize = 0;
    while i < ts.len()
        invariant
            0 <= i <= ts.len(),
            total == sum_seq(cx, rank, ts@.take(i as int), limit),
        decreases ts.len() - i,
    {
        proof {
            lemma_sum_prefix(cx, rank, ts@, limit, i + 1);
            assert(ts@.take(i + 1).drop_last() =~= ts@.take(i as int));
            assert(ts@.take(i + 1).last() == ts[i as int]);
        }
        let x = match approx_inner(cx, ts[i], Ghost(rank)) {
            Some(x) => x,
            None => { return None; },
        };
        total = match total.checked_add(x) {
            Some(t) => t,
            None => { return None; },
        };
        i += 1;
    }
    assert(ts@.take(i as int) =~= ts@);
    Some(total)
}

#[verifier::loop_isolation(false)]
fn max_sizes(
    cx: &LateContext,
    ts: &Vec<TyId>,
    Ghost(rank): Ghost<Map<TyId, nat>>,
    Ghost(limit): Ghost<nat>,
) -> (r: Option<u64>)
    requires
        cx.tcx.wf(),
        certifies(&cx.tcx, cx.param_env.id, rank),
        parts_ranked(rank, ts@, limit),
    ensures
        r == fit(max_seq(cx, rank, ts@, limit)),
    decreases limit, 1nat, ts.len(),
{
    let mut best: u64 = 0;
    let mut i: usize = 0;
    while i < ts.len()
        invariant
            0 <= i <= ts.len(),
            best == max_seq(cx, rank, ts@.take(i as int), limit),
        decreases ts.len() - i,
    {
        proof {
            lemma_max_prefix(cx, rank, ts@, limit, i + 1);
            assert(ts@.take(i + 1).drop_last() =~= ts@.take(i as int));
            assert(ts@.take(i + 1).last() == ts[i as int]);
        }
        let x = match approx_inner(cx, ts[i], Ghost(rank)) {
            Some(x) => x,
            None => { return None; },
        };
        if x > best {
            best = x;
        }
        i += 1;
    }
    assert(ts@.take(i as int) =~= ts@);
    Some(best)
}

#[verifier::loop_isolation(false)]
fn max_of_sums(
    cx: &LateContext,
    vs: &Vec<Vec<TyId>>,
    Ghost(rank): Ghost<Map<TyId, nat>>,
    Ghost(limit): Ghost<nat>,
) -> (r: Option<u64>)
    requires
        cx.tcx.wf(),
        certifies(&cx.tcx, cx.param_env.id, rank),
        parts_ranked(rank, flat(vs@), limit),
    ensures
        r == fit(max_sums(cx, rank, vs@, limit)),
    decreases limit, 2nat, vs.len(),
{
    let mut best: u64 = 0;
    let mut i: usize = 0;
    while i < vs.len()
        invariant
            0 <= i <= vs.len(),
            best == max_sums(cx, rank, vs@.take(i as int), limit),
        decreases vs.len() - i,
    {
        proof {
            lemma_max_sums_prefix(cx, rank, vs@, limit, i + 1);
            assert(vs@.take(i + 1).drop_last() =~= vs@.take(i as int));
            assert(vs@.take(i + 1).last() == vs[i as int]);
            assert forall|f: int| 0 <= f < vs[i as int].len() implies rank.dom().contains(
                #[trigger] vs[i as int]@[f],
            ) && rank[vs[i as int]@[f]] < limit by {
                lemma_flat_contains(vs@, i as int, f);
                let k = choose|k: int| 0 <= k < flat(vs@).len() && flat(vs@)[k] == vs[i as int][f];
                assert(rank.dom().contains(flat(vs@)[k]));
            }
        }
        let x = match sum_sizes(cx, &vs[i], Ghost(rank), Ghost(limit)) {
            Some(x) => x,
            None => { return None; },
        };
        if x > best {
            best = x;
        }
        i += 1;
    }
    assert(vs@.take(i as int) =~= vs@);
    Some(best)
}

fn approx_inner(cx: &LateContext, ty: TyId, Ghost(rank): Ghost<Map<TyId, nat>>) -> (r: Option<u64>)
    requires
        cx.tcx.wf(),
        certifies(&cx.tcx, cx.param_env.id, rank),
        rank.dom().contains(ty),
    ensures
        r == fit(size_at(cx, rank, ty)),
    decreases rank[ty], 3nat, 0nat,
{
    let size = match cx.tcx.get_facts(cx.param_env.id, ty) {
        Some(f) => f.layout_size,
        None => None,
    };
    if let Some(s) = size {
        return Some(s);
    }
    let d = match cx.tcx.get(ty) {
        Some(d) => d,
        None => { return Some(0); },
    };
    proof {
        lemma_size_parts_ranked(cx, rank, ty);
    }
    match &d.kind {
        TyKind::Tuple(ts) => sum_sizes(cx, ts, Ghost(rank), Ghost(rank[ty])),
        TyKind::Array(t, n) => {
            let len: u64 = match n {
                Some(n) => *n,
                None => 0,
            };
            assert(size_parts(&cx.tcx, ty)[0] == *t);
            if len == 0 {
                Some(0)
            } else {
                assert(size_at(cx, rank, *t) <= len * size_at(cx, rank, *t)) by (nonlinear_arith)
                    requires
                        len >= 1,
                ;
                match approx_inner(cx, *t, Ghost(rank)) {
                    Some(x) => len.checked_mul(x),
                    None => None,
                }
            }
        },
        TyKind::Adt(did, _) => {
            let kind = match cx.tcx.get_def(*did) {
                Some(x) => match &x.adt {
                    Some(a) => Some(a.kind),
                    None => None,
                },
                None => None,
            };
            match kind {
                Some(AdtKind::Struct) => {
                    let fields = flatten_fields(&d.variant_fields);
                    sum_sizes(cx, &fields, Ghost(rank), Ghost(rank[ty]))
                },
                Some(AdtKind::Enum) => max_of_sums(
                    cx,
                    &d.variant_fields,
                    Ghost(rank),
                    Ghost(rank[ty]),
                ),
                Some(AdtKind::Union) => {
                    let fields = flatten_fields(&d.variant_fields);
                    max_sizes(cx, &fields, Ghost(rank), Ghost(rank[ty]))
                },
                None => Some(0),
            }
        },
        _ => Some(0),
    }
}

/// A ranking that shows `ty` to be normalizable, where there is one.
pub open spec fn witness(cx: &LateContext, ty: TyId) -> Map<TyId, nat> {
    choose|rank: Map<TyId, nat>| #[trigger]
        certifies(&cx.tcx, cx.param_env.id, rank) && rank.dom().contains(ty)
}

/// The estimate for `ty`: zero where `ty` is not normalizable.
pub open spec fn approx_size(cx: &LateContext, ty: TyId) -> nat {
    if normalizable(&cx.tcx, cx.param_env.id, ty) {
        size_at(cx, witness(cx, ty), ty)
    } else {
        0
    }
}

/// Comes up with an "at least" guesstimate for the type's size, not taking
/// into account the layout of type parameters; `None` where a sum or a
/// product on the way does not fit the result type.
pub fn try_approx_ty_size(cx: &LateContext, ty: TyId) -> (r: Option<u64>)
    requires
        cx.tcx.wf(),
    ensures
        r == fit(approx_size(cx, ty)),
{
    if !is_normalizable(cx, &cx.param_env, ty) {
        return Some(0);
    }
    approx_inner(cx, ty, Ghost(witness(cx, ty)))
}

/// Comes up with an "at least" guesstimate for the type's size, not taking
/// into account the layout of type parameters. The sums and products that
/// make up the estimate must fit the result type.
pub fn approx_ty_size(cx: &LateContext, ty: TyId) -> (r: u64)
    requires
        cx.tcx.wf(),
        approx_size(cx, ty) <= u64::MAX,
    ensures
        r == approx_size(cx, ty),
        !normalizable(&cx.tcx, cx.param_env.id, ty) ==> r == 0,
{
    try_approx_ty_size(cx, ty).unwrap()
}

/// The estimate of a type does not depend on the ranking that bounds the
/// descent.
pub proof fn lemma_size_rank_free(
    cx: &LateContext,
    r1: Map<TyId, nat>,
    r2: Map<TyId, nat>,
    ty: TyId,
)
    requires
        certifies(&cx.tcx, cx.param_env.id, r1),
        certifies(&cx.tcx, cx.param_env.id, r2),
        r1.dom().contains(ty),
        r2.dom().contains(ty),
    ensures
        size_at(cx, r1, ty) == size_at(cx, r2, ty),
    decreases r1[ty], 3nat, 0nat,
{
    lemma_size_parts_ranked(cx, r1, ty);
    lemma_size_parts_ranked(cx, r2, ty);
    if layout_size(cx, ty).is_none() {
        if let Some(d) = cx.tcx.ty_data(ty) {
            match d.kind {
                TyKind::Tuple(ts) => {
                    lemma_sum_rank_free(cx, r1, r2, ts@, r1[ty], r2[ty]);
                },
                TyKind::Array(t, _) => {
                    assert(size_parts(&cx.tcx, ty)[0] == t);
                    lemma_size_rank_free(cx, r1, r2, t);
                },
                TyKind::Adt(did, _) => {
                    match adt_kind(&cx.tcx, did) {
                        Some(AdtKind::Struct) => {
                            lemma_sum_rank_free(cx, r1, r2, flat(d.variant_fields@), r1[ty], r2[ty]);
                        },
                        Some(AdtKind::Enum) => {
                            lemma_max_sums_rank_free(cx, r1, r2, d.variant_fields@, r1[ty], r2[ty]);
                        },
                        Some(AdtKind::Union) => {
                            lemma_max_rank_free(cx, r1, r2, flat(d.variant_fields@), r1[ty], r2[ty]);
                        },
                        None => {},
                    }
                },
                _ => {},
            }
        }
    }
}

/// The sum of the estimates does not depend on the ranking.
pub proof fn lemma_sum_rank_free(
    cx: &LateContext,
    r1: Map<TyId, nat>,
    r2: Map<TyId, nat>,
    ts: Seq<TyId>,
    l1: nat,
    l2: nat,
)
    requires
        certifies(&cx.tcx, cx.param_env.id, r1),
        certifies(&cx.tcx, cx.param_env.id, r2),
        parts_ranked(r1, ts, l1),
        parts_ranked(r2, ts, l2),
    ensures
        sum_seq(cx, r1, ts, l1) == sum_seq(cx, r2, ts, l2),
    decreases l1, 1nat, ts.len(),
{
    if ts.len() > 0 {
        let init = ts.drop_last();
        assert forall|j: int| 0 <= j < init.len() implies r1.dom().contains(#[trigger] init[j])
            && r1[init[j]] < l1 && r2.dom().contains(init[j]) && r2[init[j]] < l2 by {
            assert(init[j] == ts[j]);
        }
        lemma_sum_rank_free(cx, r1, r2, init, l1, l2);
        assert(ts.last() == ts[ts.len() - 1]);
        lemma_size_rank_free(cx, r1, r2, ts.last());
    }
}

/// The largest of the estimates does not depend on the ranking.
pub proof fn lemma_max_rank_free(
    cx: &LateContext,
    r1: Map<TyId, nat>,
    r2: Map<TyId, nat>,
    ts: Seq<TyId>,
    l1: nat,
    l2: nat,
)
    requires
        certifies(&cx.tcx, cx.param_env.id, r1),
        certifies(&cx.tcx, cx.param_env.id, r2),
        parts_ranked(r1, ts, l1),
        parts_ranked(r2, ts, l2),
    ensures
        max_seq(cx, r1, ts, l1) == max_seq(cx, r2, ts, l2),
    decreases l1, 1nat, ts.len(),
{
    if ts.len() > 0 {
        let init = ts.drop_last();
        assert forall|j: int| 0 <= j < init.len() implies r1.dom().contains(#[trigger] init[j])
            && r1[init[j]] < l1 && r2.dom().contains(init[j]) && r2[init[j]] < l2 by {
            assert(init[j] == ts[j]);
        }
        lemma_max_rank_free(cx, r1, r2, init, l1, l2);
        assert(ts.last() == ts[ts.len() - 1]);
        lemma_size_rank_free(cx, r1, r2, ts.last());
    }
}

/// Where all fields of all of `vs` are ranked, so are those of all but the
/// last and those of the last.
pub proof fn lemma_flat_parts_ranked(rank: Map<TyId, nat>, vs: Seq<Vec<TyId>>, limit: nat)
    requires
        vs.len() > 0,
        parts_ranked(rank, flat(vs), limit),
    ensures
        parts_ranked(rank, flat(vs.drop_last()), limit),
        parts_ranked(rank, vs.last()@, limit),
{
    let init = flat(vs.drop_last());
    let last = vs.last()@;
    assert forall|j: int| 0 <= j < init.len() implies rank.dom().contains(#[trigger] init[j])
        && rank[init[j]] < limit by {
        assert(flat(vs)[j] == init[j]);
    }
    assert forall|j: int| 0 <= j < last.len() implies rank.dom().contains(#[trigger] last[j])
        && rank[last[j]] < limit by {
        assert(flat(vs)[init.len() + j] == last[j]);
    }
}

/// The largest of the sums does not depend on the ranking.
pub proof fn lemma_max_sums_rank_free(
    cx: &LateContext,
    r1: Map<TyId, nat>,
    r2: Map<TyId, nat>,
    vs: Seq<Vec<TyId>>,
    l1: nat,
    l2: nat,
)
    requires
        certifies(&cx.tcx, cx.param_env.id, r1),
        certifies(&cx.tcx, cx.param_env.id, r2),
        parts_ranked(r1, flat(vs), l1),
        parts_ranked(r2, flat(vs), l2),
    ensures
        max_sums(cx, r1, vs, l1) == max_sums(cx, r2, vs, l2),
    decreases l1, 2nat, vs.len(),
{
    if vs.len() > 0 {
        lemma_flat_parts_ranked(r1, vs, l1);
        lemma_flat_parts_ranked(r2, vs, l2);
        lemma_max_sums_rank_free(cx, r1, r2, vs.drop_last(), l1, l2);
        lemma_sum_rank_free(cx, r1, r2, vs.last()@, l1, l2);
    }
}

/// The sum of the estimates of `ts`.
pub open spec fn total_size(cx: &LateContext, ts: Seq<TyId>) -> nat
    decreases ts.len(),
{
    if ts.len() == 0 {
        0
    } else {
        total_size(cx, ts.drop_last()) + approx_size(cx, ts.last())
    }
}

/// The largest of the sums of the estimates of each of `vs`; zero for none.
pub open spec fn largest_total(cx: &LateContext, vs: Seq<Vec<TyId>>) -> nat
    decreases vs.len(),
{
    if vs.len() == 0 {
        0
    } else {
        let rest = largest_total(cx, vs.drop_last());
        let x = total_size(cx, vs.last()@);
        if x > rest {
            x
        } else {
            rest
        }
    }
}

/// Under a ranking the estimate of a ranked type is its estimate.
pub proof fn lemma_size_at_is_approx_size(cx: &LateContext, rank: Map<TyId, nat>, ty: TyId)
    requires
        certifies(&cx.tcx, cx.param_env.id, rank),
        rank.dom().contains(ty),
    ensures
        normalizable(&cx.tcx, cx.param_env.id, ty),
        size_at(cx, rank, ty) == approx_size(cx, ty),
{
    lemma_size_rank_free(cx, rank, witness(cx, ty), ty);
}

/// Under a ranking the sum of the estimates of ranked types is the sum of
/// their estimates.
pub proof fn lemma_sum_is_total(cx: &LateContext, rank: Map<TyId, nat>, ts: Seq<TyId>, limit: nat)
    requires
        certifies(&cx.tcx, cx.param_env.id, rank),
        parts_ranked(rank, ts, limit),
    ensures
        sum_seq(cx, rank, ts, limit) == total_size(cx, ts),
    decreases ts.len(),
{
    if ts.len() > 0 {
        let init = ts.drop_last();
        assert forall|j: int| 0 <= j < init.len() implies rank.dom().contains(#[trigger] init[j])
            && rank[init[j]] < limit by {
            assert(init[j] == ts[j]);
        }
        lemma_sum_is_total(cx, rank, init, limit);
        assert(ts.last() == ts[ts.len() - 1]);
        lemma_size_at_is_approx_size(cx, rank, ts.last());
    }
}

/// Under a ranking the largest sum over ranked types is the largest of the
/// sums of their estimates.
pub proof fn lemma_max_sums_is_largest_total(
    cx: &LateContext,
    rank: Map<TyId, nat>,
    vs: Seq<Vec<TyId>>,
    limit: nat,
)
    requires
        certifies(&cx.tcx, cx.param_env.id, rank),
        parts_ranked(rank, flat(vs), limit),
    ensures
        max_sums(cx, rank, vs, limit) == largest_total(cx, vs),
    decreases vs.len(),
{
    if vs.len() > 0 {
        lemma_flat_parts_ranked(rank, vs, limit);
        lemma_max_sums_is_largest_total(cx, rank, vs.drop_last(), limit);
        lemma_sum_is_total(cx, rank, vs.last()@, limit);
    }
}

/// Where layout computation gives a size for a normalizable type, that
/// size is the estimate.
pub proof fn lemma_layout_size_is_estimate(cx: &LateContext, ty: TyId, size: u64)
    requires
        normalizable(&cx.tcx, cx.param_env.id, ty),
        layout_size(cx, ty) == Some(size),
    ensures
        approx_size(cx, ty) == size,
{
}

/// The estimate of a normalizable struct without a layout is the sum of
/// the estimates of its fields.
pub proof fn lemma_struct_size_is_sum_of_fields(cx: &LateContext, ty: TyId)
    requires
        normalizable(&cx.tcx, cx.param_env.id, ty),
        layout_size(cx, ty).is_none(),
        cx.tcx.kind(ty) matches Some(TyKind::Adt(did, _)) && adt_kind(&cx.tcx, did) == Some(
            AdtKind::Struct,
        ),
    ensures
        approx_size(cx, ty) == total_size(cx, flat(cx.tcx.types[ty as int].variant_fields@)),
{
    let rank = witness(cx, ty);
    lemma_size_parts_ranked(cx, rank, ty);
    lemma_sum_is_total(cx, rank, flat(cx.tcx.types[ty as int].variant_fields@), rank[ty]);
}

/// The estimate of a normalizable tuple without a layout is the sum of the
/// estimates of its fields.
pub proof fn lemma_tuple_size_is_sum_of_fields(cx: &LateContext, ty: TyId, fields: Seq<TyId>)
    requires
        normalizable(&cx.tcx, cx.param_env.id, ty),
        layout_size(cx, ty).is_none(),
        cx.tcx.kind(ty) matches Some(TyKind::Tuple(ts)) && ts@ == fields,
    ensures
        approx_size(cx, ty) == total_size(cx, fields),
{
    let rank = witness(cx, ty);
    lemma_size_parts_ranked(cx, rank, ty);
    lemma_sum_is_total(cx, rank, fields, rank[ty]);
}

/// The estimate of a normalizable enum without a layout is the largest of
/// the sums of the estimates of the fields of each variant.
pub proof fn lemma_enum_size_is_largest_variant(cx: &LateContext, ty: TyId)
    requires
        normalizable(&cx.tcx, cx.param_env.id, ty),
        layout_size(cx, ty).is_none(),
        cx.tcx.kind(ty) matches Some(TyKind::Adt(did, _)) && adt_kind(&cx.tcx, did) == Some(
            AdtKind::Enum,
        ),
    ensures
        approx_size(cx, ty) == largest_total(cx, cx.tcx.types[ty as int].variant_fields@),
{
    let rank = witness(cx, ty);
    lemma_size_parts_ranked(cx, rank, ty);
    lemma_max_sums_is_largest_total(cx, rank, cx.tcx.types[ty as int].variant_fields@, rank[ty]);
}

/// The estimate of a type that is not normalizable is zero.
pub proof fn lemma_not_normalizable_size_is_zero(cx: &LateContext, ty: TyId)
    requires
        !normalizable(&cx.tcx, cx.param_env.id, ty),
    ensures
        approx_size(cx, ty) == 0,
{
}

} // verus!
