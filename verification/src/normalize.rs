//! Whether a type can be normalized in all depth, so that a layout can be
//! asked for without a fault.

use vstd::prelude::*;
use crate::context::{LateContext, TyCtxt};
use crate::model::{ParamEnv, TyId, TyKind};
use crate::fx::{map_contents, map_get, map_insert, map_new, SeenMap};
use crate::visited::{
    flat, flatten_fields, lemma_count_true_bound, lemma_new_mark, lemma_no_marks, Marks,
};
use crate::walk::{proper_descendants, walk};

verus! {

/// Whether normalizing `ty` itself succeeds in the environment `env`.
pub open spec fn normalizes(tcx: &TyCtxt, env: usize, ty: TyId) -> bool {
    match tcx.facts(env, ty) {
        Some(f) => f.normalizes,
        None => false,
    }
}

/// The types that must be normalizable for `ty` to be: the fields of an
/// algebraic type, and for any other type everything it is built from.
pub open spec fn norm_parts(tcx: &TyCtxt, ty: TyId) -> Seq<TyId> {
    match tcx.ty_data(ty) {
        Some(d) => match d.kind {
            TyKind::Adt(_, _) => flat(d.variant_fields@),
            _ => proper_descendants(tcx, ty),
        },
        None => Seq::empty(),
    }
}

/// Whether `rank` certifies its types: each of them normalizes, and its
/// parts are among them with a lower rank.
pub open spec fn certifies(tcx: &TyCtxt, env: usize, rank: Map<TyId, nat>) -> bool {
    forall|t: TyId| #[trigger]
        rank.dom().contains(t) ==> normalizes(tcx, env, t) && forall|j: int|
            0 <= j < norm_parts(tcx, t).len() ==> rank.dom().contains(
                #[trigger] norm_parts(tcx, t)[j],
            ) && rank[norm_parts(tcx, t)[j]] < rank[t]
}

/// Whether `ty` is normalizable: `ty` and all that it is made of, in all
/// depth, normalize, and none of them is made of itself. This is so exactly
/// when the types can be ranked with every part below its whole.
pub open spec fn normalizable(tcx: &TyCtxt, env: usize, ty: TyId) -> bool {
    exists|rank: Map<TyId, nat>| #[trigger]
        certifies(tcx, env, rank) && rank.dom().contains(ty)
}

/// What is known while a type is looked at: a hash map from the types
/// that have been entered to whether they were found normalizable. `known`
/// says which types the map knows, `good` which of them it holds to be
/// normalizable; a type in `known` alone was found not to be, or is still
/// being looked at.
pub struct NormCache {
    pub map: SeenMap,
    pub known: Ghost<Marks>,
    pub good: Ghost<Marks>,
}

impl NormCache {
    /// Whether the map holds what the marks say.
    pub open spec fn wf(&self) -> bool {
        &&& forall|t: TyId| map_contents(self.map).dom().contains(t) <==> self.known@.contains(t)
        &&& forall|t: TyId|
            self.known@.contains(t) ==> map_contents(self.map)[t] == self.good@.contains(t)
    }

    /// A cache that knows nothing of the first `n` types.
    pub fn new(n: usize) -> (r: Self)
        ensures
            r.wf(),
            r.known@ == Marks::none(n as nat),
            r.good@ == Marks::none(n as nat),
    {
        proof {
            lemma_no_marks(n as nat);
        }
        NormCache {
            map: map_new(),
            known: Ghost(Marks::none(n as nat)),
            good: Ghost(Marks::none(n as nat)),
        }
    }

    /// What the cache knows of `t`.
    pub fn get(&self, t: TyId) -> (r: Option<bool>)
        requires
            self.wf(),
        ensures
            r == if self.known@.contains(t) {
                Some(self.good@.contains(t))
            } else {
                None
            },
    {
        map_get(&self.map, t)
    }

    /// Enters a type that the cache does not know yet, as one that is not
    /// found normalizable so far.
    pub fn enter(&mut self, t: TyId)
        requires
            old(self).wf(),
            t < old(self).known@.bits.len(),
            !old(self).known@.contains(t),
            !old(self).good@.contains(t),
        ensures
            final(self).wf(),
            final(self).known@ == old(self).known@.with(t),
            final(self).good@ == old(self).good@,
            final(self).known@.count() == old(self).known@.count() + 1,
            final(self).known@.count() <= final(self).known@.bits.len(),
            old(self).known@.subset_of(final(self).known@),
            final(self).known@.contains(t),
    {
        map_insert(&mut self.map, t, false);
        proof {
            lemma_new_mark(self.known@, t);
        }
        self.known = Ghost(self.known@.with(t));
        assert forall|u: TyId|
            map_contents(self.map).dom().contains(u) <==> self.known@.contains(u) by {
            assert(map_contents(old(self).map).dom().contains(u) <==> old(self).known@.contains(u));
        }
        assert forall|u: TyId| self.known@.contains(u) implies map_contents(self.map)[u]
            == self.good@.contains(u) by {
            if u != t {
                assert(old(self).known@.contains(u));
            }
        }
    }

    /// Records that a type that the cache knows was found normalizable.
    pub fn settle(&mut self, t: TyId)
        requires
            old(self).wf(),
            t < old(self).good@.bits.len(),
            old(self).known@.contains(t),
        ensures
            final(self).wf(),
            final(self).good@ == old(self).good@.with(t),
            final(self).known@ == old(self).known@,
            old(self).good@.subset_of(final(self).good@),
            final(self).good@.contains(t),
    {
        map_insert(&mut self.map, t, true);
        self.good = Ghost(self.good@.with(t));
        assert forall|u: TyId|
            map_contents(self.map).dom().contains(u) <==> self.known@.contains(u) by {
            assert(map_contents(old(self).map).dom().contains(u) <==> old(self).known@.contains(u));
        }
        assert forall|u: TyId| self.known@.contains(u) implies map_contents(self.map)[u]
            == self.good@.contains(u) by {
            if u != t {
                assert(old(self).known@.contains(u));
            }
        }
    }
}

/// Whether each type of `p` but the last has the next as a part.
pub open spec fn is_part_path(tcx: &TyCtxt, p: Seq<TyId>) -> bool {
    forall|i: int| 0 <= i < p.len() - 1 ==> norm_parts(tcx, #[trigger] p[i]).contains(p[i + 1])
}

/// Along a path of parts that starts inside a certificate, the ranks fall.
pub proof fn lemma_rank_falls(
    tcx: &TyCtxt,
    env: usize,
    rank: Map<TyId, nat>,
    p: Seq<TyId>,
    i: int,
    j: int,
)
    requires
        certifies(tcx, env, rank),
        is_part_path(tcx, p),
        0 <= i <= j < p.len(),
        rank.dom().contains(p[i]),
    ensures
        rank.dom().contains(p[j]),
        rank[p[j]] <= rank[p[i]],
    decreases j - i,
{
    if i < j {
        lemma_rank_falls(tcx, env, rank, p, i, j - 1);
        let t = p[j - 1];
        assert(rank.dom().contains(t));
        assert(norm_parts(tcx, t).contains(p[j]));
        let k = choose|k: int| 0 <= k < norm_parts(tcx, t).len() && norm_parts(tcx, t)[k] == p[j];
        assert(rank.dom().contains(norm_parts(tcx, t)[k]));
    }
}

/// Along a path of parts of at least one step the rank falls strictly.
pub proof fn lemma_rank_falls_strictly(
    tcx: &TyCtxt,
    env: usize,
    rank: Map<TyId, nat>,
    p: Seq<TyId>,
    i: int,
    j: int,
)
    requires
        certifies(tcx, env, rank),
        is_part_path(tcx, p),
        0 <= i < j < p.len(),
        rank.dom().contains(p[i]),
    ensures
        rank.dom().contains(p[j]),
        rank[p[j]] < rank[p[i]],
{
    lemma_rank_falls(tcx, env, rank, p, i, j - 1);
    let t = p[j - 1];
    assert(norm_parts(tcx, t).contains(p[j]));
    let k = choose|k: int| 0 <= k < norm_parts(tcx, t).len() && norm_parts(tcx, t)[k] == p[j];
    assert(rank.dom().contains(norm_parts(tcx, t)[k]));
}

/// A type from which, going from a type to its parts, some type can be
/// reached that is made of itself is not normalizable.
pub proof fn lemma_cycle_is_not_normalizable(
    tcx: &TyCtxt,
    env: usize,
    p: Seq<TyId>,
    i: int,
    j: int,
)
    requires
        is_part_path(tcx, p),
        0 <= i < j < p.len(),
        p[i] == p[j],
    ensures
        !normalizable(tcx, env, p[0]),
{
    if normalizable(tcx, env, p[0]) {
        let rank = choose|rank: Map<TyId, nat>| #[trigger]
            certifies(tcx, env, rank) && rank.dom().contains(p[0]);
        lemma_rank_falls(tcx, env, rank, p, 0, i);
        lemma_rank_falls_strictly(tcx, env, rank, p, i, j);
    }
}

/// A type that does not normalize is not normalizable, nor is a type that
/// has a part that is not.
pub proof fn lemma_normalizable_needs_parts(tcx: &TyCtxt, env: usize, ty: TyId, j: int)
    requires
        normalizable(tcx, env, ty),
        0 <= j < norm_parts(tcx, ty).len(),
    ensures
        normalizes(tcx, env, ty),
        normalizable(tcx, env, norm_parts(tcx, ty)[j]),
{
    let rank = choose|rank: Map<TyId, nat>| #[trigger]
        certifies(tcx, env, rank) && rank.dom().contains(ty);
    assert(rank.dom().contains(norm_parts(tcx, ty)[j]));
}

/// The types that are checked for `ty`.
fn norm_parts_of(tcx: &TyCtxt, ty: TyId) -> (r: Vec<TyId>)
    requires
        tcx.wf(),
    ensures
        r@ == norm_parts(tcx, ty),
{
    match tcx.get(ty) {
        Some(d) => match &d.kind {
            TyKind::Adt(_, _) => flatten_fields(&d.variant_fields),
            _ => walk(tcx, ty),
        },
        None => {
            let v: Vec<TyId> = Vec::new();
            assert(v@ =~= Seq::empty());
            v
        },
    }
}

/// Whether the cache and the ghost ranking fit together.
pub open spec fn cache_fits(
    tcx: &TyCtxt,
    env: usize,
    cache: &NormCache,
    rank: Map<TyId, nat>,
    bound: nat,
) -> bool {
    &&& cache.wf()
    &&& cache.known@.bits.len() == tcx.types.len()
    &&& cache.good@.bits.len() == tcx.types.len()
    &&& forall|t: TyId| cache.good@.contains(t) ==> cache.known@.contains(t)
    &&& forall|t: TyId| cache.good@.contains(t) <==> rank.dom().contains(t)
    &&& forall|t: TyId| rank.dom().contains(t) ==> rank[t] < bound
    &&& certifies(tcx, env, rank)
}

/// Checks if `ty` is normalizable, with a cache of what was found before.
/// A type that the cache knows has the cached answer, and the cache stays as
/// it is. A type that it does not know is entered as not normalizable, so
/// that meeting it again on the way down gives `false`, and is recorded as
/// normalizable at the end if it normalizes and all its parts are found
/// normalizable. Types are only ever added to the cache, and what it held
/// of a type keeps its value. The ghost arguments carry the ranking of the
/// types found normalizable so far and the types that are being looked at.
#[verifier::loop_isolation(false)]
fn is_normalizable_helper(
    tcx: &TyCtxt,
    param_env: &ParamEnv,
    ty: TyId,
    cache: &mut NormCache,
    Ghost(rank): Ghost<Map<TyId, nat>>,
    Ghost(bound): Ghost<nat>,
    Ghost(stack): Ghost<Seq<TyId>>,
) -> (r: (bool, Ghost<Map<TyId, nat>>, Ghost<nat>))
    requires
        tcx.wf(),
        ty < tcx.types.len(),
        cache_fits(tcx, param_env.id, old(cache), rank, bound),
        forall|t: TyId|
            old(cache).known@.contains(t) && !old(cache).good@.contains(t) ==> stack.contains(t),
        is_part_path(tcx, stack),
        stack.len() > 0 ==> norm_parts(tcx, stack.last()).contains(ty),
    ensures
        final(cache).wf(),
        final(cache).known@.bits.len() == tcx.types.len(),
        final(cache).good@.bits.len() == tcx.types.len(),
        old(cache).known@.count() <= final(cache).known@.count(),
        old(cache).known@.subset_of(final(cache).known@),
        old(cache).good@.subset_of(final(cache).good@),
        final(cache).known@.contains(ty),
        forall|t: TyId| final(cache).good@.contains(t) ==> final(cache).known@.contains(t),
        forall|t: TyId|
            old(cache).known@.contains(t) ==> final(cache).good@.contains(t) == old(
                cache,
            ).good@.contains(t),
        old(cache).known@.contains(ty) ==> *final(cache) == *old(cache) && r.0 == old(
            cache,
        ).good@.contains(ty),
        !old(cache).known@.contains(ty) ==> final(cache).good@.contains(ty) == r.0,
        r.0 ==> {
            &&& cache_fits(tcx, param_env.id, final(cache), r.1@, r.2@)
            &&& final(cache).good@.contains(ty)
            &&& old(cache).known@.subset_of(final(cache).known@)
            &&& forall|t: TyId|
                rank.dom().contains(t) ==> r.1@.dom().contains(t) && r.1@[t] == rank[t]
            &&& forall|t: TyId|
                (final(cache).known@.contains(t) && !final(cache).good@.contains(t)) <==> (old(
                    cache,
                ).known@.contains(t) && !old(cache).good@.contains(t))
        },
        !r.0 ==> !normalizable(tcx, param_env.id, ty),
    decreases old(cache).known@.bits.len() - old(cache).known@.count(),
{
    let env = param_env.id;
    if let Some(cached) = cache.get(ty) {
        proof {
            if !cached {
                assert forall|c: Map<TyId, nat>| #[trigger]
                    certifies(tcx, env, c) implies !c.dom().contains(ty) by {
                    if c.dom().contains(ty) {
                        assert(old(cache).known@.contains(ty) && !old(cache).good@.contains(ty));
                        assert(stack.contains(ty));
                        let i = choose|i: int| 0 <= i < stack.len() && stack[i] == ty;
                        lemma_rank_falls(tcx, env, c, stack, i, stack.len() - 1);
                        let last = stack.last();
                        let k = choose|k: int|
                            0 <= k < norm_parts(tcx, last).len() && norm_parts(tcx, last)[k] == ty;
                        assert(c.dom().contains(last));
                        assert(c[norm_parts(tcx, last)[k]] < c[last]);
                    }
                }
            }
        }
        return (cached, Ghost(rank), Ghost(bound));
    }
    cache.enter(ty);
    let ok = match tcx.get_facts(env, ty) {
        Some(f) => f.normalizes,
        None => false,
    };
    if !ok {
        return (false, Ghost(rank), Ghost(bound));
    }
    let parts = norm_parts_of(tcx, ty);
    let ghost inner_stack = stack.push(ty);
    let ghost mut cur = rank;
    let ghost mut top = bound;
    proof {
        assert forall|i: int| 0 <= i < inner_stack.len() - 1 implies norm_parts(
            tcx,
            #[trigger] inner_stack[i],
        ).contains(inner_stack[i + 1]) by {
            if i < stack.len() - 1 {
                assert(norm_parts(tcx, stack[i]).contains(stack[i + 1]));
            }
        }
        assert forall|t: TyId|
            cache.known@.contains(t) && !cache.good@.contains(t) implies inner_stack.contains(
            t,
        ) by {
            if t == ty {
                assert(inner_stack[stack.len() as int] == ty);
            } else {
                assert(old(cache).known@.contains(t) && !old(cache).good@.contains(t));
                assert(stack.contains(t));
                let i = choose|i: int| 0 <= i < stack.len() && stack[i] == t;
                assert(inner_stack[i] == t);
            }
        }
    }
    let mut k: usize = 0;
    while k < parts.len()
        invariant
            0 <= k <= parts.len(),
            cache_fits(tcx, env, cache, cur, top),
            old(cache).known@.subset_of(cache.known@),
            old(cache).good@.subset_of(cache.good@),
            cache.known@.count() > old(cache).known@.count(),
            forall|t: TyId| rank.dom().contains(t) ==> cur.dom().contains(t) && cur[t] == rank[t],
            forall|t: TyId|
                (cache.known@.contains(t) && !cache.good@.contains(t)) <==> ((old(
                    cache,
                ).known@.contains(t) && !old(cache).good@.contains(t)) || t == ty),
            forall|j: int| 0 <= j < k ==> cur.dom().contains(#[trigger] parts[j]),
        decreases parts.len() - k,
    {
        proof {
            lemma_count_true_bound(cache.known@.bits);
            assert(norm_parts(tcx, inner_stack.last())[k as int] == parts[k as int]);
        }
        if parts[k] >= tcx.types.len() {
            proof {
                assert forall|c: Map<TyId, nat>| #[trigger]
                    certifies(tcx, env, c) implies !c.dom().contains(ty) by {
                    if c.dom().contains(ty) {
                        assert(c.dom().contains(norm_parts(tcx, ty)[k as int]));
                    }
                }
            }
            return (false, Ghost(rank), Ghost(bound));
        }
        let ghost before = *cache;
        let (found, Ghost(next), Ghost(next_top)) = is_normalizable_helper(
            tcx,
            param_env,
            parts[k],
            cache,
            Ghost(cur),
            Ghost(top),
            Ghost(inner_stack),
        );
        if !found {
            proof {
                assert forall|c: Map<TyId, nat>| #[trigger]
                    certifies(tcx, env, c) implies !c.dom().contains(ty) by {
                    if c.dom().contains(ty) {
                        assert(c.dom().contains(norm_parts(tcx, ty)[k as int]));
                    }
                }
            }
            return (false, Ghost(rank), Ghost(bound));
        }
        proof {
            cur = next;
            top = next_top;
        }
        k += 1;
    }
    cache.settle(ty);
    let ghost done = cur.insert(ty, top);
    proof {
        assert(!cur.dom().contains(ty));
        assert forall|t: TyId| #[trigger] done.dom().contains(t) implies normalizes(tcx, env, t)
            && forall|j: int|
            0 <= j < norm_parts(tcx, t).len() ==> done.dom().contains(
                #[trigger] norm_parts(tcx, t)[j],
            ) && done[norm_parts(tcx, t)[j]] < done[t] by {
            if t == ty {
                assert forall|j: int| 0 <= j < norm_parts(tcx, t).len() implies done.dom().contains(
                    #[trigger] norm_parts(tcx, t)[j],
                ) && done[norm_parts(tcx, t)[j]] < done[t] by {
                    assert(cur.dom().contains(parts[j]));
                }
            } else {
                assert(cur.dom().contains(t));
                assert forall|j: int| 0 <= j < norm_parts(tcx, t).len() implies done.dom().contains(
                    #[trigger] norm_parts(tcx, t)[j],
                ) && done[norm_parts(tcx, t)[j]] < done[t] by {
                    assert(cur.dom().contains(norm_parts(tcx, t)[j]));
                }
            }
        }
    }
    (true, Ghost(done), Ghost(top + 1))
}

/// Checks if a type is normalizable. This function is useful to avoid
/// faults when a layout is asked for.
pub fn is_normalizable(cx: &LateContext, param_env: &ParamEnv, ty: TyId) -> (r: bool)
    requires
        cx.tcx.wf(),
    ensures
        r == normalizable(&cx.tcx, param_env.id, ty),
{
    let n = cx.tcx.types.len();
    if ty >= n {
        return false;
    }
    let mut cache = NormCache::new(n);
    let ghost empty: Map<TyId, nat> = Map::empty();
    let (r, Ghost(rank), Ghost(_top)) = is_normalizable_helper(
        &cx.tcx,
        param_env,
        ty,
        &mut cache,
        Ghost(empty),
        Ghost(0),
        Ghost(Seq::empty()),
    );
    proof {
        if r {
            assert(certifies(&cx.tcx, param_env.id, rank) && rank.dom().contains(ty));
        }
    }
    r
}

} // verus!
