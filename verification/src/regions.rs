//! The late-bound regions of a type that are bound outside the type.

use vstd::prelude::*;

verus! {

/// A bound region, by its place in the list of those that a visit met.
pub type BoundRegionId = usize;

/// A region as far as the binder that it belongs to goes.
#[derive(Clone, Copy, Debug, PartialEq, Eq, Structural)]
pub enum RegionKind {
    /// Bound by the binder that is this many binders out from where the
    /// region stands.
    LateBound(u32, BoundRegionId),
    Other,
}

/// What a visit of a type meets, in the order of the visit.
#[derive(Clone, Copy, Debug, PartialEq, Eq, Structural)]
pub enum VisitEvent {
    EnterBinder,
    LeaveBinder,
    Region(RegionKind),
}

/// The number of binders that are open after `events`.
pub open spec fn depth(events: Seq<VisitEvent>) -> int
    decreases events.len(),
{
    if events.len() == 0 {
        0
    } else {
        depth(events.drop_last()) + match events.last() {
            VisitEvent::EnterBinder => 1int,
            VisitEvent::LeaveBinder => -1int,
            VisitEvent::Region(_) => 0int,
        }
    }
}

/// Whether no binder is left that was not entered, and the binders that are
/// open can be counted, at every point of the visit.
pub open spec fn well_nested(events: Seq<VisitEvent>) -> bool {
    forall|i: int| 0 <= i <= events.len() ==> 0 <= #[trigger] depth(events.take(i)) <= u32::MAX
}

/// The region that the event at `i` shows to be bound outside the type: a
/// late-bound region whose binder lies as many binders out as are open
/// there.
pub open spec fn top_level_at(events: Seq<VisitEvent>, i: int) -> Option<BoundRegionId>
    recommends
        0 <= i < events.len(),
{
    match events[i] {
        VisitEvent::Region(RegionKind::LateBound(idx, bound)) => if idx == depth(events.take(i)) {
            Some(bound)
        } else {
            None
        },
        _ => None,
    }
}

/// The regions bound outside the type among the first `n` events, in the
/// order of the visit.
pub open spec fn top_level_before(events: Seq<VisitEvent>, n: int) -> Seq<BoundRegionId>
    recommends
        0 <= n <= events.len(),
    decreases n,
{
    if n <= 0 {
        Seq::empty()
    } else {
        match top_level_at(events, n - 1) {
            Some(bound) => top_level_before(events, n - 1).push(bound),
            None => top_level_before(events, n - 1),
        }
    }
}

/// The regions bound outside the type, in the order of the visit.
pub open spec fn top_level_regions(events: Seq<VisitEvent>) -> Seq<BoundRegionId> {
    top_level_before(events, events.len() as int)
}

/// Whether the events are well nested.
pub fn is_well_nested(events: &[VisitEvent]) -> (r: bool)
    ensures
        r == well_nested(events@),
{
    let mut index: u32 = 0;
    let mut i: usize = 0;
    assert(events@.take(0) =~= Seq::empty());
    while i < events.len()
        invariant
            0 <= i <= events.len(),
            index == depth(events@.take(i as int)),
            forall|k: int| 0 <= k <= i ==> 0 <= #[trigger] depth(events@.take(k)) <= u32::MAX,
        decreases events.len() - i,
    {
        assert(events@.take(i + 1).drop_last() =~= events@.take(i as int));
        match events[i] {
            VisitEvent::EnterBinder => {
                if index == u32::MAX {
                    assert(depth(events@.take(i + 1)) > u32::MAX);
                    return false;
                }
                index += 1;
            },
            VisitEvent::LeaveBinder => {
                if index == 0 {
                    assert(depth(events@.take(i + 1)) < 0);
                    return false;
                }
                index -= 1;
            },
            VisitEvent::Region(_) => {},
        }
        i += 1;
    }
    true
}

/// Gives each late-bound region of a visited type that is bound outside
/// the type, in the order of the visit.
pub fn for_each_top_level_late_bound_region(events: &[VisitEvent]) -> (r: Vec<BoundRegionId>)
    requires
        well_nested(events@),
    ensures
        r@ == top_level_regions(events@),
{
    let mut out: Vec<BoundRegionId> = Vec::new();
    let mut index: u32 = 0;
    let mut i: usize = 0;
    assert(events@.take(0) =~= Seq::empty());
    while i < events.len()
        invariant
            0 <= i <= events.len(),
            well_nested(events@),
            index == depth(events@.take(i as int)),
            out@ == top_level_before(events@, i as int),
        decreases events.len() - i,
    {
        assert(events@.take(i + 1).drop_last() =~= events@.take(i as int));
        assert(0 <= depth(events@.take(i + 1)) <= u32::MAX);
        match events[i] {
            VisitEvent::EnterBinder => {
                index += 1;
            },
            VisitEvent::LeaveBinder => {
                index -= 1;
            },
            VisitEvent::Region(r) => {
                if let RegionKind::LateBound(idx, bound) = r {
                    if idx == index {
                        out.push(bound);
                    }
                }
            },
        }
        i += 1;
    }
    out
}

/// A region whose binder lies inside the type is not given, one whose
/// binder lies outside is.
pub proof fn lemma_top_level_region_is_given(events: Seq<VisitEvent>, i: int, bound: BoundRegionId)
    requires
        0 <= i < events.len(),
        top_level_at(events, i) == Some(bound),
    ensures
        top_level_regions(events).contains(bound),
{
    lemma_given_before(events, i, events.len() as int);
}

/// A region bound outside the type that a visit has met stays among those
/// given as the visit goes on.
pub proof fn lemma_given_before(events: Seq<VisitEvent>, i: int, n: int)
    requires
        0 <= i < n <= events.len(),
        top_level_at(events, i).is_some(),
    ensures
        top_level_before(events, n).contains(top_level_at(events, i).unwrap()),
    decreases n,
{
    let bound = top_level_at(events, i).unwrap();
    let now = top_level_before(events, n);
    if i == n - 1 {
        assert(now[now.len() - 1] == bound);
    } else {
        lemma_given_before(events, i, n - 1);
        let earlier = top_level_before(events, n - 1);
        let k = choose|k: int| 0 <= k < earlier.len() && earlier[k] == bound;
        assert(now[k] == bound);
    }
}

} // verus!
