//! A set of types of one context, for traversals that must not visit a type
//! twice.

use vstd::prelude::*;
use crate::fx::{set_contents, set_insert, set_new, SeenSet};
use crate::model::{arg_ty, somes, GenericArg, TyId};

verus! {

/// The number of `true` entries of `s`.
pub open spec fn count_true(s: Seq<bool>) -> nat
    decreases s.len(),
{
    if s.len() == 0 {
        0
    } else {
        count_true(s.drop_last()) + if s.last() {
            1nat
        } else {
            0nat
        }
    }
}

pub proof fn lemma_count_true_bound(s: Seq<bool>)
    ensures
        count_true(s) <= s.len(),
    decreases s.len(),
{
    if s.len() > 0 {
        lemma_count_true_bound(s.drop_last());
    }
}

pub proof fn lemma_count_true_update(s: Seq<bool>, i: int)
    requires
        0 <= i < s.len(),
        !s[i],
    ensures
        count_true(s.update(i, true)) == count_true(s) + 1,
    decreases s.len(),
{
    let u = s.update(i, true);
    if i == s.len() - 1 {
        assert(u.drop_last() =~= s.drop_last());
    } else {
        lemma_count_true_update(s.drop_last(), i);
        assert(u.drop_last() =~= s.drop_last().update(i, true));
    }
}

/// Marks on the first `bits.len()` types of a context: what a traversal
/// has seen, as a value to reason with.
pub struct Marks {
    pub bits: Seq<bool>,
}

impl Marks {
    pub open spec fn contains(self, t: TyId) -> bool {
        t < self.bits.len() && self.bits[t as int]
    }

    /// The number of types that are marked.
    pub open spec fn count(self) -> nat {
        count_true(self.bits)
    }

    /// Whether every type marked here is marked in `other`, which is about
    /// as many types.
    pub open spec fn subset_of(self, other: Marks) -> bool {
        self.bits.len() == other.bits.len() && forall|t: TyId|
            self.contains(t) ==> other.contains(t)
    }

    /// The marks with `t` marked too.
    pub open spec fn with(self, t: TyId) -> Marks {
        Marks { bits: self.bits.update(t as int, true) }
    }

    /// No type marked among the first `n`.
    pub open spec fn none(n: nat) -> Marks {
        Marks { bits: Seq::new(n, |i: int| false) }
    }
}

/// Without marks nothing is counted.
pub proof fn lemma_no_marks(n: nat)
    ensures
        Marks::none(n).count() == 0,
        Marks::none(n).bits.len() == n,
        forall|t: TyId| !Marks::none(n).contains(t),
    decreases n,
{
    if n > 0 {
        lemma_no_marks((n - 1) as nat);
        assert(Marks::none(n).bits.drop_last() =~= Marks::none((n - 1) as nat).bits);
    }
}

/// A new mark is one more, and there are never more marks than types.
pub proof fn lemma_new_mark(m: Marks, t: TyId)
    requires
        t < m.bits.len(),
        !m.contains(t),
    ensures
        m.with(t).count() == m.count() + 1,
        m.with(t).count() <= m.bits.len(),
        m.subset_of(m.with(t)),
        m.with(t).contains(t),
{
    lemma_count_true_update(m.bits, t as int);
    lemma_count_true_bound(m.with(t).bits);
}

/// A set of types among the first types of a context. The set itself is a
/// hash set; `marks` says what it holds.
pub struct TySet {
    pub set: SeenSet,
    pub marks: Ghost<Marks>,
}

impl TySet {
    /// Whether the set holds what the marks say.
    pub open spec fn wf(&self) -> bool {
        forall|t: TyId| set_contents(self.set).contains(t) <==> self.marks@.contains(t)
    }

    pub open spec fn contains(&self, t: TyId) -> bool {
        self.marks@.contains(t)
    }

    /// The number of types in the set.
    pub open spec fn count(&self) -> nat {
        self.marks@.count()
    }

    /// The number of types that the set is about.
    pub open spec fn size(&self) -> nat {
        self.marks@.bits.len()
    }

    /// Whether every type of `self` is in `other`, a set over as many types.
    pub open spec fn subset_of(&self, other: &TySet) -> bool {
        self.marks@.subset_of(other.marks@)
    }

    /// The empty set over the first `n` types.
    pub fn new(n: usize) -> (r: Self)
        ensures
            r.wf(),
            r.size() == n,
            forall|t: TyId| !r.contains(t),
            r.count() == 0,
    {
        proof {
            lemma_no_marks(n as nat);
        }
        TySet { set: set_new(), marks: Ghost(Marks::none(n as nat)) }
    }

    /// Puts a type in, and says whether it was not in the set before.
    pub fn insert(&mut self, t: TyId) -> (fresh: bool)
        requires
            old(self).wf(),
            t < old(self).size(),
        ensures
            final(self).wf(),
            fresh == !old(self).contains(t),
            fresh ==> final(self).marks@ == old(self).marks@.with(t),
            fresh ==> final(self).count() == old(self).count() + 1,
            !fresh ==> final(self).marks@ == old(self).marks@,
            final(self).count() <= final(self).size(),
            final(self).size() == old(self).size(),
            old(self).subset_of(final(self)),
            final(self).contains(t),
    {
        let fresh = set_insert(&mut self.set, t);
        proof {
            lemma_count_true_bound(self.marks@.bits);
        }
        if fresh {
            proof {
                lemma_new_mark(self.marks@, t);
            }
            self.marks = Ghost(self.marks@.with(t));
        }
        assert forall|u: TyId| set_contents(self.set).contains(u) <==> self.marks@.contains(
            u,
        ) by {
            assert(set_contents(old(self).set).contains(u) <==> old(self).marks@.contains(u));
        }
        fresh
    }
}

/// The sequences of `vs` one after the other.
pub open spec fn flat(vs: Seq<Vec<TyId>>) -> Seq<TyId>
    decreases vs.len(),
{
    if vs.len() == 0 {
        Seq::empty()
    } else {
        flat(vs.drop_last()) + vs.last()@
    }
}

/// Every entry of every sequence of `vs` occurs in `flat(vs)`.
pub proof fn lemma_flat_contains(vs: Seq<Vec<TyId>>, v: int, f: int)
    requires
        0 <= v < vs.len(),
        0 <= f < vs[v].len(),
    ensures
        flat(vs).contains(vs[v][f]),
    decreases vs.len(),
{
    let init = flat(vs.drop_last());
    if v == vs.len() - 1 {
        assert(flat(vs)[init.len() + f] == vs[v][f]);
    } else {
        lemma_flat_contains(vs.drop_last(), v, f);
        let j = choose|j: int| 0 <= j < init.len() && init[j] == vs.drop_last()[v][f];
        assert(flat(vs)[j] == vs[v][f]);
    }
}

/// The field types of all variants, one after the other.
#[verifier::loop_isolation(false)]
pub fn flatten_fields(vs: &Vec<Vec<TyId>>) -> (r: Vec<TyId>)
    ensures
        r@ == flat(vs@),
{
    let mut out: Vec<TyId> = Vec::new();
    let mut v: usize = 0;
    while v < vs.len()
        invariant
            0 <= v <= vs.len(),
            out@ == flat(vs@.take(v as int)),
        decreases vs.len() - v,
    {
        let fields = &vs[v];
        let ghost before = out@;
        let mut f: usize = 0;
        while f < fields.len()
            invariant
                0 <= f <= fields.len(),
                out@ == before + fields@.take(f as int),
            decreases fields.len() - f,
        {
            out.push(fields[f]);
            assert(fields@.take(f + 1) =~= fields@.take(f as int).push(fields[f as int]));
            f += 1;
        }
        assert(fields@.take(f as int) =~= fields@);
        assert(vs@.take(v + 1).drop_last() =~= vs@.take(v as int));
        v += 1;
    }
    assert(vs@.take(v as int) =~= vs@);
    out
}

/// The types among `args`, in order.
#[verifier::loop_isolation(false)]
pub fn arg_types(args: &Vec<GenericArg>) -> (r: Vec<TyId>)
    ensures
        r@ == somes(args@.map_values(|a: GenericArg| arg_ty(a))),
{
    let ghost opts = args@.map_values(|a: GenericArg| arg_ty(a));
    let mut out: Vec<TyId> = Vec::new();
    let mut i: usize = 0;
    while i < args.len()
        invariant
            0 <= i <= args.len(),
            out@ == somes(opts.take(i as int)),
        decreases args.len() - i,
    {
        assert(opts.take(i + 1).drop_last() =~= opts.take(i as int));
        assert(opts.take(i + 1).last() == arg_ty(args[i as int]));
        if let GenericArg::Type(t) = args[i] {
            out.push(t);
        }
        i += 1;
    }
    assert(opts.take(i as int) =~= opts);
    out
}

/// A copy of `v`.
pub fn copy_ids(v: &Vec<TyId>) -> (r: Vec<TyId>)
    ensures
        r@ == v@,
{
    let mut out: Vec<TyId> = Vec::new();
    let mut i: usize = 0;
    while i < v.len()
        invariant
            0 <= i <= v.len(),
            out@ == v@.take(i as int),
        decreases v.len() - i,
    {
        out.push(v[i]);
        assert(v@.take(i + 1) =~= v@.take(i as int).push(v[i as int]));
        i += 1;
    }
    assert(v@.take(i as int) =~= v@);
    out
}

} // verus!
