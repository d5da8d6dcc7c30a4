//! The phase scheduler: a deterministic order of components, bucketed by
//! phase ascending and stable within a bucket by registration order.
use vstd::prelude::*;
use crate::component::{Installable, Phase};

verus! {

/// The number of phases; ranks run from 1 to this.
pub const PHASE_COUNT: u8 = 9;

/// Indices below `n` whose phase has rank `k`, ascending.
pub open spec fn bucket(phases: Seq<Phase>, k: nat, n: nat) -> Seq<usize>
    decreases n,
{
    if n == 0 {
        Seq::empty()
    } else {
        let b = bucket(phases, k, (n - 1) as nat);
        if phases[n - 1].spec_rank() == k {
            b.push((n - 1) as usize)
        } else {
            b
        }
    }
}

/// The buckets of ranks 1 to `k`, one after the other.
pub open spec fn ordered_upto(phases: Seq<Phase>, k: nat) -> Seq<usize>
    decreases k,
{
    if k == 0 {
        Seq::empty()
    } else {
        ordered_upto(phases, (k - 1) as nat) + bucket(phases, k, phases.len())
    }
}

/// The execution order of components with these phases, as indices into
/// the registration order.
pub open spec fn schedule_order(phases: Seq<Phase>) -> Seq<usize> {
    ordered_upto(phases, PHASE_COUNT as nat)
}

/// The phases of a list of components.
pub open spec fn phases_of<T: Installable>(components: Seq<T>) -> Seq<Phase> {
    components.map_values(|c: T| c.spec_phase())
}

/// The execution order for components with the given phases.
pub fn schedule_phases(phases: &Vec<Phase>) -> (r: Vec<usize>)
    ensures
        r@ == schedule_order(phases@),
{
    let mut r: Vec<usize> = Vec::new();
    let mut k: u8 = 1;
    while k <= PHASE_COUNT
        invariant
            1 <= k <= PHASE_COUNT + 1,
            r@ == ordered_upto(phases@, (k - 1) as nat),
        decreases PHASE_COUNT + 1 - k,
    {
        let ghost start = r@;
        let mut i: usize = 0;
        while i < phases.len()
            invariant
                1 <= k <= PHASE_COUNT,
                i <= phases@.len(),
                start == ordered_upto(phases@, (k - 1) as nat),
                r@ == start + bucket(phases@, k as nat, i as nat),
            decreases phases@.len() - i,
        {
            if phases[i].rank() == k {
                r.push(i);
                assert(r@ =~= start + bucket(phases@, k as nat, (i + 1) as nat));
            } else {
                assert(r@ =~= start + bucket(phases@, k as nat, (i + 1) as nat));
            }
            i = i + 1;
        }
        k = k + 1;
    }
    r
}

/// The execution order of a set of components: indices into `components`,
/// by phase ascending and by position within one phase.
pub fn schedule<T: Installable>(components: &Vec<T>) -> (r: Vec<usize>)
    ensures
        r@ == schedule_order(phases_of(components@)),
{
    let mut phases: Vec<Phase> = Vec::new();
    let mut i: usize = 0;
    while i < components.len()
        invariant
            i <= components@.len(),
            phases@ == phases_of(components@.subrange(0, i as int)),
        decreases components@.len() - i,
    {
        let p = components[i].phase();
        phases.push(p);
        i = i + 1;
        assert(phases@ =~= phases_of(components@.subrange(0, i as int)));
    }
    assert(components@.subrange(0, i as int) =~= components@);
    schedule_phases(&phases)
}

/// What a bucket holds: ascending indices below `n` of rank `k`, all of them.
pub proof fn lemma_bucket(phases: Seq<Phase>, k: nat, n: nat)
    requires
        n <= phases.len(),
        phases.len() <= usize::MAX,
    ensures
        forall|j: int|
            0 <= j < bucket(phases, k, n).len() ==> (#[trigger] bucket(phases, k, n)[j]) < n
                && phases[bucket(phases, k, n)[j] as int].spec_rank() == k,
        forall|j1: int, j2: int|
            0 <= j1 < j2 < bucket(phases, k, n).len() ==> #[trigger] bucket(phases, k, n)[j1]
                < #[trigger] bucket(phases, k, n)[j2],
        forall|i: int|
            0 <= i < n && (#[trigger] phases[i]).spec_rank() == k ==> bucket(
                phases,
                k,
                n,
            ).contains(i as usize),
    decreases n,
{
    if n > 0 {
        lemma_bucket(phases, k, (n - 1) as nat);
        let b = bucket(phases, k, (n - 1) as nat);
        if phases[n - 1].spec_rank() == k {
            assert(bucket(phases, k, n) == b.push((n - 1) as usize));
            assert forall|i: int|
                0 <= i < n && (#[trigger] phases[i]).spec_rank() == k implies bucket(
                phases,
                k,
                n,
            ).contains(i as usize) by {
                if i < n - 1 {
                    let j = choose|j: int| 0 <= j < b.len() && b[j] == i as usize;
                    assert(bucket(phases, k, n)[j] == i as usize);
                } else {
                    assert(bucket(phases, k, n)[b.len() as int] == i as usize);
                }
            }
        }
    }
}

/// Every index in the buckets of ranks 1 to `k` has a rank between 1 and `k`.
proof fn lemma_ordered_ranks(phases: Seq<Phase>, k: nat)
    requires
        phases.len() <= usize::MAX,
    ensures
        forall|j: int|
            0 <= j < ordered_upto(phases, k).len() ==> (#[trigger] ordered_upto(phases, k)[j])
                < phases.len() && 1 <= phases[ordered_upto(phases, k)[j] as int].spec_rank() <= k,
    decreases k,
{
    if k > 0 {
        lemma_ordered_ranks(phases, (k - 1) as nat);
        lemma_bucket(phases, k, phases.len());
        let a = ordered_upto(phases, (k - 1) as nat);
        let b = bucket(phases, k, phases.len());
        assert forall|j: int| 0 <= j < ordered_upto(phases, k).len() implies (#[trigger] ordered_upto(
            phases,
            k,
        )[j]) < phases.len() && 1 <= phases[ordered_upto(phases, k)[j] as int].spec_rank() <= k by {
            if j < a.len() {
                assert(ordered_upto(phases, k)[j] == a[j]);
            } else {
                assert(ordered_upto(phases, k)[j] == b[j - a.len()]);
            }
        }
    }
}

/// Within the buckets of ranks 1 to `k`: ranks never decrease, and within
/// one rank the indices increase.
proof fn lemma_ordered_sorted(phases: Seq<Phase>, k: nat)
    requires
        phases.len() <= usize::MAX,
    ensures
        forall|a: int, b: int|
            0 <= a < b < ordered_upto(phases, k).len() ==> phases[#[trigger] ordered_upto(
                phases,
                k,
            )[a] as int].spec_rank() <= phases[#[trigger] ordered_upto(
                phases,
                k,
            )[b] as int].spec_rank(),
        forall|a: int, b: int|
            0 <= a < b < ordered_upto(phases, k).len() && phases[ordered_upto(
                phases,
                k,
            )[a] as int].spec_rank() == phases[ordered_upto(phases, k)[b] as int].spec_rank()
                ==> #[trigger] ordered_upto(phases, k)[a] < #[trigger] ordered_upto(phases, k)[b],
    decreases k,
{
    if k > 0 {
        lemma_ordered_sorted(phases, (k - 1) as nat);
        lemma_ordered_ranks(phases, (k - 1) as nat);
        lemma_bucket(phases, k, phases.len());
        let s = ordered_upto(phases, k);
        let pre = ordered_upto(phases, (k - 1) as nat);
        let b = bucket(phases, k, phases.len());
        assert forall|x: int, y: int| 0 <= x < y < s.len() implies phases[#[trigger] s[x] as int].spec_rank()
            <= phases[#[trigger] s[y] as int].spec_rank() && (phases[s[x] as int].spec_rank()
            == phases[s[y] as int].spec_rank() ==> s[x] < s[y]) by {
            if y < pre.len() {
                assert(s[x] == pre[x] && s[y] == pre[y]);
            } else if x < pre.len() {
                assert(s[x] == pre[x] && s[y] == b[y - pre.len()]);
            } else {
                assert(s[x] == b[x - pre.len()] && s[y] == b[y - pre.len()]);
            }
        }
    }
}

/// Every index in the buckets of ranks 1 to `k` whose rank is at most `k`
/// is among them.
proof fn lemma_ordered_complete(phases: Seq<Phase>, k: nat)
    requires
        phases.len() <= usize::MAX,
    ensures
        forall|i: int|
            0 <= i < phases.len() && (#[trigger] phases[i]).spec_rank() <= k ==> ordered_upto(
                phases,
                k,
            ).contains(i as usize),
    decreases k,
{
    if k > 0 {
        lemma_ordered_complete(phases, (k - 1) as nat);
        lemma_bucket(phases, k, phases.len());
        let s = ordered_upto(phases, k);
        let pre = ordered_upto(phases, (k - 1) as nat);
        let b = bucket(phases, k, phases.len());
        assert forall|i: int| 0 <= i < phases.len() && (#[trigger] phases[i]).spec_rank() <= k implies s.contains(
            i as usize,
        ) by {
            if phases[i].spec_rank() < k {
                let j = choose|j: int| 0 <= j < pre.len() && pre[j] == i as usize;
                assert(s[j] == i as usize);
            } else {
                let j = choose|j: int| 0 <= j < b.len() && b[j] == i as usize;
                assert(s[pre.len() + j] == i as usize);
            }
        }
    }
}

/// The schedule is a reordering of the registration order: it holds each
/// index once, and only valid indices.
pub proof fn lemma_schedule_permutation(phases: Seq<Phase>)
    requires
        phases.len() <= usize::MAX,
    ensures
        forall|j: int|
            0 <= j < schedule_order(phases).len() ==> (#[trigger] schedule_order(phases)[j])
                < phases.len(),
        forall|i: int| 0 <= i < phases.len() ==> #[trigger] schedule_order(phases).contains(i as usize),
        schedule_order(phases).no_duplicates(),
{
    lemma_ordered_ranks(phases, PHASE_COUNT as nat);
    lemma_ordered_sorted(phases, PHASE_COUNT as nat);
    lemma_ordered_complete(phases, PHASE_COUNT as nat);
    let s = schedule_order(phases);
    assert forall|i: int| 0 <= i < phases.len() implies #[trigger] s.contains(i as usize) by {
        assert(phases[i].spec_rank() <= PHASE_COUNT);
    }
    assert forall|a: int, b: int| 0 <= a < s.len() && 0 <= b < s.len() && a != b implies s[a] != s[b] by {
        if a < b {
            assert(s[a] < s[b] || phases[s[a] as int].spec_rank() != phases[s[b] as int].spec_rank());
        } else {
            assert(s[b] < s[a] || phases[s[a] as int].spec_rank() != phases[s[b] as int].spec_rank());
        }
    }
}

/// Phases never go backwards in the schedule, and components of one phase
/// keep their registration order.
pub proof fn lemma_schedule_sorted_stable(phases: Seq<Phase>)
    requires
        phases.len() <= usize::MAX,
    ensures
        forall|a: int, b: int|
            0 <= a < b < schedule_order(phases).len() ==> phases[#[trigger] schedule_order(
                phases,
            )[a] as int].spec_rank() <= phases[#[trigger] schedule_order(phases)[b] as int].spec_rank(),
        forall|a: int, b: int|
            0 <= a < b < schedule_order(phases).len() && phases[schedule_order(phases)[a] as int]
                == phases[schedule_order(phases)[b] as int] ==> #[trigger] schedule_order(phases)[a]
                < #[trigger] schedule_order(phases)[b],
{
    lemma_ordered_sorted(phases, PHASE_COUNT as nat);
}

/// A component in the `Filesystem` phase runs before one in the `Binaries`
/// phase, whatever their registration order.
pub proof fn lemma_filesystem_before_binaries(phases: Seq<Phase>, a: int, b: int)
    requires
        phases.len() <= usize::MAX,
        0 <= a < schedule_order(phases).len(),
        0 <= b < schedule_order(phases).len(),
        phases[schedule_order(phases)[a] as int] == Phase::Filesystem,
        phases[schedule_order(phases)[b] as int] == Phase::Binaries,
    ensures
        a < b,
{
    lemma_ordered_sorted(phases, PHASE_COUNT as nat);
    let s = schedule_order(phases);
    if b < a {
        assert(phases[s[b] as int].spec_rank() <= phases[s[a] as int].spec_rank());
    }
}

/// Scheduling is deterministic: components with the same phases, in the
/// same registration order, are scheduled in the same order, whatever
/// their names and operations.
pub proof fn lemma_schedule_deterministic<T: Installable>(c1: Seq<T>, c2: Seq<T>)
    requires
        c1.len() == c2.len(),
        forall|i: int| 0 <= i < c1.len() ==> (#[trigger] c1[i]).spec_phase() == c2[i].spec_phase(),
    ensures
        schedule_order(phases_of(c1)) == schedule_order(phases_of(c2)),
{
    assert(phases_of(c1) =~= phases_of(c2));
}

/// Index `a` runs before index `b`: a lower phase, or the same phase and
/// an earlier registration.
pub open spec fn runs_before(phases: Seq<Phase>, a: usize, b: usize) -> bool {
    phases[a as int].spec_rank() < phases[b as int].spec_rank() || (phases[a as int].spec_rank()
        == phases[b as int].spec_rank() && a < b)
}

pub open spec fn strictly_ordered(phases: Seq<Phase>, s: Seq<usize>) -> bool {
    forall|i: int, j: int| 0 <= i < j < s.len() ==> runs_before(phases, #[trigger] s[i], #[trigger] s[j])
}

/// Two sequences in strict run order with the same elements are equal.
proof fn lemma_ordered_unique(phases: Seq<Phase>, s: Seq<usize>, t: Seq<usize>)
    requires
        strictly_ordered(phases, s),
        strictly_ordered(phases, t),
        forall|x: usize| s.contains(x) <==> t.contains(x),
    ensures
        s == t,
    decreases s.len(),
{
    if s.len() == 0 {
        if t.len() > 0 {
            assert(t.contains(t[0]));
        }
        assert(s =~= t);
    } else {
        assert(s.contains(s[0]));
        assert(t.contains(t[0]));
        let j = choose|j: int| 0 <= j < t.len() && t[j] == s[0];
        let i = choose|i: int| 0 <= i < s.len() && s[i] == t[0];
        if j > 0 {
            assert(runs_before(phases, t[0], t[j]));
            if i > 0 {
                assert(runs_before(phases, s[0], s[i]));
            }
            assert(false);
        }
        let s1 = s.drop_first();
        let t1 = t.drop_first();
        assert forall|x: usize| s1.contains(x) implies t1.contains(x) by {
            let k = choose|k: int| 0 <= k < s1.len() && s1[k] == x;
            assert(s[k + 1] == x);
            assert(runs_before(phases, s[0], s[k + 1]));
            assert(t.contains(x));
            let m = choose|m: int| 0 <= m < t.len() && t[m] == x;
            assert(m != 0);
            assert(t1[m - 1] == x);
        }
        assert forall|x: usize| t1.contains(x) implies s1.contains(x) by {
            let k = choose|k: int| 0 <= k < t1.len() && t1[k] == x;
            assert(t[k + 1] == x);
            assert(runs_before(phases, t[0], t[k + 1]));
            assert(s.contains(x));
            let m = choose|m: int| 0 <= m < s.len() && s[m] == x;
            assert(m != 0);
            assert(s1[m - 1] == x);
        }
        lemma_ordered_unique(phases, s1, t1);
        assert(s =~= seq![s[0]] + s1);
        assert(t =~= seq![t[0]] + t1);
    }
}

/// The schedule is the only order of the registered components that
/// holds each of them, never goes back a phase, and keeps the
/// registration order within a phase: any scheduler with these properties
/// gives the same sequence on the same input.
pub proof fn lemma_schedule_unique(phases: Seq<Phase>, s: Seq<usize>)
    requires
        phases.len() <= usize::MAX,
        forall|j: int| 0 <= j < s.len() ==> (#[trigger] s[j]) < phases.len(),
        forall|i: int| 0 <= i < phases.len() ==> #[trigger] s.contains(i as usize),
        forall|a: int, b: int|
            0 <= a < b < s.len() ==> phases[#[trigger] s[a] as int].spec_rank() <= phases[#[trigger] s[b] as int].spec_rank(),
        forall|a: int, b: int|
            0 <= a < b < s.len() && phases[s[a] as int] == phases[s[b] as int] ==> #[trigger] s[a] < #[trigger] s[b],
    ensures
        s == schedule_order(phases),
{
    let t = schedule_order(phases);
    lemma_schedule_permutation(phases);
    lemma_schedule_sorted_stable(phases);
    assert forall|a: int, b: int| 0 <= a < b < s.len() implies runs_before(phases, #[trigger] s[a], #[trigger] s[b]) by {
        if phases[s[a] as int].spec_rank() == phases[s[b] as int].spec_rank() {
            assert(phases[s[a] as int] == phases[s[b] as int]);
        }
    }
    assert forall|a: int, b: int| 0 <= a < b < t.len() implies runs_before(phases, #[trigger] t[a], #[trigger] t[b]) by {
        if phases[t[a] as int].spec_rank() == phases[t[b] as int].spec_rank() {
            assert(phases[t[a] as int] == phases[t[b] as int]);
        }
    }
    assert forall|x: usize| s.contains(x) implies t.contains(x) by {
        let k = choose|k: int| 0 <= k < s.len() && s[k] == x;
        assert(t.contains(x as int as usize));
    }
    assert forall|x: usize| t.contains(x) implies s.contains(x) by {
        let k = choose|k: int| 0 <= k < t.len() && t[k] == x;
        assert(s.contains(x as int as usize));
    }
    lemma_ordered_unique(phases, s, t);
}

} // verus!
