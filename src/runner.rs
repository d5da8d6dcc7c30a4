//! The build: schedule the components, reject conflicting operations of
//! one phase before anything is applied, then decide the operations in
//! order, stopping at the first failure.
use vstd::prelude::*;
use crate::component::{Component, Op, Phase};
use crate::executor::{
    applied, join, names_of, resolve_names, join_prefix, spec_apply, BuildError, Staging, StagingV,
};
use crate::paths::views;
use crate::schedule::{schedule, schedule_order, phases_of};

verus! {

/// What an operation demands of its target path.
pub enum ClaimV {
    Dir,
    File(Seq<char>, u32),
    Link(Seq<char>),
}

/// Two demands on one path that cannot both hold. Directories agree
/// with each other whatever their modes; a later mode replaces an
/// earlier one.
pub open spec fn incompatible(a: ClaimV, b: ClaimV) -> bool {
    !(a is Dir && b is Dir) && a != b
}

/// The path key and demand of an operation, for those that claim one path.
pub open spec fn claim_of(op: Op) -> Option<(Seq<char>, ClaimV)> {
    match op {
        Op::Dir(p) => match names_of(p@) {
            Ok(n) => Some((join(n), ClaimV::Dir)),
            Err(_) => None,
        },
        Op::DirMode(p, _) => match names_of(p@) {
            Ok(n) => Some((join(n), ClaimV::Dir)),
            Err(_) => None,
        },
        Op::WriteFile(p, c) => match names_of(p@) {
            Ok(n) => Some((join(n), ClaimV::File(c@, crate::executor::DEFAULT_FILE_MODE))),
            Err(_) => None,
        },
        Op::WriteFileMode(p, c, m) => match names_of(p@) {
            Ok(n) => Some((join(n), ClaimV::File(c@, m))),
            Err(_) => None,
        },
        Op::Symlink(l, t) => match names_of(l@) {
            Ok(n) => Some((join(n), ClaimV::Link(t@))),
            Err(_) => None,
        },
        _ => None,
    }
}

/// The position of an operation: which component, and where in its list.
pub type OpRef = (usize, usize);

/// The operations of the components, in the given component order.
pub open spec fn op_refs(cs: Seq<Component>, order: Seq<usize>) -> Seq<OpRef>
    decreases order.len(),
{
    if order.len() == 0 {
        Seq::empty()
    } else {
        let c = order.last();
        op_refs(cs, order.drop_last()) + Seq::new(cs[c as int].ops@.len(), |j: int| (c, j as usize))
    }
}

/// The operations of the components in execution order.
pub open spec fn scheduled_refs(cs: Seq<Component>) -> Seq<OpRef> {
    op_refs(cs, schedule_order(phases_of(cs)))
}

pub open spec fn op_at(cs: Seq<Component>, r: OpRef) -> Op {
    cs[r.0 as int].ops@[r.1 as int]
}

/// The operations at positions `i` and `j` share a phase and make
/// incompatible demands on one path.
pub open spec fn conflicting(cs: Seq<Component>, refs: Seq<OpRef>, i: int, j: int) -> bool {
    &&& cs[refs[i].0 as int].phase == cs[refs[j].0 as int].phase
    &&& claim_of(op_at(cs, refs[i])) matches Some(a)
    &&& claim_of(op_at(cs, refs[j])) matches Some(b)
    &&& a.0 == b.0
    &&& incompatible(a.1, b.1)
}

pub open spec fn has_conflict(cs: Seq<Component>, refs: Seq<OpRef>) -> bool {
    exists|i: int, j: int| 0 <= i < j < refs.len() && #[trigger] conflicting(cs, refs, i, j)
}

/// The operation at position `i` is a custom operation whose token no
/// handler is registered for.
pub open spec fn unknown_custom(cs: Seq<Component>, refs: Seq<OpRef>, handlers: Seq<Seq<char>>, i: int) -> bool {
    op_at(cs, refs[i]) matches Op::Custom(t) && !handlers.contains(t@)
}

pub open spec fn has_unknown_custom(cs: Seq<Component>, refs: Seq<OpRef>, handlers: Seq<Seq<char>>) -> bool {
    exists|i: int| 0 <= i < refs.len() && #[trigger] unknown_custom(cs, refs, handlers, i)
}

/// Decide the operations at `refs` in order, stopping at the first failure
/// with its position in `refs`.
pub open spec fn spec_run(st: StagingV, cs: Seq<Component>, refs: Seq<OpRef>) -> Result<StagingV, (nat, BuildError)>
    decreases refs.len(),
{
    if refs.len() == 0 {
        Ok(st)
    } else {
        match spec_run(st, cs, refs.drop_last()) {
            Err(e) => Err(e),
            Ok(s) => match spec_apply(s, op_at(cs, refs.last())) {
                Ok(s2) => Ok(s2),
                Err(e) => Err(((refs.len() - 1) as nat, e)),
            },
        }
    }
}

/// A failed build: the component, the operation's position in its list,
/// and the error.
#[derive(Debug)]
pub struct BuildFailure {
    pub component: String,
    pub position: usize,
    pub error: BuildError,
}

/// What an operation demands of its target path.
#[derive(Debug)]
pub enum Claim {
    Dir,
    File(String, u32),
    Link(String),
}

impl View for Claim {
    type V = ClaimV;

    open spec fn view(&self) -> ClaimV {
        match self {
            Claim::Dir => ClaimV::Dir,
            Claim::File(c, m) => ClaimV::File(c@, *m),
            Claim::Link(t) => ClaimV::Link(t@),
        }
    }
}

/// The key of a path that stays inside the staging root.
fn key_of(path: &String) -> (r: Option<String>)
    ensures
        r is None <==> names_of(path@) is Err,
        r matches Some(k) ==> k@ == join(names_of(path@)->Ok_0),
{
    match resolve_names(path.as_str()) {
        Ok(names) => {
            let k = join_prefix(&names, names.len());
            assert(views(names@).take(names@.len() as int) =~= views(names@));
            Some(k)
        },
        Err(_) => None,
    }
}

/// The path key and demand of an operation, for those that claim one path.
pub fn claim(op: &Op) -> (r: Option<(String, Claim)>)
    ensures
        r is None <==> claim_of(*op) is None,
        r matches Some(c) ==> claim_of(*op) == Some((c.0@, c.1@)),
{
    match op {
        Op::Dir(p) | Op::DirMode(p, _) => match key_of(p) {
            Some(k) => Some((k, Claim::Dir)),
            None => None,
        },
        Op::WriteFile(p, c) => match key_of(p) {
            Some(k) => Some((k, Claim::File(c.clone(), crate::executor::DEFAULT_FILE_MODE))),
            None => None,
        },
        Op::WriteFileMode(p, c, m) => match key_of(p) {
            Some(k) => Some((k, Claim::File(c.clone(), *m))),
            None => None,
        },
        Op::Symlink(l, t) => match key_of(l) {
            Some(k) => Some((k, Claim::Link(t.clone()))),
            None => None,
        },
        _ => None,
    }
}

/// Whether two claims target one path with incompatible demands.
fn claims_clash(a: &(String, Claim), b: &(String, Claim)) -> (r: bool)
    ensures
        r == (a.0@ == b.0@ && incompatible(a.1@, b.1@)),
{
    if a.0 != b.0 {
        return false;
    }
    match (&a.1, &b.1) {
        (Claim::Dir, Claim::Dir) => false,
        (Claim::File(c1, m1), Claim::File(c2, m2)) => !(*c1 == *c2 && *m1 == *m2),
        (Claim::Link(t1), Claim::Link(t2)) => !(*t1 == *t2),
        _ => true,
    }
}

/// The operations of the components, in the given component order.
fn collect_refs(cs: &Vec<Component>, order: &Vec<usize>) -> (r: Vec<OpRef>)
    requires
        forall|i: int| 0 <= i < order@.len() ==> (#[trigger] order@[i]) < cs@.len(),
    ensures
        r@ == op_refs(cs@, order@),
{
    let mut r: Vec<OpRef> = Vec::new();
    let mut k: usize = 0;
    assert(order@.take(0) =~= Seq::<usize>::empty());
    while k < order.len()
        invariant
            k <= order@.len(),
            forall|i: int| 0 <= i < order@.len() ==> (#[trigger] order@[i]) < cs@.len(),
            r@ == op_refs(cs@, order@.take(k as int)),
        decreases order@.len() - k,
    {
        let c = order[k];
        let ghost base = r@;
        let n = cs[c].ops.len();
        let mut j: usize = 0;
        while j < n
            invariant
                j <= n == cs@[c as int].ops@.len(),
                r@ == base + Seq::new(j as nat, |x: int| (c, x as usize)),
            decreases n - j,
        {
            r.push((c, j));
            j = j + 1;
            assert(r@ =~= base + Seq::new(j as nat, |x: int| (c, x as usize)));
        }
        assert(order@.take(k + 1).drop_last() =~= order@.take(k as int));
        k = k + 1;
    }
    assert(order@.take(order@.len() as int) =~= order@);
    r
}

/// Positions of two conflicting operations, if any.
fn find_conflict(cs: &Vec<Component>, refs: &Vec<OpRef>) -> (r: Option<(usize, usize)>)
    requires
        forall|i: int|
            0 <= i < refs@.len() ==> (#[trigger] refs@[i]).0 < cs@.len() && refs@[i].1
                < cs@[refs@[i].0 as int].ops@.len(),
    ensures
        r is None <==> !has_conflict(cs@, refs@),
        r matches Some(p) ==> p.0 < p.1 < refs@.len() && conflicting(cs@, refs@, p.0 as int, p.1 as int),
{
    let mut claims: Vec<Option<(String, Claim)>> = Vec::new();
    let mut i: usize = 0;
    while i < refs.len()
        invariant
            i <= refs@.len(),
            claims@.len() == i,
            forall|x: int|
                0 <= x < refs@.len() ==> (#[trigger] refs@[x]).0 < cs@.len() && refs@[x].1
                    < cs@[refs@[x].0 as int].ops@.len(),
            forall|x: int|
                0 <= x < i ==> ((#[trigger] claims@[x]) is None <==> claim_of(op_at(cs@, refs@[x])) is None)
                    && (claims@[x] matches Some(c) ==> claim_of(op_at(cs@, refs@[x])) == Some((c.0@, c.1@))),
        decreases refs@.len() - i,
    {
        let (c, p) = refs[i];
        claims.push(claim(&cs[c].ops[p]));
        i = i + 1;
    }
    let mut b: usize = 0;
    while b < refs.len()
        invariant
            b <= refs@.len(),
            claims@.len() == refs@.len(),
            forall|x: int|
                0 <= x < refs@.len() ==> (#[trigger] refs@[x]).0 < cs@.len() && refs@[x].1
                    < cs@[refs@[x].0 as int].ops@.len(),
            forall|x: int|
                0 <= x < refs@.len() ==> ((#[trigger] claims@[x]) is None <==> claim_of(op_at(cs@, refs@[x])) is None)
                    && (claims@[x] matches Some(c) ==> claim_of(op_at(cs@, refs@[x])) == Some((c.0@, c.1@))),
            forall|x: int, y: int| 0 <= x < y < b ==> !#[trigger] conflicting(cs@, refs@, x, y),
        decreases refs@.len() - b,
    {
        let mut a: usize = 0;
        while a < b
            invariant
                a <= b < refs@.len(),
                claims@.len() == refs@.len(),
                forall|x: int|
                    0 <= x < refs@.len() ==> (#[trigger] refs@[x]).0 < cs@.len() && refs@[x].1
                        < cs@[refs@[x].0 as int].ops@.len(),
                forall|x: int|
                    0 <= x < refs@.len() ==> ((#[trigger] claims@[x]) is None <==> claim_of(op_at(cs@, refs@[x])) is None)
                        && (claims@[x] matches Some(c) ==> claim_of(op_at(cs@, refs@[x])) == Some((c.0@, c.1@))),
                forall|x: int, y: int| 0 <= x < y < b ==> !#[trigger] conflicting(cs@, refs@, x, y),
                forall|x: int| 0 <= x < a ==> !#[trigger] conflicting(cs@, refs@, x, b as int),
            decreases b - a,
        {
            let same_phase = cs[refs[a].0].phase.rank() == cs[refs[b].0].phase.rank();
            let clash = match (&claims[a], &claims[b]) {
                (Some(ca), Some(cb)) => claims_clash(ca, cb),
                _ => false,
            };
            assert(same_phase <==> cs@[refs@[a as int].0 as int].phase == cs@[refs@[b as int].0 as int].phase);
            if same_phase && clash {
                assert(conflicting(cs@, refs@, a as int, b as int));
                return Some((a, b));
            }
            a = a + 1;
        }
        b = b + 1;
    }
    None
}

/// `r` and `after` are what the build gave, where the model says
/// `expected` for the operations at `refs`.
pub open spec fn run_outcome(
    expected: Result<StagingV, (nat, BuildError)>,
    r: Result<(), BuildFailure>,
    after: StagingV,
    cs: Seq<Component>,
    refs: Seq<OpRef>,
) -> bool {
    match expected {
        Ok(s) => r is Ok && after == s,
        Err((k, e)) => r matches Err(f) && f.error == e && f.position == refs[k as int].1
            && f.component@ == cs[refs[k as int].0 as int].name@,
    }
}

proof fn lemma_refs_valid(cs: Seq<Component>, order: Seq<usize>)
    requires
        forall|i: int| 0 <= i < order.len() ==> (#[trigger] order[i]) < cs.len(),
    ensures
        forall|i: int|
            0 <= i < op_refs(cs, order).len() ==> (#[trigger] op_refs(cs, order)[i]).0 < cs.len()
                && op_refs(cs, order)[i].1 < cs[op_refs(cs, order)[i].0 as int].ops@.len(),
    decreases order.len(),
{
    if order.len() > 0 {
        lemma_refs_valid(cs, order.drop_last());
        let pre = op_refs(cs, order.drop_last());
        let c = order.last();
        let tail = Seq::new(cs[c as int].ops@.len(), |j: int| (c, j as usize));
        assert forall|i: int| 0 <= i < op_refs(cs, order).len() implies (#[trigger] op_refs(cs, order)[i]).0
            < cs.len() && op_refs(cs, order)[i].1 < cs[op_refs(cs, order)[i].0 as int].ops@.len() by {
            if i < pre.len() {
                assert(op_refs(cs, order)[i] == pre[i]);
            } else {
                assert(op_refs(cs, order)[i] == tail[i - pre.len()]);
            }
        }
    }
}

proof fn lemma_run_err(st: StagingV, cs: Seq<Component>, refs: Seq<OpRef>, k: nat, e: (nat, BuildError))
    requires
        k <= refs.len(),
        spec_run(st, cs, refs.take(k as int)) == Err::<StagingV, (nat, BuildError)>(e),
    ensures
        spec_run(st, cs, refs) == Err::<StagingV, (nat, BuildError)>(e),
    decreases refs.len() - k,
{
    if k < refs.len() {
        assert(refs.take((k + 1) as int).drop_last() =~= refs.take(k as int));
        lemma_run_err(st, cs, refs, k + 1, e);
    } else {
        assert(refs.take(k as int) =~= refs);
    }
}

/// The position of a custom operation whose token has no handler, if any.
fn find_unknown_custom(cs: &Vec<Component>, refs: &Vec<OpRef>, staging: &Staging) -> (r: Option<usize>)
    requires
        forall|i: int|
            0 <= i < refs@.len() ==> (#[trigger] refs@[i]).0 < cs@.len() && refs@[i].1
                < cs@[refs@[i].0 as int].ops@.len(),
    ensures
        r is None <==> !has_unknown_custom(cs@, refs@, staging@.handlers),
        r matches Some(i) ==> i < refs@.len() && unknown_custom(cs@, refs@, staging@.handlers, i as int),
{
    let mut i: usize = 0;
    while i < refs.len()
        invariant
            i <= refs@.len(),
            forall|x: int|
                0 <= x < refs@.len() ==> (#[trigger] refs@[x]).0 < cs@.len() && refs@[x].1
                    < cs@[refs@[x].0 as int].ops@.len(),
            forall|x: int| 0 <= x < i ==> !#[trigger] unknown_custom(cs@, refs@, staging@.handlers, x),
        decreases refs@.len() - i,
    {
        let (c, p) = refs[i];
        if let Op::Custom(t) = &cs[c].ops[p] {
            if !staging.has_handler(t) {
                assert(unknown_custom(cs@, refs@, staging@.handlers, i as int));
                return Some(i);
            }
        }
        i = i + 1;
    }
    None
}

/// Run the build on the staging model: schedule the components; refuse
/// the whole build before any change with `Conflict` where two operations
/// of one phase make incompatible demands on one path, or with
/// `UnknownCustom` where a custom token has no handler; else decide every
/// operation in order and stop at the first failure, naming its component
/// and position.
pub fn run_build(components: &Vec<Component>, staging: &mut Staging) -> (r: Result<(), BuildFailure>)
    ensures
        has_conflict(components@, scheduled_refs(components@)) ==> (r matches Err(f) && f.error
            == BuildError::Conflict && final(staging)@ == old(staging)@),
        !has_conflict(components@, scheduled_refs(components@)) && has_unknown_custom(
            components@,
            scheduled_refs(components@),
            old(staging)@.handlers,
        ) ==> (r matches Err(f) && f.error == BuildError::UnknownCustom && final(staging)@ == old(
            staging,
        )@),
        !has_conflict(components@, scheduled_refs(components@)) && !has_unknown_custom(
            components@,
            scheduled_refs(components@),
            old(staging)@.handlers,
        ) ==> run_outcome(
            spec_run(old(staging)@, components@, scheduled_refs(components@)),
            r,
            final(staging)@,
            components@,
            scheduled_refs(components@),
        ),
{
    let order = schedule(components);
    let _n = components.len();
    proof {
        assert(phases_of(components@).len() == components@.len());
        crate::schedule::lemma_schedule_permutation(phases_of(components@));
        lemma_refs_valid(components@, order@);
    }
    let refs = collect_refs(components, &order);
    if let Some((_, b)) = find_conflict(components, &refs) {
        let (c, p) = refs[b];
        return Err(BuildFailure { component: components[c].name.clone(), position: p, error: BuildError::Conflict });
    }
    if let Some(k) = find_unknown_custom(components, &refs, staging) {
        let (c, p) = refs[k];
        return Err(BuildFailure { component: components[c].name.clone(), position: p, error: BuildError::UnknownCustom });
    }
    apply_all(components, &refs, staging)
}

/// Decide the operations at `refs` in order, stopping at the first failure.
fn apply_all(components: &Vec<Component>, refs: &Vec<OpRef>, staging: &mut Staging) -> (r: Result<(), BuildFailure>)
    requires
        forall|i: int|
            0 <= i < refs@.len() ==> (#[trigger] refs@[i]).0 < components@.len() && refs@[i].1
                < components@[refs@[i].0 as int].ops@.len(),
    ensures
        run_outcome(spec_run(old(staging)@, components@, refs@), r, final(staging)@, components@, refs@),
{
    let ghost cs = components@;
    let mut k: usize = 0;
    assert(refs@.take(0) =~= Seq::<OpRef>::empty());
    while k < refs.len()
        invariant
            k <= refs@.len(),
            cs == components@,
            forall|i: int|
                0 <= i < refs@.len() ==> (#[trigger] refs@[i]).0 < cs.len() && refs@[i].1
                    < cs[refs@[i].0 as int].ops@.len(),
            spec_run(old(staging)@, cs, refs@.take(k as int)) == Ok::<StagingV, (nat, BuildError)>(staging@),
        decreases refs@.len() - k,
    {
        let (c, p) = refs[k];
        assert(refs@.take(k + 1).drop_last() =~= refs@.take(k as int));
        assert(refs@.take(k + 1).last() == refs@[k as int]);
        let res = staging.apply(&components[c].ops[p]);
        if let Err(e) = res {
            proof {
                lemma_run_err(old(staging)@, cs, refs@, (k + 1) as nat, (k as nat, e));
            }
            return Err(BuildFailure { component: components[c].name.clone(), position: p, error: e });
        }
        k = k + 1;
    }
    assert(refs@.take(refs@.len() as int) =~= refs@);
    Ok(())
}

} // verus!
