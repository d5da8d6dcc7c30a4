//! Staging-relative paths, canonicalized at construction so that no
//! resolved path can leave the staging root.
use vstd::prelude::*;

verus! {

/// The character views of a list of strings.
pub open spec fn views(v: Seq<String>) -> Seq<Seq<char>> {
    v.map_values(|s: String| s@)
}

/// The segments of the first `n` characters of `s`, split at each '/'.
/// There is always at least one segment (perhaps empty).
pub open spec fn split_upto(s: Seq<char>, n: nat) -> Seq<Seq<char>>
    decreases n,
{
    if n == 0 {
        seq![Seq::empty()]
    } else {
        let p = split_upto(s, (n - 1) as nat);
        if s[n - 1] == '/' {
            p.push(Seq::empty())
        } else {
            p.update(p.len() - 1, p.last().push(s[n - 1]))
        }
    }
}

pub open spec fn is_dot(seg: Seq<char>) -> bool {
    seg == seq!['.']
}

pub open spec fn is_dot_dot(seg: Seq<char>) -> bool {
    seg == seq!['.', '.']
}

/// One segment applied to a resolved stack of names: empty and "." stay,
/// ".." goes up one level (and escapes at the root), a name goes down.
pub open spec fn resolve_step(stack: Seq<Seq<char>>, seg: Seq<char>) -> Option<Seq<Seq<char>>> {
    if seg.len() == 0 || is_dot(seg) {
        Some(stack)
    } else if is_dot_dot(seg) {
        if stack.len() == 0 {
            None
        } else {
            Some(stack.drop_last())
        }
    } else {
        Some(stack.push(seg))
    }
}

/// The names that a list of segments resolves to, or `None` where a ".."
/// would climb above the root.
pub open spec fn resolve(segs: Seq<Seq<char>>) -> Option<Seq<Seq<char>>>
    decreases segs.len(),
{
    if segs.len() == 0 {
        Some(Seq::empty())
    } else {
        match resolve(segs.drop_last()) {
            None => None,
            Some(stack) => resolve_step(stack, segs.last()),
        }
    }
}

/// A name that stays at its level: non-empty, neither "." nor "..".
pub open spec fn plain_name(n: Seq<char>) -> bool {
    n.len() > 0 && !is_dot(n) && !is_dot_dot(n)
}

/// Every name that resolution leaves is a plain one.
pub proof fn lemma_resolve_plain(segs: Seq<Seq<char>>)
    requires
        resolve(segs) is Some,
    ensures
        forall|i: int| 0 <= i < resolve(segs)->Some_0.len() ==> plain_name(#[trigger] resolve(segs)->Some_0[i]),
    decreases segs.len(),
{
    if segs.len() > 0 {
        lemma_resolve_plain(segs.drop_last());
    }
}

/// The canonical staging-relative form of a path, or `None` where it
/// escapes the staging root.
pub open spec fn canonical(s: Seq<char>) -> Option<Seq<Seq<char>>> {
    resolve(split_upto(s, s.len()))
}

/// A path inside the staging root, as its list of names from the root.
/// Every name is non-empty and neither "." nor "..".
#[derive(Debug)]
pub struct StagingPath {
    pub names: Vec<String>,
}

impl View for StagingPath {
    type V = Seq<Seq<char>>;

    open spec fn view(&self) -> Seq<Seq<char>> {
        views(self.names@)
    }
}

/// Why a path was refused.
#[derive(Debug, Clone, Copy, PartialEq, Eq, Structural)]
pub enum PathError {
    /// The path resolves outside the staging root.
    Escape,
}

proof fn lemma_resolve_push(segs: Seq<Seq<char>>, seg: Seq<char>)
    ensures
        resolve(segs.push(seg)) == match resolve(segs) {
            None => None,
            Some(stack) => resolve_step(stack, seg),
        },
{
    assert(segs.push(seg).drop_last() =~= segs);
}

/// Apply one finished segment to the stack of names.
fn push_segment(stack: &mut Vec<String>, seg: &str) -> (ok: bool)
    ensures
        ok == resolve_step(views(old(stack)@), seg@) is Some,
        ok ==> views(final(stack)@) == resolve_step(views(old(stack)@), seg@).unwrap(),
{
    let n = seg.unicode_len();
    if n == 0 {
        return true;
    }
    let c0 = seg.get_char(0);
    if n == 1 && c0 == '.' {
        assert(seg@ =~= seq!['.']);
        return true;
    }
    if n == 2 && c0 == '.' && seg.get_char(1) == '.' {
        assert(seg@ =~= seq!['.', '.']);
        if stack.len() == 0 {
            return false;
        }
        stack.pop();
        assert(views(stack@) =~= views(old(stack)@).drop_last());
        return true;
    }
    assert(!is_dot(seg@) && !is_dot_dot(seg@)) by {
        if is_dot(seg@) {
            assert(seg@[0] == '.');
        }
        if is_dot_dot(seg@) {
            assert(seg@[0] == '.' && seg@[1] == '.');
        }
    }
    stack.push(seg.to_owned());
    assert(views(stack@) =~= views(old(stack)@).push(seg@));
    true
}

impl StagingPath {
    /// Canonicalize `path` as a staging-relative path: separators repeat
    /// freely, "." is dropped, ".." goes up one level. A path that climbs
    /// above the staging root is refused.
    pub fn new(path: &str) -> (r: Result<StagingPath, PathError>)
        ensures
            r is Ok <==> canonical(path@) is Some,
            r matches Ok(p) ==> p@ == canonical(path@).unwrap(),
            r matches Ok(p) ==> forall|i: int| 0 <= i < p@.len() ==> plain_name(#[trigger] p@[i]),
    {
        let n = path.unicode_len();
        let mut stack: Vec<String> = Vec::new();
        let mut start: usize = 0;
        let mut i: usize = 0;
        let ghost mut done: Seq<Seq<char>> = Seq::empty();
        assert(path@.subrange(0, 0) =~= Seq::<char>::empty());
        assert(done.push(path@.subrange(0, 0)) =~= split_upto(path@, 0));
        while i < n
            invariant
                n == path@.len(),
                start <= i <= n,
                split_upto(path@, i as nat) == done.push(path@.subrange(start as int, i as int)),
                resolve(done) == Some(views(stack@)),
            decreases n - i,
        {
            let c = path.get_char(i);
            if c == '/' {
                let seg = path.substring_char(start, i);
                proof {
                    lemma_resolve_push(done, seg@);
                }
                let ok = push_segment(&mut stack, seg);
                if !ok {
                    proof {
                        let pre = split_upto(path@, (i + 1) as nat);
                        assert(pre.drop_last() =~= done.push(seg@));
                        lemma_resolve_escapes_forever(path@, (i + 1) as nat);
                    }
                    return Err(PathError::Escape);
                }
                proof {
                    done = done.push(seg@);
                    assert(path@.subrange(i + 1, i + 1) =~= Seq::<char>::empty());
                }
                start = i + 1;
            } else {
                proof {
                    assert(path@.subrange(start as int, i + 1) =~= path@.subrange(
                        start as int,
                        i as int,
                    ).push(c));
                    assert(split_upto(path@, (i + 1) as nat) =~= done.push(
                        path@.subrange(start as int, i + 1),
                    ));
                }
            }
            i = i + 1;
        }
        let seg = path.substring_char(start, n);
        proof {
            lemma_resolve_push(done, seg@);
        }
        let ok = push_segment(&mut stack, seg);
        if !ok {
            return Err(PathError::Escape);
        }
        proof {
            lemma_split_nonempty(path@, n as nat);
            let sp = split_upto(path@, n as nat);
            assert(sp =~= done.push(seg@));
            lemma_resolve_plain(sp);
        }
        Ok(StagingPath { names: stack })
    }
}

proof fn lemma_split_nonempty(s: Seq<char>, n: nat)
    ensures
        split_upto(s, n).len() >= 1,
    decreases n,
{
    if n > 0 {
        lemma_split_nonempty(s, (n - 1) as nat);
    }
}

/// Once the finished segments of a prefix escape, the whole path does.
proof fn lemma_resolve_escapes_forever(s: Seq<char>, n: nat)
    requires
        n <= s.len(),
        resolve(split_upto(s, n).drop_last()) is None,
    ensures
        canonical(s) is None,
    decreases s.len() - n,
{
    let p = split_upto(s, n);
    lemma_split_nonempty(s, n);
    if n < s.len() {
        let q = split_upto(s, n + 1);
        if s[n as int] == '/' {
            assert(q.drop_last() =~= p);
            assert(p.drop_last().push(p.last()) =~= p);
            lemma_resolve_push(p.drop_last(), p.last());
        } else {
            assert(q.drop_last() =~= p.drop_last());
        }
        lemma_resolve_escapes_forever(s, n + 1);
    } else {
        assert(p.drop_last().push(p.last()) =~= p);
        lemma_resolve_push(p.drop_last(), p.last());
    }
}

} // verus!
