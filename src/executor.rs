//! A model of the staging tree that decides each operation: which entries
//! exist, with what kind and mode, and which users and groups are defined.
//! An executor applies an operation to disk only after the model accepted
//! it, so every refusal happens before the disk is touched.
use vstd::prelude::*;
use crate::component::Op;
use crate::paths::{canonical, views, StagingPath};

verus! {

/// Mode of a directory created without an explicit mode.
pub const DEFAULT_DIR_MODE: u32 = 0o755;

/// Mode of a file written without an explicit mode.
pub const DEFAULT_FILE_MODE: u32 = 0o644;

/// The errors of the build, one per failure kind.
#[derive(Debug, Clone, Copy, PartialEq, Eq, Structural)]
pub enum BuildError {
    /// A path resolves outside the staging root.
    PathEscape,
    /// Two operations give one path incompatible contents.
    Conflict,
    /// A file or link is written before its parent directory exists.
    MissingParent,
    /// An entry of another kind, or a link to another target, is in the way.
    AlreadyExistsIncompatible,
    /// A file or tree to copy is missing from the source root.
    MissingSourceFile,
    /// A binary to install was not found.
    MissingBinary,
    /// A host tool needed by the disk image build is missing.
    ToolMissing,
    /// The staged content does not fit in the disk image.
    InsufficientSpace,
    /// A user or group name is reused with different numeric ids.
    IdentityConflict,
    /// A custom operation names no registered handler.
    UnknownCustom,
}

/// One entry of the staging tree.
#[derive(Debug)]
pub enum Node {
    Dir(u32),
    File(String, u32),
    Link(String),
}

/// The contents of a staging tree entry.
pub enum NodeV {
    Dir(u32),
    File(Seq<char>, u32),
    Link(Seq<char>),
}

impl View for Node {
    type V = NodeV;

    open spec fn view(&self) -> NodeV {
        match self {
            Node::Dir(m) => NodeV::Dir(*m),
            Node::File(c, m) => NodeV::File(c@, *m),
            Node::Link(t) => NodeV::Link(t@),
        }
    }
}

/// The staging tree and identity tables, as values.
pub struct StagingV {
    /// Entries by key, in the order they were recorded; a later record of
    /// a key replaces an earlier one.
    pub entries: Seq<(Seq<char>, NodeV)>,
    /// Users: name, uid, gid.
    pub users: Seq<(Seq<char>, u32, u32)>,
    /// Groups: name, gid.
    pub groups: Seq<(Seq<char>, u32)>,
    /// Tokens of the registered custom handlers.
    pub handlers: Seq<Seq<char>>,
}

/// The key of a canonical path: its names joined by '/'.
pub open spec fn join(names: Seq<Seq<char>>) -> Seq<char>
    decreases names.len(),
{
    if names.len() == 0 {
        Seq::empty()
    } else if names.len() == 1 {
        names[0]
    } else {
        join(names.drop_last()) + seq!['/'] + names.last()
    }
}

/// The entry recorded last under `key`.
pub open spec fn lookup(entries: Seq<(Seq<char>, NodeV)>, key: Seq<char>) -> Option<NodeV>
    decreases entries.len(),
{
    if entries.len() == 0 {
        None
    } else if entries.last().0 == key {
        Some(entries.last().1)
    } else {
        lookup(entries.drop_last(), key)
    }
}

/// Whether the directory with these names exists; the root always does.
pub open spec fn dir_exists(entries: Seq<(Seq<char>, NodeV)>, names: Seq<Seq<char>>) -> bool {
    names.len() == 0 || lookup(entries, join(names)) matches Some(NodeV::Dir(_))
}

/// Create the first `k` levels of `names` that are missing, as with a
/// recursive directory creation; fails where a level is not a directory.
pub open spec fn mkdir_prefixes(entries: Seq<(Seq<char>, NodeV)>, names: Seq<Seq<char>>, k: nat) -> Option<
    Seq<(Seq<char>, NodeV)>,
>
    decreases k,
{
    if k == 0 {
        Some(entries)
    } else {
        match mkdir_prefixes(entries, names, (k - 1) as nat) {
            None => None,
            Some(e) => {
                let key = join(names.take(k as int));
                match lookup(e, key) {
                    Some(NodeV::Dir(_)) => Some(e),
                    Some(_) => None,
                    None => Some(e.push((key, NodeV::Dir(DEFAULT_DIR_MODE)))),
                }
            },
        }
    }
}

/// The canonical names of a path, or the error for one that escapes.
pub open spec fn names_of(path: Seq<char>) -> Result<Seq<Seq<char>>, BuildError> {
    match canonical(path) {
        Some(n) => Ok(n),
        None => Err(BuildError::PathEscape),
    }
}

/// Create a directory and its missing parents.
pub open spec fn spec_dir(st: StagingV, path: Seq<char>) -> Result<StagingV, BuildError> {
    match names_of(path) {
        Err(e) => Err(e),
        Ok(names) => match mkdir_prefixes(st.entries, names, names.len()) {
            None => Err(BuildError::AlreadyExistsIncompatible),
            Some(e) => Ok(StagingV { entries: e, ..st }),
        },
    }
}

/// Create a directory and its missing parents, then set its mode.
pub open spec fn spec_dir_mode(st: StagingV, path: Seq<char>, mode: u32) -> Result<StagingV, BuildError> {
    match spec_dir(st, path) {
        Err(e) => Err(e),
        Ok(s) => Ok(
            StagingV {
                entries: s.entries.push((join(names_of(path)->Ok_0), NodeV::Dir(mode))),
                ..s
            },
        ),
    }
}

/// Create each directory of the list, in order, stopping at the first
/// failure.
pub open spec fn spec_dirs(st: StagingV, paths: Seq<Seq<char>>) -> Result<StagingV, BuildError>
    decreases paths.len(),
{
    if paths.len() == 0 {
        Ok(st)
    } else {
        match spec_dirs(st, paths.drop_last()) {
            Err(e) => Err(e),
            Ok(s) => spec_dir(s, paths.last()),
        }
    }
}

/// Write a file: its parent must be a directory, and the path must not
/// be a directory or a link.
pub open spec fn spec_write(st: StagingV, path: Seq<char>, content: Seq<char>, mode: u32) -> Result<
    StagingV,
    BuildError,
> {
    match names_of(path) {
        Err(e) => Err(e),
        Ok(names) => if names.len() == 0 {
            Err(BuildError::AlreadyExistsIncompatible)
        } else if !dir_exists(st.entries, names.drop_last()) {
            Err(BuildError::MissingParent)
        } else {
            match lookup(st.entries, join(names)) {
                Some(NodeV::File(_, _)) | None => Ok(
                    StagingV {
                        entries: st.entries.push((join(names), NodeV::File(content, mode))),
                        ..st
                    },
                ),
                Some(_) => Err(BuildError::AlreadyExistsIncompatible),
            }
        },
    }
}

/// Create a symlink: its parent must be a directory; an existing link
/// with the same target stays, anything else in the way is an error.
pub open spec fn spec_symlink(st: StagingV, link: Seq<char>, target: Seq<char>) -> Result<StagingV, BuildError> {
    match names_of(link) {
        Err(e) => Err(e),
        Ok(names) => if names.len() == 0 {
            Err(BuildError::AlreadyExistsIncompatible)
        } else if !dir_exists(st.entries, names.drop_last()) {
            Err(BuildError::MissingParent)
        } else {
            match lookup(st.entries, join(names)) {
                None => Ok(
                    StagingV { entries: st.entries.push((join(names), NodeV::Link(target))), ..st },
                ),
                Some(NodeV::Link(t)) => if t == target {
                    Ok(st)
                } else {
                    Err(BuildError::AlreadyExistsIncompatible)
                },
                Some(_) => Err(BuildError::AlreadyExistsIncompatible),
            }
        },
    }
}

/// The ids recorded for a user name.
pub open spec fn find_user(users: Seq<(Seq<char>, u32, u32)>, name: Seq<char>) -> Option<(u32, u32)>
    decreases users.len(),
{
    if users.len() == 0 {
        None
    } else if users.last().0 == name {
        Some((users.last().1, users.last().2))
    } else {
        find_user(users.drop_last(), name)
    }
}

/// The id recorded for a group name.
pub open spec fn find_group(groups: Seq<(Seq<char>, u32)>, name: Seq<char>) -> Option<u32>
    decreases groups.len(),
{
    if groups.len() == 0 {
        None
    } else if groups.last().0 == name {
        Some(groups.last().1)
    } else {
        find_group(groups.drop_last(), name)
    }
}

/// Add a user, or accept it again with the same ids.
pub open spec fn spec_user(st: StagingV, name: Seq<char>, uid: u32, gid: u32) -> Result<StagingV, BuildError> {
    match find_user(st.users, name) {
        None => Ok(StagingV { users: st.users.push((name, uid, gid)), ..st }),
        Some(ids) => if ids == (uid, gid) {
            Ok(st)
        } else {
            Err(BuildError::IdentityConflict)
        },
    }
}

/// Add a group, or accept it again with the same id.
pub open spec fn spec_group(st: StagingV, name: Seq<char>, gid: u32) -> Result<StagingV, BuildError> {
    match find_group(st.groups, name) {
        None => Ok(StagingV { groups: st.groups.push((name, gid)), ..st }),
        Some(g) => if g == gid {
            Ok(st)
        } else {
            Err(BuildError::IdentityConflict)
        },
    }
}

/// Check that every path of the list stays inside the staging root.
pub open spec fn spec_all_inside(st: StagingV, paths: Seq<Seq<char>>) -> Result<StagingV, BuildError>
    decreases paths.len(),
{
    if paths.len() == 0 {
        Ok(st)
    } else {
        match spec_all_inside(st, paths.drop_last()) {
            Err(e) => Err(e),
            Ok(s) => match names_of(paths.last()) {
                Err(e) => Err(e),
                Ok(_) => Ok(s),
            },
        }
    }
}

/// Decide one operation against the staging model. Copies and binary
/// installs leave the model as it is: their sources live outside it.
pub open spec fn spec_apply(st: StagingV, op: Op) -> Result<StagingV, BuildError> {
    match op {
        Op::Dir(p) => spec_dir(st, p@),
        Op::DirMode(p, m) => spec_dir_mode(st, p@, m),
        Op::Dirs(ps) => spec_dirs(st, views(ps@)),
        Op::WriteFile(p, c) => spec_write(st, p@, c@, DEFAULT_FILE_MODE),
        Op::WriteFileMode(p, c, m) => spec_write(st, p@, c@, m),
        Op::Symlink(l, t) => spec_symlink(st, l@, t@),
        Op::CopyFile(p) => spec_all_inside(st, seq![p@]),
        Op::CopyTree(p) => spec_all_inside(st, seq![p@]),
        Op::User { name, uid, gid, home, shell } => spec_user(st, name@, uid, gid),
        Op::Group { name, gid } => spec_group(st, name@, gid),
        Op::Bin(n) => spec_all_inside(st, seq![n@]),
        Op::Sbin(n) => spec_all_inside(st, seq![n@]),
        Op::Bins(ns) => spec_all_inside(st, views(ns@)),
        Op::Sbins(ns) => spec_all_inside(st, views(ns@)),
        Op::Custom(t) => if st.handlers.contains(t@) {
            Ok(st)
        } else {
            Err(BuildError::UnknownCustom)
        },
    }
}

/// `r` and `after` are what applying an operation gave, where the model
/// says `expected`: the new state on success, the same error on failure.
pub open spec fn applied(expected: Result<StagingV, BuildError>, r: Result<(), BuildError>, after: StagingV) -> bool {
    match expected {
        Ok(s) => r is Ok && after == s,
        Err(e) => r == Err::<(), BuildError>(e),
    }
}

/// The same tables with other entries.
pub open spec fn with_entries(st: StagingV, entries: Seq<(Seq<char>, NodeV)>) -> StagingV {
    StagingV { entries, ..st }
}

/// The staging model.
#[derive(Debug)]
pub struct Staging {
    pub entries: Vec<(String, Node)>,
    pub users: Vec<(String, u32, u32)>,
    pub groups: Vec<(String, u32)>,
    pub handlers: Vec<String>,
}

impl View for Staging {
    type V = StagingV;

    open spec fn view(&self) -> StagingV {
        StagingV {
            entries: self.entries@.map_values(|e: (String, Node)| (e.0@, e.1@)),
            users: self.users@.map_values(|u: (String, u32, u32)| (u.0@, u.1, u.2)),
            groups: self.groups@.map_values(|g: (String, u32)| (g.0@, g.1)),
            handlers: views(self.handlers@),
        }
    }
}

proof fn lemma_lookup_prefix(entries: Seq<(Seq<char>, NodeV)>, key: Seq<char>, j: int)
    requires
        0 < j <= entries.len(),
        entries[j - 1].0 != key,
    ensures
        lookup(entries.subrange(0, j), key) == lookup(entries.subrange(0, j - 1), key),
{
    assert(entries.subrange(0, j).drop_last() =~= entries.subrange(0, j - 1));
}

proof fn lemma_lookup_hit(entries: Seq<(Seq<char>, NodeV)>, key: Seq<char>, j: int)
    requires
        0 < j <= entries.len(),
        entries[j - 1].0 == key,
    ensures
        lookup(entries.subrange(0, j), key) == Some(entries[j - 1].1),
{
}

proof fn lemma_join_step(ns: Seq<Seq<char>>, k: int)
    requires
        0 <= k < ns.len(),
    ensures
        join(ns.take(k + 1)) == if k == 0 {
            ns[0]
        } else {
            join(ns.take(k)) + seq!['/'] + ns[k]
        },
{
    assert(ns.take(k + 1).drop_last() =~= ns.take(k));
}

proof fn lemma_mkdir_none(entries: Seq<(Seq<char>, NodeV)>, names: Seq<Seq<char>>, k: nat, n: nat)
    requires
        k <= n,
        mkdir_prefixes(entries, names, k) is None,
    ensures
        mkdir_prefixes(entries, names, n) is None,
    decreases n - k,
{
    if k < n {
        lemma_mkdir_none(entries, names, k + 1, n);
    }
}

impl Staging {
    /// An empty staging tree with the given custom handlers registered.
    pub fn new(handlers: Vec<String>) -> (r: Staging)
        ensures
            r@.entries.len() == 0,
            r@.users.len() == 0,
            r@.groups.len() == 0,
            r@.handlers == views(handlers@),
    {
        let r = Staging { entries: Vec::new(), users: Vec::new(), groups: Vec::new(), handlers };
        assert(r@.entries =~= Seq::empty());
        assert(r@.users =~= Seq::empty());
        assert(r@.groups =~= Seq::empty());
        r
    }

    /// The position of the entry recorded last under `key`.
    fn find(&self, key: &String) -> (r: Option<usize>)
        ensures
            r is None ==> lookup(self@.entries, key@) is None,
            r matches Some(i) ==> i < self.entries@.len() && lookup(self@.entries, key@) == Some(
                self@.entries[i as int].1,
            ),
    {
        let ghost ev = self@.entries;
        let mut j: usize = self.entries.len();
        assert(ev.subrange(0, j as int) =~= ev);
        while j > 0
            invariant
                j <= self.entries@.len(),
                ev == self@.entries,
                lookup(ev, key@) == lookup(ev.subrange(0, j as int), key@),
            decreases j,
        {
            if self.entries[j - 1].0 == *key {
                proof {
                    lemma_lookup_hit(ev, key@, j as int);
                }
                return Some(j - 1);
            }
            proof {
                lemma_lookup_prefix(ev, key@, j as int);
            }
            j = j - 1;
        }
        None
    }

    /// Create the missing levels of `names`; false where a level is not a
    /// directory.
    fn mkdir_all(&mut self, names: &Vec<String>) -> (ok: bool)
        ensures
            ok == (mkdir_prefixes(old(self)@.entries, views(names@), names@.len()) is Some),
            ok ==> final(self)@ == with_entries(
                old(self)@,
                mkdir_prefixes(old(self)@.entries, views(names@), names@.len())->Some_0,
            ),
    {
        let ghost ns = views(names@);
        let ghost e0 = self@.entries;
        let mut key = String::new();
        let mut k: usize = 0;
        assert(ns.take(0) =~= Seq::<Seq<char>>::empty());
        while k < names.len()
            invariant
                k <= names@.len(),
                ns == views(names@),
                e0 == old(self)@.entries,
                mkdir_prefixes(e0, ns, k as nat) == Some(self@.entries),
                key@ == join(ns.take(k as int)),
                self@ == with_entries(old(self)@, self@.entries),
            decreases names@.len() - k,
        {
            proof {
                lemma_join_step(ns, k as int);
                reveal_strlit("/");
            }
            if k > 0 {
                key.append("/");
            }
            key.append(names[k].as_str());
            assert(key@ =~= join(ns.take(k + 1)));
            match self.find(&key) {
                Some(i) => {
                    match &self.entries[i].1 {
                        Node::Dir(_) => {
                            assert(self@.entries[i as int].1 == self.entries@[i as int].1@);
                        },
                        _ => {
                            proof {
                                assert(self@.entries[i as int].1 == self.entries@[i as int].1@);
                                assert(mkdir_prefixes(e0, ns, (k + 1) as nat) is None);
                                lemma_mkdir_none(e0, ns, (k + 1) as nat, names@.len());
                                assert(e0 == old(self)@.entries);
                            }
                            return false;
                        },
                    }
                },
                None => {
                    self.entries.push((key.clone(), Node::Dir(DEFAULT_DIR_MODE)));
                    assert(self@.entries =~= mkdir_prefixes(e0, ns, (k + 1) as nat)->Some_0);
                },
            }
            k = k + 1;
        }
        proof {
            assert(self@ =~= with_entries(old(self)@, self@.entries));
        }
        true
    }
}

/// The canonical names of `path`, or `PathEscape`.
pub fn resolve_names(path: &str) -> (r: Result<Vec<String>, BuildError>)
    ensures
        r matches Ok(n) ==> names_of(path@) == Ok::<Seq<Seq<char>>, BuildError>(views(n@)),
        r matches Err(e) ==> names_of(path@) == Err::<Seq<Seq<char>>, BuildError>(e),
{
    match StagingPath::new(path) {
        Ok(p) => Ok(p.names),
        Err(_) => Err(BuildError::PathEscape),
    }
}

/// The key of the first `k` names.
pub fn join_prefix(names: &Vec<String>, k: usize) -> (r: String)
    requires
        k <= names@.len(),
    ensures
        r@ == join(views(names@).take(k as int)),
{
    let ghost ns = views(names@);
    let mut key = String::new();
    let mut j: usize = 0;
    assert(ns.take(0) =~= Seq::<Seq<char>>::empty());
    while j < k
        invariant
            j <= k <= names@.len(),
            ns == views(names@),
            key@ == join(ns.take(j as int)),
        decreases k - j,
    {
        proof {
            lemma_join_step(ns, j as int);
            reveal_strlit("/");
        }
        if j > 0 {
            key.append("/");
        }
        key.append(names[j].as_str());
        assert(key@ =~= join(ns.take(j + 1)));
        j = j + 1;
    }
    key
}

impl Staging {
    /// Whether the directory with these names (the first `k` of `names`)
    /// exists.
    fn has_dir(&self, names: &Vec<String>, k: usize) -> (r: bool)
        requires
            k <= names@.len(),
        ensures
            r == dir_exists(self@.entries, views(names@).take(k as int)),
    {
        if k == 0 {
            return true;
        }
        let key = join_prefix(names, k);
        match self.find(&key) {
            Some(i) => {
                assert(self@.entries[i as int].1 == self.entries@[i as int].1@);
                match &self.entries[i].1 {
                    Node::Dir(_) => true,
                    _ => false,
                }
            },
            None => false,
        }
    }

    /// Create a directory and its missing parents.
    pub fn apply_dir(&mut self, path: &str) -> (r: Result<(), BuildError>)
        ensures
            applied(spec_dir(old(self)@, path@), r, final(self)@),
    {
        let names = match resolve_names(path) {
            Ok(n) => n,
            Err(e) => return Err(e),
        };
        if self.mkdir_all(&names) {
            Ok(())
        } else {
            Err(BuildError::AlreadyExistsIncompatible)
        }
    }

    /// Create a directory and its missing parents, then set its mode; a
    /// later mode replaces an earlier one.
    pub fn apply_dir_mode(&mut self, path: &str, mode: u32) -> (r: Result<(), BuildError>)
        ensures
            applied(spec_dir_mode(old(self)@, path@, mode), r, final(self)@),
    {
        let names = match resolve_names(path) {
            Ok(n) => n,
            Err(e) => return Err(e),
        };
        if !self.mkdir_all(&names) {
            return Err(BuildError::AlreadyExistsIncompatible);
        }
        let key = join_prefix(&names, names.len());
        assert(views(names@).take(names@.len() as int) =~= views(names@));
        let ghost before = self@;
        self.entries.push((key, Node::Dir(mode)));
        assert(self@.entries =~= before.entries.push((join(views(names@)), NodeV::Dir(mode))));
        assert(self@ =~= spec_dir_mode(old(self)@, path@, mode)->Ok_0);
        Ok(())
    }

    /// Create each directory of the list in order, stopping at the first
    /// failure.
    pub fn apply_dirs(&mut self, paths: &Vec<String>) -> (r: Result<(), BuildError>)
        ensures
            applied(spec_dirs(old(self)@, views(paths@)), r, final(self)@),
    {
        let ghost ps = views(paths@);
        let mut i: usize = 0;
        assert(ps.take(0).len() == 0);
        while i < paths.len()
            invariant
                i <= paths@.len(),
                ps == views(paths@),
                spec_dirs(old(self)@, ps.take(i as int)) == Ok::<StagingV, BuildError>(self@),
            decreases paths@.len() - i,
        {
            assert(ps.take(i + 1).drop_last() =~= ps.take(i as int));
            let r = self.apply_dir(paths[i].as_str());
            if let Err(e) = r {
                proof {
                    lemma_dirs_err(old(self)@, ps, (i + 1) as nat, e);
                    assert(ps.take(paths@.len() as int) =~= ps);
                }
                return Err(e);
            }
            i = i + 1;
        }
        assert(ps.take(paths@.len() as int) =~= ps);
        Ok(())
    }

    /// Write a file whose parent directory exists.
    pub fn apply_write(&mut self, path: &str, content: &str, mode: u32) -> (r: Result<(), BuildError>)
        ensures
            applied(spec_write(old(self)@, path@, content@, mode), r, final(self)@),
    {
        let names = match resolve_names(path) {
            Ok(n) => n,
            Err(e) => return Err(e),
        };
        let n = names.len();
        if n == 0 {
            return Err(BuildError::AlreadyExistsIncompatible);
        }
        assert(views(names@).take(n - 1) =~= views(names@).drop_last());
        assert(views(names@).take(n as int) =~= views(names@));
        if !self.has_dir(&names, n - 1) {
            return Err(BuildError::MissingParent);
        }
        let key = join_prefix(&names, n);
        match self.find(&key) {
            Some(i) => {
                assert(self@.entries[i as int].1 == self.entries@[i as int].1@);
                match &self.entries[i].1 {
                    Node::File(_, _) => {},
                    _ => return Err(BuildError::AlreadyExistsIncompatible),
                }
            },
            None => {},
        }
        self.entries.push((key, Node::File(content.to_owned(), mode)));
        assert(self@.entries =~= old(self)@.entries.push((join(views(names@)), NodeV::File(content@, mode))));
        assert(self@ =~= spec_write(old(self)@, path@, content@, mode)->Ok_0);
        Ok(())
    }

    /// Create a symlink whose parent directory exists; an equal link may
    /// already be there.
    pub fn apply_symlink(&mut self, link: &str, target: &str) -> (r: Result<(), BuildError>)
        ensures
            applied(spec_symlink(old(self)@, link@, target@), r, final(self)@),
    {
        let names = match resolve_names(link) {
            Ok(n) => n,
            Err(e) => return Err(e),
        };
        let n = names.len();
        if n == 0 {
            return Err(BuildError::AlreadyExistsIncompatible);
        }
        assert(views(names@).take(n - 1) =~= views(names@).drop_last());
        assert(views(names@).take(n as int) =~= views(names@));
        if !self.has_dir(&names, n - 1) {
            return Err(BuildError::MissingParent);
        }
        let key = join_prefix(&names, n);
        match self.find(&key) {
            Some(i) => {
                assert(self@.entries[i as int].1 == self.entries@[i as int].1@);
                match &self.entries[i].1 {
                    Node::Link(t) => {
                        if t.as_str().unicode_len() == target.unicode_len() && same_chars(t.as_str(), target) {
                            return Ok(());
                        }
                        return Err(BuildError::AlreadyExistsIncompatible);
                    },
                    _ => return Err(BuildError::AlreadyExistsIncompatible),
                }
            },
            None => {},
        }
        self.entries.push((key, Node::Link(target.to_owned())));
        assert(self@.entries =~= old(self)@.entries.push((join(views(names@)), NodeV::Link(target@))));
        assert(self@ =~= spec_symlink(old(self)@, link@, target@)->Ok_0);
        Ok(())
    }
}

/// Whether two strings hold the same characters.
fn same_chars(a: &str, b: &str) -> (r: bool)
    ensures
        r == (a@ == b@),
{
    let n = a.unicode_len();
    if n != b.unicode_len() {
        return false;
    }
    let mut i: usize = 0;
    while i < n
        invariant
            n == a@.len() == b@.len(),
            i <= n,
            a@.subrange(0, i as int) == b@.subrange(0, i as int),
        decreases n - i,
    {
        if a.get_char(i) != b.get_char(i) {
            return false;
        }
        assert(a@.subrange(0, i + 1) =~= a@.subrange(0, i as int).push(a@[i as int]));
        assert(b@.subrange(0, i + 1) =~= b@.subrange(0, i as int).push(b@[i as int]));
        i = i + 1;
    }
    assert(a@.subrange(0, n as int) =~= a@);
    assert(b@.subrange(0, n as int) =~= b@);
    true
}

proof fn lemma_dirs_err(st: StagingV, ps: Seq<Seq<char>>, k: nat, e: BuildError)
    requires
        k <= ps.len(),
        spec_dirs(st, ps.take(k as int)) == Err::<StagingV, BuildError>(e),
    ensures
        spec_dirs(st, ps) == Err::<StagingV, BuildError>(e),
    decreases ps.len() - k,
{
    if k < ps.len() {
        assert(ps.take((k + 1) as int).drop_last() =~= ps.take(k as int));
        lemma_dirs_err(st, ps, k + 1, e);
    } else {
        assert(ps.take(k as int) =~= ps);
    }
}

impl Staging {
    /// The ids recorded for a user name.
    fn user_ids(&self, name: &String) -> (r: Option<(u32, u32)>)
        ensures
            r == find_user(self@.users, name@),
    {
        let ghost us = self@.users;
        let mut j: usize = self.users.len();
        assert(us.subrange(0, j as int) =~= us);
        while j > 0
            invariant
                j <= self.users@.len(),
                us == self@.users,
                find_user(us, name@) == find_user(us.subrange(0, j as int), name@),
            decreases j,
        {
            assert(us.subrange(0, j as int).drop_last() =~= us.subrange(0, j - 1));
            if self.users[j - 1].0 == *name {
                return Some((self.users[j - 1].1, self.users[j - 1].2));
            }
            j = j - 1;
        }
        None
    }

    /// The id recorded for a group name.
    fn group_id(&self, name: &String) -> (r: Option<u32>)
        ensures
            r == find_group(self@.groups, name@),
    {
        let ghost gs = self@.groups;
        let mut j: usize = self.groups.len();
        assert(gs.subrange(0, j as int) =~= gs);
        while j > 0
            invariant
                j <= self.groups@.len(),
                gs == self@.groups,
                find_group(gs, name@) == find_group(gs.subrange(0, j as int), name@),
            decreases j,
        {
            assert(gs.subrange(0, j as int).drop_last() =~= gs.subrange(0, j - 1));
            if self.groups[j - 1].0 == *name {
                return Some(self.groups[j - 1].1);
            }
            j = j - 1;
        }
        None
    }

    /// Add a user, or accept the same user again.
    pub fn apply_user(&mut self, name: &String, uid: u32, gid: u32) -> (r: Result<(), BuildError>)
        ensures
            applied(spec_user(old(self)@, name@, uid, gid), r, final(self)@),
    {
        match self.user_ids(name) {
            Some((u, g)) => {
                if u == uid && g == gid {
                    Ok(())
                } else {
                    Err(BuildError::IdentityConflict)
                }
            },
            None => {
                self.users.push((name.clone(), uid, gid));
                assert(self@.users =~= old(self)@.users.push((name@, uid, gid)));
                assert(self@ =~= spec_user(old(self)@, name@, uid, gid)->Ok_0);
                Ok(())
            },
        }
    }

    /// Add a group, or accept the same group again.
    pub fn apply_group(&mut self, name: &String, gid: u32) -> (r: Result<(), BuildError>)
        ensures
            applied(spec_group(old(self)@, name@, gid), r, final(self)@),
    {
        match self.group_id(name) {
            Some(g) => {
                if g == gid {
                    Ok(())
                } else {
                    Err(BuildError::IdentityConflict)
                }
            },
            None => {
                self.groups.push((name.clone(), gid));
                assert(self@.groups =~= old(self)@.groups.push((name@, gid)));
                assert(self@ =~= spec_group(old(self)@, name@, gid)->Ok_0);
                Ok(())
            },
        }
    }

    /// Whether a custom handler is registered for `token`.
    pub fn has_handler(&self, token: &String) -> (r: bool)
        ensures
            r == self@.handlers.contains(token@),
    {
        let mut i: usize = 0;
        while i < self.handlers.len()
            invariant
                i <= self.handlers@.len(),
                forall|j: int| 0 <= j < i ==> self@.handlers[j] != token@,
            decreases self.handlers@.len() - i,
        {
            if self.handlers[i] == *token {
                assert(self@.handlers[i as int] == token@);
                return true;
            }
            i = i + 1;
        }
        false
    }

    /// Decide one operation: on success the model holds its effect; on
    /// failure the error says why.
    pub fn apply(&mut self, op: &Op) -> (r: Result<(), BuildError>)
        ensures
            applied(spec_apply(old(self)@, *op), r, final(self)@),
    {
        match op {
            Op::Dir(p) => self.apply_dir(p.as_str()),
            Op::DirMode(p, m) => self.apply_dir_mode(p.as_str(), *m),
            Op::Dirs(ps) => self.apply_dirs(ps),
            Op::WriteFile(p, c) => self.apply_write(p.as_str(), c.as_str(), DEFAULT_FILE_MODE),
            Op::WriteFileMode(p, c, m) => self.apply_write(p.as_str(), c.as_str(), *m),
            Op::Symlink(l, t) => self.apply_symlink(l.as_str(), t.as_str()),
            Op::CopyFile(p) => check_one(p, Ghost(self@)),
            Op::CopyTree(p) => check_one(p, Ghost(self@)),
            Op::User { name, uid, gid, .. } => self.apply_user(name, *uid, *gid),
            Op::Group { name, gid } => self.apply_group(name, *gid),
            Op::Bin(n) => check_one(n, Ghost(self@)),
            Op::Sbin(n) => check_one(n, Ghost(self@)),
            Op::Bins(ns) => check_all(ns, Ghost(self@)),
            Op::Sbins(ns) => check_all(ns, Ghost(self@)),
            Op::Custom(t) => {
                if self.has_handler(t) {
                    Ok(())
                } else {
                    Err(BuildError::UnknownCustom)
                }
            },
        }
    }
}

/// Check that one path stays inside the staging root.
fn check_one(path: &String, Ghost(st): Ghost<StagingV>) -> (r: Result<(), BuildError>)
    ensures
        applied(spec_all_inside(st, seq![path@]), r, st),
{
    assert(seq![path@].drop_last() =~= Seq::<Seq<char>>::empty());
    assert(seq![path@].last() == path@);
    assert(spec_all_inside(st, Seq::empty()) == Ok::<StagingV, BuildError>(st));
    match resolve_names(path.as_str()) {
        Ok(_) => Ok(()),
        Err(e) => Err(e),
    }
}

/// Check that every path of the list stays inside the staging root.
fn check_all(paths: &Vec<String>, Ghost(st): Ghost<StagingV>) -> (r: Result<(), BuildError>)
    ensures
        applied(spec_all_inside(st, views(paths@)), r, st),
{
    let ghost ps = views(paths@);
    let mut i: usize = 0;
    assert(ps.take(0).len() == 0);
    while i < paths.len()
        invariant
            i <= paths@.len(),
            ps == views(paths@),
            spec_all_inside(st, ps.take(i as int)) == Ok::<StagingV, BuildError>(st),
        decreases paths@.len() - i,
    {
        assert(ps.take(i + 1).drop_last() =~= ps.take(i as int));
        match resolve_names(paths[i].as_str()) {
            Ok(_) => {},
            Err(e) => {
                proof {
                    lemma_inside_err(st, ps, (i + 1) as nat, e);
                }
                return Err(e);
            },
        }
        i = i + 1;
    }
    assert(ps.take(paths@.len() as int) =~= ps);
    Ok(())
}

proof fn lemma_inside_err(st: StagingV, ps: Seq<Seq<char>>, k: nat, e: BuildError)
    requires
        k <= ps.len(),
        spec_all_inside(st, ps.take(k as int)) == Err::<StagingV, BuildError>(e),
    ensures
        spec_all_inside(st, ps) == Err::<StagingV, BuildError>(e),
    decreases ps.len() - k,
{
    if k < ps.len() {
        assert(ps.take((k + 1) as int).drop_last() =~= ps.take(k as int));
        lemma_inside_err(st, ps, k + 1, e);
    } else {
        assert(ps.take(k as int) =~= ps);
    }
}

/// The entry under `key` is a directory.
pub open spec fn is_dir_at(entries: Seq<(Seq<char>, NodeV)>, key: Seq<char>) -> bool {
    lookup(entries, key) matches Some(NodeV::Dir(_))
}

proof fn lemma_lookup_push(entries: Seq<(Seq<char>, NodeV)>, k: Seq<char>, v: NodeV, key: Seq<char>)
    ensures
        lookup(entries.push((k, v)), key) == if k == key {
            Some(v)
        } else {
            lookup(entries, key)
        },
{
    assert(entries.push((k, v)).drop_last() =~= entries);
}

/// After a recursive directory creation, directories stay directories and
/// every level created is one.
proof fn lemma_mkdir_result(entries: Seq<(Seq<char>, NodeV)>, names: Seq<Seq<char>>, k: nat)
    requires
        mkdir_prefixes(entries, names, k) is Some,
    ensures
        forall|key: Seq<char>|
            is_dir_at(entries, key) ==> #[trigger] is_dir_at(mkdir_prefixes(entries, names, k)->Some_0, key),
        forall|j: int|
            1 <= j <= k ==> #[trigger] is_dir_at(mkdir_prefixes(entries, names, k)->Some_0, join(names.take(j))),
    decreases k,
{
    if k > 0 {
        lemma_mkdir_result(entries, names, (k - 1) as nat);
        let e1 = mkdir_prefixes(entries, names, (k - 1) as nat)->Some_0;
        let key = join(names.take(k as int));
        let e2 = mkdir_prefixes(entries, names, k)->Some_0;
        assert forall|x: Seq<char>| #[trigger] is_dir_at(e1, x) implies is_dir_at(e2, x) by {
            if lookup(e1, key) is None {
                lemma_lookup_push(e1, key, NodeV::Dir(DEFAULT_DIR_MODE), x);
            }
        }
        assert(is_dir_at(e2, key)) by {
            if lookup(e1, key) is None {
                lemma_lookup_push(e1, key, NodeV::Dir(DEFAULT_DIR_MODE), key);
            }
        }
        assert forall|x: Seq<char>| is_dir_at(entries, x) implies #[trigger] is_dir_at(e2, x) by {
            assert(is_dir_at(e1, x));
        }
        assert forall|j: int| 1 <= j <= k implies #[trigger] is_dir_at(e2, join(names.take(j))) by {
            if j < k {
                assert(is_dir_at(e1, join(names.take(j))));
            }
        }
    }
}

/// A recursive directory creation over levels that all exist changes nothing.
proof fn lemma_mkdir_noop(entries: Seq<(Seq<char>, NodeV)>, names: Seq<Seq<char>>, k: nat)
    requires
        forall|j: int| 1 <= j <= k ==> #[trigger] is_dir_at(entries, join(names.take(j))),
    ensures
        mkdir_prefixes(entries, names, k) == Some(entries),
    decreases k,
{
    if k > 0 {
        lemma_mkdir_noop(entries, names, (k - 1) as nat);
        assert(is_dir_at(entries, join(names.take(k as int))));
    }
}

/// Creating a directory twice succeeds both times, and the second time
/// changes nothing.
pub proof fn lemma_dir_idempotent(st: StagingV, path: Seq<char>)
    requires
        spec_dir(st, path) is Ok,
    ensures
        spec_dir(spec_dir(st, path)->Ok_0, path) == spec_dir(st, path),
{
    let names = names_of(path)->Ok_0;
    let n = names.len();
    lemma_mkdir_result(st.entries, names, n);
    let e2 = mkdir_prefixes(st.entries, names, n)->Some_0;
    lemma_mkdir_noop(e2, names, n);
    let s1 = spec_dir(st, path)->Ok_0;
    assert(s1.entries == e2);
    assert(spec_dir(s1, path) == Ok::<StagingV, BuildError>(s1));
}

/// Setting a directory's mode again succeeds, and the later mode is the
/// one the directory has.
pub proof fn lemma_dir_mode_last_wins(st: StagingV, path: Seq<char>, first: u32, second: u32)
    requires
        spec_dir_mode(st, path, first) is Ok,
    ensures
        spec_dir_mode(spec_dir_mode(st, path, first)->Ok_0, path, second) is Ok,
        lookup(
            spec_dir_mode(spec_dir_mode(st, path, first)->Ok_0, path, second)->Ok_0.entries,
            join(names_of(path)->Ok_0),
        ) == Some(NodeV::Dir(second)),
{
    let names = names_of(path)->Ok_0;
    let n = names.len();
    let key = join(names);
    lemma_mkdir_result(st.entries, names, n);
    let e2 = mkdir_prefixes(st.entries, names, n)->Some_0;
    let s1 = spec_dir_mode(st, path, first)->Ok_0;
    assert(s1.entries == e2.push((key, NodeV::Dir(first))));
    assert forall|j: int| 1 <= j <= n implies #[trigger] is_dir_at(s1.entries, join(names.take(j))) by {
        assert(is_dir_at(e2, join(names.take(j))));
        lemma_lookup_push(e2, key, NodeV::Dir(first), join(names.take(j)));
    }
    lemma_mkdir_noop(s1.entries, names, n);
    let s2 = spec_dir_mode(s1, path, second)->Ok_0;
    assert(s2.entries == s1.entries.push((key, NodeV::Dir(second))));
    lemma_lookup_push(s1.entries, key, NodeV::Dir(second), key);
}

/// Writing a file whose parent directory does not exist fails with
/// `MissingParent`.
pub proof fn lemma_write_needs_parent(st: StagingV, path: Seq<char>, content: Seq<char>, mode: u32)
    requires
        names_of(path) is Ok,
        names_of(path)->Ok_0.len() > 0,
        !dir_exists(st.entries, names_of(path)->Ok_0.drop_last()),
    ensures
        spec_write(st, path, content, mode) == Err::<StagingV, BuildError>(BuildError::MissingParent),
{
}

} // verus!
