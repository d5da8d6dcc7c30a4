//! Declarative components: what filesystem state must exist, not how to
//! create it. An executor interprets these definitions.
use vstd::prelude::*;

verus! {

/// Build phases, in execution order.
#[derive(Debug, Clone, Copy, PartialEq, Eq, Structural, PartialOrd, Ord, Hash)]
pub enum Phase {
    /// Create FHS directories and merged-usr symlinks.
    Filesystem,
    /// Copy shells, coreutils, essential binaries.
    Binaries,
    /// Init system setup.
    Init,
    /// Message bus.
    MessageBus,
    /// System services (network, time, ssh).
    Services,
    /// /etc configuration files.
    Config,
    /// Package manager, bootloader tools.
    Packages,
    /// Firmware and hardware support.
    Firmware,
    /// Final cleanup and setup.
    Final,
}

impl Phase {
    /// The rank that orders phases: 1 for `Filesystem` up to 9 for `Final`.
    pub open spec fn spec_rank(self) -> nat {
        match self {
            Phase::Filesystem => 1,
            Phase::Binaries => 2,
            Phase::Init => 3,
            Phase::MessageBus => 4,
            Phase::Services => 5,
            Phase::Config => 6,
            Phase::Packages => 7,
            Phase::Firmware => 8,
            Phase::Final => 9,
        }
    }

    /// The display name of the phase.
    pub open spec fn spec_name(self) -> Seq<char> {
        match self {
            Phase::Filesystem => "Filesystem"@,
            Phase::Binaries => "Binaries"@,
            Phase::Init => "Init"@,
            Phase::MessageBus => "MessageBus"@,
            Phase::Services => "Services"@,
            Phase::Config => "Config"@,
            Phase::Packages => "Packages"@,
            Phase::Firmware => "Firmware"@,
            Phase::Final => "Final"@,
        }
    }

    pub fn rank(&self) -> (r: u8)
        ensures
            r as nat == self.spec_rank(),
            1 <= r <= 9,
    {
        match self {
            Phase::Filesystem => 1,
            Phase::Binaries => 2,
            Phase::Init => 3,
            Phase::MessageBus => 4,
            Phase::Services => 5,
            Phase::Config => 6,
            Phase::Packages => 7,
            Phase::Firmware => 8,
            Phase::Final => 9,
        }
    }

    /// The display name of the phase, as a new string.
    pub fn to_string(&self) -> (r: String)
        ensures
            r@ == self.spec_name(),
    {
        match self {
            Phase::Filesystem => String::from_str("Filesystem"),
            Phase::Binaries => String::from_str("Binaries"),
            Phase::Init => String::from_str("Init"),
            Phase::MessageBus => String::from_str("MessageBus"),
            Phase::Services => String::from_str("Services"),
            Phase::Config => String::from_str("Config"),
            Phase::Packages => String::from_str("Packages"),
            Phase::Firmware => String::from_str("Firmware"),
            Phase::Final => String::from_str("Final"),
        }
    }
}

/// A declarative, distro-agnostic filesystem or identity mutation.
///
/// Distro-specific operations use [`Op::Custom`], whose token the core never
/// interprets.
#[derive(Debug, Clone, PartialEq, Eq)]
pub enum Op {
    /// Create a directory and its missing parents.
    Dir(String),
    /// Create a directory with the given permission bits.
    DirMode(String, u32),
    /// Create several directories, in list order.
    Dirs(Vec<String>),
    /// Write a file with the given content.
    WriteFile(String, String),
    /// Write a file with the given content and permission bits.
    WriteFileMode(String, String, u32),
    /// Create a symlink (link path, target).
    Symlink(String, String),
    /// Copy one file from the source root to the same path in staging.
    CopyFile(String),
    /// Copy a directory tree from the source root, keeping symlinks.
    CopyTree(String),
    /// Ensure a user exists.
    User { name: String, uid: u32, gid: u32, home: String, shell: String },
    /// Ensure a group exists.
    Group { name: String, gid: u32 },
    /// Install a binary with its libraries to /usr/bin.
    Bin(String),
    /// Install a binary to /usr/sbin.
    Sbin(String),
    /// Install several binaries to /usr/bin.
    Bins(Vec<String>),
    /// Install several binaries to /usr/sbin.
    Sbins(Vec<String>),
    /// Distro-specific operation, dispatched by token.
    Custom(String),
}

/// `v` holds exactly the strings of `s`, in order.
pub open spec fn strings_match(v: Seq<String>, s: Seq<&str>) -> bool {
    v.len() == s.len() && forall|i: int| 0 <= i < v.len() ==> (#[trigger] v[i])@ == s[i]@
}

fn owned_strings(items: &[&str]) -> (r: Vec<String>)
    ensures
        strings_match(r@, items@),
{
    let mut r: Vec<String> = Vec::new();
    let mut i: usize = 0;
    while i < items.len()
        invariant
            i <= items@.len(),
            strings_match(r@, items@.subrange(0, i as int)),
        decreases items@.len() - i,
    {
        r.push(items[i].to_owned());
        i = i + 1;
    }
    assert(items@.subrange(0, i as int) =~= items@);
    r
}

fn copy_strings(items: &Vec<String>) -> (r: Vec<String>)
    ensures
        r@ == items@,
{
    let mut r: Vec<String> = Vec::new();
    let mut i: usize = 0;
    while i < items.len()
        invariant
            i <= items@.len(),
            r@ == items@.subrange(0, i as int),
        decreases items@.len() - i,
    {
        r.push(items[i].clone());
        i = i + 1;
        assert(r@ =~= items@.subrange(0, i as int));
    }
    assert(items@.subrange(0, i as int) =~= items@);
    r
}

impl Op {
    /// The two operations describe the same mutation: equal fields, and
    /// equal contents for the list fields.
    pub open spec fn same_as(self, other: Op) -> bool {
        match (self, other) {
            (Op::Dirs(a), Op::Dirs(b)) => a@ == b@,
            (Op::Bins(a), Op::Bins(b)) => a@ == b@,
            (Op::Sbins(a), Op::Sbins(b)) => a@ == b@,
            _ => self == other,
        }
    }

    /// An identical copy of the operation.
    pub fn duplicate(&self) -> (r: Op)
        ensures
            r.same_as(*self),
    {
        match self {
            Op::Dir(p) => Op::Dir(p.clone()),
            Op::DirMode(p, m) => Op::DirMode(p.clone(), *m),
            Op::Dirs(ps) => Op::Dirs(copy_strings(ps)),
            Op::WriteFile(p, c) => Op::WriteFile(p.clone(), c.clone()),
            Op::WriteFileMode(p, c, m) => Op::WriteFileMode(p.clone(), c.clone(), *m),
            Op::Symlink(l, t) => Op::Symlink(l.clone(), t.clone()),
            Op::CopyFile(p) => Op::CopyFile(p.clone()),
            Op::CopyTree(p) => Op::CopyTree(p.clone()),
            Op::User { name, uid, gid, home, shell } => Op::User {
                name: name.clone(),
                uid: *uid,
                gid: *gid,
                home: home.clone(),
                shell: shell.clone(),
            },
            Op::Group { name, gid } => Op::Group { name: name.clone(), gid: *gid },
            Op::Bin(n) => Op::Bin(n.clone()),
            Op::Sbin(n) => Op::Sbin(n.clone()),
            Op::Bins(ns) => Op::Bins(copy_strings(ns)),
            Op::Sbins(ns) => Op::Sbins(copy_strings(ns)),
            Op::Custom(t) => Op::Custom(t.clone()),
        }
    }
}

/// Two lists of operations describe the same mutations, in the same order.
pub open spec fn same_ops(a: Seq<Op>, b: Seq<Op>) -> bool {
    a.len() == b.len() && forall|i: int| 0 <= i < a.len() ==> (#[trigger] a[i]).same_as(b[i])
}

/// An identical copy of a list of operations.
pub fn copy_ops(ops: &Vec<Op>) -> (r: Vec<Op>)
    ensures
        same_ops(r@, ops@),
{
    let mut r: Vec<Op> = Vec::new();
    let mut i: usize = 0;
    while i < ops.len()
        invariant
            i <= ops@.len(),
            same_ops(r@, ops@.subrange(0, i as int)),
        decreases ops@.len() - i,
    {
        r.push(ops[i].duplicate());
        i = i + 1;
    }
    assert(ops@.subrange(0, i as int) =~= ops@);
    r
}

/// Create a directory.
pub fn dir(path: &str) -> (r: Op)
    ensures
        r matches Op::Dir(p) && p@ == path@,
{
    Op::Dir(path.to_owned())
}

/// Create a directory with a specific mode.
pub fn dir_mode(path: &str, mode: u32) -> (r: Op)
    ensures
        r matches Op::DirMode(p, m) && p@ == path@ && m == mode,
{
    Op::DirMode(path.to_owned(), mode)
}

/// Create several directories.
pub fn dirs(paths: &[&str]) -> (r: Op)
    ensures
        r matches Op::Dirs(ps) && strings_match(ps@, paths@),
{
    Op::Dirs(owned_strings(paths))
}

/// Write a file.
pub fn write_file(path: &str, content: &str) -> (r: Op)
    ensures
        r matches Op::WriteFile(p, c) && p@ == path@ && c@ == content@,
{
    Op::WriteFile(path.to_owned(), content.to_owned())
}

/// Write a file with permissions.
pub fn write_file_mode(path: &str, content: &str, mode: u32) -> (r: Op)
    ensures
        r matches Op::WriteFileMode(p, c, m) && p@ == path@ && c@ == content@ && m == mode,
{
    Op::WriteFileMode(path.to_owned(), content.to_owned(), mode)
}

/// Create a symlink at `link` pointing to `target`.
pub fn symlink(link: &str, target: &str) -> (r: Op)
    ensures
        r matches Op::Symlink(l, t) && l@ == link@ && t@ == target@,
{
    Op::Symlink(link.to_owned(), target.to_owned())
}

/// Copy a binary to /usr/bin.
pub fn bin(name: &str) -> (r: Op)
    ensures
        r matches Op::Bin(n) && n@ == name@,
{
    Op::Bin(name.to_owned())
}

/// Copy a binary to /usr/sbin.
pub fn sbin(name: &str) -> (r: Op)
    ensures
        r matches Op::Sbin(n) && n@ == name@,
{
    Op::Sbin(name.to_owned())
}

/// Copy several binaries to /usr/bin.
pub fn bins(names: &[&str]) -> (r: Op)
    ensures
        r matches Op::Bins(ns) && strings_match(ns@, names@),
{
    Op::Bins(owned_strings(names))
}

/// Copy several binaries to /usr/sbin.
pub fn sbins(names: &[&str]) -> (r: Op)
    ensures
        r matches Op::Sbins(ns) && strings_match(ns@, names@),
{
    Op::Sbins(owned_strings(names))
}

/// A distro-specific operation named by `name`.
pub fn custom(name: &str) -> (r: Op)
    ensures
        r matches Op::Custom(t) && t@ == name@,
{
    Op::Custom(name.to_owned())
}

/// Anything an executor can install: a name for identification, a phase
/// for ordering, and the operations to perform. `ops` is a function of the
/// component's own state: repeated calls give the same list.
pub trait Installable {
    spec fn spec_name(&self) -> Seq<char>;

    spec fn spec_phase(&self) -> Phase;

    spec fn spec_ops(&self) -> Seq<Op>;

    /// Name for logging and identification.
    fn name(&self) -> (r: &str)
        ensures
            r@ == self.spec_name(),
    ;

    /// Build phase for ordering.
    fn phase(&self) -> (r: Phase)
        ensures
            r == self.spec_phase(),
    ;

    /// The operations to perform.
    fn ops(&self) -> (r: Vec<Op>)
        ensures
            same_ops(r@, self.spec_ops()),
    ;
}

/// Whether a component is a static definition or a dynamically generated
/// service; both install the same way.
#[derive(Debug, Clone, Copy, PartialEq, Eq, Structural)]
pub enum ComponentKind {
    Static,
    Service,
}

/// A named, phase-tagged list of operations.
#[derive(Debug)]
pub struct Component {
    pub name: String,
    pub kind: ComponentKind,
    pub phase: Phase,
    pub ops: Vec<Op>,
}

impl Component {
    pub fn new(name: &str, kind: ComponentKind, phase: Phase, ops: Vec<Op>) -> (r: Component)
        ensures
            r.name@ == name@,
            r.kind == kind,
            r.phase == phase,
            r.ops == ops,
    {
        Component { name: name.to_owned(), kind, phase, ops }
    }
}

impl Installable for Component {
    open spec fn spec_name(&self) -> Seq<char> {
        self.name@
    }

    open spec fn spec_phase(&self) -> Phase {
        self.phase
    }

    open spec fn spec_ops(&self) -> Seq<Op> {
        self.ops@
    }

    fn name(&self) -> (r: &str) {
        self.name.as_str()
    }

    fn phase(&self) -> (r: Phase) {
        self.phase
    }

    fn ops(&self) -> (r: Vec<Op>) {
        copy_ops(&self.ops)
    }
}

} // verus!
