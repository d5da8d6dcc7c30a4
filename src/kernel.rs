//! Kernel installation settings and the two-step kernel build confirmation.
use vstd::prelude::*;

verus! {

/// Where and how the kernel is installed.
pub trait KernelInstallConfig {
    /// Path where modules are installed (e.g. "/usr/lib/modules").
    fn module_install_path(&self) -> &str;

    /// Kernel filename in the boot area (e.g. "vmlinuz").
    fn kernel_filename(&self) -> &str;
}

/// The three states of the kernel build confirmation.
#[derive(Debug, Clone, Copy, PartialEq, Eq, Structural)]
pub enum GuardState {
    NotRequested,
    RequestedUnconfirmed,
    Confirmed,
}

/// The state that the two observed flags put the confirmation in.
pub open spec fn spec_guard_state(requested: bool, confirmed: bool) -> GuardState {
    if !requested {
        GuardState::NotRequested
    } else if !confirmed {
        GuardState::RequestedUnconfirmed
    } else {
        GuardState::Confirmed
    }
}

/// What the surrounding build does next.
#[derive(Debug)]
pub enum KernelGate {
    /// Go on without building the kernel.
    Skip,
    /// Go on and build the kernel.
    Build,
    /// Stop before the kernel build; the text says how to confirm. This is
    /// an intentional stop, not a failure.
    Halt(String),
}

/// Width of the column that holds the example command in the warning box.
pub const EXAMPLE_WIDTH: usize = 57;

pub open spec fn spaces(n: nat) -> Seq<char> {
    Seq::new(n, |i: int| ' ')
}

/// The example command, padded on the right with spaces to the column width.
pub open spec fn padded(cmd: Seq<char>) -> Seq<char> {
    if cmd.len() >= EXAMPLE_WIDTH {
        cmd
    } else {
        cmd + spaces((EXAMPLE_WIDTH - cmd.len()) as nat)
    }
}

pub open spec fn warning_head() -> Seq<char> {
    "\n  ╔══════════════════════════════════════════════════════════════╗\n  ║  KERNEL BUILD TAKES ~1 HOUR                                  ║\n  ║                                                              ║\n  ║  To confirm, add: --dangerously-waste-the-users-time         ║\n  ║                                                              ║\n  ║  Example:                                                    ║\n  ║    "@
}

pub open spec fn warning_tail() -> Seq<char> {
    "║\n  ╚══════════════════════════════════════════════════════════════╝\n"@
}

/// The warning shown when a kernel build is requested but not confirmed.
pub open spec fn warning_text(cmd: Seq<char>) -> Seq<char> {
    warning_head() + padded(cmd) + warning_tail()
}

/// `needle` occurs in `hay` as a contiguous run.
pub open spec fn contains_seq(hay: Seq<char>, needle: Seq<char>) -> bool {
    exists|i: int| 0 <= i <= hay.len() - needle.len() && #[trigger] hay.subrange(i, i + needle.len()) == needle
}

/// Two flags and an example command, from which a kernel build is allowed or stopped.
pub trait KernelBuildGuard {
    spec fn spec_requested(&self) -> bool;

    spec fn spec_confirmed(&self) -> bool;

    spec fn spec_example_cmd(&self) -> Seq<char>;

    /// Whether a kernel build was requested.
    fn kernel_requested(&self) -> (r: bool)
        ensures
            r == self.spec_requested(),
    ;

    /// Whether the kernel build was also confirmed.
    fn kernel_confirmed(&self) -> (r: bool)
        ensures
            r == self.spec_confirmed(),
    ;

    /// Example command shown in the warning.
    fn kernel_example_cmd(&self) -> (r: &str)
        ensures
            r@ == self.spec_example_cmd(),
    ;
}

/// The state of the confirmation for the two flags.
pub fn guard_state(requested: bool, confirmed: bool) -> (r: GuardState)
    ensures
        r == spec_guard_state(requested, confirmed),
{
    if !requested {
        GuardState::NotRequested
    } else if !confirmed {
        GuardState::RequestedUnconfirmed
    } else {
        GuardState::Confirmed
    }
}

/// The warning text for an unconfirmed kernel build request.
pub fn kernel_warning(cmd: &str) -> (r: String)
    ensures
        r@ == warning_text(cmd@),
{
    let mut w = String::from_str("\n  ╔══════════════════════════════════════════════════════════════╗\n  ║  KERNEL BUILD TAKES ~1 HOUR                                  ║\n  ║                                                              ║\n  ║  To confirm, add: --dangerously-waste-the-users-time         ║\n  ║                                                              ║\n  ║  Example:                                                    ║\n  ║    ");
    w.append(cmd);
    let n = cmd.unicode_len();
    let mut k: usize = n;
    while k < EXAMPLE_WIDTH
        invariant
            n == cmd@.len(),
            n <= k,
            n < EXAMPLE_WIDTH ==> k <= EXAMPLE_WIDTH,
            n >= EXAMPLE_WIDTH ==> k == n,
            w@ == warning_head() + cmd@ + spaces((k - n) as nat),
        decreases EXAMPLE_WIDTH - k,
    {
        w.append(" ");
        proof {
            reveal_strlit(" ");
            assert(spaces((k + 1 - n) as nat) =~= spaces((k - n) as nat) + " "@);
        }
        k = k + 1;
    }
    proof {
        if n >= EXAMPLE_WIDTH {
            assert(k == n);
            assert(cmd@ + spaces(0) =~= cmd@);
            assert(padded(cmd@) == cmd@);
        } else {
            assert(k == EXAMPLE_WIDTH);
            assert(padded(cmd@) == cmd@ + spaces((k - n) as nat));
        }
        assert(warning_head() + cmd@ + spaces((k - n) as nat) =~= warning_head() + (cmd@ + spaces(
            (k - n) as nat,
        )));
    }
    w.append("║\n  ╚══════════════════════════════════════════════════════════════╝\n");
    w
}

/// What the build does for the given flags: skip the kernel when none was
/// requested, build it when it was confirmed, and otherwise halt with the
/// warning that names the example command.
pub fn require_kernel_confirmation<G: KernelBuildGuard>(guard: &G) -> (r: KernelGate)
    ensures
        spec_guard_state(guard.spec_requested(), guard.spec_confirmed())
            == GuardState::NotRequested ==> r is Skip,
        spec_guard_state(guard.spec_requested(), guard.spec_confirmed())
            == GuardState::Confirmed ==> r is Build,
        spec_guard_state(guard.spec_requested(), guard.spec_confirmed())
            == GuardState::RequestedUnconfirmed ==> (r matches KernelGate::Halt(w) && w@
            == warning_text(guard.spec_example_cmd())),
{
    match guard_state(guard.kernel_requested(), guard.kernel_confirmed()) {
        GuardState::NotRequested => KernelGate::Skip,
        GuardState::Confirmed => KernelGate::Build,
        GuardState::RequestedUnconfirmed => KernelGate::Halt(kernel_warning(guard.kernel_example_cmd())),
    }
}

/// The warning of a halted kernel build names the example command verbatim.
pub proof fn lemma_warning_names_command(cmd: Seq<char>)
    ensures
        contains_seq(warning_text(cmd), cmd),
{
    let i = warning_head().len() as int;
    let w = warning_text(cmd);
    assert(w.subrange(i, i + cmd.len()) =~= cmd);
}

/// A guard built from the flags of a command line.
pub struct KernelGuard<'a> {
    pub requested: bool,
    pub confirmed: bool,
    pub example_cmd: &'a str,
}

impl<'a> KernelGuard<'a> {
    pub fn new(requested: bool, confirmed: bool, example_cmd: &'a str) -> (r: Self)
        ensures
            r.requested == requested,
            r.confirmed == confirmed,
            r.example_cmd == example_cmd,
    {
        KernelGuard { requested, confirmed, example_cmd }
    }
}

impl<'a> KernelBuildGuard for KernelGuard<'a> {
    open spec fn spec_requested(&self) -> bool {
        self.requested
    }

    open spec fn spec_confirmed(&self) -> bool {
        self.confirmed
    }

    open spec fn spec_example_cmd(&self) -> Seq<char> {
        self.example_cmd@
    }

    fn kernel_requested(&self) -> (r: bool) {
        self.requested
    }

    fn kernel_confirmed(&self) -> (r: bool) {
        self.confirmed
    }

    fn kernel_example_cmd(&self) -> (r: &str) {
        self.example_cmd
    }
}

} // verus!
