//! Disk image rules: the host tool preflight, the space check, and the
//! boot files that must name the generated root partition.
use vstd::prelude::*;
use crate::executor::BuildError;
use crate::kernel::contains_seq;
use crate::paths::views;

verus! {

/// Identifiers generated once per disk image build and handed unchanged to
/// every consumer.
#[derive(Debug, Clone)]
pub struct DiskUuids {
    /// Filesystem UUID of the root partition.
    pub root_fs_uuid: String,
    /// Filesystem serial of the EFI partition.
    pub efi_fs_uuid: String,
    /// GPT partition UUID of the root partition, named by the boot entry.
    pub root_part_uuid: String,
}

/// Distro-supplied content of a disk image.
pub trait DiskImageConfig {
    spec fn spec_boot_entry_content(&self, partuuid: Seq<char>) -> Seq<char>;

    /// Hostname to write to /etc/hostname.
    fn hostname(&self) -> &str;

    /// Boot entry filename (e.g. "distro.conf").
    fn boot_entry_filename(&self) -> &str;

    /// Boot entry content; it names the root partition by `partuuid`.
    fn boot_entry_content(&self, partuuid: &str) -> (r: String)
        ensures
            r@ == self.spec_boot_entry_content(partuuid@),
            contains_seq(r@, partuuid@),
    ;

    /// Loader configuration content.
    fn loader_config_content(&self) -> String;

    /// Path to the kernel image.
    fn kernel_path(&self) -> &str;

    /// Path to the initramfs of the installed system.
    fn initramfs_path(&self) -> &str;

    /// Path to the boot loader EFI binary.
    fn bootloader_efi_path(&self) -> &str;

    /// EFI partition size in MiB.
    fn efi_size_mb(&self) -> u64;

    /// Disk image size in GiB.
    fn disk_size_gb(&self) -> u32;

    /// Output filename of the raw disk image.
    fn output_filename(&self) -> &str;

    /// Host tools needed beyond the base set: (tool, package).
    fn extra_required_tools(&self) -> Vec<(String, String)>;
}

/// The text of a boot loader entry that boots the root partition `partuuid`.
pub open spec fn boot_entry_text(
    title: Seq<char>,
    linux: Seq<char>,
    initrd: Seq<char>,
    partuuid: Seq<char>,
    options: Seq<char>,
) -> Seq<char> {
    "title "@ + title + "\nlinux "@ + linux + "\ninitrd "@ + initrd + "\noptions root=PARTUUID="@
        + partuuid + " "@ + options + "\n"@
}

/// A boot loader entry that boots the root partition `partuuid`.
pub fn boot_entry(title: &str, linux: &str, initrd: &str, partuuid: &str, options: &str) -> (r: String)
    ensures
        r@ == boot_entry_text(title@, linux@, initrd@, partuuid@, options@),
        contains_seq(r@, partuuid@),
{
    let mut s = String::from_str("title ");
    s.append(title);
    s.append("\nlinux ");
    s.append(linux);
    s.append("\ninitrd ");
    s.append(initrd);
    s.append("\noptions root=PARTUUID=");
    let ghost before = s@;
    s.append(partuuid);
    s.append(" ");
    s.append(options);
    s.append("\n");
    proof {
        let i = before.len() as int;
        assert(s@.subrange(i, i + partuuid@.len()) =~= partuuid@);
    }
    s
}

/// A boot entry names the root partition UUID it was given, verbatim.
pub proof fn lemma_boot_entry_names_partition(
    title: Seq<char>,
    linux: Seq<char>,
    initrd: Seq<char>,
    partuuid: Seq<char>,
    options: Seq<char>,
)
    ensures
        contains_seq(boot_entry_text(title, linux, initrd, partuuid, options), partuuid),
{
    let pre = "title "@ + title + "\nlinux "@ + linux + "\ninitrd "@ + initrd + "\noptions root=PARTUUID="@;
    let t = boot_entry_text(title, linux, initrd, partuuid, options);
    let i = pre.len() as int;
    assert(t.subrange(i, i + partuuid.len()) =~= partuuid);
}

/// The boot files of a disk image.
#[derive(Debug)]
pub struct BootFiles {
    /// Name of the boot entry file.
    pub entry_filename: String,
    /// Content of the boot entry.
    pub entry_content: String,
    /// Content of the loader configuration.
    pub loader_content: String,
}

/// The boot files for a disk image whose identifiers are `uuids`: the
/// entry names the very root partition UUID that was generated.
pub fn boot_files<C: DiskImageConfig>(config: &C, uuids: &DiskUuids) -> (r: BootFiles)
    ensures
        r.entry_content@ == config.spec_boot_entry_content(uuids.root_part_uuid@),
        contains_seq(r.entry_content@, uuids.root_part_uuid@),
{
    let entry_filename = config.boot_entry_filename().to_owned();
    let entry_content = config.boot_entry_content(uuids.root_part_uuid.as_str());
    let loader_content = config.loader_config_content();
    BootFiles { entry_filename, entry_content, loader_content }
}

/// The position of the first required tool that is not available.
pub fn first_missing_tool(required: &Vec<(String, String)>, available: &Vec<String>) -> (r: Option<usize>)
    ensures
        r is None <==> forall|i: int|
            0 <= i < required@.len() ==> views(available@).contains((#[trigger] required@[i]).0@),
        r matches Some(i) ==> i < required@.len() && !views(available@).contains(required@[i as int].0@)
            && forall|j: int| 0 <= j < i ==> views(available@).contains((#[trigger] required@[j]).0@),
{
    let mut i: usize = 0;
    while i < required.len()
        invariant
            i <= required@.len(),
            forall|j: int| 0 <= j < i ==> views(available@).contains((#[trigger] required@[j]).0@),
        decreases required@.len() - i,
    {
        let mut found = false;
        let mut k: usize = 0;
        while k < available.len()
            invariant
                k <= available@.len(),
                i < required@.len(),
                found ==> views(available@).contains(required@[i as int].0@),
                !found ==> forall|x: int| 0 <= x < k ==> views(available@)[x] != required@[i as int].0@,
            decreases available@.len() - k,
        {
            if available[k] == required[i].0 {
                assert(views(available@)[k as int] == required@[i as int].0@);
                found = true;
            }
            k = k + 1;
        }
        if !found {
            assert(!views(available@).contains(required@[i as int].0@)) by {
                if views(available@).contains(required@[i as int].0@) {
                    let x = choose|x: int|
                        0 <= x < views(available@).len() && views(available@)[x] == required@[i as int].0@;
                    assert(views(available@)[x] != required@[i as int].0@);
                }
            }
            return Some(i);
        }
        i = i + 1;
    }
    None
}

/// Check the host tools before any irreversible step: `ToolMissing` when a
/// required tool is not available.
pub fn preflight(required: &Vec<(String, String)>, available: &Vec<String>) -> (r: Result<(), BuildError>)
    ensures
        r is Ok <==> forall|i: int|
            0 <= i < required@.len() ==> views(available@).contains((#[trigger] required@[i]).0@),
        r is Err ==> r == Err::<(), BuildError>(BuildError::ToolMissing),
{
    match first_missing_tool(required, available) {
        Some(_) => Err(BuildError::ToolMissing),
        None => Ok(()),
    }
}

/// Bytes in a MiB and in a GiB.
pub const MIB: u128 = 1048576;

pub const GIB: u128 = 1073741824;

/// The staged content and the EFI partition fit in the disk image.
pub open spec fn fits(staged_bytes: u64, efi_size_mb: u64, disk_size_gb: u32) -> bool {
    efi_size_mb * MIB + staged_bytes <= disk_size_gb * GIB
}

/// Refuse with `InsufficientSpace`, rather than truncate, staged content
/// that does not fit beside the EFI partition.
pub fn check_space(staged_bytes: u64, efi_size_mb: u64, disk_size_gb: u32) -> (r: Result<(), BuildError>)
    ensures
        r is Ok <==> fits(staged_bytes, efi_size_mb, disk_size_gb),
        r is Err ==> r == Err::<(), BuildError>(BuildError::InsufficientSpace),
{
    let efi: u128 = efi_size_mb as u128 * MIB;
    let need: u128 = efi + staged_bytes as u128;
    let have: u128 = disk_size_gb as u128 * GIB;
    if need <= have {
        Ok(())
    } else {
        Err(BuildError::InsufficientSpace)
    }
}

/// A disk image booted by a systemd-boot style loader entry.
#[derive(Debug)]
pub struct BootImage {
    pub hostname: String,
    pub title: String,
    pub entry_filename: String,
    pub kernel_options: String,
    pub kernel_path: String,
    pub initramfs_path: String,
    pub bootloader_efi_path: String,
    pub efi_size_mb: u64,
    pub disk_size_gb: u32,
    pub output_filename: String,
    pub extra_tools: Vec<(String, String)>,
}

/// The image holds the kernel and initramfs under these names in its boot
/// area.
pub open spec fn boot_kernel_name() -> Seq<char> {
    "/vmlinuz"@
}

pub open spec fn boot_initramfs_name() -> Seq<char> {
    "/initramfs.img"@
}

impl DiskImageConfig for BootImage {
    open spec fn spec_boot_entry_content(&self, partuuid: Seq<char>) -> Seq<char> {
        boot_entry_text(self.title@, boot_kernel_name(), boot_initramfs_name(), partuuid, self.kernel_options@)
    }

    fn hostname(&self) -> &str {
        self.hostname.as_str()
    }

    fn boot_entry_filename(&self) -> &str {
        self.entry_filename.as_str()
    }

    fn boot_entry_content(&self, partuuid: &str) -> (r: String) {
        boot_entry(self.title.as_str(), "/vmlinuz", "/initramfs.img", partuuid, self.kernel_options.as_str())
    }

    fn loader_config_content(&self) -> String {
        let mut s = String::from_str("default ");
        s.append(self.entry_filename.as_str());
        s.append("\ntimeout 3\n");
        s
    }

    fn kernel_path(&self) -> &str {
        self.kernel_path.as_str()
    }

    fn initramfs_path(&self) -> &str {
        self.initramfs_path.as_str()
    }

    fn bootloader_efi_path(&self) -> &str {
        self.bootloader_efi_path.as_str()
    }

    fn efi_size_mb(&self) -> u64 {
        self.efi_size_mb
    }

    fn disk_size_gb(&self) -> u32 {
        self.disk_size_gb
    }

    fn output_filename(&self) -> &str {
        self.output_filename.as_str()
    }

    fn extra_required_tools(&self) -> Vec<(String, String)> {
        let mut r: Vec<(String, String)> = Vec::new();
        let mut i: usize = 0;
        while i < self.extra_tools.len()
            invariant
                i <= self.extra_tools@.len(),
            decreases self.extra_tools@.len() - i,
        {
            r.push((self.extra_tools[i].0.clone(), self.extra_tools[i].1.clone()));
            i = i + 1;
        }
        r
    }
}

/// The steps of a disk image build, in their only order.
#[derive(Debug, Clone, Copy, PartialEq, Eq, Structural)]
pub enum DiskStep {
    /// Check that every host tool is there.
    Preflight,
    /// Generate the identifiers, once.
    GenerateUuids,
    /// Create the partition table and format both filesystems.
    Partition,
    /// Copy the staged tree into the root filesystem.
    CopyTree,
    /// Let the distro prepare the root filesystem with the identifiers.
    PrepareRootfs,
    /// Write the kernel, initramfs and boot loader into the boot area.
    InstallBootFiles,
    /// Write the boot entry and the loader configuration.
    WriteBootEntry,
    /// The image is complete.
    Done,
    /// A step failed; nothing more is attempted.
    Failed(BuildError),
}

/// How the step that was attempted ended.
#[derive(Debug, Clone, Copy, PartialEq, Eq, Structural)]
pub enum DiskEvent {
    Succeeded,
    Failed(BuildError),
}

/// The position of a step in the order; the final states have none.
pub open spec fn step_index(s: DiskStep) -> Option<nat> {
    match s {
        DiskStep::Preflight => Some(0),
        DiskStep::GenerateUuids => Some(1),
        DiskStep::Partition => Some(2),
        DiskStep::CopyTree => Some(3),
        DiskStep::PrepareRootfs => Some(4),
        DiskStep::InstallBootFiles => Some(5),
        DiskStep::WriteBootEntry => Some(6),
        DiskStep::Done => None,
        DiskStep::Failed(_) => None,
    }
}

/// The step after `step`, given how it ended: the next one in order on
/// success, `Failed` with the error on failure; the final states stay.
pub fn next_step(step: DiskStep, event: DiskEvent) -> (r: DiskStep)
    ensures
        step_index(step) is None ==> r == step,
        step_index(step) is Some ==> (event matches DiskEvent::Failed(e) ==> r == DiskStep::Failed(e)),
        step_index(step) is Some && event is Succeeded && step_index(step)->Some_0 == 6 ==> r
            == DiskStep::Done,
        step_index(step) is Some && event is Succeeded && step_index(step)->Some_0 < 6 ==> step_index(r)
            == Some(step_index(step)->Some_0 + 1),
{
    match (step, event) {
        (DiskStep::Done, _) => step,
        (DiskStep::Failed(_), _) => step,
        (_, DiskEvent::Failed(e)) => DiskStep::Failed(e),
        (DiskStep::Preflight, DiskEvent::Succeeded) => DiskStep::GenerateUuids,
        (DiskStep::GenerateUuids, DiskEvent::Succeeded) => DiskStep::Partition,
        (DiskStep::Partition, DiskEvent::Succeeded) => DiskStep::CopyTree,
        (DiskStep::CopyTree, DiskEvent::Succeeded) => DiskStep::PrepareRootfs,
        (DiskStep::PrepareRootfs, DiskEvent::Succeeded) => DiskStep::InstallBootFiles,
        (DiskStep::InstallBootFiles, DiskEvent::Succeeded) => DiskStep::WriteBootEntry,
        (DiskStep::WriteBootEntry, DiskEvent::Succeeded) => DiskStep::Done,
    }
}

} // verus!
