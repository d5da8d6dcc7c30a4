use distro_spec::disk::{boot_entry, boot_files, check_space, next_step, preflight, BootFiles, BootImage, DiskEvent, DiskStep};
use distro_spec::kernel::{guard_state, kernel_warning, require_kernel_confirmation, GuardState, KernelGate};
use distro_spec::{BuildError, DiskImageConfig, DiskUuids, KernelGuard};

const CMD: &str = "cargo run -- build --kernel --dangerously-waste-the-users-time";

#[test]
fn unconfirmed_kernel_build_halts_with_the_command() {
    match require_kernel_confirmation(&KernelGuard::new(true, false, CMD)) {
        KernelGate::Halt(w) => {
            assert!(w.contains(CMD));
            assert!(w.contains("KERNEL BUILD TAKES ~1 HOUR"));
        }
        other => panic!("expected a halt, got {:?}", other),
    }
}

#[test]
fn confirmed_or_unrequested_kernel_build_continues() {
    assert!(matches!(require_kernel_confirmation(&KernelGuard::new(true, true, CMD)), KernelGate::Build));
    assert!(matches!(require_kernel_confirmation(&KernelGuard::new(false, true, CMD)), KernelGate::Skip));
    assert!(matches!(require_kernel_confirmation(&KernelGuard::new(false, false, CMD)), KernelGate::Skip));
    assert_eq!(guard_state(true, false), GuardState::RequestedUnconfirmed);
}

#[test]
fn short_command_is_padded_to_the_box() {
    let w = kernel_warning("make");
    let line = w.lines().find(|l| l.contains("make")).unwrap();
    assert_eq!(line, format!("  ║    make{}║", " ".repeat(53)));
}

#[test]
fn boot_entry_names_the_partition() {
    let e = boot_entry("Linux", "/vmlinuz", "/initramfs.img", "1234-ABCD", "rw quiet");
    assert!(e.contains("1234-ABCD"));
    assert_eq!(
        e,
        "title Linux\nlinux /vmlinuz\ninitrd /initramfs.img\noptions root=PARTUUID=1234-ABCD rw quiet\n"
    );
}

fn plain() -> BootImage {
    BootImage {
        hostname: "box".into(),
        title: "Plain".into(),
        entry_filename: "plain.conf".into(),
        kernel_options: "rw".into(),
        kernel_path: "out/vmlinuz".into(),
        initramfs_path: "out/initramfs.img".into(),
        bootloader_efi_path: "out/systemd-bootx64.efi".into(),
        efi_size_mb: 512,
        disk_size_gb: 8,
        output_filename: "plain.raw".into(),
        extra_tools: vec![("mkfs.ext4".into(), "e2fsprogs".into())],
    }
}

#[test]
fn boot_files_use_the_generated_partition_uuid() {
    let uuids = DiskUuids {
        root_fs_uuid: "aaaa".into(),
        efi_fs_uuid: "BBBB-CCCC".into(),
        root_part_uuid: "1234-ABCD".into(),
    };
    let BootFiles { entry_filename, entry_content, loader_content } = boot_files(&plain(), &uuids);
    assert_eq!(entry_filename, "plain.conf");
    assert!(entry_content.contains("root=PARTUUID=1234-ABCD"));
    assert_eq!(loader_content, "default plain.conf\ntimeout 3\n");
    assert_eq!(entry_content, "title Plain\nlinux /vmlinuz\ninitrd /initramfs.img\noptions root=PARTUUID=1234-ABCD rw\n");
    assert_eq!(plain().extra_required_tools(), vec![("mkfs.ext4".to_string(), "e2fsprogs".to_string())]);
}

#[test]
fn preflight_reports_a_missing_tool() {
    let required = vec![("sfdisk".to_string(), "util-linux".to_string()), ("mkfs.vfat".to_string(), "dosfstools".to_string())];
    let all = vec!["mkfs.vfat".to_string(), "sfdisk".to_string()];
    assert_eq!(preflight(&required, &all), Ok(()));
    let some = vec!["sfdisk".to_string()];
    assert_eq!(preflight(&required, &some), Err(BuildError::ToolMissing));
    assert_eq!(distro_spec::disk::first_missing_tool(&required, &some), Some(1));
}

#[test]
fn staged_content_must_fit() {
    // 1 GiB disk, 512 MiB EFI: exactly 512 MiB left for the root tree.
    assert_eq!(check_space(512 * 1024 * 1024, 512, 1), Ok(()));
    assert_eq!(check_space(512 * 1024 * 1024 + 1, 512, 1), Err(BuildError::InsufficientSpace));
    assert_eq!(check_space(0, 2048, 1), Err(BuildError::InsufficientSpace));
}

#[test]
fn disk_steps_run_in_order_and_stop_on_failure() {
    let mut s = DiskStep::Preflight;
    let mut seen = vec![s];
    while s != DiskStep::Done {
        s = next_step(s, DiskEvent::Succeeded);
        seen.push(s);
    }
    assert_eq!(
        seen,
        vec![
            DiskStep::Preflight,
            DiskStep::GenerateUuids,
            DiskStep::Partition,
            DiskStep::CopyTree,
            DiskStep::PrepareRootfs,
            DiskStep::InstallBootFiles,
            DiskStep::WriteBootEntry,
            DiskStep::Done,
        ]
    );
    let failed = next_step(DiskStep::CopyTree, DiskEvent::Failed(BuildError::InsufficientSpace));
    assert_eq!(failed, DiskStep::Failed(BuildError::InsufficientSpace));
    assert_eq!(next_step(failed, DiskEvent::Succeeded), failed);
}
