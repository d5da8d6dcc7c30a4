use distro_spec::component::{bin, custom, dir, dir_mode, dirs, symlink, write_file, write_file_mode};
use distro_spec::{InitSystem, Op, Phase};

#[test]
fn test_phase_ordering() {
    assert!(Phase::Filesystem < Phase::Binaries);
    assert!(Phase::Binaries < Phase::Init);
    assert!(Phase::Init < Phase::Services);
    assert!(Phase::Services < Phase::Final);
}

#[test]
fn test_op_helpers() {
    assert_eq!(dir("etc/foo"), Op::Dir("etc/foo".into()));
    assert_eq!(
        dir_mode("etc/foo", 0o755),
        Op::DirMode("etc/foo".into(), 0o755)
    );
    assert_eq!(
        write_file("etc/foo", "bar"),
        Op::WriteFile("etc/foo".into(), "bar".into())
    );
}

#[test]
fn test_phase_display() {
    assert_eq!(Phase::Filesystem.to_string(), "Filesystem");
    assert_eq!(Phase::Final.to_string(), "Final");
}

#[test]
fn other_helpers_build_their_variant() {
    assert_eq!(
        dirs(&["etc", "usr/bin"]),
        Op::Dirs(vec!["etc".to_string(), "usr/bin".to_string()])
    );
    assert_eq!(
        write_file_mode("etc/shadow", "x", 0o600),
        Op::WriteFileMode("etc/shadow".into(), "x".into(), 0o600)
    );
    assert_eq!(symlink("bin", "usr/bin"), Op::Symlink("bin".into(), "usr/bin".into()));
    assert_eq!(bin("bash"), Op::Bin("bash".into()));
    assert_eq!(custom("enable-sshd"), Op::Custom("enable-sshd".into()));
}

#[test]
fn phase_ranks_run_one_to_nine() {
    assert_eq!(Phase::Filesystem.rank(), 1);
    assert_eq!(Phase::Config.rank(), 6);
    assert_eq!(Phase::Final.rank(), 9);
    assert_eq!(Phase::MessageBus.to_string(), "MessageBus");
}

#[test]
fn init_system_names() {
    assert_eq!(InitSystem::Systemd.to_string(), "systemd");
    assert_eq!(InitSystem::OpenRC.to_string(), "OpenRC");
}
