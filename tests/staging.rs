use distro_spec::component::{dir, dir_mode, symlink, write_file};
use distro_spec::executor::Node;
use distro_spec::paths::{PathError, StagingPath};
use distro_spec::runner::run_build;
use distro_spec::schedule::{schedule, schedule_phases};
use distro_spec::{BuildError, Component, ComponentKind, Op, Phase, Staging};

fn comp(name: &str, phase: Phase, ops: Vec<Op>) -> Component {
    Component::new(name, ComponentKind::Static, phase, ops)
}

fn entry<'a>(st: &'a Staging, key: &str) -> Option<&'a Node> {
    st.entries.iter().rev().find(|e| e.0 == key).map(|e| &e.1)
}

#[test]
fn filesystem_runs_before_binaries_whatever_the_registration() {
    let cs = vec![
        comp("shells", Phase::Binaries, vec![]),
        comp("fhs", Phase::Filesystem, vec![]),
        comp("etc", Phase::Config, vec![]),
        comp("more-fhs", Phase::Filesystem, vec![]),
    ];
    assert_eq!(schedule(&cs), vec![1, 3, 0, 2]);
}

#[test]
fn scheduling_twice_gives_the_same_order() {
    let phases = vec![Phase::Final, Phase::Init, Phase::Init, Phase::Filesystem, Phase::Services];
    let a = schedule_phases(&phases);
    let b = schedule_phases(&phases);
    assert_eq!(a, b);
    assert_eq!(a, vec![3, 1, 2, 4, 0]);
}

#[test]
fn dir_twice_succeeds() {
    let mut st = Staging::new(vec![]);
    assert_eq!(st.apply(&dir("etc/foo")), Ok(()));
    let n = st.entries.len();
    assert_eq!(st.apply(&dir("etc/foo")), Ok(()));
    assert_eq!(st.entries.len(), n);
    assert!(matches!(entry(&st, "etc"), Some(Node::Dir(0o755))));
}

#[test]
fn later_dir_mode_wins() {
    let mut st = Staging::new(vec![]);
    assert_eq!(st.apply(&dir_mode("srv/x", 0o755)), Ok(()));
    assert_eq!(st.apply(&dir_mode("srv/x", 0o700)), Ok(()));
    assert!(matches!(entry(&st, "srv/x"), Some(Node::Dir(0o700))));
}

#[test]
fn write_before_parent_is_missing_parent() {
    let mut st = Staging::new(vec![]);
    assert_eq!(st.apply(&write_file("/etc/foo", "bar")), Err(BuildError::MissingParent));
    assert_eq!(st.apply(&dir("etc")), Ok(()));
    assert_eq!(st.apply(&write_file("/etc/foo", "bar")), Ok(()));
    assert!(matches!(entry(&st, "etc/foo"), Some(Node::File(c, 0o644)) if c == "bar"));
}

#[test]
fn paths_are_canonical_and_stay_inside() {
    let p = StagingPath::new("/etc//./foo/").unwrap();
    assert_eq!(p.names, vec!["etc".to_string(), "foo".to_string()]);
    let q = StagingPath::new("usr/lib/../bin").unwrap();
    assert_eq!(q.names, vec!["usr".to_string(), "bin".to_string()]);
    assert_eq!(StagingPath::new("../etc").unwrap_err(), PathError::Escape);
    assert_eq!(StagingPath::new("a/../../b").unwrap_err(), PathError::Escape);
    let mut st = Staging::new(vec![]);
    assert_eq!(st.apply(&dir("etc/../../x")), Err(BuildError::PathEscape));
}

#[test]
fn symlink_collisions() {
    let mut st = Staging::new(vec![]);
    assert_eq!(st.apply(&symlink("bin", "usr/bin")), Ok(()));
    assert_eq!(st.apply(&symlink("bin", "usr/bin")), Ok(()));
    assert_eq!(st.apply(&symlink("bin", "usr/sbin")), Err(BuildError::AlreadyExistsIncompatible));
    assert_eq!(st.apply(&dir("bin")), Err(BuildError::AlreadyExistsIncompatible));
    assert_eq!(st.apply(&symlink("a/b", "c")), Err(BuildError::MissingParent));
}

#[test]
fn identities_upsert_and_conflict() {
    let mut st = Staging::new(vec![]);
    let user = |uid| Op::User {
        name: "sshd".into(),
        uid,
        gid: 74,
        home: "/var/empty".into(),
        shell: "/sbin/nologin".into(),
    };
    assert_eq!(st.apply(&user(74)), Ok(()));
    assert_eq!(st.apply(&user(74)), Ok(()));
    assert_eq!(st.apply(&user(75)), Err(BuildError::IdentityConflict));
    assert_eq!(st.apply(&Op::Group { name: "wheel".into(), gid: 10 }), Ok(()));
    assert_eq!(st.apply(&Op::Group { name: "wheel".into(), gid: 11 }), Err(BuildError::IdentityConflict));
    assert_eq!(st.users.len(), 1);
}

#[test]
fn custom_needs_a_registered_handler() {
    let mut st = Staging::new(vec!["enable-sshd".to_string()]);
    assert_eq!(st.apply(&Op::Custom("enable-sshd".into())), Ok(()));
    assert_eq!(st.apply(&Op::Custom("other".into())), Err(BuildError::UnknownCustom));
    assert_eq!(st.apply(&Op::Bin("../../../x".into())), Err(BuildError::PathEscape));
}

#[test]
fn differing_writes_in_one_phase_conflict_before_any_change() {
    for flip in [false, true] {
        let a = comp("a", Phase::Config, vec![write_file("/etc/foo", "bar")]);
        let b = comp("b", Phase::Config, vec![write_file("/etc/foo", "baz")]);
        let fs = comp("fs", Phase::Filesystem, vec![dir("etc")]);
        let cs = if flip { vec![b, fs, a] } else { vec![fs, a, b] };
        let mut st = Staging::new(vec![]);
        let err = run_build(&cs, &mut st).unwrap_err();
        assert_eq!(err.error, BuildError::Conflict);
        assert!(st.entries.is_empty());
    }
}

#[test]
fn build_runs_in_phase_order_and_reports_position() {
    let files = comp("files", Phase::Config, vec![write_file("etc/hostname", "box")]);
    let fs = comp("fs", Phase::Filesystem, vec![dir("etc")]);
    let mut st = Staging::new(vec![]);
    assert!(run_build(&vec![files, fs], &mut st).is_ok());
    assert!(matches!(entry(&st, "etc/hostname"), Some(Node::File(c, _)) if c == "box"));

    let bad = comp("bad", Phase::Config, vec![dir("etc"), write_file("var/x", "1")]);
    let mut st2 = Staging::new(vec![]);
    let err = run_build(&vec![bad], &mut st2).unwrap_err();
    assert_eq!(err.error, BuildError::MissingParent);
    assert_eq!(err.component, "bad");
    assert_eq!(err.position, 1);
}

#[test]
fn unregistered_custom_fails_before_any_change() {
    let fs = comp("fs", Phase::Filesystem, vec![dir("etc")]);
    let late = comp("late", Phase::Final, vec![Op::Custom("mystery".into())]);
    let mut st = Staging::new(vec!["known".to_string()]);
    let err = run_build(&vec![fs, late], &mut st).unwrap_err();
    assert_eq!(err.error, BuildError::UnknownCustom);
    assert_eq!(err.component, "late");
    assert_eq!(err.position, 0);
    assert!(st.entries.is_empty());
}

#[test]
fn link_and_file_on_one_path_conflict_but_dir_modes_do_not() {
    let fs = comp("fs", Phase::Filesystem, vec![dir("etc")]);
    let a = comp("a", Phase::Services, vec![symlink("etc/x", "y")]);
    let b = comp("b", Phase::Services, vec![write_file("etc/x", "z")]);
    let mut st = Staging::new(vec![]);
    assert_eq!(run_build(&vec![fs, a, b], &mut st).unwrap_err().error, BuildError::Conflict);

    let c = comp("c", Phase::Config, vec![dir_mode("srv", 0o755)]);
    let d = comp("d", Phase::Config, vec![dir_mode("srv", 0o700), dir("srv")]);
    let mut st2 = Staging::new(vec![]);
    assert!(run_build(&vec![c, d], &mut st2).is_ok());
    assert!(matches!(entry(&st2, "srv"), Some(Node::Dir(0o700))));
}
