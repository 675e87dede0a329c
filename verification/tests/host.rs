//! Cgroups, id maps, mounts and the sandbox's file system.

use draug::cgroup::{
    check_cgroup_dir, check_controllers, controllers, enable_controllers, enable_payload,
    freeze_value, is_frozen, leaf_ready, limit_files, own_cgroup_dir, parse_own_cgroup,
    sandbox_cgroup, try_again, EnableStep, SubtreeWrite, NO_HIERARCHY, REMOVE_TRIES,
};
use draug::diff::FileKind;
use draug::error::{Error, IoFailure, IoKind};
use draug::fscopy::{
    add_copied, after_clone, after_range, copy_steps, copy_xattrs, get_xattr_step, has_no_attributes,
    list_names, AttrCopy, AttrStep, ContentsStep, CopyStep, Errno,
};
use draug::limits::ResourceLimits;
use draug::mounts::{
    mounts_under, parse_mount_opts, remount_failed, same_path, unescape_mountinfo, MountFlags,
};
use draug::setup::{
    after_fallback, after_proc_bind, after_proc_mount, base_env, bind_system_dir, build_rootfs,
    guest_config, mount_project_overlay, namespaces, overlay_options, pid_line, pivot_failed,
    pivot_next, ro_system_dirs, setup_failed, setup_next, OverlayStep, OverlayTry, PivotStage,
    ProcStep, RootOp, SetupStage, SystemDirStep,
};
use draug::spawn::SetupConfig;
use draug::uidmap::{idmap_args, lookup_subid, parse_subid, run_idmap, user_label, ToolRun};

fn failure(kind: IoKind, message: &str) -> IoFailure {
    IoFailure { kind, message: message.into() }
}

// --- cgroups -----------------------------------------------------------------

#[test]
fn finds_v2_line_in_hybrid_output() {
    let content = "7:pids:/x\n1:cpu:/\n0::/user.slice/user-1000.slice/session.scope\n";
    assert_eq!(
        parse_own_cgroup(content).as_deref(),
        Some("/user.slice/user-1000.slice/session.scope")
    );
    assert_eq!(parse_own_cgroup("1:cpu:/\n"), None);
}

#[test]
fn the_own_cgroup_is_found() {
    assert_eq!(own_cgroup_dir("0:://a/b \n"), Ok("/sys/fs/cgroup/a/b".to_string()));
    assert_eq!(own_cgroup_dir("1:cpu:/\n"), Err(Error::Unsupported(NO_HIERARCHY.into())));
    assert_eq!(check_cgroup_dir("/c", true), Ok(()));
    assert!(matches!(check_cgroup_dir("/c", false), Err(Error::Unsupported(m))
        if m.starts_with("/c does not look like a cgroup v2 directory;")));
    assert_eq!(sandbox_cgroup("/c", "i1"), "/c/draug-i1");
}

#[test]
fn limits_become_files() {
    let none = ResourceLimits::unlimited();
    assert!(controllers(&none).is_empty());
    assert!(limit_files(&none).is_empty());
    let all = ResourceLimits {
        cpu_millis: Some(1500),
        memory_bytes: Some(4096),
        pids: Some(64),
        ..none
    };
    assert_eq!(controllers(&all), vec!["memory", "cpu", "pids"]);
    assert_eq!(
        limit_files(&all),
        vec![
            ("memory.max", "4096".to_string()),
            ("pids.max", "64".to_string()),
            ("cpu.max", "150000 100000".to_string()),
        ]
    );
    let most = ResourceLimits { cpu_millis: Some(u32::MAX), ..none };
    assert_eq!(limit_files(&most), vec![("cpu.max", "429496729500 100000".to_string())]);
    assert_eq!(enable_payload(&controllers(&all)), "+memory +cpu +pids");
    assert_eq!(check_controllers("/c", &controllers(&all), "cpu io memory pids\n"), Ok(()));
    assert!(matches!(check_controllers("/c", &controllers(&all), "cpu memory\n"), Err(Error::Unsupported(m))
        if m.starts_with("cgroup controller \"pids\" is not available in /c (available: cpu memory). Resource limits need")));
}

#[test]
fn controllers_are_enabled_in_two_tries() {
    let busy = || failure(IoKind::Other, "busy");
    assert!(matches!(enable_controllers(SubtreeWrite::Written, false, "/c", busy()), EnableStep::Done));
    assert!(matches!(enable_controllers(SubtreeWrite::Busy, false, "/c", busy()), EnableStep::Migrate));
    assert!(matches!(enable_controllers(SubtreeWrite::Busy, true, "/c", busy()), EnableStep::Fail(e)
        if e.message() == "io error during enable cgroup controllers: busy"));
    let denied = SubtreeWrite::Failed(failure(IoKind::PermissionDenied, "x"));
    assert!(matches!(enable_controllers(denied, false, "/c", busy()), EnableStep::Fail(Error::Unsupported(m))
        if m.starts_with("not allowed to manage cgroups under /c — the subtree")));
    assert_eq!(leaf_ready(Ok(())), Ok(()));
    assert_eq!(leaf_ready(Err(failure(IoKind::AlreadyExists, "x"))), Ok(()));
    assert!(leaf_ready(Err(failure(IoKind::Other, "x"))).is_err());
}

#[test]
fn cgroups_freeze_and_go() {
    assert_eq!((freeze_value(true), freeze_value(false)), ("1", "0"));
    assert!(is_frozen(Some("1\n")));
    assert!(!is_frozen(Some("0\n")));
    assert!(!is_frozen(None));
    assert!(!try_again(1, &Ok(())));
    assert!(!try_again(1, &Err(failure(IoKind::NotFound, "x"))));
    assert!(try_again(REMOVE_TRIES - 1, &Err(failure(IoKind::Other, "x"))));
    assert!(!try_again(REMOVE_TRIES, &Err(failure(IoKind::Other, "x"))));
}

// --- id maps -----------------------------------------------------------------

#[test]
fn parses_by_name_and_uid() {
    let content = "# comment\n\nalice:100000:65536\n1001:200000:1000\n";
    assert_eq!(parse_subid(content, "alice", 1000), Some((100000, 65535)));
    assert_eq!(parse_subid(content, "bob", 1001), Some((200000, 1000)));
    assert_eq!(parse_subid(content, "bob", 1002), None);
}

#[test]
fn skips_malformed_lines() {
    let content = "broken\nalice:xyz:10\nalice:5000:0\nalice:5000:10\n";
    assert_eq!(parse_subid(content, "alice", 1), Some((5000, 10)));
}

#[test]
fn subordinate_ranges_are_looked_up() {
    assert_eq!(
        lookup_subid("/etc/subuid", Ok("me:7: 8 \n".into()), "me", 1),
        Ok((7, 8))
    );
    assert_eq!(
        lookup_subid("/etc/subuid", Ok(String::new()), "me", 1),
        Err(Error::Unsupported(
            "no subordinate id range for \"me\" in /etc/subuid. Fix: add the line \"me:100000:65536\" to /etc/subuid (see subuid(5)), or run `usermod --add-subuids 100000-165535 --add-subgids 100000-165535 me`".into()
        ))
    );
    assert_eq!(
        lookup_subid("/etc/subgid", Err(failure(IoKind::NotFound, "gone")), "me", 1),
        Err(Error::Unsupported(
            "cannot read /etc/subgid (gone); rootless sandboxes need a subordinate id range. Fix: add the line \"me:100000:65536\" to /etc/subgid (see subuid(5))".into()
        ))
    );
    assert_eq!(user_label(Some("me".into()), 5), "me");
    assert_eq!(user_label(None, 5), "5");
}

#[test]
fn mapping_helpers_are_run() {
    assert_eq!(
        idmap_args(99, 1000, (100000, 65535)),
        vec!["99", "0", "1000", "1", "1", "100000", "65535"]
    );
    assert_eq!(run_idmap("newuidmap", ToolRun::Succeeded, "me", "/f", (1, 2)), Ok(()));
    let gone = ToolRun::NotStarted(failure(IoKind::NotFound, "x"));
    assert!(matches!(run_idmap("newuidmap", gone, "me", "/f", (1, 2)), Err(Error::Unsupported(m))
        if m.starts_with("newuidmap not found; install it")));
    let other = ToolRun::NotStarted(failure(IoKind::Other, "x"));
    assert!(matches!(run_idmap("newuidmap", other, "me", "/f", (1, 2)), Err(Error::Io { .. })));
    let failed = ToolRun::Failed { status: "exit status: 1".into(), stderr: b" oops\xff\n".to_vec() };
    assert_eq!(
        run_idmap("newuidmap", failed, "me", "/f", (1, 2)),
        Err(Error::Unsupported(
            "newuidmap failed (exit status: 1): oops\u{fffd}. Check that /f grants \"me\" the range 1:2 and that newuidmap is setuid root; see subuid(5)".into()
        ))
    );
}

// --- mounts ------------------------------------------------------------------

const NO_FLAGS: MountFlags = MountFlags {
    nosuid: false,
    nodev: false,
    noexec: false,
    noatime: false,
    nodiratime: false,
    relatime: false,
};

#[test]
fn mount_options_are_read() {
    assert_eq!(parse_mount_opts(""), NO_FLAGS);
    assert_eq!(
        parse_mount_opts("rw,nosuid,noexec,relatime"),
        MountFlags { nosuid: true, noexec: true, relatime: true, ..NO_FLAGS }
    );
    assert_eq!(
        parse_mount_opts("nodev,noatime,nodiratime,nosuidx"),
        MountFlags { nodev: true, noatime: true, nodiratime: true, ..NO_FLAGS }
    );
}

#[test]
fn mount_paths_are_unescaped() {
    assert_eq!(unescape_mountinfo("/a\\040b\\134c\\011"), "/a b\\c\t");
    assert_eq!(unescape_mountinfo("plain"), "plain");
    assert_eq!(unescape_mountinfo("\\09x"), "09x");
    assert_eq!(unescape_mountinfo("\\4"), "\u{4}");
    assert_eq!(unescape_mountinfo("\\777y"), "777y");
    assert_eq!(unescape_mountinfo("\\+11z"), "\tz");
    assert_eq!(unescape_mountinfo("end\\"), "end");
}

#[test]
fn parents_are_remounted_before_children() {
    let info = "\
1 0 8:1 / /r/usr/a/b rw,nodev - ext4 x rw
2 0 8:1 / / rw - ext4 x rw
3 0 8:1 / /r/usr rw,nosuid - ext4 x rw
4 0 8:1 / /r/usrlocal rw - ext4 x rw
short line
5 0 8:1 / /r/usr/c\\040d ro,relatime - ext4 x rw
6 0 8:1 / /r/usr/e rw - ext4 x rw
";
    let v = mounts_under(info, "/r/usr/");
    let paths: Vec<&str> = v.iter().map(|m| m.path.as_str()).collect();
    assert_eq!(paths, vec!["/r/usr", "/r/usr/c d", "/r/usr/e", "/r/usr/a/b"]);
    assert!(v[0].flags.nosuid && v[1].flags.relatime && v[3].flags.nodev);
    assert!(same_path("/r//usr/./", "/r/usr"));
    assert!(!same_path("/r/usr", "r/usr"));
    assert!(!same_path("./r", "r"));
    assert!(same_path("r/./s", "r/s"));
    assert!(!same_path("/r/../r", "/r"));
    assert_eq!(mounts_under(info, "/").len(), 6);
    assert_eq!(mounts_under(info, "r/usr").len(), 0);
    assert_eq!(
        remount_failed("/r/usr", "/r/usr/", "EPERM"),
        Err("remount /r/usr/ read-only: EPERM".to_string())
    );
    assert_eq!(remount_failed("/r/usr/x", "/r/usr", "EPERM"), Ok(()));
}

// --- setup -------------------------------------------------------------------

fn config(network: bool) -> SetupConfig {
    SetupConfig {
        id: "i1".into(),
        state_dir: "/state/i1".into(),
        project_dir: "/home/me/p".into(),
        hostname: "h".into(),
        env: vec![("X".into(), "1".into())],
        network,
        host_is_root: false,
        allow_host_proc_fallback: false,
    }
}

#[test]
fn setup_goes_its_course() {
    let mut s = SetupStage::UnshareUser;
    let mut seen = vec![];
    while s != SetupStage::Done {
        seen.push(s);
        s = setup_next(s, true, false);
    }
    assert_eq!(seen.len(), 8);
    assert!(seen.contains(&SetupStage::Loopback));
    assert_eq!(setup_next(SetupStage::Unshare, true, true), SetupStage::Hostname);
    assert_eq!(setup_next(SetupStage::AwaitGo, false, true), SetupStage::Failed);
    assert!(namespaces(false).net && !namespaces(true).net && namespaces(true).pid);
    assert_eq!(
        setup_failed(SetupStage::UnshareUser, "EPERM"),
        "unshare(CLONE_NEWUSER) failed: EPERM. Unprivileged user namespaces appear to be unavailable on this host"
    );
    assert_eq!(setup_failed(SetupStage::AwaitGo, "E"), "waiting for host: E");
    assert_eq!(setup_failed(SetupStage::Unshare, "E"), "unshare(mount/pid/uts/net): E");
    assert_eq!(setup_failed(SetupStage::Hostname, "E"), "sethostname: E");
    assert_eq!(setup_failed(SetupStage::Fork, "E"), "fork: E");
    assert_eq!(setup_failed(SetupStage::BuildRoot, "E"), "E");
    assert_eq!(pid_line(12), "pid 12");
}

#[test]
fn the_guest_gets_its_environment() {
    let env = base_env(&config(false));
    assert_eq!(env.len(), 6);
    assert_eq!(env[1], ("HOME".to_string(), "/root".to_string()));
    assert_eq!(env[5], ("X".to_string(), "1".to_string()));
    let g = guest_config(&config(false));
    assert_eq!(g.socket_path, "/run/draug/guest.sock");
    assert_eq!(g.log_path, "/run/draug/guest.log");
    assert_eq!(g.default_cwd, "/home/me/p");
    assert!(!g.mount_proc);
}

#[test]
fn the_file_system_is_put_together() {
    let plan = match build_rootfs(&config(false)) {
        Ok(p) => p,
        Err(e) => panic!("{e}"),
    };
    assert_eq!(plan.len(), 2 + 12 + 15 + 8);
    assert!(matches!(&plan[0], RootOp::Slave));
    assert!(matches!(&plan[1], RootOp::Tmpfs { target, options: "mode=755" } if target == "/state/i1/root"));
    assert!(matches!(&plan[2], RootOp::SystemDir { source: "/usr", target } if target == "/state/i1/root/usr"));
    assert!(matches!(&plan[15], RootOp::Node { source, target }
        if source == "/dev/null" && target == "/state/i1/root/dev/null"));
    assert!(matches!(plan.last(), Some(RootOp::Project { target }) if target == "/state/i1/root/home/me/p"));
    assert!(plan.iter().any(|o| matches!(o, RootOp::Bind { source, target }
        if source == "/state/i1/rt" && target == "/state/i1/root/run/draug")));
    assert!(plan.iter().any(|o| matches!(o, RootOp::Sys { mounted: true, .. })));
    assert!(plan.iter().all(|o| !matches!(o, RootOp::SystemDir { source, .. } if *source == "/home")));
    assert_eq!(ro_system_dirs().len(), 12);
    let mut doubled = config(false);
    doubled.project_dir = "//home/me/p".into();
    assert!(matches!(build_rootfs(&doubled).unwrap().last(), Some(RootOp::Project { target })
        if target == "/state/i1/root/home/me/p"));
    let mut relative = config(false);
    relative.project_dir = "p".into();
    assert!(matches!(build_rootfs(&relative), Err(m) if m == "project dir must be absolute"));
    assert_eq!(bind_system_dir(None), SystemDirStep::Skip);
    assert_eq!(bind_system_dir(Some(FileKind::Symlink)), SystemDirStep::Link);
    assert_eq!(bind_system_dir(Some(FileKind::Dir)), SystemDirStep::Bind);
    assert_eq!(bind_system_dir(Some(FileKind::File)), SystemDirStep::Skip);
}

#[test]
fn the_overlay_is_mounted_or_kept_in_memory() {
    assert_eq!(
        overlay_options("/p", "/u", "/w", false),
        "lowerdir=/p,upperdir=/u,workdir=/w,userxattr"
    );
    assert_eq!(overlay_options("/p", "/u", "/w", true), "lowerdir=/p,upperdir=/u,workdir=/w");
    assert!(matches!(mount_project_overlay(OverlayTry::Mounted, "/p", "/u"), OverlayStep::Done));
    assert!(matches!(
        mount_project_overlay(OverlayTry::Unsuitable("EINVAL".into()), "/p", "/u"),
        OverlayStep::Fallback
    ));
    assert!(matches!(mount_project_overlay(OverlayTry::Failed("EPERM".into()), "/p", "/u"), OverlayStep::Fail(m)
        if m == "overlay mount: EPERM (lower=/p, upper=/u); kernel >= 5.11 with unprivileged overlayfs support is required"));
    assert!(matches!(after_fallback(OverlayTry::Mounted), Ok(w) if w.contains("will NOT survive destroy")));
    assert_eq!(
        after_fallback(OverlayTry::Unsuitable("E".into())),
        Err("overlay mount (tmpfs fallback): E".to_string())
    );
}

#[test]
fn the_hosts_processes_stay_hidden() {
    assert!(matches!(after_proc_mount(Ok(()), false), ProcStep::Done));
    assert!(matches!(after_proc_mount(Err("EPERM".into()), true), ProcStep::BindHost));
    assert!(matches!(after_proc_mount(Err("EPERM".into()), false), ProcStep::Fail(m)
        if m.starts_with("cannot mount a private /proc (EPERM); refusing")));
    assert!(matches!(after_proc_bind(Ok(())), Ok(w) if w.starts_with("warn ")));
    assert_eq!(
        after_proc_bind(Err("E".into())),
        Err("fresh proc mount refused and bind fallback failed (E)".to_string())
    );
    let mut s = PivotStage::Enter;
    let mut said = vec![];
    while s != PivotStage::Done {
        said.push(pivot_failed(s, "E"));
        s = pivot_next(s);
    }
    assert_eq!(said, vec!["chdir(new root): E", "pivot_root: E", "detach old root: E", "chdir(/): E"]);
}

// --- copying -----------------------------------------------------------------

#[test]
fn entries_are_copied_step_by_step() {
    assert_eq!(
        copy_steps(FileKind::Dir),
        vec![CopyStep::MakeDir, CopyStep::Children, CopyStep::Owner, CopyStep::Mode, CopyStep::Attributes]
    );
    assert_eq!(
        copy_steps(FileKind::Symlink),
        vec![CopyStep::Link, CopyStep::Owner, CopyStep::Attributes]
    );
    // The owner comes before the mode, or setuid files would lose that bit.
    assert_eq!(
        copy_steps(FileKind::File),
        vec![CopyStep::Contents, CopyStep::Owner, CopyStep::Mode, CopyStep::Attributes]
    );
    assert_eq!(copy_steps(FileKind::CharDevice)[0], CopyStep::Node);
}

#[test]
fn contents_are_copied_the_cheapest_way() {
    assert_eq!(after_clone(true, 9), ContentsStep::Done(9));
    assert_eq!(after_clone(false, 9), ContentsStep::Range(0));
    assert_eq!(after_range(0, Ok(4)), ContentsStep::Range(4));
    assert_eq!(after_range(4, Ok(0)), ContentsStep::Done(4));
    for e in [Errno::Invalid, Errno::CrossDevice, Errno::NoSys, Errno::NotSupported] {
        assert_eq!(after_range(0, Err(e)), ContentsStep::ReadWrite);
        assert_eq!(after_range(4, Err(e)), ContentsStep::Fail);
    }
    assert_eq!(after_range(0, Err(Errno::Other)), ContentsStep::Fail);
}

#[test]
fn attributes_are_listed_and_read() {
    assert_eq!(list_names(&b"user.a\0\0user.b\0x\xff".to_vec()), vec!["user.a", "user.b", "x\u{fffd}"]);
    assert!(list_names(&vec![]).is_empty());
    assert!(has_no_attributes(Errno::NotSupported));
    assert!(!has_no_attributes(Errno::NoData));
    assert_eq!(get_xattr_step(Ok(3), 256), AttrStep::Value(3));
    assert_eq!(get_xattr_step(Err(Errno::NoData), 256), AttrStep::Absent);
    assert_eq!(get_xattr_step(Err(Errno::NotSupported), 256), AttrStep::Absent);
    assert_eq!(get_xattr_step(Err(Errno::Range), 256), AttrStep::Grow(512));
    assert_eq!(get_xattr_step(Err(Errno::Other), 256), AttrStep::Fail);
}

#[test]
fn overlay_attributes_must_survive() {
    let attr = |name: &str, read, written| AttrCopy { name: name.into(), read, written };
    let value = || Ok(Some(b"y".to_vec()));
    let no = failure(IoKind::PermissionDenied, "no");
    assert_eq!(copy_xattrs(&vec![]), Ok(()));
    assert_eq!(copy_xattrs(&vec![attr("security.selinux", value(), Err(no.clone()))]), Ok(()));
    assert_eq!(copy_xattrs(&vec![attr("user.overlay.opaque", Ok(None), Ok(()))]), Ok(()));
    for name in ["user.overlay.opaque", "trusted.overlay.opaque"] {
        assert_eq!(
            copy_xattrs(&vec![attr("user.a", value(), Ok(())), attr(name, value(), Err(no.clone()))]),
            Err(no.clone())
        );
    }
    assert_eq!(copy_xattrs(&vec![attr("security.selinux", Err(no.clone()), Ok(()))]), Ok(()));
    assert_eq!(
        copy_xattrs(&vec![
            attr("security.selinux", Err(no.clone()), Ok(())),
            attr("trusted.overlay.opaque", Err(no.clone()), Ok(())),
        ]),
        Err(no)
    );
}

#[test]
fn the_size_of_a_layer_is_the_sum_of_its_files() {
    let mut total = Some(0);
    for n in [5, 6] {
        total = total.and_then(|t| add_copied(t, n));
    }
    assert_eq!(total, Some(11));
    assert_eq!(add_copied(u64::MAX - 1, 1), Some(u64::MAX));
    assert_eq!(add_copied(u64::MAX, 1), None);
}
