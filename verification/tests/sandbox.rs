use rocket::mounts::{
    bridge_files, host_net_files, host_tool_dirs, host_trust_files, mount_failure, setup_mounts,
    HostEntry, HostProbe, MountStep, Origin,
};
use rocket::sandbox::{
    do_enter, enter_sandbox, exit_code, id_map_line, run_in_sandbox, run_in_sandbox_as,
    sandbox_environment, sandbox_failure, stock_dirs, ChildEnd, SandboxEvent, SandboxMove,
    SandboxPlan, SandboxStep,
};

fn strings(parts: &[&str]) -> Vec<String> {
    parts.iter().map(|p| p.to_string()).collect()
}

fn pairs(vars: &[(&str, &str)]) -> Vec<(String, String)> {
    vars.iter().map(|(k, v)| (k.to_string(), v.to_string())).collect()
}

fn bare_host() -> HostProbe {
    HostProbe {
        net: [HostEntry::Missing; 2],
        bridges: [false; 2],
        tools: [false; 6],
        trust: [HostEntry::Missing; 3],
    }
}

fn full_host() -> HostProbe {
    HostProbe {
        net: [HostEntry::File; 2],
        bridges: [false; 2],
        tools: [true, true, false, true, true, false],
        trust: [HostEntry::Directory, HostEntry::File, HostEntry::Missing],
    }
}

fn show(step: &MountStep<String>) -> String {
    match step {
        MountStep::MakeDir(at) => format!("dir {}", at),
        MountStep::MakeToolDir(at) => format!("tooldir {}", at),
        MountStep::MakeBindDir(at) => format!("binddir {}", at),
        MountStep::TryMakeDir(at) => format!("dir? {}", at),
        MountStep::TryMakeFile(at) => format!("file? {}", at),
        MountStep::Bind { source: Origin::Host(p), at } => format!("bind {} {}", p, at),
        MountStep::Bind { source: Origin::Caller(i), at } => format!("bind #{} {}", i, at),
        MountStep::BindReadOnly { from, at } => format!("ro {} {}", from, at),
        MountStep::TryBindReadOnly { from, at } => format!("ro? {} {}", from, at),
        MountStep::Tmpfs { at, options, label } => format!("tmpfs {} {} {}", at, options, label),
        MountStep::TryWriteFile { at, content } => {
            assert_eq!(
                content,
                "datarootdir='${prefix}/StoreRoom'\n\
                 datadir='${prefix}/StoreRoom'\n\
                 libexecdir='${prefix}/LibKit'\n\
                 mandir='${prefix}/StoreRoom/Manual'\n\
                 docdir='${prefix}/StoreRoom/Docs'\n\
                 infodir='${prefix}/StoreRoom/Info'\n\
                 localedir='${prefix}/StoreRoom/locale'\n"
            );
            format!("write {}", at)
        }
    }
}

#[test]
fn bare_sandbox_has_devices_and_scratch_space() {
    let plan: Vec<String> = setup_mounts(false, &[], &bare_host()).iter().map(show).collect();
    assert_eq!(
        plan,
        vec![
            "dir dev",
            "bind /dev dev",
            "dir proc",
            "bind /proc proc",
            "dir sys",
            "bind /sys sys",
            "dir Transit/Ephemeral",
            "tmpfs Transit/Ephemeral size=512M Transit/Ephemeral",
            "write Transit/Ephemeral/config.site",
            "dir tmp",
            "tmpfs tmp size=4G,mode=1777 /tmp",
        ]
    );
}

#[test]
fn host_links_bind_tools_read_only() {
    let targets = strings(&["Transit/Build/a/src", "Transit/Build/a/b"]);
    let plan: Vec<String> = setup_mounts(true, &targets, &full_host()).iter().map(show).collect();
    assert_eq!(
        plan,
        vec![
            "dir dev",
            "bind /dev dev",
            "dir proc",
            "bind /proc proc",
            "dir sys",
            "bind /sys sys",
            "dir? Core/Config",
            "file? Core/Config/resolv.conf",
            "ro? /etc/resolv.conf Core/Config/resolv.conf",
            "dir? Core/Config",
            "file? Core/Config/hosts",
            "ro? /etc/hosts Core/Config/hosts",
            "dir etc",
            "tmpfs etc size=4M /etc",
            "dir etc",
            "dir? etc",
            "file? etc/resolv.conf",
            "ro? /etc/resolv.conf etc/resolv.conf",
            "dir? etc",
            "file? etc/hosts",
            "ro? /etc/hosts etc/hosts",
            "tooldir usr",
            "ro /usr usr",
            "tooldir bin",
            "ro /bin bin",
            "tooldir lib",
            "ro /lib lib",
            "tooldir lib64",
            "ro /lib64 lib64",
            "dir etc",
            "dir? etc/ssl",
            "ro? /etc/ssl etc/ssl",
            "dir? etc",
            "file? etc/ca-certificates",
            "ro? /etc/ca-certificates etc/ca-certificates",
            "binddir Transit/Build/a/src",
            "bind #0 Transit/Build/a/src",
            "binddir Transit/Build/a/b",
            "bind #1 Transit/Build/a/b",
            "dir Transit/Ephemeral",
            "tmpfs Transit/Ephemeral size=512M Transit/Ephemeral",
            "write Transit/Ephemeral/config.site",
            "dir tmp",
            "tmpfs tmp size=4G,mode=1777 /tmp",
        ]
    );
}

#[test]
fn existing_bridge_is_not_made_again() {
    let mut probe = full_host();
    probe.bridges = [true, false];
    let plan: Vec<String> = setup_mounts(false, &[], &probe).iter().map(show).collect();
    assert_eq!(
        plan[6..11],
        [
            "dir? Core/Config",
            "ro? /etc/resolv.conf Core/Config/resolv.conf",
            "dir? Core/Config",
            "file? Core/Config/hosts",
            "ro? /etc/hosts Core/Config/hosts",
        ]
    );
}

#[test]
fn network_is_there_without_host_links() {
    for host_links in [false, true] {
        let plan: Vec<String> =
            setup_mounts(host_links, &[], &full_host()).iter().map(show).collect();
        assert!(plan.contains(&"ro? /etc/resolv.conf Core/Config/resolv.conf".to_string()));
        assert!(plan.contains(&"ro? /etc/hosts Core/Config/hosts".to_string()));
    }
    let mut probe = full_host();
    probe.net = [HostEntry::Missing, HostEntry::File];
    let plan: Vec<String> = setup_mounts(false, &[], &probe).iter().map(show).collect();
    assert!(!plan.iter().any(|s| s.contains("resolv.conf")));
    assert!(plan.contains(&"ro? /etc/hosts Core/Config/hosts".to_string()));
    assert_eq!(bridge_files(), vec!["Core/Config/resolv.conf", "Core/Config/hosts"]);
}

#[test]
fn self_hosted_sandbox_has_no_host_tools() {
    for step in setup_mounts(false, &strings(&["x"]), &full_host()) {
        match step {
            MountStep::Bind { source: Origin::Host(p), .. } => {
                assert!(p == "/dev" || p == "/proc" || p == "/sys")
            }
            MountStep::BindReadOnly { .. } => panic!("host tools"),
            MountStep::TryBindReadOnly { from, .. } => {
                assert!(from == "/etc/resolv.conf" || from == "/etc/hosts")
            }
            _ => {}
        }
    }
}

#[test]
fn mount_targets_stay_in_the_sysroot() {
    for step in setup_mounts(true, &strings(&["Transit/Build/a/src"]), &full_host()) {
        let at = match step {
            MountStep::MakeDir(at) => at,
            MountStep::MakeToolDir(at) => at,
            MountStep::MakeBindDir(at) => at,
            MountStep::TryMakeDir(at) => at,
            MountStep::TryMakeFile(at) => at,
            MountStep::Bind { at, .. } => at,
            MountStep::BindReadOnly { at, .. } => at,
            MountStep::TryBindReadOnly { at, .. } => at,
            MountStep::Tmpfs { at, .. } => at,
            MountStep::TryWriteFile { at, .. } => at,
        };
        assert!(!at.starts_with('/'), "{}", at);
    }
}

#[test]
fn host_is_bound_from_these_paths() {
    assert_eq!(host_tool_dirs(), vec!["/usr", "/bin", "/sbin", "/lib", "/lib64", "/opt"]);
    assert_eq!(host_net_files(), vec!["/etc/resolv.conf", "/etc/hosts"]);
    assert_eq!(host_trust_files(), vec!["/etc/ssl", "/etc/ca-certificates", "/etc/pki"]);
}

#[test]
fn failed_mounts_are_told_apart() {
    let s = |x: &str| x.to_string();
    let fail = |step: MountStep<String>, remounting: bool| {
        mount_failure(&step, remounting, "\"/f\"", "\"/r/a\"", "EPERM")
    };
    assert_eq!(fail(MountStep::MakeDir(s("dev")), false), Some(s("mkdir dev: EPERM")));
    assert_eq!(fail(MountStep::MakeToolDir(s("usr")), false), Some(s("mkdir \"/r/a\": EPERM")));
    assert_eq!(
        fail(MountStep::MakeBindDir(s("a")), false),
        Some(s("mkdir bind \"/r/a\": EPERM"))
    );
    let bind = MountStep::Bind { source: Origin::Caller(0), at: s("a") };
    assert_eq!(fail(bind, false), Some(s("bind \"/f\" -> \"/r/a\": EPERM")));
    let ro = MountStep::BindReadOnly { from: s("/f"), at: s("a") };
    assert_eq!(fail(ro, false), Some(s("bind \"/f\" -> \"/r/a\": EPERM")));
    let ro = MountStep::BindReadOnly { from: s("/f"), at: s("a") };
    assert_eq!(fail(ro, true), Some(s("remount-ro \"/r/a\": EPERM")));
    let tmpfs = MountStep::Tmpfs { at: s("tmp"), options: s("x"), label: s("/tmp") };
    assert_eq!(fail(tmpfs, false), Some(s("tmpfs /tmp: EPERM")));
    assert_eq!(fail(MountStep::TryMakeDir(s("a")), false), None);
    assert_eq!(fail(MountStep::TryMakeFile(s("a")), false), None);
    let ro = MountStep::TryBindReadOnly { from: s("/f"), at: s("a") };
    assert_eq!(fail(ro, true), None);
    let write = MountStep::TryWriteFile { at: s("a"), content: s("x") };
    assert_eq!(fail(write, false), None);
}

#[test]
fn caller_variables_replace_defaults_in_place() {
    let envs = pairs(&[("NAME", "a"), ("PATH", "/x"), ("NAME", "b"), ("HOME", "/h")]);
    assert_eq!(
        sandbox_environment(&None, true, &envs),
        vec![
            "HOME=/h",
            "TERM=xterm",
            "PATH=/x",
            "CONFIG_SITE=/Transit/Ephemeral/config.site",
            "NAME=b",
        ]
    );
}

#[test]
fn path_has_host_tools_only_with_host_links() {
    let with = sandbox_environment(&Some("vt100".to_string()), true, &[]);
    let without = sandbox_environment(&Some("vt100".to_string()), false, &[]);
    assert_eq!(with[1], "TERM=vt100");
    assert_eq!(with[2], "PATH=/Core/Bin:/Construct/Bin:/usr/bin:/bin");
    assert_eq!(without[2], "PATH=/Core/Bin:/Construct/Bin");
    assert_eq!(without[0], "HOME=/Vault/Cache/builder");
}

#[test]
fn no_variable_stands_twice() {
    let envs = pairs(&[("A", "1"), ("HOME", "2"), ("A", "3"), ("a", "4"), ("HOME", "5")]);
    let all = sandbox_environment(&None, false, &envs);
    let mut names: Vec<&str> = all.iter().map(|v| v.split('=').next().unwrap()).collect();
    names.sort();
    let n = names.len();
    names.dedup();
    assert_eq!(names.len(), n);
    assert!(all.contains(&"A=3".to_string()));
    assert!(all.contains(&"HOME=5".to_string()));
    assert!(all.contains(&"a=4".to_string()));
}

#[test]
fn build_runs_as_root_inside() {
    let plan = run_in_sandbox(
        &strings(&["/bin/sh", "-c", "true"]),
        &pairs(&[("A", "1")]),
        true,
        false,
        &strings(&["Transit/Build/a/src"]),
        &None,
    );
    assert!(!plan.in_place);
    assert_eq!((plan.uid, plan.gid), (0, 0));
    assert!(plan.host_links);
    assert_eq!(plan.argv, vec!["/bin/sh", "-c", "true"]);
    assert_eq!(plan.binds, vec!["Transit/Build/a/src"]);
    assert_eq!(plan.environment.last(), Some(&"A=1".to_string()));
    assert!(run_in_sandbox(&strings(&["x"]), &[], false, true, &[], &None).in_place);
}

#[test]
fn login_runs_as_the_user_in_place() {
    let plan = run_in_sandbox_as(&strings(&["/s"]), &[], false, &[], 1000, 1001, &None);
    assert!(plan.in_place);
    assert_eq!((plan.uid, plan.gid), (1000, 1001));
    assert!(!plan.host_links);
}

#[test]
fn sandbox_is_entered_in_this_order() {
    assert_eq!(
        do_enter(),
        vec![
            SandboxStep::Unshare,
            SandboxStep::DenySetgroups,
            SandboxStep::MapUser,
            SandboxStep::MapGroup,
            SandboxStep::MakePrivate,
            SandboxStep::SetUpMounts,
            SandboxStep::ChangeRoot,
            SandboxStep::GoToRoot,
            SandboxStep::MakeHome,
            SandboxStep::Execute,
        ]
    );
}

#[test]
fn failed_sandbox_steps_are_told_apart() {
    let fail = |step: SandboxStep| sandbox_failure(step, "\"/r\"", "E").unwrap_or_default();
    assert_eq!(
        fail(SandboxStep::Unshare),
        "unshare (unprivileged user namespaces enabled?): E"
    );
    assert_eq!(fail(SandboxStep::DenySetgroups), "setgroups deny: E");
    assert_eq!(fail(SandboxStep::MapUser), "uid_map: E");
    assert_eq!(fail(SandboxStep::MapGroup), "gid_map: E");
    assert_eq!(fail(SandboxStep::MakePrivate), "make-private /: E");
    assert_eq!(fail(SandboxStep::SetUpMounts), "E");
    assert_eq!(fail(SandboxStep::ChangeRoot), "chroot: E");
    assert_eq!(fail(SandboxStep::GoToRoot), "chdir /: E");
    assert_eq!(fail(SandboxStep::Execute), "execve \"/r\": E");
    assert_eq!(sandbox_failure(SandboxStep::MakeHome, "", "E"), None);
}

#[test]
fn ids_are_mapped_one_to_one() {
    assert_eq!(id_map_line(0, 1000), "0 1000 1");
    assert_eq!(id_map_line(1000, 4294967295), "1000 4294967295 1");
}

#[test]
fn child_ends_become_exit_codes() {
    assert_eq!(exit_code(ChildEnd::Exited(0)), 0);
    assert_eq!(exit_code(ChildEnd::Exited(-1)), -1);
    assert_eq!(exit_code(ChildEnd::Signaled(9)), 137);
    assert_eq!(exit_code(ChildEnd::Other), 1);
}

fn plan(interactive: bool) -> SandboxPlan {
    run_in_sandbox(&strings(&["/s"]), &[], false, interactive, &[], &None)
}

fn next(interactive: bool, event: SandboxEvent) -> SandboxMove {
    enter_sandbox(&plan(interactive), "\"/r\"", &event)
}

fn failed(m: SandboxMove) -> String {
    match m {
        SandboxMove::Fail { message } => message,
        _ => panic!("no failure"),
    }
}

#[test]
fn build_runs_in_a_child_and_a_session_in_place() {
    assert!(matches!(next(false, SandboxEvent::Asked), SandboxMove::FindSysroot));
    assert!(matches!(next(false, SandboxEvent::Found), SandboxMove::Fork));
    assert!(matches!(next(false, SandboxEvent::InParent), SandboxMove::Wait));
    for m in [next(true, SandboxEvent::Found), next(false, SandboxEvent::InChild)] {
        match m {
            SandboxMove::Enter { steps } => assert_eq!(steps, do_enter()),
            _ => panic!("not entered"),
        }
    }
}

#[test]
fn failed_runs_are_told_apart() {
    let e = || "E".to_string();
    assert_eq!(failed(next(false, SandboxEvent::NotFound(e()))), "canonicalize sysroot \"/r\": E");
    assert_eq!(failed(next(false, SandboxEvent::NotForked(e()))), "fork: E");
    let event = SandboxEvent::NotEntered { child: false, message: "chroot: E".to_string() };
    assert_eq!(failed(next(true, event)), "chroot: E");
}

#[test]
fn child_that_cannot_enter_says_so() {
    let event = SandboxEvent::NotEntered { child: true, message: "chroot: E".to_string() };
    match next(false, event) {
        SandboxMove::Exit { message, code } => {
            assert_eq!(message, "sandbox child: chroot: E");
            assert_eq!(code, 127);
        }
        _ => panic!("no exit"),
    }
}

#[test]
fn mount_points_are_removed_after_every_wait() {
    for (event, expected) in [
        (SandboxEvent::Waited(ChildEnd::Exited(3)), Ok(3)),
        (SandboxEvent::Waited(ChildEnd::Exited(127)), Ok(127)),
        (SandboxEvent::Waited(ChildEnd::Signaled(15)), Ok(143)),
        (SandboxEvent::Waited(ChildEnd::Other), Ok(1)),
        (SandboxEvent::NotWaited("ECHILD".to_string()), Err("waitpid: ECHILD".to_string())),
    ] {
        match next(false, event) {
            SandboxMove::CleanUp { dirs, result } => {
                assert_eq!(dirs, stock_dirs());
                assert_eq!(result, expected);
            }
            _ => panic!("not cleaned up"),
        }
    }
}

#[test]
fn mount_points_are_removed() {
    assert_eq!(stock_dirs(), vec!["bin", "sbin", "lib", "lib64", "usr", "opt", "etc", "tmp"]);
}
