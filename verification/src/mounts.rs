//! The file system of the sandbox: what is mounted where, in which order, and
//! which failures matter.
//!
//! All targets are relative to the sysroot. The mounts are made in a private
//! mount namespace, which the kernel tears down with them when the build exits.

use vstd::prelude::*;

use crate::builder::opt_text;
use crate::text::concat3;
use crate::text::texts;
use crate::text::to_chars;
use crate::text::trim_start_char;
use crate::text::without_leading;

verus! {

/// What a host path leads to.
#[derive(Clone, Copy, PartialEq, Eq, Structural, Debug)]
pub enum HostEntry {
    Missing,
    File,
    Directory,
}

/// What is on the host, as far as the sandbox can use it.
pub struct HostProbe {
    /// The network configuration.
    pub net: [HostEntry; 2],
    /// The files of the sysroot that it is bound to that are there already.
    pub bridges: [bool; 2],
    /// The tool directories that are there.
    pub tools: [bool; 6],
    /// The trust store.
    pub trust: [HostEntry; 3],
}

/// The source of a bind mount.
pub enum Origin<T> {
    /// A path on the host.
    Host(T),
    /// One of the directories that the caller wants to have bound.
    Caller(usize),
}

/// One thing that is done to set up the file system.
pub enum MountStep<T> {
    /// Make a directory.
    MakeDir(T),
    /// Make a directory that host tools are bound to.
    MakeToolDir(T),
    /// Make a directory that the caller has something bound to.
    MakeBindDir(T),
    /// Make a directory if possible.
    TryMakeDir(T),
    /// Make an empty file if possible.
    TryMakeFile(T),
    /// Bind a directory with all mounts below it.
    Bind { source: Origin<T>, at: T },
    /// Bind a host path so that nothing can be written to it.
    BindReadOnly { from: T, at: T },
    /// The same, if possible.
    TryBindReadOnly { from: T, at: T },
    /// Mount an empty file system in memory.
    Tmpfs { at: T, options: T, label: T },
    /// Write a file if possible.
    TryWriteFile { at: T, content: T },
}

/// A step with the texts in place of the strings.
pub open spec fn step_text(step: MountStep<String>) -> MountStep<Seq<char>> {
    match step {
        MountStep::MakeDir(at) => MountStep::MakeDir(at@),
        MountStep::MakeToolDir(at) => MountStep::MakeToolDir(at@),
        MountStep::MakeBindDir(at) => MountStep::MakeBindDir(at@),
        MountStep::TryMakeDir(at) => MountStep::TryMakeDir(at@),
        MountStep::TryMakeFile(at) => MountStep::TryMakeFile(at@),
        MountStep::Bind { source: Origin::Host(p), at } => MountStep::Bind {
            source: Origin::Host(p@),
            at: at@,
        },
        MountStep::Bind { source: Origin::Caller(i), at } => MountStep::Bind {
            source: Origin::Caller(i),
            at: at@,
        },
        MountStep::BindReadOnly { from, at } => MountStep::BindReadOnly { from: from@, at: at@ },
        MountStep::TryBindReadOnly { from, at } => MountStep::TryBindReadOnly {
            from: from@,
            at: at@,
        },
        MountStep::Tmpfs { at, options, label } => MountStep::Tmpfs {
            at: at@,
            options: options@,
            label: label@,
        },
        MountStep::TryWriteFile { at, content } => MountStep::TryWriteFile {
            at: at@,
            content: content@,
        },
    }
}

/// The steps with the texts in place of the strings.
pub open spec fn plan_text(v: Seq<MountStep<String>>) -> Seq<MountStep<Seq<char>>> {
    Seq::new(v.len(), |i: int| step_text(v[i]))
}

/// Host directories with build tools and their libraries.
pub open spec fn tool_dirs() -> Seq<Seq<char>> {
    seq!["/usr"@, "/bin"@, "/sbin"@, "/lib"@, "/lib64"@, "/opt"@]
}

/// Host files with network configuration.
pub open spec fn net_files() -> Seq<Seq<char>> {
    seq!["/etc/resolv.conf"@, "/etc/hosts"@]
}

/// The trust store of the host.
pub open spec fn trust_files() -> Seq<Seq<char>> {
    seq!["/etc/ssl"@, "/etc/ca-certificates"@, "/etc/pki"@]
}

/// Strings in a row.
fn strings(parts: &[&str]) -> (r: Vec<String>)
    ensures
        texts(r@) == Seq::new(parts@.len(), |i: int| parts@[i]@),
{
    let mut r: Vec<String> = Vec::new();
    let mut i: usize = 0;
    while i < parts.len()
        invariant
            i <= parts@.len(),
            r@.len() == i,
            forall|k: int| 0 <= k < i ==> (#[trigger] r@[k])@ == parts@[k]@,
        decreases parts.len() - i,
    {
        r.push(parts[i].to_owned());
        i = i + 1;
    }
    assert(texts(r@) =~= Seq::new(parts@.len(), |i: int| parts@[i]@));
    r
}

/// Host directories that are bound read-only so that build tools (make, cmake,
/// curl, coreutils) and their shared libraries are at the usual paths.
pub fn host_tool_dirs() -> (r: Vec<String>)
    ensures
        texts(r@) == tool_dirs(),
{
    let r = strings(&["/usr", "/bin", "/sbin", "/lib", "/lib64", "/opt"]);
    assert(texts(r@) =~= tool_dirs());
    r
}

/// Network configuration of the host: for the tools of RunixOS always, and for its own
/// with host links.
pub fn host_net_files() -> (r: Vec<String>)
    ensures
        texts(r@) == net_files(),
{
    let r = strings(&["/etc/resolv.conf", "/etc/hosts"]);
    assert(texts(r@) =~= net_files());
    r
}

/// The trust store of the host; RunixOS has its own.
pub fn host_trust_files() -> (r: Vec<String>)
    ensures
        texts(r@) == trust_files(),
{
    let r = strings(&["/etc/ssl", "/etc/ca-certificates", "/etc/pki"]);
    assert(texts(r@) =~= trust_files());
    r
}

/// Build-time defaults for autotools: share, libexec, man and doc go to where
/// RunixOS has them.
pub open spec fn config_site() -> Seq<char> {
    "datarootdir='${prefix}/StoreRoom'\ndatadir='${prefix}/StoreRoom'\nlibexecdir='${prefix}/LibKit'\nmandir='${prefix}/StoreRoom/Manual'\ndocdir='${prefix}/StoreRoom/Docs'\ninfodir='${prefix}/StoreRoom/Info'\nlocaledir='${prefix}/StoreRoom/locale'\n"@
}

/// Where in the sysroot a host path is.
pub open spec fn inside(path: Seq<char>) -> Seq<char> {
    without_leading(path, set!['/'])
}

/// The directory that a path lies in.
pub open spec fn parent_of(path: Seq<char>) -> Seq<char>
    decreases path.len(),
{
    if path.len() == 0 {
        path
    } else if path.last() == '/' {
        path.drop_last()
    } else {
        parent_of(path.drop_last())
    }
}

/// The directory that a path lies in.
fn parent(path: &str) -> (r: String)
    ensures
        r@ == parent_of(path@),
{
    let v = to_chars(path);
    let mut j: usize = v.len();
    assert(v@.take(j as int) =~= v@);
    while 0 < j
        invariant
            v@ == path@,
            j <= v.len(),
            parent_of(v@) == parent_of(v@.take(j as int)),
        decreases j,
    {
        assert(v@.take(j as int).drop_last() =~= v@.take(j - 1));
        if v[j - 1] == '/' {
            return path.substring_char(0, j - 1).to_owned();
        }
        j = j - 1;
    }
    String::new()
}

/// How one host file or directory is bound, if it is there. That it cannot be
/// bound does not matter.
pub open spec fn file_steps(file: Seq<char>, entry: HostEntry) -> Seq<MountStep<Seq<char>>> {
    match entry {
        HostEntry::Missing => Seq::empty(),
        HostEntry::Directory => seq![
            MountStep::TryMakeDir(inside(file)),
            MountStep::TryBindReadOnly { from: file, at: inside(file) },
        ],
        HostEntry::File => seq![
            MountStep::TryMakeDir(parent_of(inside(file))),
            MountStep::TryMakeFile(inside(file)),
            MountStep::TryBindReadOnly { from: file, at: inside(file) },
        ],
    }
}

/// How host files are bound, one after the other.
pub open spec fn each_file(files: Seq<Seq<char>>, entries: Seq<HostEntry>) -> Seq<
    MountStep<Seq<char>>,
>
    decreases files.len(),
{
    if files.len() == 0 {
        Seq::empty()
    } else {
        each_file(files.drop_last(), entries) + file_steps(
            files.last(),
            entries[files.len() - 1],
        )
    }
}

/// How host files in `/etc` are bound.
pub open spec fn etc_steps(files: Seq<Seq<char>>, entries: Seq<HostEntry>) -> Seq<
    MountStep<Seq<char>>,
> {
    seq![MountStep::MakeDir("etc"@)] + each_file(files, entries)
}

/// How the tool directories are bound, one after the other.
pub open spec fn each_tool_dir(dirs: Seq<Seq<char>>, there: Seq<bool>) -> Seq<
    MountStep<Seq<char>>,
>
    decreases dirs.len(),
{
    if dirs.len() == 0 {
        Seq::empty()
    } else {
        each_tool_dir(dirs.drop_last(), there) + (if there[dirs.len() - 1] {
            seq![
                MountStep::MakeToolDir(inside(dirs.last())),
                MountStep::BindReadOnly { from: dirs.last(), at: inside(dirs.last()) },
            ]
        } else {
            Seq::empty()
        })
    }
}

/// The devices and the kernel interfaces, which every sandbox has.
pub open spec fn kernel_steps() -> Seq<MountStep<Seq<char>>> {
    seq![
        MountStep::MakeDir("dev"@),
        MountStep::Bind { source: Origin::Host("/dev"@), at: "dev"@ },
        MountStep::MakeDir("proc"@),
        MountStep::Bind { source: Origin::Host("/proc"@), at: "proc"@ },
        MountStep::MakeDir("sys"@),
        MountStep::Bind { source: Origin::Host("/sys"@), at: "sys"@ },
    ]
}

/// Where the tools of RunixOS, which has no `/etc`, look for network configuration.
pub open spec fn bridge_targets() -> Seq<Seq<char>> {
    seq!["Core/Config/resolv.conf"@, "Core/Config/hosts"@]
}

/// How network configuration is bound to where the tools of RunixOS look for it.
pub open spec fn each_bridge(
    files: Seq<Seq<char>>,
    targets: Seq<Seq<char>>,
    entries: Seq<HostEntry>,
    there: Seq<bool>,
) -> Seq<MountStep<Seq<char>>>
    decreases files.len(),
{
    if files.len() == 0 {
        Seq::empty()
    } else {
        let k = files.len() - 1;
        each_bridge(files.drop_last(), targets, entries, there) + bridge_file(
            files[k],
            targets[k],
            entries[k],
            there[k],
        )
    }
}

/// How one file of the host, if it is there, is bound to a file of the sysroot, which is
/// made first unless it is there already. That this fails does not matter.
pub open spec fn bridge_file(
    file: Seq<char>,
    at: Seq<char>,
    entry: HostEntry,
    there: bool,
) -> Seq<MountStep<Seq<char>>> {
    if entry == HostEntry::Missing {
        Seq::empty()
    } else {
        seq![MountStep::TryMakeDir(parent_of(at))] + (if there {
            Seq::empty()
        } else {
            seq![MountStep::TryMakeFile(at)]
        }) + seq![MountStep::TryBindReadOnly { from: file, at }]
    }
}

/// Network configuration for the tools of RunixOS, with host links or without.
pub open spec fn bridge_steps(probe: HostProbe) -> Seq<MountStep<Seq<char>>> {
    each_bridge(net_files(), bridge_targets(), probe.net@, probe.bridges@)
}

/// The tools of the host, and the `/etc` that they need; it is in memory, so that
/// nothing of it stays in the sysroot.
pub open spec fn host_steps(probe: HostProbe) -> Seq<MountStep<Seq<char>>> {
    seq![
        MountStep::MakeDir("etc"@),
        MountStep::Tmpfs { at: "etc"@, options: "size=4M"@, label: "/etc"@ },
    ] + etc_steps(net_files(), probe.net@) + each_tool_dir(tool_dirs(), probe.tools@) + etc_steps(
        trust_files(),
        probe.trust@,
    )
}

/// What the caller wants to have bound.
pub open spec fn caller_steps(targets: Seq<Seq<char>>) -> Seq<MountStep<Seq<char>>>
    decreases targets.len(),
{
    if targets.len() == 0 {
        Seq::empty()
    } else {
        caller_steps(targets.drop_last()) + seq![
            MountStep::MakeBindDir(targets.last()),
            MountStep::Bind {
                source: Origin::Caller((targets.len() - 1) as usize),
                at: targets.last(),
            },
        ]
    }
}

/// Writable scratch space, with the defaults for autotools.
pub open spec fn scratch_steps() -> Seq<MountStep<Seq<char>>> {
    seq![
        MountStep::MakeDir("Transit/Ephemeral"@),
        MountStep::Tmpfs {
            at: "Transit/Ephemeral"@,
            options: "size=512M"@,
            label: "Transit/Ephemeral"@,
        },
        MountStep::TryWriteFile { at: "Transit/Ephemeral/config.site"@, content: config_site() },
        MountStep::MakeDir("tmp"@),
        MountStep::Tmpfs { at: "tmp"@, options: "size=4G,mode=1777"@, label: "/tmp"@ },
    ]
}

/// All that is done to set up the file system.
pub open spec fn mount_plan(host_links: bool, targets: Seq<Seq<char>>, probe: HostProbe) -> Seq<
    MountStep<Seq<char>>,
> {
    kernel_steps() + bridge_steps(probe) + (if host_links {
        host_steps(probe)
    } else {
        Seq::empty()
    }) + caller_steps(targets) + scratch_steps()
}

/// Adds the steps for one host file.
fn add_file(plan: &mut Vec<MountStep<String>>, file: &String, entry: HostEntry)
    ensures
        plan_text(final(plan)@) == plan_text(old(plan)@) + file_steps(file@, entry),
{
    let ghost before = plan_text(plan@);
    let at = trim_start_char(file.as_str(), '/');
    match entry {
        HostEntry::Missing => {},
        HostEntry::Directory => {
            plan.push(MountStep::TryMakeDir(at.clone()));
            plan.push(MountStep::TryBindReadOnly { from: file.clone(), at });
        },
        HostEntry::File => {
            plan.push(MountStep::TryMakeDir(parent(at.as_str())));
            plan.push(MountStep::TryMakeFile(at.clone()));
            plan.push(MountStep::TryBindReadOnly { from: file.clone(), at });
        },
    }
    assert(plan_text(plan@) =~= before + file_steps(file@, entry));
}

/// Adds the steps for host files in `/etc`.
fn add_etc_files(plan: &mut Vec<MountStep<String>>, files: &Vec<String>, entries: &[HostEntry])
    requires
        files@.len() == entries@.len(),
    ensures
        plan_text(final(plan)@) == plan_text(old(plan)@) + etc_steps(texts(files@), entries@),
{
    let ghost before = plan_text(plan@);
    plan.push(MountStep::MakeDir("etc".to_owned()));
    let ghost first = seq![MountStep::MakeDir("etc"@)];
    let ghost all = texts(files@);
    let mut i: usize = 0;
    proof {
        assert(all.take(0) =~= Seq::empty());
        assert(plan_text(plan@) =~= before + first + each_file(all.take(0), entries@));
    }
    while i < files.len()
        invariant
            files@.len() == entries@.len(),
            i <= files@.len(),
            all == texts(files@),
            plan_text(plan@) == before + first + each_file(all.take(i as int), entries@),
        decreases files.len() - i,
    {
        let ghost upto = all.take(i + 1);
        assert(upto.drop_last() =~= all.take(i as int));
        assert(upto.last() == files@[i as int]@);
        let ghost sofar = plan_text(plan@);
        add_file(plan, &files[i], entries[i]);
        proof {
            let more = file_steps(files@[i as int]@, entries@[i as int]);
            assert(plan_text(plan@) =~= sofar + more);
            assert(before + first + each_file(upto, entries@) =~= sofar + more);
        }
        i = i + 1;
    }
    assert(all.take(all.len() as int) =~= all);
    assert(plan_text(plan@) =~= before + etc_steps(all, entries@));
}

/// Where the tools of RunixOS look for network configuration.
pub fn bridge_files() -> (r: Vec<String>)
    ensures
        texts(r@) == bridge_targets(),
{
    let r = strings(&["Core/Config/resolv.conf", "Core/Config/hosts"]);
    assert(texts(r@) =~= bridge_targets());
    r
}

/// Adds the steps for network configuration.
fn add_bridges(
    plan: &mut Vec<MountStep<String>>,
    files: &Vec<String>,
    targets: &Vec<String>,
    entries: &[HostEntry],
    there: &[bool],
)
    requires
        files@.len() == targets@.len() == entries@.len() == there@.len(),
    ensures
        plan_text(final(plan)@) == plan_text(old(plan)@) + each_bridge(
            texts(files@),
            texts(targets@),
            entries@,
            there@,
        ),
{
    let ghost before = plan_text(plan@);
    let ghost all = texts(files@);
    let ghost ats = texts(targets@);
    let mut i: usize = 0;
    proof {
        assert(all.take(0) =~= Seq::empty());
        assert(plan_text(plan@) =~= before + each_bridge(all.take(0), ats, entries@, there@));
    }
    while i < files.len()
        invariant
            files@.len() == targets@.len() == entries@.len() == there@.len(),
            i <= files@.len(),
            all == texts(files@),
            ats == texts(targets@),
            plan_text(plan@) == before + each_bridge(all.take(i as int), ats, entries@, there@),
        decreases files.len() - i,
    {
        let ghost upto = all.take(i + 1);
        assert(upto.drop_last() =~= all.take(i as int));
        assert(upto[i as int] == files@[i as int]@);
        let ghost sofar = plan_text(plan@);
        let ghost more = bridge_file(
            files@[i as int]@,
            targets@[i as int]@,
            entries@[i as int],
            there@[i as int],
        );
        if entries[i] != HostEntry::Missing {
            plan.push(MountStep::TryMakeDir(parent(targets[i].as_str())));
            if !there[i] {
                plan.push(MountStep::TryMakeFile(targets[i].clone()));
            }
            plan.push(
                MountStep::TryBindReadOnly { from: files[i].clone(), at: targets[i].clone() },
            );
        }
        assert(plan_text(plan@) =~= sofar + more);
        assert(before + each_bridge(upto, ats, entries@, there@) =~= sofar + more);
        i = i + 1;
    }
    assert(all.take(all.len() as int) =~= all);
}

/// Adds the steps for the tool directories.
fn add_tool_dirs(plan: &mut Vec<MountStep<String>>, dirs: &Vec<String>, there: &[bool])
    requires
        dirs@.len() == there@.len(),
    ensures
        plan_text(final(plan)@) == plan_text(old(plan)@) + each_tool_dir(texts(dirs@), there@),
{
    let ghost before = plan_text(plan@);
    let ghost all = texts(dirs@);
    let mut i: usize = 0;
    proof {
        assert(all.take(0) =~= Seq::empty());
        assert(plan_text(plan@) =~= before + each_tool_dir(all.take(0), there@));
    }
    while i < dirs.len()
        invariant
            dirs@.len() == there@.len(),
            i <= dirs@.len(),
            all == texts(dirs@),
            plan_text(plan@) == before + each_tool_dir(all.take(i as int), there@),
        decreases dirs.len() - i,
    {
        let ghost upto = all.take(i + 1);
        assert(upto.drop_last() =~= all.take(i as int));
        assert(upto.last() == dirs@[i as int]@);
        let ghost sofar = plan_text(plan@);
        let ghost more: Seq<MountStep<Seq<char>>> = if there@[i as int] {
            seq![
                MountStep::MakeToolDir(inside(upto.last())),
                MountStep::BindReadOnly { from: upto.last(), at: inside(upto.last()) },
            ]
        } else {
            Seq::empty()
        };
        if there[i] {
            let at = trim_start_char(dirs[i].as_str(), '/');
            plan.push(MountStep::MakeToolDir(at.clone()));
            plan.push(MountStep::BindReadOnly { from: dirs[i].clone(), at });
        }
        assert(plan_text(plan@) =~= sofar + more);
        assert(before + each_tool_dir(upto, there@) =~= sofar + more);
        i = i + 1;
    }
    assert(all.take(all.len() as int) =~= all);
}

/// Adds the steps for what the caller wants to have bound.
fn add_caller_binds(plan: &mut Vec<MountStep<String>>, targets: &[String])
    ensures
        plan_text(final(plan)@) == plan_text(old(plan)@) + caller_steps(texts(targets@)),
{
    let ghost before = plan_text(plan@);
    let ghost all = texts(targets@);
    let mut i: usize = 0;
    proof {
        assert(all.take(0) =~= Seq::empty());
        assert(plan_text(plan@) =~= before + caller_steps(all.take(0)));
    }
    while i < targets.len()
        invariant
            i <= targets@.len(),
            all == texts(targets@),
            plan_text(plan@) == before + caller_steps(all.take(i as int)),
        decreases targets.len() - i,
    {
        let ghost upto = all.take(i + 1);
        assert(upto.drop_last() =~= all.take(i as int));
        assert(upto.last() == targets@[i as int]@);
        let ghost sofar = plan_text(plan@);
        let ghost more: Seq<MountStep<Seq<char>>> = seq![
            MountStep::MakeBindDir(upto.last()),
            MountStep::Bind { source: Origin::Caller(i), at: upto.last() },
        ];
        plan.push(MountStep::MakeBindDir(targets[i].clone()));
        plan.push(MountStep::Bind { source: Origin::Caller(i), at: targets[i].clone() });
        assert(plan_text(plan@) =~= sofar + more);
        assert(before + caller_steps(upto) =~= sofar + more);
        i = i + 1;
    }
    assert(all.take(all.len() as int) =~= all);
}

/// Adds a bind of a host directory, and the directory that it is bound to.
fn add_kernel_bind(plan: &mut Vec<MountStep<String>>, from: &str, at: &str)
    ensures
        plan_text(final(plan)@) == plan_text(old(plan)@) + seq![
            MountStep::MakeDir(at@),
            MountStep::Bind { source: Origin::Host(from@), at: at@ },
        ],
{
    let ghost before = plan_text(plan@);
    plan.push(MountStep::MakeDir(at.to_owned()));
    plan.push(MountStep::Bind { source: Origin::Host(from.to_owned()), at: at.to_owned() });
    assert(plan_text(plan@) =~= before + seq![
        MountStep::MakeDir(at@),
        MountStep::Bind { source: Origin::Host(from@), at: at@ },
    ]);
}

/// Adds a file system in memory, and the directory that it is mounted on.
fn add_tmpfs(plan: &mut Vec<MountStep<String>>, at: &str, options: &str, label: &str)
    ensures
        plan_text(final(plan)@) == plan_text(old(plan)@) + seq![
            MountStep::MakeDir(at@),
            MountStep::Tmpfs { at: at@, options: options@, label: label@ },
        ],
{
    let ghost before = plan_text(plan@);
    plan.push(MountStep::MakeDir(at.to_owned()));
    plan.push(
        MountStep::Tmpfs {
            at: at.to_owned(),
            options: options.to_owned(),
            label: label.to_owned(),
        },
    );
    assert(plan_text(plan@) =~= before + seq![
        MountStep::MakeDir(at@),
        MountStep::Tmpfs { at: at@, options: options@, label: label@ },
    ]);
}

/// How the file system of the sandbox is set up, step by step. `targets` are where
/// the caller wants to have its directories bound.
pub fn setup_mounts(host_links: bool, targets: &[String], probe: &HostProbe) -> (r: Vec<
    MountStep<String>,
>)
    ensures
        plan_text(r@) == mount_plan(host_links, texts(targets@), *probe),
{
    let mut plan: Vec<MountStep<String>> = Vec::new();
    add_kernel_bind(&mut plan, "/dev", "dev");
    add_kernel_bind(&mut plan, "/proc", "proc");
    add_kernel_bind(&mut plan, "/sys", "sys");
    assert(plan_text(plan@) =~= kernel_steps());
    let net = host_net_files();
    let bridged = bridge_files();
    assert(texts(net@).len() == net@.len() && texts(bridged@).len() == bridged@.len());
    add_bridges(&mut plan, &net, &bridged, probe.net.as_slice(), probe.bridges.as_slice());
    let ghost common = kernel_steps() + bridge_steps(*probe);
    let ghost host = if host_links {
        host_steps(*probe)
    } else {
        Seq::empty()
    };
    if host_links {
        add_tmpfs(&mut plan, "etc", "size=4M", "/etc");
        add_etc_files(&mut plan, &net, probe.net.as_slice());
        let tools = host_tool_dirs();
        add_tool_dirs(&mut plan, &tools, probe.tools.as_slice());
        let trust = host_trust_files();
        add_etc_files(&mut plan, &trust, probe.trust.as_slice());
        assert(plan_text(plan@) =~= common + host_steps(*probe));
    } else {
        assert(common + Seq::<MountStep<Seq<char>>>::empty() =~= common);
    }
    assert(plan_text(plan@) == common + host);
    add_caller_binds(&mut plan, targets);
    let ghost upto = plan_text(plan@);
    add_tmpfs(&mut plan, "Transit/Ephemeral", "size=512M", "Transit/Ephemeral");
    let ghost mounted = plan_text(plan@);
    plan.push(
        MountStep::TryWriteFile {
            at: "Transit/Ephemeral/config.site".to_owned(),
            content:
                "datarootdir='${prefix}/StoreRoom'\ndatadir='${prefix}/StoreRoom'\nlibexecdir='${prefix}/LibKit'\nmandir='${prefix}/StoreRoom/Manual'\ndocdir='${prefix}/StoreRoom/Docs'\ninfodir='${prefix}/StoreRoom/Info'\nlocaledir='${prefix}/StoreRoom/locale'\n".to_owned(),
        },
    );
    assert(plan_text(plan@) =~= mounted.push(
        MountStep::TryWriteFile { at: "Transit/Ephemeral/config.site"@, content: config_site() },
    ));
    add_tmpfs(&mut plan, "tmp", "size=4G,mode=1777", "/tmp");
    assert(plan_text(plan@) =~= upto + scratch_steps());
    plan
}

/// The message about a step that failed; none if that does not matter. `from` and
/// `at` are how the paths are shown; `remounting`: the bind was made, and making it
/// read-only failed.
pub open spec fn mount_complaint(
    step: MountStep<Seq<char>>,
    remounting: bool,
    from: Seq<char>,
    at: Seq<char>,
    error: Seq<char>,
) -> Option<Seq<char>> {
    match step {
        MountStep::MakeDir(dir) => Some("mkdir "@ + dir + ": "@ + error),
        MountStep::MakeToolDir(_) => Some("mkdir "@ + at + ": "@ + error),
        MountStep::MakeBindDir(_) => Some("mkdir bind "@ + at + ": "@ + error),
        MountStep::Bind { .. } => Some("bind "@ + from + " -> "@ + at + ": "@ + error),
        MountStep::BindReadOnly { .. } => if remounting {
            Some("remount-ro "@ + at + ": "@ + error)
        } else {
            Some("bind "@ + from + " -> "@ + at + ": "@ + error)
        },
        MountStep::Tmpfs { label, .. } => Some("tmpfs "@ + label + ": "@ + error),
        _ => None,
    }
}

/// The message about a bind that failed.
fn bind_failure(from: &str, at: &str, error: &str) -> (r: String)
    ensures
        r@ == "bind "@ + from@ + " -> "@ + at@ + ": "@ + error@,
{
    let mut m = concat3("bind ", from, " -> ");
    m.append(at);
    m.append(": ");
    m.append(error);
    m
}

/// The message about something that failed at a path.
fn failure_at(what: &str, at: &str, error: &str) -> (r: String)
    ensures
        r@ == what@ + at@ + ": "@ + error@,
{
    let mut m = concat3(what, at, ": ");
    m.append(error);
    m
}

/// The message about a step that failed, if the sandbox cannot be set up then.
pub fn mount_failure(
    step: &MountStep<String>,
    remounting: bool,
    from: &str,
    at: &str,
    error: &str,
) -> (r: Option<String>)
    ensures
        opt_text(r) == mount_complaint(step_text(*step), remounting, from@, at@, error@),
{
    match step {
        MountStep::MakeDir(dir) => Some(failure_at("mkdir ", dir.as_str(), error)),
        MountStep::MakeToolDir(_) => Some(failure_at("mkdir ", at, error)),
        MountStep::MakeBindDir(_) => Some(failure_at("mkdir bind ", at, error)),
        MountStep::Bind { .. } => Some(bind_failure(from, at, error)),
        MountStep::BindReadOnly { .. } => if remounting {
            Some(failure_at("remount-ro ", at, error))
        } else {
            Some(bind_failure(from, at, error))
        },
        MountStep::Tmpfs { label, .. } => Some(failure_at("tmpfs ", label.as_str(), error)),
        MountStep::TryMakeDir(_) => None,
        MountStep::TryMakeFile(_) => None,
        MountStep::TryBindReadOnly { .. } => None,
        MountStep::TryWriteFile { .. } => None,
    }
}

/// The devices or a kernel interface.
pub open spec fn is_kernel_path(path: Seq<char>) -> bool {
    path == "/dev"@ || path == "/proc"@ || path == "/sys"@
}

/// A step that gives the sandbox nothing of the host but devices, kernel interfaces
/// and network configuration.
pub open spec fn without_host_tools(step: MountStep<Seq<char>>) -> bool {
    match step {
        MountStep::Bind { source: Origin::Host(p), .. } => is_kernel_path(p),
        MountStep::BindReadOnly { .. } => false,
        MountStep::TryBindReadOnly { from, .. } => net_files().contains(from),
        _ => true,
    }
}

/// A step that lets the sandbox write to nothing of the host but devices, kernel
/// interfaces and what the caller wants to have bound.
pub open spec fn host_is_read_only(step: MountStep<Seq<char>>) -> bool {
    match step {
        MountStep::Bind { source: Origin::Host(p), .. } => is_kernel_path(p),
        _ => true,
    }
}

/// The path that a step makes, mounts on or writes, relative to the sysroot.
pub open spec fn target_of(step: MountStep<Seq<char>>) -> Seq<char> {
    match step {
        MountStep::MakeDir(at) => at,
        MountStep::MakeToolDir(at) => at,
        MountStep::MakeBindDir(at) => at,
        MountStep::TryMakeDir(at) => at,
        MountStep::TryMakeFile(at) => at,
        MountStep::Bind { at, .. } => at,
        MountStep::BindReadOnly { at, .. } => at,
        MountStep::TryBindReadOnly { at, .. } => at,
        MountStep::Tmpfs { at, .. } => at,
        MountStep::TryWriteFile { at, .. } => at,
    }
}

/// A path that does not start at the root.
pub open spec fn is_relative(path: Seq<char>) -> bool {
    path.len() == 0 || path[0] != '/'
}

proof fn caller_steps_safe(targets: Seq<Seq<char>>)
    ensures
        forall|i: int|
            0 <= i < caller_steps(targets).len() ==> without_host_tools(
                #[trigger] caller_steps(targets)[i],
            ),
        (forall|i: int| 0 <= i < targets.len() ==> is_relative(#[trigger] targets[i])) ==> (forall|
            i: int,
        |
            0 <= i < caller_steps(targets).len() ==> is_relative(
                target_of(#[trigger] caller_steps(targets)[i]),
            )),
    decreases targets.len(),
{
    if targets.len() > 0 {
        let init = targets.drop_last();
        caller_steps_safe(init);
        if forall|i: int| 0 <= i < targets.len() ==> is_relative(#[trigger] targets[i]) {
            assert forall|i: int| 0 <= i < init.len() implies is_relative(#[trigger] init[i]) by {
                assert(init[i] == targets[i]);
            }
            assert(is_relative(targets[targets.len() - 1]));
        }
        let before = caller_steps(init);
        let all = caller_steps(targets);
        assert forall|i: int| 0 <= i < before.len() implies all[i] == #[trigger] before[i] by {}
        assert forall|i: int| 0 <= i < all.len() implies without_host_tools(#[trigger] all[i]) by {
            if i < before.len() {
                assert(without_host_tools(before[i]));
            }
        }
        if forall|i: int| 0 <= i < targets.len() ==> is_relative(#[trigger] targets[i]) {
            assert forall|i: int| 0 <= i < all.len() implies is_relative(
                target_of(#[trigger] all[i]),
            ) by {
                if i < before.len() {
                    assert(is_relative(target_of(before[i])));
                }
            }
        }
    }
}

/// Without its leading slashes a path is relative.
proof fn inside_is_relative(path: Seq<char>)
    ensures
        is_relative(inside(path)),
    decreases path.len(),
{
    if path.len() > 0 && path[0] == '/' {
        inside_is_relative(path.drop_first());
    }
}

/// The directory that a relative path lies in is relative.
proof fn parent_is_relative(path: Seq<char>)
    requires
        is_relative(path),
    ensures
        is_relative(parent_of(path)),
    decreases path.len(),
{
    if path.len() > 0 && path.last() != '/' {
        if path.len() > 1 {
            assert(path.drop_last()[0] == path[0]);
        }
        parent_is_relative(path.drop_last());
    }
}

proof fn each_file_safe(files: Seq<Seq<char>>, entries: Seq<HostEntry>)
    ensures
        forall|i: int|
            0 <= i < each_file(files, entries).len() ==> host_is_read_only(
                #[trigger] each_file(files, entries)[i],
            ) && is_relative(target_of(each_file(files, entries)[i])),
    decreases files.len(),
{
    if files.len() > 0 {
        each_file_safe(files.drop_last(), entries);
        inside_is_relative(files.last());
        parent_is_relative(inside(files.last()));
        let before = each_file(files.drop_last(), entries);
        let all = each_file(files, entries);
        assert forall|i: int| 0 <= i < all.len() implies host_is_read_only(#[trigger] all[i])
            && is_relative(target_of(all[i])) by {
            if i < before.len() {
                assert(all[i] == before[i]);
            }
        }
    }
}

proof fn each_tool_dir_safe(dirs: Seq<Seq<char>>, there: Seq<bool>)
    ensures
        forall|i: int|
            0 <= i < each_tool_dir(dirs, there).len() ==> host_is_read_only(
                #[trigger] each_tool_dir(dirs, there)[i],
            ) && is_relative(target_of(each_tool_dir(dirs, there)[i])),
    decreases dirs.len(),
{
    if dirs.len() > 0 {
        each_tool_dir_safe(dirs.drop_last(), there);
        inside_is_relative(dirs.last());
        let before = each_tool_dir(dirs.drop_last(), there);
        let all = each_tool_dir(dirs, there);
        assert forall|i: int| 0 <= i < all.len() implies host_is_read_only(#[trigger] all[i])
            && is_relative(target_of(all[i])) by {
            if i < before.len() {
                assert(all[i] == before[i]);
            }
        }
    }
}

/// The first characters of the fixed targets.
proof fn fixed_targets_relative()
    ensures
        is_relative("dev"@),
        is_relative("proc"@),
        is_relative("sys"@),
        is_relative("etc"@),
        is_relative("tmp"@),
        is_relative("Core/Config/resolv.conf"@),
        is_relative("Core/Config/hosts"@),
        is_relative("Transit/Ephemeral"@),
        is_relative("Transit/Ephemeral/config.site"@),
{
    reveal_strlit("dev");
    reveal_strlit("proc");
    reveal_strlit("sys");
    reveal_strlit("etc");
    reveal_strlit("tmp");
    reveal_strlit("Core/Config/resolv.conf");
    reveal_strlit("Core/Config/hosts");
    reveal_strlit("Transit/Ephemeral");
    reveal_strlit("Transit/Ephemeral/config.site");
}

/// The steps for network configuration bind nothing else, and stay in the sysroot.
proof fn bridge_steps_safe(probe: HostProbe)
    ensures
        forall|i: int|
            0 <= i < bridge_steps(probe).len() ==> without_host_tools(
                #[trigger] bridge_steps(probe)[i],
            ) && host_is_read_only(bridge_steps(probe)[i]) && is_relative(
                target_of(bridge_steps(probe)[i]),
            ),
{
    fixed_targets_relative();
    let files = net_files();
    let ats = bridge_targets();
    parent_is_relative(ats[0]);
    parent_is_relative(ats[1]);
    assert(files.contains(files[0]) && files.contains(files[1]));
    let first = bridge_file(files[0], ats[0], probe.net@[0], probe.bridges@[0]);
    let second = bridge_file(files[1], ats[1], probe.net@[1], probe.bridges@[1]);
    reveal_with_fuel(each_bridge, 3);
    assert(files.drop_last().drop_last() =~= Seq::empty());
    let all = bridge_steps(probe);
    assert(all =~= first + second);
    assert forall|i: int| 0 <= i < all.len() implies without_host_tools(#[trigger] all[i])
        && host_is_read_only(all[i]) && is_relative(target_of(all[i])) by {
        if i < first.len() {
            assert(all[i] == first[i]);
        } else {
            assert(all[i] == second[i - first.len()]);
        }
    }
}

/// Network configuration that the host has is bound read-only to where the tools of
/// RunixOS look for it, with host links or without.
pub proof fn law_network_is_always_there(
    host_links: bool,
    targets: Seq<Seq<char>>,
    probe: HostProbe,
    k: int,
)
    requires
        0 <= k < net_files().len(),
        probe.net@[k] != HostEntry::Missing,
    ensures
        mount_plan(host_links, targets, probe).contains(
            MountStep::TryBindReadOnly { from: net_files()[k], at: bridge_targets()[k] },
        ),
{
    let files = net_files();
    let ats = bridge_targets();
    let first = bridge_file(files[0], ats[0], probe.net@[0], probe.bridges@[0]);
    let second = bridge_file(files[1], ats[1], probe.net@[1], probe.bridges@[1]);
    reveal_with_fuel(each_bridge, 3);
    assert(files.drop_last().drop_last() =~= Seq::empty());
    let bridges = bridge_steps(probe);
    assert(bridges =~= first + second);
    let all = mount_plan(host_links, targets, probe);
    let n = kernel_steps().len() as int;
    let bound = MountStep::TryBindReadOnly { from: files[k], at: ats[k] };
    let at = if k == 0 {
        first.len() - 1
    } else {
        first.len() + second.len() - 1
    };
    assert(bridges[at] == bound);
    assert(all[n + at] == bridges[at]);
}

/// Without host links no tool of the host and nothing of its `/etc` but the network
/// configuration gets into the sandbox: all that is bound are devices, kernel
/// interfaces, the network configuration and what the caller names.
pub proof fn law_self_hosted_has_no_host_tools(targets: Seq<Seq<char>>, probe: HostProbe)
    ensures
        forall|i: int|
            0 <= i < mount_plan(false, targets, probe).len() ==> without_host_tools(
                #[trigger] mount_plan(false, targets, probe)[i],
            ),
{
    caller_steps_safe(targets);
    bridge_steps_safe(probe);
    let first = kernel_steps() + bridge_steps(probe);
    let all = mount_plan(false, targets, probe);
    assert forall|i: int| 0 <= i < all.len() implies without_host_tools(#[trigger] all[i]) by {
        let n = first.len() as int;
        let m = n + caller_steps(targets).len();
        if n <= i < m {
            assert(all[i] == caller_steps(targets)[i - n]);
        } else if m <= i {
            assert(all[i] == scratch_steps()[i - m]);
        } else {
            assert(all[i] == first[i]);
            if i >= kernel_steps().len() {
                assert(all[i] == bridge_steps(probe)[i - kernel_steps().len()]);
            }
        }
    }
}

/// Whatever is bound from the host beside devices and kernel interfaces is bound
/// read-only, with host links or without.
pub proof fn law_host_is_read_only(host_links: bool, targets: Seq<Seq<char>>, probe: HostProbe)
    ensures
        forall|i: int|
            0 <= i < mount_plan(host_links, targets, probe).len() ==> host_is_read_only(
                #[trigger] mount_plan(host_links, targets, probe)[i],
            ),
{
    plan_sections(host_links, targets, probe);
}

/// All that is made, mounted on or written lies in the sysroot by its path: no
/// target starts at the root, as long as none of the caller's does.
pub proof fn law_targets_are_relative(host_links: bool, targets: Seq<Seq<char>>, probe: HostProbe)
    requires
        forall|i: int| 0 <= i < targets.len() ==> is_relative(#[trigger] targets[i]),
    ensures
        forall|i: int|
            0 <= i < mount_plan(host_links, targets, probe).len() ==> is_relative(
                target_of(#[trigger] mount_plan(host_links, targets, probe)[i]),
            ),
{
    plan_sections(host_links, targets, probe);
}

proof fn plan_sections(host_links: bool, targets: Seq<Seq<char>>, probe: HostProbe)
    ensures
        forall|i: int|
            0 <= i < mount_plan(host_links, targets, probe).len() ==> host_is_read_only(
                #[trigger] mount_plan(host_links, targets, probe)[i],
            ),
        (forall|i: int| 0 <= i < targets.len() ==> is_relative(#[trigger] targets[i])) ==> (forall|
            i: int,
        |
            0 <= i < mount_plan(host_links, targets, probe).len() ==> is_relative(
                target_of(#[trigger] mount_plan(host_links, targets, probe)[i]),
            )),
{
    caller_steps_safe(targets);
    bridge_steps_safe(probe);
    fixed_targets_relative();
    each_file_safe(net_files(), probe.net@);
    each_file_safe(trust_files(), probe.trust@);
    each_tool_dir_safe(tool_dirs(), probe.tools@);
    let first = kernel_steps() + bridge_steps(probe);
    let host = if host_links {
        host_steps(probe)
    } else {
        Seq::empty()
    };
    let net = etc_steps(net_files(), probe.net@);
    let tools = each_tool_dir(tool_dirs(), probe.tools@);
    let trust = etc_steps(trust_files(), probe.trust@);
    assert forall|i: int| 0 <= i < host.len() implies host_is_read_only(#[trigger] host[i])
        && is_relative(target_of(host[i])) by {
        let a = 2 + net.len();
        let b = a + tools.len();
        if 2 <= i < a {
            assert(host[i] == net[i - 2]);
            if i > 2 {
                assert(net[i - 2] == each_file(net_files(), probe.net@)[i - 3]);
            }
        } else if a <= i < b {
            assert(host[i] == tools[i - a]);
        } else if b <= i {
            assert(host[i] == trust[i - b]);
            if i > b {
                assert(trust[i - b] == each_file(trust_files(), probe.trust@)[i - b - 1]);
            }
        }
    }
    assert forall|i: int| 0 <= i < first.len() implies host_is_read_only(#[trigger] first[i])
        && is_relative(target_of(first[i])) by {
        if i >= kernel_steps().len() {
            assert(first[i] == bridge_steps(probe)[i - kernel_steps().len()]);
        }
    }
    let all = mount_plan(host_links, targets, probe);
    let fixed = forall|i: int| 0 <= i < targets.len() ==> is_relative(#[trigger] targets[i]);
    assert forall|i: int| 0 <= i < all.len() implies host_is_read_only(#[trigger] all[i]) && (fixed
        ==> is_relative(target_of(all[i]))) by {
        let n = first.len() as int;
        let h = n + host.len();
        let m = h + caller_steps(targets).len();
        if i < n {
            assert(all[i] == first[i]);
        } else if i < h {
            assert(all[i] == host[i - n]);
        } else if i < m {
            assert(all[i] == caller_steps(targets)[i - h]);
            assert(without_host_tools(caller_steps(targets)[i - h]));
        } else {
            assert(all[i] == scratch_steps()[i - m]);
        }
    }
}

} // verus!
