//! What holds of every sandbox file system: what is in it, in which order, and which
//! failures matter.

use vstd::prelude::*;

use crate::mounts::bridge_steps;
use crate::mounts::caller_steps;
use crate::mounts::config_site;
use crate::mounts::each_file;
use crate::mounts::each_tool_dir;
use crate::mounts::etc_steps;
use crate::mounts::file_steps;
use crate::mounts::host_steps;
use crate::mounts::inside;
use crate::mounts::kernel_steps;
use crate::mounts::mount_complaint;
use crate::mounts::mount_plan;
use crate::mounts::net_files;
use crate::mounts::parent_of;
use crate::mounts::plan_text;
use crate::mounts::scratch_steps;
use crate::mounts::step_text;
use crate::mounts::target_of;
use crate::mounts::tool_dirs;
use crate::mounts::trust_files;
use crate::mounts::HostEntry;
use crate::mounts::HostProbe;
use crate::mounts::MountStep;
use crate::mounts::Origin;
use crate::text_laws::law_leading;

verus! {

/// A host path inside the sysroot is the path without the slashes at its beginning, however
/// many there are.
pub proof fn law_host_paths_keep_their_place(slashes: Seq<char>, rel: Seq<char>)
    requires
        forall|i: int| 0 <= i < slashes.len() ==> #[trigger] slashes[i] == '/',
        rel.len() > 0 ==> rel[0] != '/',
    ensures
        inside(slashes + rel) == rel,
{
    let path = slashes + rel;
    law_leading(path, set!['/']);
    let k = path.len() - inside(path).len();
    if k < slashes.len() {
        assert(inside(path)[0] == slashes[k]);
    }
    if k > slashes.len() {
        assert(path[slashes.len() as int] == rel[0]);
    }
    assert(inside(path) =~= rel);
}

/// The directory that a path lies in is the path without its last name.
pub proof fn law_parent_is_without_the_last_name(dir: Seq<char>, name: Seq<char>)
    requires
        !name.contains('/'),
    ensures
        parent_of(dir + seq!['/'] + name) == dir,
        parent_of(name) == Seq::<char>::empty(),
    decreases name.len(),
{
    let path = dir + seq!['/'] + name;
    if name.len() == 0 {
        assert(path.drop_last() =~= dir);
        assert(name =~= Seq::empty());
    } else {
        assert(name.contains(name[name.len() - 1]));
        assert(path.last() == name.last());
        assert(path.drop_last() =~= dir + seq!['/'] + name.drop_last());
        assert(!name.drop_last().contains('/')) by {
            if name.drop_last().contains('/') {
                let k = choose|k: int| 0 <= k < name.drop_last().len() && name.drop_last()[k] == '/';
                assert(name[k] == '/');
            }
        }
        law_parent_is_without_the_last_name(dir, name.drop_last());
    }
}

/// Where the sections of a plan begin.
proof fn plan_parts(host_links: bool, targets: Seq<Seq<char>>, probe: HostProbe) -> (r: (
    int,
    int,
    int,
    int,
))
    ensures
        r.0 == kernel_steps().len(),
        r.1 == r.0 + bridge_steps(probe).len(),
        r.2 == r.1 + (if host_links {
            host_steps(probe).len() as int
        } else {
            0
        }),
        r.3 == r.2 + caller_steps(targets).len(),
        mount_plan(host_links, targets, probe).len() == r.3 + scratch_steps().len(),
        forall|i: int|
            #![trigger mount_plan(host_links, targets, probe)[i]]
            0 <= i < mount_plan(host_links, targets, probe).len() ==> mount_plan(
                host_links,
                targets,
                probe,
            )[i] == (if i < r.0 {
                kernel_steps()[i]
            } else if i < r.1 {
                bridge_steps(probe)[i - r.0]
            } else if i < r.2 {
                host_steps(probe)[i - r.1]
            } else if i < r.3 {
                caller_steps(targets)[i - r.2]
            } else {
                scratch_steps()[i - r.3]
            }),
{
    let a = kernel_steps().len() as int;
    let b = a + bridge_steps(probe).len();
    let h: int = if host_links {
        host_steps(probe).len() as int
    } else {
        0
    };
    (a, b, b + h, b + h + caller_steps(targets).len())
}

/// Where a caller's tree stands in the plan for the callers.
proof fn caller_at(targets: Seq<Seq<char>>, i: int)
    requires
        0 <= i < targets.len() <= usize::MAX,
    ensures
        caller_steps(targets).len() == 2 * targets.len(),
        caller_steps(targets)[2 * i] == MountStep::MakeBindDir(targets[i]),
        caller_steps(targets)[2 * i + 1] == (MountStep::Bind {
            source: Origin::Caller(i as usize),
            at: targets[i],
        }),
    decreases targets.len(),
{
    let init = targets.drop_last();
    if init.len() == 0 {
        assert(caller_steps(init) =~= Seq::empty());
    } else {
        caller_at(init, if i < init.len() {
            i
        } else {
            0
        });
    }
    if i < init.len() {
        assert(init[i] == targets[i]);
    }
}

/// Each tree that the caller wants to have bound is bound, with host links or without: its
/// directory is made, and the tree is bound there in the next step, before the scratch
/// space is set up.
pub proof fn law_caller_trees_are_bound(
    host_links: bool,
    targets: Seq<Seq<char>>,
    probe: HostProbe,
    i: int,
)
    requires
        0 <= i < targets.len() <= usize::MAX,
    ensures
        exists|k: int, m: int|
            0 <= k && k + 1 < m < mount_plan(host_links, targets, probe).len() && #[trigger] mount_plan(
                host_links,
                targets,
                probe,
            )[k] == MountStep::MakeBindDir(targets[i]) && mount_plan(host_links, targets, probe)[k + 1]
                == (MountStep::Bind { source: Origin::Caller(i as usize), at: targets[i] })
                && #[trigger] mount_plan(host_links, targets, probe)[m] == (MountStep::Tmpfs {
                at: "Transit/Ephemeral"@,
                options: "size=512M"@,
                label: "Transit/Ephemeral"@,
            }),
{
    let (a, b, h, c) = plan_parts(host_links, targets, probe);
    caller_at(targets, i);
    let all = mount_plan(host_links, targets, probe);
    let k = h + 2 * i;
    let m = c + 1;
    assert(all[k] == caller_steps(targets)[2 * i]);
    assert(all[k + 1] == caller_steps(targets)[2 * i + 1]);
    assert(all[m] == scratch_steps()[1]);
}

/// Nothing of the caller is bound but what it asked for, and each tree where it asked for
/// it.
pub proof fn law_only_asked_trees_are_bound(
    host_links: bool,
    targets: Seq<Seq<char>>,
    probe: HostProbe,
    k: int,
)
    requires
        targets.len() <= usize::MAX,
        0 <= k < mount_plan(host_links, targets, probe).len(),
        mount_plan(host_links, targets, probe)[k] is Bind,
        mount_plan(host_links, targets, probe)[k]->source is Caller,
    ensures
        ({
            let step = mount_plan(host_links, targets, probe)[k];
            let i = step->source->Caller_0;
            i < targets.len() && step->Bind_at == targets[i as int]
        }),
{
    let (a, b, h, c) = plan_parts(host_links, targets, probe);
    let all = mount_plan(host_links, targets, probe);
    if k < a {
        assert(all[k] == kernel_steps()[k]);
    } else if k < b {
        bridges_only_try(probe, k - a);
    } else if k < h {
        assert(all[k] == host_steps(probe)[k - b]);
        host_has_no_plain_bind(probe, k - b);
    } else if k < c {
        let j = k - h;
        assert(all[k] == caller_steps(targets)[j]);
        caller_at(targets, 0);
        caller_at(targets, j / 2);
        assert(j == 2 * (j / 2) || j == 2 * (j / 2) + 1);
    } else {
        assert(all[k] == scratch_steps()[k - c]);
    }
}

/// Network configuration is bound by steps that need not succeed.
proof fn bridges_only_try(probe: HostProbe, i: int)
    requires
        0 <= i < bridge_steps(probe).len(),
    ensures
        bridge_steps(probe)[i] is TryMakeDir || bridge_steps(probe)[i] is TryMakeFile
            || bridge_steps(probe)[i] is TryBindReadOnly,
        target_of(bridge_steps(probe)[i]) == "Core/Config/resolv.conf"@ || target_of(
            bridge_steps(probe)[i],
        ) == "Core/Config/hosts"@ || target_of(bridge_steps(probe)[i]) == parent_of(
            "Core/Config/resolv.conf"@,
        ) || target_of(bridge_steps(probe)[i]) == parent_of("Core/Config/hosts"@),
{
    let files = net_files();
    let ats = crate::mounts::bridge_targets();
    reveal_with_fuel(crate::mounts::each_bridge, 3);
    assert(files.drop_last().drop_last() =~= Seq::empty());
    let first = crate::mounts::bridge_file(files[0], ats[0], probe.net@[0], probe.bridges@[0]);
    let second = crate::mounts::bridge_file(files[1], ats[1], probe.net@[1], probe.bridges@[1]);
    assert(bridge_steps(probe) =~= first + second);
    if i < first.len() {
        assert(bridge_steps(probe)[i] == first[i]);
    } else {
        assert(bridge_steps(probe)[i] == second[i - first.len()]);
    }
}

/// The steps for files of the host only try.
proof fn files_only_try(files: Seq<Seq<char>>, entries: Seq<HostEntry>, i: int)
    requires
        0 <= i < each_file(files, entries).len(),
    ensures
        each_file(files, entries)[i] is TryMakeDir || each_file(files, entries)[i] is TryMakeFile
            || each_file(files, entries)[i] is TryBindReadOnly,
    decreases files.len(),
{
    let before = each_file(files.drop_last(), entries);
    if i < before.len() {
        files_only_try(files.drop_last(), entries, i);
    }
}

/// The steps for tool directories make directories and bind them read-only.
proof fn tools_are_read_only(dirs: Seq<Seq<char>>, there: Seq<bool>, i: int)
    requires
        0 <= i < each_tool_dir(dirs, there).len(),
    ensures
        each_tool_dir(dirs, there)[i] is MakeToolDir || each_tool_dir(dirs, there)[i] is BindReadOnly,
        each_tool_dir(dirs, there)[i] matches MountStep::BindReadOnly { at, .. } ==> i > 0
            && each_tool_dir(dirs, there)[i - 1] == MountStep::MakeToolDir(at),
    decreases dirs.len(),
{
    let before = each_tool_dir(dirs.drop_last(), there);
    if i < before.len() {
        tools_are_read_only(dirs.drop_last(), there, i);
    }
}

/// Host files and tools are never bound in a way that could be written to.
proof fn host_has_no_plain_bind(probe: HostProbe, i: int)
    requires
        0 <= i < host_steps(probe).len(),
    ensures
        !(host_steps(probe)[i] is Bind),
{
    let net = etc_steps(net_files(), probe.net@);
    let tools = each_tool_dir(tool_dirs(), probe.tools@);
    let trust = etc_steps(trust_files(), probe.trust@);
    let host = host_steps(probe);
    let a = 2 + net.len();
    let b = a + tools.len();
    if 2 <= i < a {
        assert(host[i] == net[i - 2]);
        if i > 2 {
            assert(net[i - 2] == each_file(net_files(), probe.net@)[i - 3]);
            files_only_try(net_files(), probe.net@, i - 3);
        }
    } else if a <= i < b {
        assert(host[i] == tools[i - a]);
        tools_are_read_only(tool_dirs(), probe.tools@, i - a);
    } else if b <= i {
        assert(host[i] == trust[i - b]);
        if i > b {
            assert(trust[i - b] == each_file(trust_files(), probe.trust@)[i - b - 1]);
            files_only_try(trust_files(), probe.trust@, i - b - 1);
        }
    }
}

/// Every sandbox has the devices and the kernel interfaces of the host, each bound to a
/// directory that was made in the step before.
pub proof fn law_devices_are_always_there(
    host_links: bool,
    targets: Seq<Seq<char>>,
    probe: HostProbe,
)
    ensures
        ({
            let plan = mount_plan(host_links, targets, probe);
            &&& plan.len() >= 6
            &&& plan[0] == MountStep::MakeDir("dev"@)
            &&& plan[1] == (MountStep::Bind { source: Origin::Host("/dev"@), at: "dev"@ })
            &&& plan[2] == MountStep::MakeDir("proc"@)
            &&& plan[3] == (MountStep::Bind { source: Origin::Host("/proc"@), at: "proc"@ })
            &&& plan[4] == MountStep::MakeDir("sys"@)
            &&& plan[5] == (MountStep::Bind { source: Origin::Host("/sys"@), at: "sys"@ })
        }),
{
    let (a, b, h, c) = plan_parts(host_links, targets, probe);
}

/// Every sandbox ends with scratch space of its own: `Transit/Ephemeral` and `tmp` in
/// memory, each on a directory that was made in the step before, and the defaults for
/// autotools written there once it is mounted.
pub proof fn law_scratch_space_is_always_there(
    host_links: bool,
    targets: Seq<Seq<char>>,
    probe: HostProbe,
)
    ensures
        ({
            let plan = mount_plan(host_links, targets, probe);
            let n = plan.len();
            &&& n >= 5
            &&& plan[n - 5] == MountStep::MakeDir("Transit/Ephemeral"@)
            &&& plan[n - 4] == (MountStep::Tmpfs {
                at: "Transit/Ephemeral"@,
                options: "size=512M"@,
                label: "Transit/Ephemeral"@,
            })
            &&& plan[n - 3] == (MountStep::TryWriteFile {
                at: "Transit/Ephemeral/config.site"@,
                content: config_site(),
            })
            &&& plan[n - 2] == MountStep::MakeDir("tmp"@)
            &&& plan[n - 1] == (MountStep::Tmpfs {
                at: "tmp"@,
                options: "size=4G,mode=1777"@,
                label: "/tmp"@,
            })
        }),
{
    let (a, b, h, c) = plan_parts(host_links, targets, probe);
}

/// Where a tool directory that is there stands in the plan for tools.
proof fn tool_at(dirs: Seq<Seq<char>>, there: Seq<bool>, i: int) -> (k: int)
    requires
        0 <= i < dirs.len(),
        there[i],
    ensures
        0 <= k,
        k + 1 < each_tool_dir(dirs, there).len(),
        each_tool_dir(dirs, there)[k] == MountStep::MakeToolDir(inside(dirs[i])),
        each_tool_dir(dirs, there)[k + 1] == (MountStep::BindReadOnly {
            from: dirs[i],
            at: inside(dirs[i]),
        }),
    decreases dirs.len(),
{
    let init = dirs.drop_last();
    let before = each_tool_dir(init, there);
    if i < init.len() {
        let k = tool_at(init, there, i);
        assert(init[i] == dirs[i]);
        assert(each_tool_dir(dirs, there)[k] == before[k]);
        assert(each_tool_dir(dirs, there)[k + 1] == before[k + 1]);
        k
    } else {
        before.len() as int
    }
}

/// With host links each tool directory of the host that is there is bound read-only at its
/// usual place, on a directory that was made in the step before: all of `/usr`, `/bin`,
/// `/sbin`, `/lib`, `/lib64` and `/opt`.
pub proof fn law_host_links_bring_the_tools(
    targets: Seq<Seq<char>>,
    probe: HostProbe,
    i: int,
    rel: Seq<char>,
)
    requires
        0 <= i < 6,
        probe.tools@[i],
        rel == seq!["usr"@, "bin"@, "sbin"@, "lib"@, "lib64"@, "opt"@][i],
    ensures
        exists|k: int|
            0 <= k && k + 1 < mount_plan(true, targets, probe).len() && #[trigger] mount_plan(
                true,
                targets,
                probe,
            )[k] == MountStep::MakeToolDir(rel) && mount_plan(true, targets, probe)[k + 1] == (
            MountStep::BindReadOnly { from: seq!['/'] + rel, at: rel }),
{
    reveal_strlit("usr");
    reveal_strlit("bin");
    reveal_strlit("sbin");
    reveal_strlit("lib");
    reveal_strlit("lib64");
    reveal_strlit("opt");
    reveal_strlit("/usr");
    reveal_strlit("/bin");
    reveal_strlit("/sbin");
    reveal_strlit("/lib");
    reveal_strlit("/lib64");
    reveal_strlit("/opt");
    let (a, b, h, c) = plan_parts(true, targets, probe);
    let dirs = tool_dirs();
    assert(dirs[i] =~= seq!['/'] + rel);
    law_host_paths_keep_their_place(seq!['/'], rel);
    let at = tool_at(dirs, probe.tools@, i);
    let net = etc_steps(net_files(), probe.net@);
    let tools = each_tool_dir(dirs, probe.tools@);
    let all = mount_plan(true, targets, probe);
    let k = b + 2 + net.len() + at;
    assert(host_steps(probe)[2 + net.len() + at] == tools[at]);
    assert(host_steps(probe)[2 + net.len() + at + 1] == tools[at + 1]);
    assert(all[k] == tools[at]);
    assert(all[k + 1] == tools[at + 1]);
}

/// Where a file of the host that is there stands in the plan for files.
proof fn file_at(files: Seq<Seq<char>>, entries: Seq<HostEntry>, i: int) -> (k: int)
    requires
        0 <= i < files.len(),
        entries[i] != HostEntry::Missing,
    ensures
        0 < k < each_file(files, entries).len(),
        each_file(files, entries)[k] == (MountStep::TryBindReadOnly {
            from: files[i],
            at: inside(files[i]),
        }),
        each_file(files, entries)[k - 1] == (if entries[i] == HostEntry::Directory {
            MountStep::TryMakeDir(inside(files[i]))
        } else {
            MountStep::TryMakeFile(inside(files[i]))
        }),
        entries[i] == HostEntry::File ==> k > 1 && each_file(files, entries)[k - 2]
            == MountStep::TryMakeDir(parent_of(inside(files[i]))),
    decreases files.len(),
{
    let init = files.drop_last();
    let before = each_file(init, entries);
    if i < init.len() {
        let k = file_at(init, entries, i);
        assert(init[i] == files[i]);
        assert(each_file(files, entries)[k] == before[k]);
        assert(each_file(files, entries)[k - 1] == before[k - 1]);
        if entries[i] == HostEntry::File {
            assert(each_file(files, entries)[k - 2] == before[k - 2]);
        }
        k
    } else {
        let more = file_steps(files[i], entries[i]);
        let k = before.len() + more.len() - 1;
        assert(each_file(files, entries)[k] == more[more.len() - 1]);
        assert(each_file(files, entries)[k - 1] == more[more.len() - 2]);
        if entries[i] == HostEntry::File {
            assert(each_file(files, entries)[k - 2] == more[0]);
        }
        k
    }
}

/// With host links the tools of the host find their network configuration and the trust
/// store at their usual places, each bound read-only to what was made for it in the step
/// before, after `/etc` was put in memory.
pub proof fn law_host_links_bring_the_configuration(
    targets: Seq<Seq<char>>,
    probe: HostProbe,
    i: int,
)
    requires
        0 <= i < 5,
        i < 2 ==> probe.net@[i] != HostEntry::Missing,
        i >= 2 ==> probe.trust@[i - 2] != HostEntry::Missing,
    ensures
        ({
            let plan = mount_plan(true, targets, probe);
            let rel = seq![
                "etc/resolv.conf"@,
                "etc/hosts"@,
                "etc/ssl"@,
                "etc/ca-certificates"@,
                "etc/pki"@,
            ][i];
            let is_dir = if i < 2 {
                probe.net@[i] == HostEntry::Directory
            } else {
                probe.trust@[i - 2] == HostEntry::Directory
            };
            exists|m: int, k: int|
                0 <= m && m + 1 < k < plan.len() && #[trigger] plan[m] == MountStep::MakeDir("etc"@)
                    && plan[m + 1] == (MountStep::Tmpfs {
                    at: "etc"@,
                    options: "size=4M"@,
                    label: "/etc"@,
                }) && #[trigger] plan[k] == (MountStep::TryBindReadOnly {
                    from: seq!['/'] + rel,
                    at: rel,
                }) && plan[k - 1] == (if is_dir {
                    MountStep::TryMakeDir(rel)
                } else {
                    MountStep::TryMakeFile(rel)
                }) && (!is_dir ==> plan[k - 2] == MountStep::TryMakeDir("etc"@))
        }),
{
    reveal_strlit("etc/resolv.conf");
    reveal_strlit("etc/hosts");
    reveal_strlit("etc/ssl");
    reveal_strlit("etc/ca-certificates");
    reveal_strlit("etc/pki");
    reveal_strlit("/etc/resolv.conf");
    reveal_strlit("/etc/hosts");
    reveal_strlit("/etc/ssl");
    reveal_strlit("/etc/ca-certificates");
    reveal_strlit("/etc/pki");
    let (a, b, h, c) = plan_parts(true, targets, probe);
    let all = mount_plan(true, targets, probe);
    let rel = seq![
        "etc/resolv.conf"@,
        "etc/hosts"@,
        "etc/ssl"@,
        "etc/ca-certificates"@,
        "etc/pki"@,
    ][i];
    law_host_paths_keep_their_place(seq!['/'], rel);
    reveal_strlit("etc");
    let name = rel.skip(4);
    assert(rel =~= "etc"@ + seq!['/'] + name);
    law_parent_is_without_the_last_name("etc"@, name);
    let host = host_steps(probe);
    let net = etc_steps(net_files(), probe.net@);
    let tools = each_tool_dir(tool_dirs(), probe.tools@);
    let trust = etc_steps(trust_files(), probe.trust@);
    assert(all[b] == host[0]);
    assert(all[b + 1] == host[1]);
    if i < 2 {
        let files = net_files();
        assert(files[i] =~= seq!['/'] + rel);
        let at = file_at(files, probe.net@, i);
        let steps = each_file(files, probe.net@);
        assert(net[1 + at] == steps[at]);
        assert(net[at] == steps[at - 1]);
        let k = b + 2 + 1 + at;
        assert(host[2 + 1 + at] == net[1 + at]);
        assert(host[2 + at] == net[at]);
        assert(all[k] == steps[at]);
        assert(all[k - 1] == steps[at - 1]);
        if probe.net@[i] == HostEntry::File {
            assert(net[at - 1] == steps[at - 2]);
            assert(host[2 + at - 1] == net[at - 1]);
            assert(all[k - 2] == steps[at - 2]);
        }
    } else {
        let files = trust_files();
        assert(files[i - 2] =~= seq!['/'] + rel);
        let at = file_at(files, probe.trust@, i - 2);
        let steps = each_file(files, probe.trust@);
        let start = 2 + net.len() + tools.len();
        assert(trust[1 + at] == steps[at]);
        assert(trust[at] == steps[at - 1]);
        let k = b + start + 1 + at;
        assert(host[start + 1 + at] == trust[1 + at]);
        assert(host[start + at] == trust[at]);
        assert(all[k] == steps[at]);
        assert(all[k - 1] == steps[at - 1]);
        if probe.trust@[i - 2] == HostEntry::File {
            assert(trust[at - 1] == steps[at - 2]);
            assert(host[start + at - 1] == trust[at - 1]);
            assert(all[k - 2] == steps[at - 2]);
        }
    }
}

/// Whatever is bound or mounted has something to be bound to or mounted on: a directory
/// that was made before, or, for what need not succeed, also a file.
pub proof fn law_mount_points_are_made_first(
    host_links: bool,
    targets: Seq<Seq<char>>,
    probe: HostProbe,
    k: int,
)
    requires
        targets.len() <= usize::MAX,
        0 <= k < mount_plan(host_links, targets, probe).len(),
        mount_plan(host_links, targets, probe)[k] is Bind || mount_plan(
            host_links,
            targets,
            probe,
        )[k] is BindReadOnly || mount_plan(host_links, targets, probe)[k] is Tmpfs,
    ensures
        k > 0,
        ({
            let before = mount_plan(host_links, targets, probe)[k - 1];
            let at = target_of(mount_plan(host_links, targets, probe)[k]);
            before == MountStep::MakeDir(at) || before == MountStep::MakeToolDir(at) || before
                == MountStep::MakeBindDir(at)
        }),
{
    let (a, b, h, c) = plan_parts(host_links, targets, probe);
    let all = mount_plan(host_links, targets, probe);
    if k < a {
        assert(all[k] == kernel_steps()[k]);
        assert(k > 0);
        assert(all[k - 1] == kernel_steps()[k - 1]);
    } else if k < b {
        assert(all[k] == bridge_steps(probe)[k - a]);
        bridges_only_try(probe, k - a);
    } else if k < h {
        let i = k - b;
        let host = host_steps(probe);
        assert(all[k] == host[i]);
        host_has_no_plain_bind(probe, i);
        let net = etc_steps(net_files(), probe.net@);
        let tools = each_tool_dir(tool_dirs(), probe.tools@);
        let trust = etc_steps(trust_files(), probe.trust@);
        let x = 2 + net.len();
        let y = x + tools.len();
        if i < 2 {
            assert(i == 1);
            assert(all[k - 1] == host[0]);
        } else if i < x {
            assert(host[i] == net[i - 2]);
            if i > 2 {
                assert(net[i - 2] == each_file(net_files(), probe.net@)[i - 3]);
                files_only_try(net_files(), probe.net@, i - 3);
            }
        } else if i < y {
            assert(host[i] == tools[i - x]);
            tools_are_read_only(tool_dirs(), probe.tools@, i - x);
            assert(host[i - 1] == tools[i - x - 1]);
            assert(all[k - 1] == host[i - 1]);
        } else {
            assert(host[i] == trust[i - y]);
            if i > y {
                assert(trust[i - y] == each_file(trust_files(), probe.trust@)[i - y - 1]);
                files_only_try(trust_files(), probe.trust@, i - y - 1);
            }
        }
    } else if k < c {
        let j = k - h;
        assert(all[k] == caller_steps(targets)[j]);
        caller_at(targets, 0);
        caller_at(targets, j / 2);
        assert(j == 2 * (j / 2) || j == 2 * (j / 2) + 1);
        assert(all[k - 1] == caller_steps(targets)[j - 1]);
    } else {
        assert(all[k] == scratch_steps()[k - c]);
        assert(k - c == 1 || k - c == 4);
        assert(all[k - 1] == scratch_steps()[k - c - 1]);
    }
}

/// Without host links nothing is made, bound or mounted at `/etc` or at the places of the
/// host's tools: beside the devices, the network configuration and the scratch space there
/// is what the caller asked for.
pub proof fn law_no_host_places_without_host_links(
    targets: Seq<Seq<char>>,
    probe: HostProbe,
    k: int,
)
    requires
        0 <= k < mount_plan(false, targets, probe).len(),
    ensures
        ({
            let at = target_of(mount_plan(false, targets, probe)[k]);
            ||| at == "dev"@ || at == "proc"@ || at == "sys"@
            ||| at == "Core/Config"@ || at == "Core/Config/resolv.conf"@ || at
                == "Core/Config/hosts"@
            ||| targets.contains(at)
            ||| at == "Transit/Ephemeral"@ || at == "Transit/Ephemeral/config.site"@ || at == "tmp"@
        }),
{
    let (a, b, h, c) = plan_parts(false, targets, probe);
    let all = mount_plan(false, targets, probe);
    if k < a {
        assert(all[k] == kernel_steps()[k]);
    } else if k < b {
        assert(all[k] == bridge_steps(probe)[k - a]);
        bridges_only_try(probe, k - a);
        reveal_strlit("Core/Config/resolv.conf");
        reveal_strlit("Core/Config/hosts");
        reveal_strlit("Core/Config");
        reveal_strlit("resolv.conf");
        reveal_strlit("hosts");
        assert("Core/Config/resolv.conf"@ =~= "Core/Config"@ + seq!['/'] + "resolv.conf"@);
        assert("Core/Config/hosts"@ =~= "Core/Config"@ + seq!['/'] + "hosts"@);
        law_parent_is_without_the_last_name("Core/Config"@, "resolv.conf"@);
        law_parent_is_without_the_last_name("Core/Config"@, "hosts"@);
    } else if k < c {
        assert(all[k] == caller_steps(targets)[k - h]);
        caller_targets(targets, k - h);
    } else {
        assert(all[k] == scratch_steps()[k - c]);
    }
}

/// The steps for the callers go to where the callers asked for.
proof fn caller_targets(targets: Seq<Seq<char>>, i: int)
    requires
        0 <= i < caller_steps(targets).len(),
    ensures
        targets.contains(target_of(caller_steps(targets)[i])),
    decreases targets.len(),
{
    let init = targets.drop_last();
    let before = caller_steps(init);
    if i < before.len() {
        caller_targets(init, i);
        assert(caller_steps(targets)[i] == before[i]);
        let at = target_of(before[i]);
        let k = choose|k: int| 0 <= k < init.len() && init[k] == at;
        assert(targets[k] == at);
    } else {
        assert(targets[targets.len() - 1] == targets.last());
    }
}

/// A step on which the sandbox rests ends it when it fails, with the reason in the message;
/// a step that only tries does not.
pub proof fn law_which_mount_failures_matter(
    step: MountStep<Seq<char>>,
    remounting: bool,
    from: Seq<char>,
    at: Seq<char>,
    error: Seq<char>,
)
    ensures
        mount_complaint(step, remounting, from, at, error) is None <==> step is TryMakeDir
            || step is TryMakeFile || step is TryBindReadOnly || step is TryWriteFile,
        mount_complaint(step, remounting, from, at, error) matches Some(message) ==> exists|
            start: Seq<char>,
        |
            message == #[trigger] (start + error),
{
    match step {
        MountStep::MakeDir(dir) => {
            assert(mount_complaint(step, remounting, from, at, error) == Some(
                ("mkdir "@ + dir + ": "@) + error,
            ));
        },
        MountStep::MakeToolDir(_) => {
            assert(mount_complaint(step, remounting, from, at, error) == Some(
                ("mkdir "@ + at + ": "@) + error,
            ));
        },
        MountStep::MakeBindDir(_) => {
            assert(mount_complaint(step, remounting, from, at, error) == Some(
                ("mkdir bind "@ + at + ": "@) + error,
            ));
        },
        MountStep::Bind { .. } => {
            assert(mount_complaint(step, remounting, from, at, error) == Some(
                ("bind "@ + from + " -> "@ + at + ": "@) + error,
            ));
        },
        MountStep::BindReadOnly { .. } => {
            if remounting {
                assert(mount_complaint(step, remounting, from, at, error) == Some(
                    ("remount-ro "@ + at + ": "@) + error,
                ));
            } else {
                assert(mount_complaint(step, remounting, from, at, error) == Some(
                    ("bind "@ + from + " -> "@ + at + ": "@) + error,
                ));
            }
        },
        MountStep::Tmpfs { label, .. } => {
            assert(mount_complaint(step, remounting, from, at, error) == Some(
                ("tmpfs "@ + label + ": "@) + error,
            ));
        },
        _ => {},
    }
}

/// The two files of network configuration are bound read-only to where the tools of RunixOS
/// look for them, with host links or without, wherever the host has them. The directory is
/// made before, and so is the file, unless it is there already.
pub proof fn law_network_for_the_tools(
    host_links: bool,
    targets: Seq<Seq<char>>,
    probe: HostProbe,
    i: int,
)
    requires
        0 <= i < 2,
        probe.net@[i] != HostEntry::Missing,
    ensures
        ({
            let plan = mount_plan(host_links, targets, probe);
            let file = seq!["resolv.conf"@, "hosts"@][i];
            let at = "Core/Config"@ + seq!['/'] + file;
            exists|k: int|
                1 < k < plan.len() && #[trigger] plan[k] == (MountStep::TryBindReadOnly {
                    from: "/etc/"@ + file,
                    at,
                }) && (if probe.bridges@[i] {
                    plan[k - 1] == MountStep::TryMakeDir("Core/Config"@)
                } else {
                    plan[k - 1] == MountStep::TryMakeFile(at) && plan[k - 2]
                        == MountStep::TryMakeDir("Core/Config"@)
                })
        }),
{
    reveal_strlit("Core/Config/resolv.conf");
    reveal_strlit("Core/Config/hosts");
    reveal_strlit("Core/Config");
    reveal_strlit("resolv.conf");
    reveal_strlit("hosts");
    reveal_strlit("/etc/");
    reveal_strlit("/etc/resolv.conf");
    reveal_strlit("/etc/hosts");
    let (a, b, h, c) = plan_parts(host_links, targets, probe);
    let plan = mount_plan(host_links, targets, probe);
    let files = net_files();
    let ats = crate::mounts::bridge_targets();
    let file = seq!["resolv.conf"@, "hosts"@][i];
    let at = "Core/Config"@ + seq!['/'] + file;
    assert(ats[i] =~= at);
    assert(files[i] =~= "/etc/"@ + file);
    law_parent_is_without_the_last_name("Core/Config"@, file);
    reveal_with_fuel(crate::mounts::each_bridge, 3);
    assert(files.drop_last().drop_last() =~= Seq::empty());
    let first = crate::mounts::bridge_file(files[0], ats[0], probe.net@[0], probe.bridges@[0]);
    let second = crate::mounts::bridge_file(files[1], ats[1], probe.net@[1], probe.bridges@[1]);
    assert(bridge_steps(probe) =~= first + second);
    let own = if i == 0 {
        first
    } else {
        second
    };
    let start: int = if i == 0 {
        0
    } else {
        first.len() as int
    };
    let k = a + start + own.len() - 1;
    assert(plan[k] == own[own.len() - 1]);
    assert(plan[k - 1] == own[own.len() - 2]);
    if !probe.bridges@[i] {
        assert(plan[k - 2] == own[own.len() - 3]);
    }
}

/// A tool directory is bound only if it is there.
proof fn tools_are_there(dirs: Seq<Seq<char>>, there: Seq<bool>, k: int) -> (i: int)
    requires
        0 <= k < each_tool_dir(dirs, there).len(),
    ensures
        0 <= i < dirs.len(),
        there[i],
        each_tool_dir(dirs, there)[k] matches MountStep::BindReadOnly { from, .. } ==> from
            == dirs[i],
    decreases dirs.len(),
{
    let init = dirs.drop_last();
    let before = each_tool_dir(init, there);
    if k < before.len() {
        let i = tools_are_there(init, there, k);
        assert(each_tool_dir(dirs, there)[k] == before[k]);
        assert(init[i] == dirs[i]);
        i
    } else {
        dirs.len() - 1
    }
}

/// What must be bound of the host read-only is a tool directory that is there, and that is
/// only asked for with host links: a host that lacks one of them does not keep a sandbox from
/// being entered.
pub proof fn law_only_tools_that_are_there(
    host_links: bool,
    targets: Seq<Seq<char>>,
    probe: HostProbe,
    k: int,
)
    requires
        0 <= k < mount_plan(host_links, targets, probe).len(),
        mount_plan(host_links, targets, probe)[k] is BindReadOnly,
    ensures
        host_links,
        ({
            let from = mount_plan(host_links, targets, probe)[k]->BindReadOnly_from;
            ||| probe.tools@[0] && from == "/usr"@
            ||| probe.tools@[1] && from == "/bin"@
            ||| probe.tools@[2] && from == "/sbin"@
            ||| probe.tools@[3] && from == "/lib"@
            ||| probe.tools@[4] && from == "/lib64"@
            ||| probe.tools@[5] && from == "/opt"@
        }),
{
    let (a, b, h, c) = plan_parts(host_links, targets, probe);
    let plan = mount_plan(host_links, targets, probe);
    if k < a {
        assert(plan[k] == kernel_steps()[k]);
    } else if k < b {
        assert(plan[k] == bridge_steps(probe)[k - a]);
        bridges_only_try(probe, k - a);
    } else if k < h {
        let j = k - b;
        let host = host_steps(probe);
        let net = etc_steps(net_files(), probe.net@);
        let tools = each_tool_dir(tool_dirs(), probe.tools@);
        let trust = etc_steps(trust_files(), probe.trust@);
        let x = 2 + net.len();
        let y = x + tools.len();
        assert(plan[k] == host[j]);
        if 2 <= j < x {
            assert(host[j] == net[j - 2]);
            if j > 2 {
                assert(net[j - 2] == each_file(net_files(), probe.net@)[j - 3]);
                files_only_try(net_files(), probe.net@, j - 3);
            }
        } else if x <= j < y {
            assert(host[j] == tools[j - x]);
            let i = tools_are_there(tool_dirs(), probe.tools@, j - x);
            assert(i == 0 || i == 1 || i == 2 || i == 3 || i == 4 || i == 5);
        } else if y <= j {
            assert(host[j] == trust[j - y]);
            if j > y {
                assert(trust[j - y] == each_file(trust_files(), probe.trust@)[j - y - 1]);
                files_only_try(trust_files(), probe.trust@, j - y - 1);
            }
        }
    } else if k < c {
        assert(plan[k] == caller_steps(targets)[k - h]);
        caller_binds_only(targets, k - h);
    } else {
        assert(plan[k] == scratch_steps()[k - c]);
    }
}

/// The steps for the callers make directories and bind.
proof fn caller_binds_only(targets: Seq<Seq<char>>, i: int)
    requires
        0 <= i < caller_steps(targets).len(),
    ensures
        caller_steps(targets)[i] is MakeBindDir || caller_steps(targets)[i] is Bind,
    decreases targets.len(),
{
    let before = caller_steps(targets.drop_last());
    if i < before.len() {
        caller_binds_only(targets.drop_last(), i);
        assert(caller_steps(targets)[i] == before[i]);
    }
}

/// A step of a plan is read as it was written: with its own texts, each in its own place.
pub proof fn law_steps_are_read_as_written(
    plan: Seq<MountStep<String>>,
    k: int,
    a: String,
    b: String,
    c: String,
    i: usize,
)
    ensures
        plan_text(plan).len() == plan.len(),
        0 <= k < plan.len() ==> plan_text(plan)[k] == step_text(plan[k]),
        step_text(MountStep::MakeDir(a)) == MountStep::MakeDir(a@),
        step_text(MountStep::MakeToolDir(a)) == MountStep::MakeToolDir(a@),
        step_text(MountStep::MakeBindDir(a)) == MountStep::MakeBindDir(a@),
        step_text(MountStep::TryMakeDir(a)) == MountStep::TryMakeDir(a@),
        step_text(MountStep::TryMakeFile(a)) == MountStep::TryMakeFile(a@),
        step_text(MountStep::Bind { source: Origin::Host(a), at: b }) == (MountStep::Bind {
            source: Origin::Host(a@),
            at: b@,
        }),
        step_text(MountStep::Bind { source: Origin::Caller(i), at: b }) == (MountStep::Bind {
            source: Origin::<Seq<char>>::Caller(i),
            at: b@,
        }),
        step_text(MountStep::BindReadOnly { from: a, at: b }) == (MountStep::BindReadOnly {
            from: a@,
            at: b@,
        }),
        step_text(MountStep::TryBindReadOnly { from: a, at: b }) == (MountStep::TryBindReadOnly {
            from: a@,
            at: b@,
        }),
        step_text(MountStep::Tmpfs { at: a, options: b, label: c }) == (MountStep::Tmpfs {
            at: a@,
            options: b@,
            label: c@,
        }),
        step_text(MountStep::TryWriteFile { at: a, content: b }) == (MountStep::TryWriteFile {
            at: a@,
            content: b@,
        }),
{
}

/// The message about a step that failed names what it was about.
pub proof fn law_messages_of_mounts(
    dir: Seq<char>,
    source: Origin<Seq<char>>,
    host: Seq<char>,
    options: Seq<char>,
    from: Seq<char>,
    at: Seq<char>,
    error: Seq<char>,
    remounting: bool,
)
    ensures
        mount_complaint(MountStep::MakeDir(dir), remounting, from, at, error) == Some(
            "mkdir "@ + dir + ": "@ + error,
        ),
        mount_complaint(MountStep::MakeToolDir(dir), remounting, from, at, error) == Some(
            "mkdir "@ + at + ": "@ + error,
        ),
        mount_complaint(MountStep::MakeBindDir(dir), remounting, from, at, error) == Some(
            "mkdir bind "@ + at + ": "@ + error,
        ),
        mount_complaint(MountStep::Bind { source, at: dir }, remounting, from, at, error) == Some(
            "bind "@ + from + " -> "@ + at + ": "@ + error,
        ),
        mount_complaint(
            MountStep::BindReadOnly { from: host, at: dir },
            false,
            from,
            at,
            error,
        ) == Some("bind "@ + from + " -> "@ + at + ": "@ + error),
        mount_complaint(
            MountStep::BindReadOnly { from: host, at: dir },
            true,
            from,
            at,
            error,
        ) == Some("remount-ro "@ + at + ": "@ + error),
        mount_complaint(
            MountStep::Tmpfs { at: dir, options, label: host },
            remounting,
            from,
            at,
            error,
        ) == Some("tmpfs "@ + host + ": "@ + error),
{
}

/// The defaults for autotools put everything that is shared into `StoreRoom`, the manual, the
/// documents and the like into directories of their own there, and helper programs into
/// `LibKit`.
pub proof fn law_defaults_for_autotools()
    ensures
        config_site() == "datarootdir='${prefix}/StoreRoom'\n"@
            + "datadir='${prefix}/StoreRoom'\n"@ + "libexecdir='${prefix}/LibKit'\n"@
            + "mandir='${prefix}/StoreRoom/Manual'\n"@ + "docdir='${prefix}/StoreRoom/Docs'\n"@
            + "infodir='${prefix}/StoreRoom/Info'\n"@
            + "localedir='${prefix}/StoreRoom/locale'\n"@,
{
    reveal_strlit("datarootdir='${prefix}/StoreRoom'\n");
    reveal_strlit("datadir='${prefix}/StoreRoom'\n");
    reveal_strlit("libexecdir='${prefix}/LibKit'\n");
    reveal_strlit("mandir='${prefix}/StoreRoom/Manual'\n");
    reveal_strlit("docdir='${prefix}/StoreRoom/Docs'\n");
    reveal_strlit("infodir='${prefix}/StoreRoom/Info'\n");
    reveal_strlit("localedir='${prefix}/StoreRoom/locale'\n");
    reveal_strlit(
        "datarootdir='${prefix}/StoreRoom'\ndatadir='${prefix}/StoreRoom'\nlibexecdir='${prefix}/LibKit'\nmandir='${prefix}/StoreRoom/Manual'\ndocdir='${prefix}/StoreRoom/Docs'\ninfodir='${prefix}/StoreRoom/Info'\nlocaledir='${prefix}/StoreRoom/locale'\n",
    );
    assert(config_site() =~= "datarootdir='${prefix}/StoreRoom'\n"@
        + "datadir='${prefix}/StoreRoom'\n"@ + "libexecdir='${prefix}/LibKit'\n"@
        + "mandir='${prefix}/StoreRoom/Manual'\n"@ + "docdir='${prefix}/StoreRoom/Docs'\n"@
        + "infodir='${prefix}/StoreRoom/Info'\n"@ + "localedir='${prefix}/StoreRoom/locale'\n"@);
}

/// How many steps a file or directory of the host takes.
pub open spec fn steps_for(entry: HostEntry) -> nat {
    match entry {
        HostEntry::Missing => 0,
        HostEntry::Directory => 2,
        HostEntry::File => 3,
    }
}

/// How many steps a tool directory takes.
pub open spec fn steps_for_tools(there: bool) -> nat {
    if there {
        2
    } else {
        0
    }
}

/// How many steps it takes to bind network configuration for the tools of RunixOS.
pub open spec fn steps_for_bridge(entry: HostEntry, there: bool) -> nat {
    if entry == HostEntry::Missing {
        0
    } else if there {
        2
    } else {
        3
    }
}

/// Nothing is done beyond this: six steps for devices and kernel interfaces, those for the
/// network configuration, with host links four for `/etc` and those for what the host has,
/// two for each tree of the caller, and five for the scratch space.
pub proof fn law_how_many_steps(host_links: bool, targets: Seq<Seq<char>>, probe: HostProbe)
    requires
        targets.len() <= usize::MAX,
    ensures
        mount_plan(host_links, targets, probe).len() == 6 + steps_for_bridge(
            probe.net@[0],
            probe.bridges@[0],
        ) + steps_for_bridge(probe.net@[1], probe.bridges@[1]) + (if host_links {
            4 + steps_for(probe.net@[0]) + steps_for(probe.net@[1]) + steps_for(probe.trust@[0])
                + steps_for(probe.trust@[1]) + steps_for(probe.trust@[2]) + steps_for_tools(
                probe.tools@[0],
            ) + steps_for_tools(probe.tools@[1]) + steps_for_tools(probe.tools@[2])
                + steps_for_tools(probe.tools@[3]) + steps_for_tools(probe.tools@[4])
                + steps_for_tools(probe.tools@[5])
        } else {
            0
        }) + 2 * targets.len() + 5,
{
    let (a, b, h, c) = plan_parts(host_links, targets, probe);
    let net = net_files();
    let trust = trust_files();
    let tools = tool_dirs();
    reveal_with_fuel(crate::mounts::each_bridge, 3);
    assert(net.drop_last() =~= net.take(1));
    assert(net.take(1).drop_last() =~= net.take(0));
    if targets.len() > 0 {
        caller_at(targets, 0);
    }
    files_count(net, probe.net@, 2);
    files_count(net, probe.net@, 1);
    files_count(net, probe.net@, 0);
    files_count(trust, probe.trust@, 3);
    files_count(trust, probe.trust@, 2);
    files_count(trust, probe.trust@, 1);
    files_count(trust, probe.trust@, 0);
    assert(net.take(2) =~= net);
    assert(trust.take(3) =~= trust);
    tools_count(tools, probe.tools@, 6);
    tools_count(tools, probe.tools@, 5);
    tools_count(tools, probe.tools@, 4);
    tools_count(tools, probe.tools@, 3);
    tools_count(tools, probe.tools@, 2);
    tools_count(tools, probe.tools@, 1);
    tools_count(tools, probe.tools@, 0);
    assert(tools.take(6) =~= tools);
}

/// How many steps some files take, from those of all but the last.
proof fn files_count(files: Seq<Seq<char>>, entries: Seq<HostEntry>, n: int)
    requires
        0 <= n <= files.len(),
    ensures
        n == 0 ==> each_file(files.take(n), entries).len() == 0,
        n > 0 ==> each_file(files.take(n), entries).len() == each_file(
            files.take(n - 1),
            entries,
        ).len() + steps_for(entries[n - 1]),
{
    if n > 0 {
        assert(files.take(n).drop_last() =~= files.take(n - 1));
    }
}

/// How many steps some tool directories take, from those of all but the last.
proof fn tools_count(dirs: Seq<Seq<char>>, there: Seq<bool>, n: int)
    requires
        0 <= n <= dirs.len(),
    ensures
        n == 0 ==> each_tool_dir(dirs.take(n), there).len() == 0,
        n > 0 ==> each_tool_dir(dirs.take(n), there).len() == each_tool_dir(
            dirs.take(n - 1),
            there,
        ).len() + steps_for_tools(there[n - 1]),
{
    if n > 0 {
        assert(dirs.take(n).drop_last() =~= dirs.take(n - 1));
    }
}

} // verus!
