//! What holds of every command that runs in the sandbox: its environment, the order in
//! which the sandbox is entered, and how it ends.

use vstd::prelude::*;

use crate::numbers::decimal;
use crate::sandbox::assignments;
use crate::sandbox::code_of;
use crate::sandbox::default_variables;
use crate::sandbox::entering;
use crate::sandbox::id_map;
use crate::sandbox::last_value_is;
use crate::sandbox::law_last_value_wins;
use crate::sandbox::leftovers;
use crate::sandbox::never_set;
use crate::sandbox::plan_runs;
use crate::sandbox::sandbox_complaint;
use crate::sandbox::sandbox_decided;
use crate::sandbox::set_variable;
use crate::sandbox::set_variables;
use crate::sandbox::value_of;
use crate::sandbox::ChildEnd;
use crate::sandbox::SandboxEvent;
use crate::sandbox::SandboxMove;
use crate::sandbox::SandboxPlan;
use crate::sandbox::SandboxStep;
use crate::text::joined;
use crate::text::split_at;
use crate::text::texts;
use crate::text_laws::law_decimal;
use crate::text_laws::law_joined_comes_apart;

verus! {

/// A command is planned as it was asked for: the command itself, where the trees of the
/// caller are bound, whether the tools of the host are there, and whether it takes the place
/// of this process. It runs as the given user, or as root inside without one.
pub proof fn law_plan_is_as_asked(
    plan: SandboxPlan,
    cmd: Seq<Seq<char>>,
    envs: Seq<(Seq<char>, Seq<char>)>,
    host_links: bool,
    in_place: bool,
    binds: Seq<Seq<char>>,
    login: Option<(u32, u32)>,
    term: Option<Seq<char>>,
)
    requires
        plan_runs(plan, cmd, envs, host_links, in_place, binds, login, term),
    ensures
        texts(plan.argv@) == cmd,
        texts(plan.binds@) == binds,
        plan.host_links == host_links,
        plan.in_place == in_place,
        login matches Some(ids) ==> plan.uid == ids.0 && plan.gid == ids.1,
        login is None ==> plan.uid == 0 && plan.gid == 0,
{
}

/// A variable with a value stands in the environment.
proof fn value_is_assigned(vars: Seq<(Seq<char>, Seq<char>)>, name: Seq<char>)
    ensures
        value_of(vars, name) matches Some(value) ==> assignments(vars).contains(
            name + "="@ + value,
        ),
    decreases vars.len(),
{
    if vars.len() > 0 {
        if vars[0].0 == name {
            assert(assignments(vars)[0] == name + "="@ + vars[0].1);
        } else {
            let rest = vars.drop_first();
            value_is_assigned(rest, name);
            if value_of(rest, name) is Some {
                let said = name + "="@ + value_of(rest, name)->0;
                let k = choose|k: int| 0 <= k < assignments(rest).len() && assignments(rest)[k] == said;
                assert(assignments(vars)[k + 1] == said);
            }
        }
    }
}

/// The command sees each variable that the caller sets, with the value that it sets last.
pub proof fn law_command_sees_what_was_set(
    plan: SandboxPlan,
    cmd: Seq<Seq<char>>,
    envs: Seq<(Seq<char>, Seq<char>)>,
    host_links: bool,
    in_place: bool,
    binds: Seq<Seq<char>>,
    login: Option<(u32, u32)>,
    term: Option<Seq<char>>,
    i: int,
)
    requires
        plan_runs(plan, cmd, envs, host_links, in_place, binds, login, term),
        0 <= i < envs.len(),
        forall|j: int| i < j < envs.len() ==> (#[trigger] envs[j]).0 != envs[i].0,
    ensures
        texts(plan.environment@).contains(envs[i].0 + "="@ + envs[i].1),
{
    let defaults = default_variables(term, host_links);
    last_value_is(envs, i);
    law_last_value_wins(defaults, envs, envs[i].0);
    value_is_assigned(set_variables(defaults, envs), envs[i].0);
}

/// The variables of every sandbox and their values: the home is in the cache area, the
/// terminal is that of the caller or a plain one, the tools are those of the sysroot and,
/// with host links and behind them, those of the host, and the defaults for autotools are
/// where the sandbox writes them.
pub open spec fn promised_defaults(term: Option<Seq<char>>, host_links: bool) -> Seq<
    (Seq<char>, Seq<char>),
> {
    seq![
        ("HOME"@, "/Vault/Cache/builder"@),
        (
            "TERM"@,
            if term is Some {
                term->0
            } else {
                "xterm"@
            },
        ),
        (
            "PATH"@,
            if !host_links {
                "/Core/Bin:/Construct/Bin"@
            } else {
                "/Core/Bin:/Construct/Bin:/usr/bin:/bin"@
            },
        ),
        ("CONFIG_SITE"@, "/Transit/Ephemeral/config.site"@),
    ]
}

/// The command sees each variable of every sandbox that the caller does not set.
pub proof fn law_command_sees_the_defaults(
    plan: SandboxPlan,
    cmd: Seq<Seq<char>>,
    envs: Seq<(Seq<char>, Seq<char>)>,
    host_links: bool,
    in_place: bool,
    binds: Seq<Seq<char>>,
    login: Option<(u32, u32)>,
    term: Option<Seq<char>>,
    i: int,
)
    requires
        plan_runs(plan, cmd, envs, host_links, in_place, binds, login, term),
        0 <= i < 4,
        forall|j: int|
            0 <= j < envs.len() ==> (#[trigger] envs[j]).0 != promised_defaults(term, host_links)[i].0,
    ensures
        ({
            let (name, value) = promised_defaults(term, host_links)[i];
            texts(plan.environment@).contains(name + "="@ + value)
        }),
{
    let defaults = default_variables(term, host_links);
    let (name, value) = promised_defaults(term, host_links)[i];
    reveal_strlit("HOME");
    reveal_strlit("TERM");
    reveal_strlit("PATH");
    reveal_strlit("CONFIG_SITE");
    assert("HOME"@[0] == 'H');
    assert("TERM"@[0] == 'T');
    assert("PATH"@[0] == 'P');
    assert("CONFIG_SITE"@[0] == 'C');
    never_set(envs, name);
    law_last_value_wins(defaults, envs, name);
    assert(defaults[i] == (name, value));
    reveal_with_fuel(value_of, 5);
    assert(defaults.drop_first()[0] == defaults[1]);
    assert(defaults.drop_first().drop_first()[0] == defaults[2]);
    assert(defaults.drop_first().drop_first().drop_first()[0] == defaults[3]);
    assert(value_of(defaults, name) == Some(value));
    value_is_assigned(set_variables(defaults, envs), name);
}

/// Setting a variable adds at most that one.
proof fn only_one_more(vars: Seq<(Seq<char>, Seq<char>)>, name: Seq<char>, value: Seq<char>, k: int)
    requires
        0 <= k < set_variable(vars, name, value).len(),
    ensures
        set_variable(vars, name, value)[k] == (name, value) || vars.contains(
            set_variable(vars, name, value)[k],
        ),
    decreases vars.len(),
{
    let after = set_variable(vars, name, value);
    if vars.len() > 0 {
        let rest = vars.drop_first();
        if vars[0].0 == name {
            if k > 0 {
                assert(after[k] == vars[k]);
            }
        } else if k == 0 {
            assert(after[0] == vars[0]);
        } else {
            only_one_more(rest, name, value, k - 1);
            let tail = set_variable(rest, name, value);
            assert(after[k] == tail[k - 1]);
            if rest.contains(tail[k - 1]) {
                let j = choose|j: int| 0 <= j < rest.len() && rest[j] == tail[k - 1];
                assert(vars[j + 1] == after[k]);
            }
        }
    }
}

/// Setting variables adds at most those.
proof fn only_those_more(
    vars: Seq<(Seq<char>, Seq<char>)>,
    others: Seq<(Seq<char>, Seq<char>)>,
    k: int,
)
    requires
        0 <= k < set_variables(vars, others).len(),
    ensures
        vars.contains(set_variables(vars, others)[k]) || others.contains(
            set_variables(vars, others)[k],
        ),
    decreases others.len(),
{
    if others.len() > 0 {
        let init = others.drop_last();
        let before = set_variables(vars, init);
        let all = set_variables(vars, others);
        let n = others.len() - 1;
        only_one_more(before, others.last().0, others.last().1, k);
        if all[k] == (others.last().0, others.last().1) {
            assert(others[n] == all[k]);
        } else {
            let j = choose|j: int| 0 <= j < before.len() && before[j] == all[k];
            only_those_more(vars, init, j);
            if init.contains(all[k]) {
                let i = choose|i: int| 0 <= i < init.len() && init[i] == all[k];
                assert(others[i] == all[k]);
            }
        }
    } else {
        assert(vars[k] == set_variables(vars, others)[k]);
    }
}

/// The command sees nothing else: whatever stands in its environment is a variable of every
/// sandbox or one that the caller sets.
pub proof fn law_command_sees_nothing_else(
    plan: SandboxPlan,
    cmd: Seq<Seq<char>>,
    envs: Seq<(Seq<char>, Seq<char>)>,
    host_links: bool,
    in_place: bool,
    binds: Seq<Seq<char>>,
    login: Option<(u32, u32)>,
    term: Option<Seq<char>>,
    k: int,
)
    requires
        plan_runs(plan, cmd, envs, host_links, in_place, binds, login, term),
        0 <= k < plan.environment@.len(),
    ensures
        exists|var: (Seq<char>, Seq<char>)|
            plan.environment@[k]@ == var.0 + "="@ + var.1 && (#[trigger] envs.contains(var)
                || promised_defaults(term, host_links).contains(var)),
{
    let defaults = default_variables(term, host_links);
    let vars = set_variables(defaults, envs);
    assert(texts(plan.environment@).len() == plan.environment@.len());
    assert(texts(plan.environment@)[k] == assignments(vars)[k]);
    only_those_more(defaults, envs, k);
    let var = vars[k];
    assert(defaults =~= promised_defaults(term, host_links));
    assert(envs.contains(var) || promised_defaults(term, host_links).contains(var));
}

/// One step has to be taken before another.
pub open spec fn must_come_before(a: SandboxStep, b: SandboxStep) -> bool {
    ||| a == SandboxStep::Unshare && b != SandboxStep::Unshare
    ||| a == SandboxStep::DenySetgroups && b == SandboxStep::MapGroup
    ||| a == SandboxStep::MapUser && b == SandboxStep::MakePrivate
    ||| a == SandboxStep::MapGroup && b == SandboxStep::MakePrivate
    ||| a == SandboxStep::MakePrivate && b == SandboxStep::SetUpMounts
    ||| a == SandboxStep::SetUpMounts && b == SandboxStep::ChangeRoot
    ||| a == SandboxStep::ChangeRoot && b == SandboxStep::GoToRoot
    ||| a == SandboxStep::GoToRoot && b == SandboxStep::MakeHome
    ||| a != SandboxStep::Execute && b == SandboxStep::Execute
}

/// The sandbox is entered by taking every step, in an order that works: the namespaces come
/// first, the right to set groups is given up before the group is mapped, both maps are
/// written before anything is mounted, the mounts are kept from the host before any is made,
/// the file system is complete before it becomes the root, and becoming the command is the
/// last thing.
pub proof fn law_order_of_entering(step: SandboxStep, i: int, j: int)
    requires
        0 <= i < entering().len(),
        0 <= j < entering().len(),
    ensures
        entering().contains(step),
        must_come_before(entering()[i], entering()[j]) ==> i < j,
        entering()[i] == entering()[j] ==> i == j,
{
    let e = entering();
    let at: int = match step {
        SandboxStep::Unshare => 0,
        SandboxStep::DenySetgroups => 1,
        SandboxStep::MapUser => 2,
        SandboxStep::MapGroup => 3,
        SandboxStep::MakePrivate => 4,
        SandboxStep::SetUpMounts => 5,
        SandboxStep::ChangeRoot => 6,
        SandboxStep::GoToRoot => 7,
        SandboxStep::MakeHome => 8,
        SandboxStep::Execute => 9,
    };
    assert(e[at] == step);
}

/// Whatever fails on the way into the sandbox keeps the command from running, but for the
/// home of the builder.
pub proof fn law_which_entry_failures_matter(step: SandboxStep, shown: Seq<char>)
    ensures
        sandbox_complaint(step, shown) is None <==> step == SandboxStep::MakeHome,
{
}

/// The line that maps a user or a group has three numbers: the one inside, the one outside,
/// and how many are mapped, which is one.
pub proof fn law_one_is_mapped(inside: u32, outside: u32)
    ensures
        split_at(id_map(inside, outside), ' ') == seq![
            decimal(inside as nat),
            decimal(outside as nat),
            seq!['1'],
        ],
{
    reveal_strlit(" ");
    reveal_strlit(" 1");
    let a = decimal(inside as nat);
    let b = decimal(outside as nat);
    law_decimal(inside as nat);
    law_decimal(outside as nat);
    let parts = seq![a, b, seq!['1']];
    assert forall|i: int| 0 <= i < parts.len() implies !(#[trigger] parts[i]).contains(' ') by {
        if parts[i].contains(' ') {
            let k = choose|k: int| 0 <= k < parts[i].len() && parts[i][k] == ' ';
            if i == 0 {
                assert(crate::numbers::is_digit(a[k]));
            } else if i == 1 {
                assert(crate::numbers::is_digit(b[k]));
            }
        }
    }
    law_joined_comes_apart(parts, ' ');
    reveal_with_fuel(joined, 3);
    assert(parts.drop_last() =~= seq![a, b]);
    assert(seq![a, b].drop_last() =~= seq![a]);
    assert(joined(parts, seq![' ']) =~= id_map(inside, outside));
}

/// Running a command ends well exactly when the child process ended by itself with 0. A
/// process that a signal ended has 128 and the number of the signal, so that the two cannot
/// be taken for each other below that.
pub proof fn law_when_a_command_ended_well(end: ChildEnd)
    ensures
        code_of(end) == 0 <==> end == ChildEnd::Exited(0),
        end matches ChildEnd::Exited(code) ==> code_of(end) == code,
        end matches ChildEnd::Signaled(signal) ==> code_of(end) - 128 == signal,
        end is Other ==> code_of(end) == 1,
{
}

/// What is done with a command: the sysroot is found first. A command that takes the place
/// of this process enters the sandbox then. For any other a child is made, the child enters
/// the sandbox, and the parent waits. Nobody else enters.
pub proof fn law_who_enters(
    plan: SandboxPlan,
    shown: Seq<char>,
    event: SandboxEvent,
    r: SandboxMove,
)
    requires
        sandbox_decided(plan, shown, event, r),
    ensures
        event is Asked <==> r is FindSysroot,
        r is Enter <==> event is InChild || (event is Found && plan.in_place),
        r is Fork <==> event is Found && !plan.in_place,
        r is Wait <==> event is InParent,
        r is CleanUp <==> event is Waited || event is NotWaited,
        r matches SandboxMove::Enter { steps } ==> steps@ == entering(),
{
}

/// What could not be done is reported: by a message that is returned, or, in the child, by
/// one that is said before the child ends with 127. No failure is taken for success.
pub proof fn law_failures_are_reported(
    plan: SandboxPlan,
    shown: Seq<char>,
    event: SandboxEvent,
    r: SandboxMove,
)
    requires
        sandbox_decided(plan, shown, event, r),
    ensures
        event matches SandboxEvent::NotFound(error) ==> (r matches SandboxMove::Fail { message }
            && message@ == "canonicalize sysroot "@ + shown + ": "@ + error@),
        event matches SandboxEvent::NotForked(error) ==> (r matches SandboxMove::Fail { message }
            && message@ == "fork: "@ + error@),
        event matches SandboxEvent::NotEntered { child, message: why } ==> {
            &&& child ==> (r matches SandboxMove::Exit { message, code } && code == 127 && message@
                == "sandbox child: "@ + why@)
            &&& !child ==> (r matches SandboxMove::Fail { message } && message@ == why@)
        },
        event matches SandboxEvent::NotWaited(error) ==> (r matches SandboxMove::CleanUp {
            result,
            ..
        } && (result matches Err(message) && message@ == "waitpid: "@ + error@)),
        event matches SandboxEvent::Waited(end) ==> (r matches SandboxMove::CleanUp { result, .. }
            && (result matches Ok(code) && code == code_of(end))),
{
}

/// The mount points that the sandbox makes in the sysroot for the tools of the host, for
/// `/etc` and for `/tmp` are all removed again after a wait, whatever came of it, and
/// nothing else is.
pub proof fn law_mount_points_are_removed(
    plan: SandboxPlan,
    shown: Seq<char>,
    event: SandboxEvent,
    r: SandboxMove,
    dir: Seq<char>,
)
    requires
        sandbox_decided(plan, shown, event, r),
        event is Waited || event is NotWaited,
    ensures
        r matches SandboxMove::CleanUp { dirs, .. } && (texts(dirs@).contains(dir) <==> {
            ||| dir == "usr"@ || dir == "bin"@ || dir == "sbin"@
            ||| dir == "lib"@ || dir == "lib64"@ || dir == "opt"@
            ||| dir == "etc"@ || dir == "tmp"@
        }),
{
    let all = leftovers();
    assert(all[0] == "bin"@ && all[1] == "sbin"@ && all[2] == "lib"@ && all[3] == "lib64"@ && all[4]
        == "usr"@ && all[5] == "opt"@ && all[6] == "etc"@ && all[7] == "tmp"@);
}

/// The message about a step on the way into the sandbox says which it was; about the file
/// system it says what that says itself.
pub proof fn law_messages_of_entering(shown: Seq<char>)
    ensures
        sandbox_complaint(SandboxStep::Unshare, shown) == Some(
            "unshare (unprivileged user namespaces enabled?): "@,
        ),
        sandbox_complaint(SandboxStep::DenySetgroups, shown) == Some("setgroups deny: "@),
        sandbox_complaint(SandboxStep::MapUser, shown) == Some("uid_map: "@),
        sandbox_complaint(SandboxStep::MapGroup, shown) == Some("gid_map: "@),
        sandbox_complaint(SandboxStep::MakePrivate, shown) == Some("make-private /: "@),
        sandbox_complaint(SandboxStep::SetUpMounts, shown) matches Some(start) && start.len() == 0,
        sandbox_complaint(SandboxStep::ChangeRoot, shown) == Some("chroot: "@),
        sandbox_complaint(SandboxStep::GoToRoot, shown) == Some("chdir /: "@),
        sandbox_complaint(SandboxStep::Execute, shown) == Some("execve "@ + shown + ": "@),
{
    reveal_strlit("");
}

} // verus!
