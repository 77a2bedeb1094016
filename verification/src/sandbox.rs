//! The sandbox: an unprivileged user and mount namespace with the sysroot as its
//! root. What is done to enter it, as whom, and with which environment.
//!
//! The user namespace maps the real user to one inside, which allows to change the
//! root and to mount without privileges. The kernel tears the namespace and its
//! mounts down when the process exits.

use vstd::prelude::*;

use crate::builder::build_variables;
use crate::builder::extra_variables;
use crate::builder::opt_text;
use crate::builder::Survey;
use crate::config::field;
use crate::config::law_each_field_is_found;
use crate::config::PackageMeta;
use crate::numbers::decimal;
use crate::numbers::decimal_text;
use crate::text::concat2;
use crate::text::concat3;
use crate::text::pairs;
use crate::text::same_text;
use crate::text::texts;
use crate::text::uppercase;

verus! {

/// The variables that every sandbox has: a home in the cache area, the terminal of
/// the caller, where the tools are, and the defaults for autotools.
pub open spec fn default_variables(term: Option<Seq<char>>, host_links: bool) -> Seq<
    (Seq<char>, Seq<char>),
> {
    seq![
        ("HOME"@, "/Vault/Cache/builder"@),
        (
            "TERM"@,
            match term {
                Some(t) => t,
                None => "xterm"@,
            },
        ),
        (
            "PATH"@,
            if host_links {
                "/Core/Bin:/Construct/Bin:/usr/bin:/bin"@
            } else {
                "/Core/Bin:/Construct/Bin"@
            },
        ),
        ("CONFIG_SITE"@, "/Transit/Ephemeral/config.site"@),
    ]
}

/// The variables after one of them was set: in its place if it was there, else at
/// the end.
pub open spec fn set_variable(
    vars: Seq<(Seq<char>, Seq<char>)>,
    name: Seq<char>,
    value: Seq<char>,
) -> Seq<(Seq<char>, Seq<char>)>
    decreases vars.len(),
{
    if vars.len() == 0 {
        seq![(name, value)]
    } else if vars[0].0 == name {
        seq![(name, value)] + vars.drop_first()
    } else {
        seq![vars[0]] + set_variable(vars.drop_first(), name, value)
    }
}

/// The variables after others were set, one after the other.
pub open spec fn set_variables(
    vars: Seq<(Seq<char>, Seq<char>)>,
    others: Seq<(Seq<char>, Seq<char>)>,
) -> Seq<(Seq<char>, Seq<char>)>
    decreases others.len(),
{
    if others.len() == 0 {
        vars
    } else {
        set_variable(
            set_variables(vars, others.drop_last()),
            others.last().0,
            others.last().1,
        )
    }
}

/// What stands in the environment for some variables.
pub open spec fn assignments(vars: Seq<(Seq<char>, Seq<char>)>) -> Seq<Seq<char>> {
    Seq::new(vars.len(), |i: int| vars[i].0 + "="@ + vars[i].1)
}

/// Sets one variable.
fn assign(vars: &mut Vec<(String, String)>, name: &String, value: &String)
    ensures
        pairs(final(vars)@) == set_variable(pairs(old(vars)@), name@, value@),
{
    let ghost all = pairs(vars@);
    let mut i: usize = 0;
    assert(all.skip(0) =~= all);
    assert(all.take(0) + set_variable(all, name@, value@) =~= set_variable(all, name@, value@));
    while i < vars.len()
        invariant
            i <= vars@.len(),
            vars@ == old(vars)@,
            all == pairs(vars@),
            all.take(i as int) + set_variable(all.skip(i as int), name@, value@) == set_variable(
                all,
                name@,
                value@,
            ),
        decreases vars.len() - i,
    {
        let ghost rest = all.skip(i as int);
        assert(rest[0] == all[i as int]);
        assert(rest.drop_first() =~= all.skip(i + 1));
        let same = same_text(vars[i].0.as_str(), name.as_str());
        if same {
            vars.set(i, (name.clone(), value.clone()));
            proof {
                assert(pairs(vars@) =~= all.update(i as int, (name@, value@)));
                assert(pairs(vars@) =~= all.take(i as int) + (seq![(name@, value@)] + all.skip(
                    i + 1,
                )));
            }
            return ;
        }
        proof {
            assert(all.take(i + 1) + set_variable(all.skip(i + 1), name@, value@) =~= all.take(
                i as int,
            ) + (seq![all[i as int]] + set_variable(all.skip(i + 1), name@, value@)));
        }
        i = i + 1;
    }
    vars.push((name.clone(), value.clone()));
    proof {
        assert(all.skip(i as int) =~= Seq::empty());
        assert(pairs(vars@) =~= all.take(i as int) + seq![(name@, value@)]);
    }
}

/// The environment of the command: the default variables, with those of the caller
/// in their place or after them. `getenv` returns the first match, so no variable
/// may stand there twice.
pub fn sandbox_environment(term: &Option<String>, host_links: bool, envs: &[(String, String)]) -> (r:
    Vec<String>)
    ensures
        texts(r@) == assignments(
            set_variables(default_variables(opt_text(*term), host_links), pairs(envs@)),
        ),
{
    let term_text = match term {
        Some(t) => t.clone(),
        None => "xterm".to_owned(),
    };
    let path = if host_links {
        "/Core/Bin:/Construct/Bin:/usr/bin:/bin"
    } else {
        "/Core/Bin:/Construct/Bin"
    };
    let mut vars: Vec<(String, String)> = Vec::new();
    vars.push(("HOME".to_owned(), "/Vault/Cache/builder".to_owned()));
    vars.push(("TERM".to_owned(), term_text));
    vars.push(("PATH".to_owned(), path.to_owned()));
    vars.push(("CONFIG_SITE".to_owned(), "/Transit/Ephemeral/config.site".to_owned()));
    let ghost defaults = default_variables(opt_text(*term), host_links);
    assert(pairs(vars@) =~= defaults);
    let ghost others = pairs(envs@);
    let mut i: usize = 0;
    assert(others.take(0) =~= Seq::empty());
    while i < envs.len()
        invariant
            i <= envs@.len(),
            others == pairs(envs@),
            pairs(vars@) == set_variables(defaults, others.take(i as int)),
        decreases envs.len() - i,
    {
        assert(others.take(i + 1).drop_last() =~= others.take(i as int));
        assert(others.take(i + 1).last() == others[i as int]);
        let (name, value) = &envs[i];
        assign(&mut vars, name, value);
        i = i + 1;
    }
    assert(others.take(others.len() as int) =~= others);
    let mut r: Vec<String> = Vec::new();
    let mut k: usize = 0;
    while k < vars.len()
        invariant
            k <= vars@.len(),
            r@.len() == k,
            forall|j: int| 0 <= j < k ==> (#[trigger] r@[j])@ == vars@[j].0@ + "="@ + vars@[j].1@,
        decreases vars.len() - k,
    {
        r.push(concat3(vars[k].0.as_str(), "=", vars[k].1.as_str()));
        k = k + 1;
    }
    assert(texts(r@) =~= assignments(pairs(vars@)));
    r
}

/// How a command is run in the sandbox.
pub struct SandboxPlan {
    /// The command takes the place of this process, so that it keeps the terminal and
    /// the process group; else it runs in a child, for which the caller waits.
    pub in_place: bool,
    /// The user that the command runs as, inside.
    pub uid: u32,
    /// Its group.
    pub gid: u32,
    /// The tools of the host are bound in.
    pub host_links: bool,
    /// Where the directories of the caller are bound.
    pub binds: Vec<String>,
    /// The command.
    pub argv: Vec<String>,
    /// Its environment.
    pub environment: Vec<String>,
}

/// `plan` runs `cmd` as said.
pub open spec fn plan_runs(
    plan: SandboxPlan,
    cmd: Seq<Seq<char>>,
    envs: Seq<(Seq<char>, Seq<char>)>,
    host_links: bool,
    in_place: bool,
    binds: Seq<Seq<char>>,
    login: Option<(u32, u32)>,
    term: Option<Seq<char>>,
) -> bool {
    &&& plan.in_place == in_place
    &&& (plan.uid, plan.gid) == (match login {
        Some(ids) => ids,
        None => (0u32, 0u32),
    })
    &&& plan.host_links == host_links
    &&& texts(plan.binds@) == binds
    &&& texts(plan.argv@) == cmd
    &&& texts(plan.environment@) == assignments(
        set_variables(default_variables(term, host_links), envs),
    )
}

/// A copy of some strings.
fn copies(v: &[String]) -> (r: Vec<String>)
    ensures
        texts(r@) == texts(v@),
{
    let mut r: Vec<String> = Vec::new();
    let mut i: usize = 0;
    while i < v.len()
        invariant
            i <= v@.len(),
            r@.len() == i,
            forall|k: int| 0 <= k < i ==> (#[trigger] r@[k])@ == v@[k]@,
        decreases v.len() - i,
    {
        r.push(v[i].clone());
        i = i + 1;
    }
    assert(texts(r@) =~= texts(v@));
    r
}

/// How a command is run in the sandbox, as the given user or as root inside. An
/// interactive one takes the place of this process.
fn plan_sandbox(
    cmd: &[String],
    envs: &[(String, String)],
    host_links: bool,
    interactive: bool,
    binds: &[String],
    login: Option<(u32, u32)>,
    term: &Option<String>,
) -> (plan: SandboxPlan)
    ensures
        plan_runs(
            plan,
            texts(cmd@),
            pairs(envs@),
            host_links,
            interactive,
            texts(binds@),
            login,
            opt_text(*term),
        ),
{
    let (uid, gid): (u32, u32) = match login {
        Some(ids) => ids,
        None => (0, 0),
    };
    SandboxPlan {
        in_place: interactive,
        uid,
        gid,
        host_links,
        binds: copies(binds),
        argv: copies(cmd),
        environment: sandbox_environment(term, host_links, envs),
    }
}

/// How a command is run in the sandbox, as root inside.
pub fn run_in_sandbox(
    cmd: &[String],
    envs: &[(String, String)],
    host_links: bool,
    interactive: bool,
    binds: &[String],
    term: &Option<String>,
) -> (plan: SandboxPlan)
    requires
        cmd@.len() > 0,
    ensures
        plan_runs(
            plan,
            texts(cmd@),
            pairs(envs@),
            host_links,
            interactive,
            texts(binds@),
            None,
            opt_text(*term),
        ),
{
    plan_sandbox(cmd, envs, host_links, interactive, binds, None, term)
}

/// How an interactive session is run in the sandbox as a certain account, so that
/// it truly runs as that user.
pub fn run_in_sandbox_as(
    cmd: &[String],
    envs: &[(String, String)],
    host_links: bool,
    binds: &[String],
    uid: u32,
    gid: u32,
    term: &Option<String>,
) -> (plan: SandboxPlan)
    requires
        cmd@.len() > 0,
    ensures
        plan_runs(
            plan,
            texts(cmd@),
            pairs(envs@),
            host_links,
            true,
            texts(binds@),
            Some((uid, gid)),
            opt_text(*term),
        ),
{
    plan_sandbox(cmd, envs, host_links, true, binds, Some((uid, gid)), term)
}

/// One thing that is done to enter the sandbox.
#[derive(Clone, Copy, PartialEq, Eq, Structural, Debug)]
pub enum SandboxStep {
    /// Make the user, mount and host name namespaces.
    Unshare,
    /// Give up the right to set groups.
    DenySetgroups,
    /// Map the user inside to the real one.
    MapUser,
    /// Map the group inside to the real one.
    MapGroup,
    /// Keep all mounts from the host.
    MakePrivate,
    /// Set up the file system.
    SetUpMounts,
    /// Make the sysroot the root.
    ChangeRoot,
    /// Go to the new root.
    GoToRoot,
    /// Make the home of the builder.
    MakeHome,
    /// Become the command.
    Execute,
}

/// What is done to enter the sandbox, in order. Setting groups must be denied
/// before the group is mapped, and mounts must be private before any is made.
pub open spec fn entering() -> Seq<SandboxStep> {
    seq![
        SandboxStep::Unshare,
        SandboxStep::DenySetgroups,
        SandboxStep::MapUser,
        SandboxStep::MapGroup,
        SandboxStep::MakePrivate,
        SandboxStep::SetUpMounts,
        SandboxStep::ChangeRoot,
        SandboxStep::GoToRoot,
        SandboxStep::MakeHome,
        SandboxStep::Execute,
    ]
}

/// What is done to enter the sandbox, in order.
pub fn do_enter() -> (r: Vec<SandboxStep>)
    ensures
        r@ == entering(),
{
    let r = vec![
        SandboxStep::Unshare,
        SandboxStep::DenySetgroups,
        SandboxStep::MapUser,
        SandboxStep::MapGroup,
        SandboxStep::MakePrivate,
        SandboxStep::SetUpMounts,
        SandboxStep::ChangeRoot,
        SandboxStep::GoToRoot,
        SandboxStep::MakeHome,
        SandboxStep::Execute,
    ];
    assert(r@ =~= entering());
    r
}

/// What the message about a failed step begins with; none if the failure does not
/// matter. `shown`: how the command is shown.
pub open spec fn sandbox_complaint(step: SandboxStep, shown: Seq<char>) -> Option<Seq<char>> {
    match step {
        SandboxStep::Unshare => Some("unshare (unprivileged user namespaces enabled?): "@),
        SandboxStep::DenySetgroups => Some("setgroups deny: "@),
        SandboxStep::MapUser => Some("uid_map: "@),
        SandboxStep::MapGroup => Some("gid_map: "@),
        SandboxStep::MakePrivate => Some("make-private /: "@),
        SandboxStep::SetUpMounts => Some(""@),
        SandboxStep::ChangeRoot => Some("chroot: "@),
        SandboxStep::GoToRoot => Some("chdir /: "@),
        SandboxStep::MakeHome => None,
        SandboxStep::Execute => Some("execve "@ + shown + ": "@),
    }
}

/// The message about a step that failed, if the command cannot be run then.
pub fn sandbox_failure(step: SandboxStep, shown: &str, error: &str) -> (r: Option<String>)
    ensures
        opt_text(r) == (match sandbox_complaint(step, shown@) {
            Some(prefix) => Some(prefix + error@),
            None => None,
        }),
{
    let prefix = match step {
        SandboxStep::Unshare => "unshare (unprivileged user namespaces enabled?): ".to_owned(),
        SandboxStep::DenySetgroups => "setgroups deny: ".to_owned(),
        SandboxStep::MapUser => "uid_map: ".to_owned(),
        SandboxStep::MapGroup => "gid_map: ".to_owned(),
        SandboxStep::MakePrivate => "make-private /: ".to_owned(),
        SandboxStep::SetUpMounts => "".to_owned(),
        SandboxStep::ChangeRoot => "chroot: ".to_owned(),
        SandboxStep::GoToRoot => "chdir /: ".to_owned(),
        SandboxStep::MakeHome => {
            return None;
        },
        SandboxStep::Execute => concat3("execve ", shown, ": "),
    };
    Some(concat2(prefix.as_str(), error))
}

/// The line that maps one user or group inside to one outside.
pub open spec fn id_map(inside: u32, outside: u32) -> Seq<char> {
    decimal(inside as nat) + " "@ + decimal(outside as nat) + " 1"@
}

/// The line that maps one user or group inside to one outside.
pub fn id_map_line(inside: u32, outside: u32) -> (r: String)
    ensures
        r@ == id_map(inside, outside),
{
    let mut r = concat3(
        decimal_text(inside as u64).as_str(),
        " ",
        decimal_text(outside as u64).as_str(),
    );
    r.append(" 1");
    r
}

/// How a child process ended.
#[derive(Clone, Copy, PartialEq, Eq, Structural, Debug)]
pub enum ChildEnd {
    /// With an exit code.
    Exited(i32),
    /// By a signal.
    Signaled(u8),
    /// In some other way.
    Other,
}

/// The exit code for the end of a child process.
pub open spec fn code_of(end: ChildEnd) -> int {
    match end {
        ChildEnd::Exited(code) => code as int,
        ChildEnd::Signaled(signal) => 128 + signal as int,
        ChildEnd::Other => 1,
    }
}

/// The exit code for the end of a child process: its own, 128 and the number of the
/// signal, or 1.
pub fn exit_code(end: ChildEnd) -> (r: i32)
    ensures
        r == code_of(end),
{
    match end {
        ChildEnd::Exited(code) => code,
        ChildEnd::Signaled(signal) => 128 + signal as i32,
        ChildEnd::Other => 1,
    }
}

/// The directories that the sandbox leaves in the sysroot, empty, as mount points.
pub open spec fn leftovers() -> Seq<Seq<char>> {
    seq!["bin"@, "sbin"@, "lib"@, "lib64"@, "usr"@, "opt"@, "etc"@, "tmp"@]
}

/// The directories that the sandbox leaves in the sysroot as mount points. They are
/// removed after a build if they are empty.
pub fn stock_dirs() -> (r: Vec<String>)
    ensures
        texts(r@) == leftovers(),
{
    let mut r: Vec<String> = Vec::new();
    r.push("bin".to_owned());
    r.push("sbin".to_owned());
    r.push("lib".to_owned());
    r.push("lib64".to_owned());
    r.push("usr".to_owned());
    r.push("opt".to_owned());
    r.push("etc".to_owned());
    r.push("tmp".to_owned());
    assert(texts(r@) =~= leftovers());
    r
}

/// What has come of the last move of running a command in the sandbox.
pub enum SandboxEvent {
    /// The command is to be run.
    Asked,
    /// The real path of the sysroot is known.
    Found,
    /// It is not.
    NotFound(String),
    /// There is a child process, and this is its parent.
    InParent,
    /// This is the child process.
    InChild,
    /// There is no child process.
    NotForked(String),
    /// This process, which is the child or not, could not become the command.
    NotEntered { child: bool, message: String },
    /// The child process has ended.
    Waited(ChildEnd),
    /// Waiting for it failed.
    NotWaited(String),
}

/// What to do next to run a command in the sandbox.
pub enum SandboxMove {
    /// Find the real path of the sysroot.
    FindSysroot,
    /// Make a child process.
    Fork,
    /// Take the steps, one after the other, up to the first failure that matters; the last
    /// of them makes this process the command.
    Enter { steps: Vec<SandboxStep> },
    /// Wait for the child process.
    Wait,
    /// Remove the directories of the sysroot, each if that is possible, and return.
    CleanUp { dirs: Vec<String>, result: Result<i32, String> },
    /// Say the message and end this process with the code.
    Exit { message: String, code: i32 },
    /// Return the message.
    Fail { message: String },
}

/// What waiting for the child process gives.
pub open spec fn waited(event: SandboxEvent) -> Result<int, Seq<char>> {
    match event {
        SandboxEvent::Waited(end) => Ok(code_of(end)),
        SandboxEvent::NotWaited(error) => Err("waitpid: "@ + error@),
        _ => Ok(1),
    }
}

/// `r` is what to do next to run a command in the sandbox.
pub open spec fn sandbox_decided(
    plan: SandboxPlan,
    shown: Seq<char>,
    event: SandboxEvent,
    r: SandboxMove,
) -> bool {
    match event {
        SandboxEvent::Asked => r is FindSysroot,
        SandboxEvent::Found => if plan.in_place {
            r matches SandboxMove::Enter { steps } && steps@ == entering()
        } else {
            r is Fork
        },
        SandboxEvent::NotFound(error) => r matches SandboxMove::Fail { message } && message@
            == "canonicalize sysroot "@ + shown + ": "@ + error@,
        SandboxEvent::InParent => r is Wait,
        SandboxEvent::InChild => r matches SandboxMove::Enter { steps } && steps@ == entering(),
        SandboxEvent::NotForked(error) => r matches SandboxMove::Fail { message } && message@
            == "fork: "@ + error@,
        SandboxEvent::NotEntered { child, message } => if child {
            r matches SandboxMove::Exit { message: said, code } && said@ == "sandbox child: "@
                + message@ && code == 127
        } else {
            r matches SandboxMove::Fail { message: said } && said@ == message@
        },
        SandboxEvent::Waited(_) | SandboxEvent::NotWaited(_) => r matches SandboxMove::CleanUp {
            dirs,
            result,
        } && texts(dirs@) == leftovers() && (match waited(event) {
            Ok(code) => result matches Ok(c) && c == code,
            Err(message) => result matches Err(m) && m@ == message,
        }),
    }
}

/// What to do next to run a command in the sandbox. `shown`: how the sysroot is shown.
///
/// An interactive command takes the place of this process. For any other a child process
/// is made, and the parent waits for it. Whatever comes of the wait, the mount points
/// that the sandbox left in the sysroot are removed before anything is returned.
pub fn enter_sandbox(plan: &SandboxPlan, shown: &str, event: &SandboxEvent) -> (r: SandboxMove)
    ensures
        sandbox_decided(*plan, shown@, *event, r),
{
    match event {
        SandboxEvent::Asked => SandboxMove::FindSysroot,
        SandboxEvent::Found => if plan.in_place {
            SandboxMove::Enter { steps: do_enter() }
        } else {
            SandboxMove::Fork
        },
        SandboxEvent::NotFound(error) => {
            let mut message = concat3("canonicalize sysroot ", shown, ": ");
            message.append(error.as_str());
            SandboxMove::Fail { message }
        },
        SandboxEvent::InParent => SandboxMove::Wait,
        SandboxEvent::InChild => SandboxMove::Enter { steps: do_enter() },
        SandboxEvent::NotForked(error) => SandboxMove::Fail {
            message: concat2("fork: ", error.as_str()),
        },
        SandboxEvent::NotEntered { child, message } => if *child {
            SandboxMove::Exit { message: concat2("sandbox child: ", message.as_str()), code: 127 }
        } else {
            SandboxMove::Fail { message: message.clone() }
        },
        SandboxEvent::Waited(end) => SandboxMove::CleanUp {
            dirs: stock_dirs(),
            result: Ok(exit_code(*end)),
        },
        SandboxEvent::NotWaited(error) => SandboxMove::CleanUp {
            dirs: stock_dirs(),
            result: Err(concat2("waitpid: ", error.as_str())),
        },
    }
}

/// The value of the first variable with a name.
pub open spec fn value_of(vars: Seq<(Seq<char>, Seq<char>)>, name: Seq<char>) -> Option<Seq<char>>
    decreases vars.len(),
{
    if vars.len() == 0 {
        None
    } else if vars[0].0 == name {
        Some(vars[0].1)
    } else {
        value_of(vars.drop_first(), name)
    }
}

/// The value that was set last for a name.
pub open spec fn last_value(vars: Seq<(Seq<char>, Seq<char>)>, name: Seq<char>) -> Option<Seq<char>>
    decreases vars.len(),
{
    if vars.len() == 0 {
        None
    } else if vars.last().0 == name {
        Some(vars.last().1)
    } else {
        last_value(vars.drop_last(), name)
    }
}

/// No variable stands there twice.
pub open spec fn names_distinct(vars: Seq<(Seq<char>, Seq<char>)>) -> bool {
    forall|i: int, j: int| 0 <= i < j < vars.len() ==> (#[trigger] vars[i]).0 != (#[trigger] vars[j]).0
}

proof fn set_gives_value(
    vars: Seq<(Seq<char>, Seq<char>)>,
    name: Seq<char>,
    value: Seq<char>,
    other: Seq<char>,
)
    ensures
        value_of(set_variable(vars, name, value), other) == (if other == name {
            Some(value)
        } else {
            value_of(vars, other)
        }),
    decreases vars.len(),
{
    let after = set_variable(vars, name, value);
    if vars.len() == 0 {
        assert(after.drop_first() =~= vars);
    } else if vars[0].0 == name {
        assert(after.drop_first() =~= vars.drop_first());
    } else {
        set_gives_value(vars.drop_first(), name, value, other);
        assert(after.drop_first() =~= set_variable(vars.drop_first(), name, value));
    }
}

proof fn set_keeps_distinct(
    vars: Seq<(Seq<char>, Seq<char>)>,
    name: Seq<char>,
    value: Seq<char>,
)
    requires
        names_distinct(vars),
    ensures
        names_distinct(set_variable(vars, name, value)),
        forall|i: int|
            0 <= i < set_variable(vars, name, value).len() ==> (#[trigger] set_variable(
                vars,
                name,
                value,
            )[i]).0 == name || exists|j: int|
                0 <= j < vars.len() && (#[trigger] vars[j]).0 == set_variable(vars, name, value)[i].0,
    decreases vars.len(),
{
    let after = set_variable(vars, name, value);
    if vars.len() > 0 {
        let rest = vars.drop_first();
        assert forall|i: int, j: int| 0 <= i < j < rest.len() implies (#[trigger] rest[i]).0 != (
        #[trigger] rest[j]).0 by {
            assert(vars[i + 1].0 != vars[j + 1].0);
        }
        if vars[0].0 == name {
            assert forall|i: int| 0 <= i < after.len() implies after[i].0 == (
            #[trigger] vars[i]).0 by {
                if i > 0 {
                    assert(after[i] == rest[i - 1]);
                }
            }
        } else {
            let tail = set_variable(rest, name, value);
            set_keeps_distinct(rest, name, value);
            assert forall|i: int| 0 <= i < tail.len() implies (#[trigger] tail[i]).0 != vars[0].0 by {
                if tail[i].0 != name {
                    let j = choose|j: int|
                        0 <= j < rest.len() && (#[trigger] rest[j]).0 == tail[i].0;
                    assert(vars[0].0 != vars[j + 1].0);
                }
            }
            assert forall|i: int, j: int| 0 <= i < j < after.len() implies (#[trigger] after[i]).0
                != (#[trigger] after[j]).0 by {
                assert(after[j] == tail[j - 1]);
                if i > 0 {
                    assert(after[i] == tail[i - 1]);
                }
            }
            assert forall|i: int| 0 <= i < after.len() implies (#[trigger] after[i]).0 == name
                || exists|j: int| 0 <= j < vars.len() && (#[trigger] vars[j]).0 == after[i].0 by {
                if i == 0 {
                    assert(vars[0].0 == after[0].0);
                } else {
                    assert(after[i] == tail[i - 1]);
                    if tail[i - 1].0 != name {
                        let j = choose|j: int|
                            0 <= j < rest.len() && (#[trigger] rest[j]).0 == tail[i - 1].0;
                        assert(vars[j + 1].0 == after[i].0);
                    }
                }
            }
        }
    }
}

/// A variable has the value that was set for it last.
pub proof fn law_last_value_wins(
    vars: Seq<(Seq<char>, Seq<char>)>,
    others: Seq<(Seq<char>, Seq<char>)>,
    name: Seq<char>,
)
    ensures
        value_of(set_variables(vars, others), name) == (match last_value(others, name) {
            Some(value) => Some(value),
            None => value_of(vars, name),
        }),
    decreases others.len(),
{
    if others.len() > 0 {
        law_last_value_wins(vars, others.drop_last(), name);
        set_gives_value(
            set_variables(vars, others.drop_last()),
            others.last().0,
            others.last().1,
            name,
        );
    }
}

proof fn all_set_distinct(
    vars: Seq<(Seq<char>, Seq<char>)>,
    others: Seq<(Seq<char>, Seq<char>)>,
)
    requires
        names_distinct(vars),
    ensures
        names_distinct(set_variables(vars, others)),
    decreases others.len(),
{
    if others.len() > 0 {
        all_set_distinct(vars, others.drop_last());
        set_keeps_distinct(
            set_variables(vars, others.drop_last()),
            others.last().0,
            others.last().1,
        );
    }
}

/// No variable stands in the environment of a sandbox twice, whatever the caller
/// sets and how often.
pub proof fn law_variables_distinct(
    term: Option<Seq<char>>,
    host_links: bool,
    envs: Seq<(Seq<char>, Seq<char>)>,
)
    ensures
        names_distinct(set_variables(default_variables(term, host_links), envs)),
{
    let vars = default_variables(term, host_links);
    reveal_strlit("HOME");
    reveal_strlit("TERM");
    reveal_strlit("PATH");
    reveal_strlit("CONFIG_SITE");
    assert("HOME"@[0] == 'H');
    assert("TERM"@[0] == 'T');
    assert("PATH"@[0] == 'P');
    assert("CONFIG_SITE"@[0] == 'C');
    assert(names_distinct(vars));
    all_set_distinct(vars, envs);
}

/// What is set for a name and not set again is its last value.
pub proof fn last_value_is(vars: Seq<(Seq<char>, Seq<char>)>, at: int)
    requires
        0 <= at < vars.len(),
        forall|j: int| at < j < vars.len() ==> (#[trigger] vars[j]).0 != vars[at].0,
    ensures
        last_value(vars, vars[at].0) == Some(vars[at].1),
    decreases vars.len(),
{
    if at < vars.len() - 1 {
        let init = vars.drop_last();
        assert(vars[vars.len() - 1].0 != vars[at].0);
        assert forall|j: int| at < j < init.len() implies (#[trigger] init[j]).0 != init[at].0 by {
            assert(vars[j].0 != vars[at].0);
        }
        last_value_is(init, at);
    }
}

/// The build script gets every extra field of `meta.toml` as a variable, with its
/// name in upper case, unless a later field has the same name then.
pub proof fn law_extra_field_reaches_script(
    meta: PackageMeta,
    survey: Survey,
    term: Option<Seq<char>>,
    host_links: bool,
    i: int,
)
    requires
        0 <= i < meta.extra@.len(),
        forall|j: int|
            i < j < meta.extra@.len() ==> uppercase((#[trigger] meta.extra@[j]).0@) != uppercase(
                meta.extra@[i].0@,
            ),
    ensures
        value_of(
            set_variables(default_variables(term, host_links), build_variables(meta, survey)),
            uppercase(meta.extra@[i].0@),
        ) == Some(meta.extra@[i].1.shown()),
{
    let all = build_variables(meta, survey);
    let before = all.len() - meta.extra@.len();
    assert forall|j: int| 0 <= j < meta.extra@.len() implies all[before + j] == (
        uppercase((#[trigger] meta.extra@[j]).0@),
        meta.extra@[j].1.shown(),
    ) by {
        assert(all[before + j] == extra_variables(meta.extra@)[j]);
    }
    assert(all[before + i] == (uppercase(meta.extra@[i].0@), meta.extra@[i].1.shown()));
    assert forall|j: int| before + i < j < all.len() implies (#[trigger] all[j]).0 != all[before
        + i].0 by {
        let k = j - before;
        assert(all[before + k] == (uppercase(meta.extra@[k].0@), meta.extra@[k].1.shown()));
    }
    last_value_is(all, before + i);
    law_last_value_wins(
        default_variables(term, host_links),
        all,
        uppercase(meta.extra@[i].0@),
    );
}

/// What the library reads of a field and what the build script gets of it are the same:
/// where fields have names of their own, the variable has the value that is found under
/// the name of the field, unless another field has the same name in upper case.
pub proof fn law_field_and_variable_agree(
    meta: PackageMeta,
    survey: Survey,
    term: Option<Seq<char>>,
    host_links: bool,
    i: int,
)
    requires
        meta.well_formed(),
        0 <= i < meta.extra@.len(),
        forall|j: int|
            0 <= j < meta.extra@.len() && j != i ==> uppercase((#[trigger] meta.extra@[j]).0@)
                != uppercase(meta.extra@[i].0@),
    ensures
        field(meta.extra@, meta.extra@[i].0@) matches Some(value) && value_of(
            set_variables(default_variables(term, host_links), build_variables(meta, survey)),
            uppercase(meta.extra@[i].0@),
        ) == Some(value.shown()),
{
    law_each_field_is_found(meta, i);
    law_extra_field_reaches_script(meta, survey, term, host_links, i);
}

/// The names of the fixed variables of a build differ from each other and from `PATH`.
proof fn fixed_names_distinct(meta: PackageMeta, survey: Survey)
    ensures
        ({
            let all = build_variables(meta, survey);
            let before = all.len() - meta.extra@.len();
            &&& forall|i: int, j: int|
                0 <= i < j < before ==> (#[trigger] all[i]).0 != (#[trigger] all[j]).0
            &&& forall|i: int| 0 <= i < before ==> (#[trigger] all[i]).0 != "PATH"@
        }),
{
    reveal_strlit("PATH");
    reveal_strlit("NAME");
    reveal_strlit("VERSION");
    reveal_strlit("REPOSITORY");
    reveal_strlit("BRANCH");
    reveal_strlit("OUTPUT");
    reveal_strlit("SRC");
    reveal_strlit("PATCHES");
    reveal_strlit("SYSROOT");
    reveal_strlit("JOBS");
    reveal_strlit("ROCKET_OUTPUT");
    reveal_strlit("LOCAL_SRC");
    assert("PATH"@[0] == 'P');
    assert("NAME"@[0] == 'N');
    assert("VERSION"@[0] == 'V');
    assert("BRANCH"@[0] == 'B');
    assert("OUTPUT"@[0] == 'O');
    assert("PATCHES"@[0] == 'P');
    assert("SYSROOT"@[0] == 'S');
    assert("JOBS"@[0] == 'J');
    let all = build_variables(meta, survey);
    let before = all.len() - meta.extra@.len();
    let names = seq![
        "NAME"@,
        "VERSION"@,
        "REPOSITORY"@,
        "BRANCH"@,
        "OUTPUT"@,
        "SRC"@,
        "PATCHES"@,
        "SYSROOT"@,
        "JOBS"@,
        "ROCKET_OUTPUT"@,
        "LOCAL_SRC"@,
    ];
    assert(before <= names.len());
    assert forall|i: int| 0 <= i < before implies (#[trigger] all[i]).0 == names[i] by {}
    assert forall|i: int, j: int| 0 <= i < j < names.len() implies #[trigger] names[i]
        != #[trigger] names[j] by {
        if names[i].len() == names[j].len() {
            assert(names[i][0] != names[j][0]);
        }
    }
    assert forall|i: int| 0 <= i < names.len() implies #[trigger] names[i] != "PATH"@ by {
        if names[i].len() == 4 {
            assert(names[i][0] != 'P');
        }
    }
}

/// The build script gets each of its fixed variables (its own name and version, where
/// its sources and its output are, how many jobs it may run, and the like) with the
/// value that was planned for it, unless an extra field of `meta.toml` has that name in
/// upper case.
pub proof fn law_fixed_variable_reaches_script(
    meta: PackageMeta,
    survey: Survey,
    term: Option<Seq<char>>,
    host_links: bool,
    i: int,
)
    requires
        0 <= i < build_variables(meta, survey).len() - meta.extra@.len(),
        forall|j: int|
            0 <= j < meta.extra@.len() ==> uppercase((#[trigger] meta.extra@[j]).0@)
                != build_variables(meta, survey)[i].0,
    ensures
        value_of(
            set_variables(default_variables(term, host_links), build_variables(meta, survey)),
            build_variables(meta, survey)[i].0,
        ) == Some(build_variables(meta, survey)[i].1),
{
    let all = build_variables(meta, survey);
    let before = all.len() - meta.extra@.len();
    fixed_names_distinct(meta, survey);
    assert forall|j: int| i < j < all.len() implies (#[trigger] all[j]).0 != all[i].0 by {
        if j >= before {
            let k = j - before;
            assert(all[j] == extra_variables(meta.extra@)[k]);
            assert(uppercase(meta.extra@[k].0@) != all[i].0);
        }
    }
    last_value_is(all, i);
    law_last_value_wins(default_variables(term, host_links), all, all[i].0);
}

/// What was set has a last value.
proof fn once_set(vars: Seq<(Seq<char>, Seq<char>)>, at: int)
    requires
        0 <= at < vars.len(),
    ensures
        last_value(vars, vars[at].0) is Some,
    decreases vars.len(),
{
    if vars.last().0 != vars[at].0 {
        assert(vars.drop_last()[at] == vars[at]);
        once_set(vars.drop_last(), at);
    }
}

/// The variables that every build script can rely on.
pub open spec fn promised() -> Seq<Seq<char>> {
    seq!["SYSROOT"@, "OUTPUT"@, "SRC"@, "VERSION"@, "REPOSITORY"@, "BRANCH"@, "JOBS"@]
}

/// Every build script gets `SYSROOT`, `OUTPUT`, `SRC`, `VERSION`, `REPOSITORY`, `BRANCH`
/// and `JOBS`, whatever stands in its `meta.toml`.
pub proof fn law_promised_variables_are_set(
    meta: PackageMeta,
    survey: Survey,
    term: Option<Seq<char>>,
    host_links: bool,
    i: int,
)
    requires
        0 <= i < promised().len(),
    ensures
        value_of(
            set_variables(default_variables(term, host_links), build_variables(meta, survey)),
            promised()[i],
        ) is Some,
{
    let all = build_variables(meta, survey);
    let places = seq![7int, 4, 5, 1, 2, 3, 8];
    let at = places[i];
    assert(all[at].0 == promised()[i]);
    once_set(all, at);
    law_last_value_wins(default_variables(term, host_links), all, promised()[i]);
}

/// What was never set has no last value.
pub proof fn never_set(vars: Seq<(Seq<char>, Seq<char>)>, name: Seq<char>)
    requires
        forall|j: int| 0 <= j < vars.len() ==> (#[trigger] vars[j]).0 != name,
    ensures
        last_value(vars, name) is None,
    decreases vars.len(),
{
    if vars.len() > 0 {
        let init = vars.drop_last();
        assert(vars[vars.len() - 1].0 != name);
        assert forall|j: int| 0 <= j < init.len() implies (#[trigger] init[j]).0 != name by {
            assert(init[j] == vars[j]);
        }
        never_set(init, name);
    }
}

/// The build script looks for its tools in the sysroot, and in directories of the host
/// only behind those and only with host links, unless an extra field of `meta.toml` says
/// otherwise.
pub proof fn law_tools_come_from_the_sysroot(
    meta: PackageMeta,
    survey: Survey,
    term: Option<Seq<char>>,
    host_links: bool,
)
    requires
        forall|j: int|
            0 <= j < meta.extra@.len() ==> uppercase((#[trigger] meta.extra@[j]).0@) != "PATH"@,
    ensures
        value_of(
            set_variables(default_variables(term, host_links), build_variables(meta, survey)),
            "PATH"@,
        ) == Some(
            if host_links {
                "/Core/Bin:/Construct/Bin:/usr/bin:/bin"@
            } else {
                "/Core/Bin:/Construct/Bin"@
            },
        ),
{
    let all = build_variables(meta, survey);
    let before = all.len() - meta.extra@.len();
    fixed_names_distinct(meta, survey);
    assert forall|j: int| 0 <= j < all.len() implies (#[trigger] all[j]).0 != "PATH"@ by {
        if j >= before {
            let k = j - before;
            assert(all[j] == extra_variables(meta.extra@)[k]);
            assert(uppercase(meta.extra@[k].0@) != "PATH"@);
        }
    }
    never_set(all, "PATH"@);
    let vars = default_variables(term, host_links);
    law_last_value_wins(vars, all, "PATH"@);
    reveal_strlit("HOME");
    reveal_strlit("TERM");
    reveal_strlit("PATH");
    assert("HOME"@[0] == 'H');
    assert("TERM"@[0] == 'T');
    assert("PATH"@[0] == 'P');
    reveal_with_fuel(value_of, 4);
    assert(vars.drop_first().drop_first()[0] == vars[2]);
}

} // verus!
