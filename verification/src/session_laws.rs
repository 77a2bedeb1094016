//! What holds of every interactive session: who it is for, which shell it gets, and what
//! the shell finds in its environment.

use vstd::prelude::*;

use crate::builder::opt_text;
use crate::mount_laws::law_host_paths_keep_their_place;
use crate::numbers::decimal;
use crate::numbers::number_u32;
use crate::sandbox::assignments;
use crate::sandbox::default_variables;
use crate::sandbox::set_variable;
use crate::sandbox::set_variables;
use crate::session::account_text;
use crate::session::first_account;
use crate::session::first_after;
use crate::session::greeting_line;
use crate::session::has_human_uid;
use crate::session::human_account;
use crate::session::no_human_yet;
use crate::session::session_account;
use crate::session::session_command;
use crate::session::session_decided;
use crate::session::session_variables;
use crate::session::shell_place;
use crate::session::Account;
use crate::session::SessionEvent;
use crate::session::SessionMove;
use crate::session::ShellProbe;
use crate::text::begins_with;
use crate::text::joined;
use crate::text::lines_of;
use crate::text::split_at;
use crate::text::texts;
use crate::text_laws::law_begins_with;
use crate::text_laws::law_finishes_with;
use crate::text_laws::law_joined_comes_apart;
use crate::text_laws::law_split_loses_nothing;
use crate::text_laws::law_trimmed;

verus! {

/// The login shell of an account is there: its path is absolute, and it was found.
pub open spec fn own_shell_is_there(
    account: Option<Account<Seq<char>>>,
    shells: ShellProbe,
) -> bool {
    account matches Some(a) && a.shell.len() > 0 && a.shell[0] == '/' && shells.own
}

/// A shell that is chosen is one that is there: the login shell of the account only if it
/// was found, brush only if brush was found, nu only if nu was found, and the shell of the
/// host only with host links.
pub proof fn law_chosen_shell_is_there(
    account: Option<Account<Seq<char>>>,
    shells: ShellProbe,
    host_links: bool,
)
    ensures
        session_command(account, shells, host_links) matches Some(cmd) ==> cmd.len() > 0 && {
            ||| own_shell_is_there(account, shells) && cmd[0] == account->0.shell
            ||| shells.brush && cmd[0] == "/Core/Bin/brush"@
            ||| shells.nu && cmd[0] == "/Core/Bin/nu"@
            ||| host_links && cmd[0] == "/bin/bash"@
        },
{
    shell_is_absolute(account);
}

/// A path has a place in the sysroot if it begins with a slash.
proof fn shell_is_absolute(account: Option<Account<Seq<char>>>)
    ensures
        account matches Some(a) ==> (shell_place(a.shell) is Some <==> a.shell.len() > 0
            && a.shell[0] == '/'),
{
    reveal_strlit("/");
    if account is Some {
        let shell = account->0.shell;
        if shell.len() > 0 && shell[0] == '/' {
            assert(shell.take(1) =~= "/"@);
        }
        if begins_with(shell, "/"@) {
            assert(shell.take(1)[0] == '/');
        }
    }
}

/// Which shell is chosen: the login shell of the account where it is there, else brush
/// where that is there, else nu where that is there, else the shell of the host with host
/// links. Where none of them is to be had there is no shell, and only there.
pub proof fn law_order_of_shells(
    account: Option<Account<Seq<char>>>,
    shells: ShellProbe,
    host_links: bool,
)
    ensures
        own_shell_is_there(account, shells) ==> (session_command(account, shells, host_links)
            matches Some(cmd) && cmd[0] == account->0.shell),
        !own_shell_is_there(account, shells) && shells.brush ==> (session_command(
            account,
            shells,
            host_links,
        ) matches Some(cmd) && cmd[0] == "/Core/Bin/brush"@),
        !own_shell_is_there(account, shells) && !shells.brush && shells.nu ==> (session_command(
            account,
            shells,
            host_links,
        ) matches Some(cmd) && cmd[0] == "/Core/Bin/nu"@),
        !own_shell_is_there(account, shells) && !shells.brush && !shells.nu && host_links ==> (
        session_command(account, shells, host_links) matches Some(cmd) && cmd[0] == "/bin/bash"@),
        session_command(account, shells, host_links) is None <==> !own_shell_is_there(
            account,
            shells,
        ) && !shells.brush && !shells.nu && !host_links,
{
    shell_is_absolute(account);
}

/// How a shell is called: nu by itself, the shell of the host as an interactive one, and
/// every other as an interactive login shell.
pub proof fn law_arguments_of_shells(
    account: Option<Account<Seq<char>>>,
    shells: ShellProbe,
    host_links: bool,
    dir: Seq<char>,
)
    ensures
        session_command(account, shells, host_links) matches Some(cmd) ==> {
            &&& cmd[0] == dir + "/nu"@ ==> cmd.len() == 1
            &&& cmd.len() == 1 ==> cmd[0].len() >= 3 && cmd[0].skip(cmd[0].len() - 3) == "/nu"@
            &&& cmd.len() == 2 ==> !own_shell_is_there(account, shells) && !shells.brush
                && cmd == seq!["/bin/bash"@, "-i"@]
            &&& cmd.len() > 2 ==> cmd == seq![cmd[0], "--login"@, "-i"@]
        },
{
    shell_is_absolute(account);
    law_finishes_with(dir, "/nu"@, dir);
    reveal_strlit("/nu");
    reveal_strlit("/Core/Bin/nu");
    assert("/Core/Bin/nu"@.skip(9) =~= "/nu"@);
    reveal_strlit("/Core/Bin/brush");
    reveal_strlit("/bin/bash");
    assert((dir + "/nu"@).last() == 'u');
    assert("/Core/Bin/brush"@.last() == 'h');
    assert("/bin/bash"@.last() == 'h');
}

/// The login shell of an account is looked for in the sysroot, under its path without the
/// slashes at the beginning; a path that is not absolute is not looked for.
pub proof fn law_where_a_shell_is_looked_for(slashes: Seq<char>, rel: Seq<char>)
    requires
        forall|i: int| 0 <= i < slashes.len() ==> #[trigger] slashes[i] == '/',
        rel.len() > 0 ==> rel[0] != '/',
    ensures
        slashes.len() > 0 ==> shell_place(slashes + rel) == Some(rel),
        shell_place(rel) is None,
{
    reveal_strlit("/");
    let path = slashes + rel;
    if slashes.len() > 0 {
        assert(path[0] == slashes[0]);
        assert(path.take(1) =~= "/"@);
        law_host_paths_keep_their_place(slashes, rel);
    }
    if rel.len() > 0 {
        assert(rel.take(1)[0] == rel[0]);
    }
}

/// A line of the passwd file, from its fields.
pub open spec fn passwd_line(fields: Seq<Seq<char>>) -> Seq<char> {
    joined(fields, seq![':'])
}

/// A line of the passwd file is that of a human exactly when its third field is a number of
/// 1000 or more. With all its fields it gives an account: the name, the numbers of the user
/// and of the group, the home and the shell, each from its own field. Where the group is no
/// number, that of the user takes its place.
pub proof fn law_account_of_a_line(fields: Seq<Seq<char>>)
    requires
        fields.len() > 0,
        forall|i: int| 0 <= i < fields.len() ==> !(#[trigger] fields[i]).contains(':'),
    ensures
        has_human_uid(passwd_line(fields)) <==> fields.len() >= 3 && (number_u32(fields[2])
            matches Some(uid) && uid >= 1000),
        human_account(passwd_line(fields)) is Some <==> fields.len() >= 7 && (number_u32(fields[2])
            matches Some(uid) && uid >= 1000),
        human_account(passwd_line(fields)) matches Some(a) ==> {
            &&& a.name == fields[0]
            &&& number_u32(fields[2]) == Some(a.uid)
            &&& number_u32(fields[3]) matches Some(gid) ==> a.gid == gid
            &&& number_u32(fields[3]) is None ==> a.gid == a.uid
            &&& a.home == fields[5]
            &&& a.shell == fields[6]
        },
{
    law_joined_comes_apart(fields, ':');
}

/// Every line of the passwd file has fields, so that what holds of a line with its fields
/// holds of all lines.
pub proof fn law_every_line_has_fields(line: Seq<char>)
    ensures
        ({
            let fields = split_at(line, ':');
            &&& fields.len() > 0
            &&& passwd_line(fields) == line
            &&& forall|i: int| 0 <= i < fields.len() ==> !(#[trigger] fields[i]).contains(':')
        }),
{
    law_split_loses_nothing(line, ':');
}

/// A session is for the account of the first line that gives one.
pub proof fn law_first_account_wins(content: Seq<char>, i: int)
    requires
        0 <= i < lines_of(content).len(),
        human_account(lines_of(content)[i]) is Some,
        forall|j: int| 0 <= j < i ==> human_account(#[trigger] lines_of(content)[j]) is None,
    ensures
        session_account(Some(content)) == human_account(lines_of(content)[i]),
{
    first_is(lines_of(content), i);
}

/// The first line with an account gives the account.
proof fn first_is(lines: Seq<Seq<char>>, i: int)
    requires
        0 <= i < lines.len(),
        human_account(lines[i]) is Some,
        forall|j: int| 0 <= j < i ==> human_account(#[trigger] lines[j]) is None,
    ensures
        first_account(lines) == human_account(lines[i]),
    decreases lines.len(),
{
    if i > 0 {
        let rest = lines.drop_first();
        assert(human_account(lines[0]) is None);
        assert forall|j: int| 0 <= j < i - 1 implies human_account(#[trigger] rest[j]) is None by {
            assert(rest[j] == lines[j + 1]);
        }
        first_is(rest, i - 1);
    }
}

/// Where no line gives an account there is none for a session.
proof fn no_first(lines: Seq<Seq<char>>)
    requires
        forall|j: int| 0 <= j < lines.len() ==> human_account(#[trigger] lines[j]) is None,
    ensures
        first_account(lines) is None,
    decreases lines.len(),
{
    if lines.len() > 0 {
        let rest = lines.drop_first();
        assert(human_account(lines[0]) is None);
        assert forall|j: int| 0 <= j < rest.len() implies human_account(#[trigger] rest[j]) is None by {
            assert(rest[j] == lines[j + 1]);
        }
        no_first(rest);
    }
}

/// There is no account for a session where no line gives one, nor without a passwd file.
pub proof fn law_no_account_without_a_line(content: Seq<char>)
    requires
        forall|j: int|
            0 <= j < lines_of(content).len() ==> human_account(#[trigger] lines_of(content)[j])
                is None,
    ensures
        session_account(Some(content)) is None,
        session_account(None) is None,
{
    no_first(lines_of(content));
}

/// Setup is needed exactly where no line has the user number of a human: one such line
/// anywhere is enough, and without a passwd file there is none.
pub proof fn law_when_setup_is_needed(content: Seq<char>, i: int)
    requires
        0 <= i < lines_of(content).len(),
    ensures
        no_human_yet(None),
        has_human_uid(lines_of(content)[i]) ==> !no_human_yet(Some(content)),
        (forall|j: int|
            0 <= j < lines_of(content).len() ==> !has_human_uid(#[trigger] lines_of(content)[j]))
            ==> no_human_yet(Some(content)),
{
}

/// A session begins with setup exactly where no human account is there yet and the sysroot
/// has the setup program. Setup runs as root inside, in a child, with nothing of the caller
/// bound and without variables beside those of every sandbox. Otherwise the session goes on
/// to the login. After setup it does so too.
pub proof fn law_setup_comes_first(
    host_links: bool,
    term: Option<Seq<char>>,
    event: SessionEvent,
    r: SessionMove,
)
    requires
        session_decided(host_links, term, event, r),
    ensures
        event matches SessionEvent::Arrived { release, passwd, oobe } ==> (r is RunSetup <==> oobe
            && no_human_yet(opt_text(passwd))) && (r is RunSetup || r is LogIn),
        event is SetUp ==> (r matches SessionMove::LogIn { greeting } && greeting is None),
        r is RunSetup ==> event is Arrived,
        r matches SessionMove::RunSetup { plan, .. } ==> {
            &&& plan.uid == 0 && plan.gid == 0
            &&& !plan.in_place
            &&& plan.host_links == host_links
            &&& plan.binds@.len() == 0
            &&& texts(plan.argv@) == seq!["/Core/Bin/oobe"@]
            &&& plan.environment@.len() == 4
        },
{
    if r is RunSetup {
        let plan = r->RunSetup_plan;
        assert(texts(plan.binds@).len() == plan.binds@.len());
        assert(texts(plan.environment@).len() == plan.environment@.len());
        let vars = default_variables(term, host_links);
        assert(set_variables(vars, Seq::empty()) == vars);
    }
}

/// The variables of a session with an account.
proof fn variables_of_a_session(
    term: Option<Seq<char>>,
    host_links: bool,
    a: Account<Seq<char>>,
)
    ensures
        ({
            let defaults = default_variables(term, host_links);
            set_variables(defaults, session_variables(Some(a))) == seq![
                ("HOME"@, a.home),
                defaults[1],
                defaults[2],
                defaults[3],
                ("USER"@, a.name),
                ("LOGNAME"@, a.name),
                ("SHELL"@, a.shell),
            ]
        }),
{
    reveal_strlit("HOME");
    reveal_strlit("TERM");
    reveal_strlit("PATH");
    reveal_strlit("CONFIG_SITE");
    reveal_strlit("USER");
    reveal_strlit("LOGNAME");
    reveal_strlit("SHELL");
    assert("HOME"@[0] == 'H');
    assert("TERM"@[0] == 'T');
    assert("PATH"@[0] == 'P');
    assert("USER"@[0] == 'U');
    let d = default_variables(term, host_links);
    let s = session_variables(Some(a));
    let none = Seq::<(Seq<char>, Seq<char>)>::empty();
    let v1 = d.push(("USER"@, a.name));
    not_there(d, "USER"@, a.name);
    let v2 = v1.push(("LOGNAME"@, a.name));
    assert forall|i: int| 0 <= i < v1.len() implies (#[trigger] v1[i]).0 != "LOGNAME"@ by {
        assert(v1[i].0.len() != 7);
    }
    not_there(v1, "LOGNAME"@, a.name);
    let v3 = seq![("HOME"@, a.home)] + v2.drop_first();
    assert(set_variable(v2, "HOME"@, a.home) =~= v3);
    let v4 = v3.push(("SHELL"@, a.shell));
    assert forall|i: int| 0 <= i < v3.len() implies (#[trigger] v3[i]).0 != "SHELL"@ by {
        assert(v3[i].0.len() != 5);
    }
    not_there(v3, "SHELL"@, a.shell);
    assert(s.take(0) =~= none);
    assert(s.take(1).drop_last() =~= s.take(0));
    assert(s.take(2).drop_last() =~= s.take(1));
    assert(s.take(3).drop_last() =~= s.take(2));
    assert(s.take(4).drop_last() =~= s.take(3));
    assert(s.take(4) =~= s);
    assert(set_variables(d, s.take(0)) == d);
    assert(set_variables(d, s.take(1)) == v1);
    assert(set_variables(d, s.take(2)) == v2);
    assert(set_variables(d, s.take(3)) == v3);
    assert(set_variables(d, s.take(4)) == v4);
    assert(v4 =~= seq![
        ("HOME"@, a.home),
        d[1],
        d[2],
        d[3],
        ("USER"@, a.name),
        ("LOGNAME"@, a.name),
        ("SHELL"@, a.shell),
    ]);
}

/// A variable that is not there is put at the end.
proof fn not_there(vars: Seq<(Seq<char>, Seq<char>)>, name: Seq<char>, value: Seq<char>)
    requires
        forall|i: int| 0 <= i < vars.len() ==> (#[trigger] vars[i]).0 != name,
    ensures
        set_variable(vars, name, value) == vars.push((name, value)),
    decreases vars.len(),
{
    if vars.len() > 0 {
        let rest = vars.drop_first();
        assert(vars[0].0 != name);
        assert forall|i: int| 0 <= i < rest.len() implies (#[trigger] rest[i]).0 != name by {
            assert(rest[i] == vars[i + 1]);
        }
        not_there(rest, name, value);
        assert(set_variable(vars, name, value) =~= vars.push((name, value)));
    } else {
        assert(set_variable(vars, name, value) =~= vars.push((name, value)));
    }
}

/// The shell of a session takes the place of this process and truly runs as the account of
/// the session, with its user and group number, in its home and under its name. The
/// terminal, the path and the defaults for autotools are those of every sandbox, and nothing
/// else is in the environment.
pub proof fn law_session_runs_as_its_account(
    host_links: bool,
    term: Option<Seq<char>>,
    passwd: Option<String>,
    shells: ShellProbe,
    r: SessionMove,
    a: Account<Seq<char>>,
)
    requires
        session_decided(host_links, term, SessionEvent::LoggedIn { passwd, shells }, r),
        r is RunShell,
        session_account(opt_text(passwd)) == Some(a),
    ensures
        ({
            let plan = r->RunShell_plan;
            &&& plan.in_place
            &&& plan.uid == a.uid
            &&& plan.gid == a.gid
            &&& plan.host_links == host_links
            &&& plan.binds@.len() == 0
            &&& Some(texts(plan.argv@)) == session_command(Some(a), shells, host_links)
            &&& texts(plan.environment@) == seq![
                "HOME"@ + "="@ + a.home,
                "TERM"@ + "="@ + (match term {
                    Some(t) => t,
                    None => "xterm"@,
                }),
                "PATH"@ + "="@ + (if host_links {
                    "/Core/Bin:/Construct/Bin:/usr/bin:/bin"@
                } else {
                    "/Core/Bin:/Construct/Bin"@
                }),
                "CONFIG_SITE"@ + "="@ + "/Transit/Ephemeral/config.site"@,
                "USER"@ + "="@ + a.name,
                "LOGNAME"@ + "="@ + a.name,
                "SHELL"@ + "="@ + a.shell,
            ]
        }),
{
    let plan = r->RunShell_plan;
    assert(texts(plan.binds@).len() == plan.binds@.len());
    variables_of_a_session(term, host_links, a);
    let vars = set_variables(default_variables(term, host_links), session_variables(Some(a)));
    let said = assignments(vars);
    assert(said.len() == 7);
    assert(texts(plan.environment@) =~= seq![
        said[0],
        said[1],
        said[2],
        said[3],
        said[4],
        said[5],
        said[6],
    ]);
}

/// Without an account the shell of a session runs as root inside, in place of this process,
/// with the environment of every sandbox and nothing more.
pub proof fn law_session_without_account(
    host_links: bool,
    term: Option<Seq<char>>,
    passwd: Option<String>,
    shells: ShellProbe,
    r: SessionMove,
)
    requires
        session_decided(host_links, term, SessionEvent::LoggedIn { passwd, shells }, r),
        r is RunShell,
        session_account(opt_text(passwd)) is None,
    ensures
        ({
            let plan = r->RunShell_plan;
            &&& plan.in_place
            &&& plan.uid == 0
            &&& plan.gid == 0
            &&& plan.host_links == host_links
            &&& plan.binds@.len() == 0
            &&& Some(texts(plan.argv@)) == session_command(None, shells, host_links)
            &&& plan.environment@.len() == 4
        }),
{
    let plan = r->RunShell_plan;
    assert(texts(plan.binds@).len() == plan.binds@.len());
    assert(texts(plan.environment@).len() == plan.environment@.len());
    let vars = default_variables(term, host_links);
    assert(set_variables(vars, Seq::empty()) == vars);
}

/// A login gives a shell wherever one is to be had; otherwise the session fails. When the
/// shell has ended the session is over if it ended well, and has failed if it did not, with
/// the exit code in the message.
pub proof fn law_how_a_session_ends(
    host_links: bool,
    term: Option<Seq<char>>,
    event: SessionEvent,
    r: SessionMove,
)
    requires
        session_decided(host_links, term, event, r),
    ensures
        event matches SessionEvent::LoggedIn { passwd, shells } ==> (r is Fail <==>
            !own_shell_is_there(session_account(opt_text(passwd)), shells) && !shells.brush
            && !shells.nu && !host_links) && (r is RunShell || r is Fail),
        event is LoggedIn ==> (r matches SessionMove::Fail { message } ==> message@
            == "No RunixOS shell found (brush or nu). Use --enable-host-links for a host fallback."@),
        event matches SessionEvent::Left { code } ==> {
            &&& r is Finish <==> code == 0
            &&& code > 0 ==> (r matches SessionMove::Fail { message } && message@
                == "Shell exited with code "@ + decimal(code as nat))
            &&& code < 0 ==> (r matches SessionMove::Fail { message } && message@
                == "Shell exited with code "@ + (seq!['-'] + decimal((-code) as nat)))
        },
        r is Finish ==> event is Left,
{
    if event is LoggedIn {
        let account = session_account(opt_text(event->LoggedIn_passwd));
        law_order_of_shells(account, event->shells, host_links);
    }
}

/// The greeting has the name from the first line of the release information that gives one,
/// without the quotes around it, if there are any.
pub proof fn law_greeting(
    content: Seq<char>,
    i: int,
    before: Seq<char>,
    name: Seq<char>,
    after: Seq<char>,
)
    requires
        0 <= i < lines_of(content).len(),
        name.len() > 0 ==> name[0] != '"' && name.last() != '"',
        forall|j: int| 0 <= j < before.len() ==> #[trigger] before[j] == '"',
        forall|j: int| 0 <= j < after.len() ==> #[trigger] after[j] == '"',
        lines_of(content)[i] == "PRETTY_NAME="@ + (before + name + after),
        forall|j: int|
            0 <= j < i ==> !begins_with(#[trigger] lines_of(content)[j], "PRETTY_NAME="@),
    ensures
        greeting_line(Some(content)) == Some("  Welcome to "@ + name),
{
    let lines = lines_of(content);
    let key = "PRETTY_NAME="@;
    let shown = before + name + after;
    law_begins_with(lines[i], key, shown);
    assert((key + shown).skip(key.len() as int) =~= shown);
    first_after_is(lines, key, i);
    law_trimmed(before, name, after, set!['"']);
}

/// The first line that begins with a prefix gives what comes after it.
proof fn first_after_is(lines: Seq<Seq<char>>, prefix: Seq<char>, i: int)
    requires
        0 <= i < lines.len(),
        begins_with(lines[i], prefix),
        forall|j: int| 0 <= j < i ==> !begins_with(#[trigger] lines[j], prefix),
    ensures
        first_after(lines, prefix) == Some(lines[i].skip(prefix.len() as int)),
    decreases lines.len(),
{
    if i > 0 {
        let rest = lines.drop_first();
        assert(!begins_with(lines[0], prefix));
        assert forall|j: int| 0 <= j < i - 1 implies !begins_with(#[trigger] rest[j], prefix) by {
            assert(rest[j] == lines[j + 1]);
        }
        first_after_is(rest, prefix, i - 1);
    }
}

/// No line begins with the prefix.
proof fn none_after(lines: Seq<Seq<char>>, prefix: Seq<char>)
    requires
        forall|j: int| 0 <= j < lines.len() ==> !begins_with(#[trigger] lines[j], prefix),
    ensures
        first_after(lines, prefix) is None,
    decreases lines.len(),
{
    if lines.len() > 0 {
        let rest = lines.drop_first();
        assert(!begins_with(lines[0], prefix));
        assert forall|j: int| 0 <= j < rest.len() implies !begins_with(#[trigger] rest[j], prefix) by {
            assert(rest[j] == lines[j + 1]);
        }
        none_after(rest, prefix);
    }
}

/// Without a name in the release information there is no greeting.
pub proof fn law_no_greeting_without_a_name(content: Seq<char>)
    requires
        forall|j: int|
            0 <= j < lines_of(content).len() ==> !begins_with(
                #[trigger] lines_of(content)[j],
                "PRETTY_NAME="@,
            ),
    ensures
        greeting_line(Some(content)) is None,
        greeting_line(None) is None,
{
    none_after(lines_of(content), "PRETTY_NAME="@);
}

/// The greeting that is said when a session begins is that of the release information.
pub proof fn law_session_begins_with_the_greeting(
    host_links: bool,
    term: Option<Seq<char>>,
    release: Option<String>,
    passwd: Option<String>,
    oobe: bool,
    r: SessionMove,
)
    requires
        session_decided(host_links, term, SessionEvent::Arrived { release, passwd, oobe }, r),
    ensures
        match r {
            SessionMove::RunSetup { greeting, .. } => opt_text(greeting) == greeting_line(
                opt_text(release),
            ),
            SessionMove::LogIn { greeting } => opt_text(greeting) == greeting_line(
                opt_text(release),
            ),
            _ => false,
        },
{
}

/// The texts of an account are those of its strings, each in its own place.
pub proof fn law_account_is_read_as_written(a: Account<String>)
    ensures
        account_text(a).name == a.name@,
        account_text(a).uid == a.uid,
        account_text(a).gid == a.gid,
        account_text(a).home == a.home@,
        account_text(a).shell == a.shell@,
{
}

} // verus!
