//! Interactive sessions: setup if there is no account yet, then a shell as the
//! first human account.

use vstd::prelude::*;

use crate::builder::opt_text;
use crate::numbers::number_u32;
use crate::numbers::parse_u32;
use crate::numbers::signed_decimal;
use crate::numbers::signed_decimal_text;
use crate::sandbox::plan_runs;
use crate::sandbox::run_in_sandbox;
use crate::sandbox::run_in_sandbox_as;
use crate::sandbox::SandboxPlan;
use crate::text::begins_with;
use crate::text::concat2;
use crate::text::ends_with;
use crate::text::finishes_with;
use crate::text::lines;
use crate::text::lines_of;
use crate::text::pairs;
use crate::text::skip_chars;
use crate::text::split;
use crate::text::split_at;
use crate::text::starts_with;
use crate::text::texts;
use crate::text::trim_end_char;
use crate::text::trim_start_char;
use crate::text::trimmed;
use crate::text::without_leading;

verus! {

/// An account.
pub struct Account<T> {
    pub name: T,
    pub uid: u32,
    pub gid: u32,
    pub home: T,
    pub shell: T,
}

/// An account with the texts in place of the strings.
pub open spec fn account_text(a: Account<String>) -> Account<Seq<char>> {
    Account { name: a.name@, uid: a.uid, gid: a.gid, home: a.home@, shell: a.shell@ }
}

/// A line of the passwd file with a user number of a human, which is 1000 or more.
pub open spec fn has_human_uid(line: Seq<char>) -> bool {
    let fields = split_at(line, ':');
    fields.len() > 2 && (number_u32(fields[2]) matches Some(uid) && uid >= 1000)
}

/// The human account in a line of the passwd file, if it has all fields. Without a
/// valid group it has that of its own number.
pub open spec fn human_account(line: Seq<char>) -> Option<Account<Seq<char>>> {
    let fields = split_at(line, ':');
    if fields.len() >= 7 && has_human_uid(line) {
        let uid = number_u32(fields[2])->0;
        Some(
            Account {
                name: fields[0],
                uid,
                gid: match number_u32(fields[3]) {
                    Some(gid) => gid,
                    None => uid,
                },
                home: fields[5],
                shell: fields[6],
            },
        )
    } else {
        None
    }
}

/// The first human account in some lines.
pub open spec fn first_account(lines: Seq<Seq<char>>) -> Option<Account<Seq<char>>>
    decreases lines.len(),
{
    if lines.len() == 0 {
        None
    } else if human_account(lines[0]) is Some {
        human_account(lines[0])
    } else {
        first_account(lines.drop_first())
    }
}

/// One of some lines has the user number of a human.
pub open spec fn has_human_line(lines: Seq<Seq<char>>) -> bool {
    exists|i: int| 0 <= i < lines.len() && has_human_uid(#[trigger] lines[i])
}

/// There is no human account yet, or no account store at all.
pub open spec fn no_human_yet(passwd: Option<Seq<char>>) -> bool {
    match passwd {
        Some(content) => !has_human_line(lines_of(content)),
        None => true,
    }
}

/// The account that a session is for.
pub open spec fn session_account(passwd: Option<Seq<char>>) -> Option<Account<Seq<char>>> {
    match passwd {
        Some(content) => first_account(lines_of(content)),
        None => None,
    }
}

/// Whether a line of the passwd file has the user number of a human.
fn is_human_line(line: &String) -> (r: bool)
    ensures
        r == has_human_uid(line@),
{
    let fields = split(line.as_str(), ':');
    assert(texts(fields@).len() == fields@.len());
    if fields.len() > 2 {
        assert(texts(fields@)[2] == fields@[2]@);
        match parse_u32(fields[2].as_str()) {
            Some(uid) => uid >= 1000,
            None => false,
        }
    } else {
        false
    }
}

/// Whether the account store has no human (uid >= 1000) account yet. It is read
/// from the plaintext passwd projection, so no decryption key is needed.
pub fn needs_oobe(passwd: &Option<String>) -> (r: bool)
    ensures
        r == no_human_yet(opt_text(*passwd)),
{
    match passwd {
        Some(content) => {
            let all = lines(content.as_str());
            let ghost found = lines_of(content@);
            assert(texts(all@).len() == all@.len());
            let mut i: usize = 0;
            while i < all.len()
                invariant
                    i <= all@.len(),
                    found.len() == all@.len(),
                    texts(all@) == found,
                    no_human_yet(opt_text(*passwd)) == !has_human_line(found),
                    forall|k: int| 0 <= k < i ==> !has_human_uid(#[trigger] found[k]),
                decreases all.len() - i,
            {
                assert(found[i as int] == all@[i as int]@);
                if is_human_line(&all[i]) {
                    return false;
                }
                i = i + 1;
            }
            true
        },
        None => true,
    }
}

/// The human account in a line of the passwd file.
fn account_in(line: &String) -> (r: Option<Account<String>>)
    ensures
        match r {
            Some(a) => human_account(line@) == Some(account_text(a)),
            None => human_account(line@) is None,
        },
{
    let fields = split(line.as_str(), ':');
    let ghost all = texts(fields@);
    assert(all.len() == fields@.len());
    if fields.len() < 7 {
        return None;
    }
    assert(all[0] == fields@[0]@ && all[2] == fields@[2]@ && all[3] == fields@[3]@ && all[5]
        == fields@[5]@ && all[6] == fields@[6]@);
    match parse_u32(fields[2].as_str()) {
        Some(uid) => {
            if uid >= 1000 {
                let gid: u32 = match parse_u32(fields[3].as_str()) {
                    Some(gid) => gid,
                    None => uid,
                };
                Some(
                    Account {
                        name: fields[0].clone(),
                        uid,
                        gid,
                        home: fields[5].clone(),
                        shell: fields[6].clone(),
                    },
                )
            } else {
                None
            }
        },
        None => None,
    }
}

/// The first human account of the passwd projection.
pub fn session_user(passwd: &Option<String>) -> (r: Option<Account<String>>)
    ensures
        match r {
            Some(a) => session_account(opt_text(*passwd)) == Some(account_text(a)),
            None => session_account(opt_text(*passwd)) is None,
        },
{
    match passwd {
        Some(content) => {
            let found = lines(content.as_str());
            let ghost all = lines_of(content@);
            let mut i: usize = 0;
            assert(all.skip(0) =~= all);
            while i < found.len()
                invariant
                    i <= found@.len(),
                    all == lines_of(content@),
                    texts(found@) == all,
                    *passwd == Some(*content),
                    first_account(all) == first_account(all.skip(i as int)),
                decreases found.len() - i,
            {
                let ghost rest = all.skip(i as int);
                assert(rest[0] == texts(found@)[i as int]);
                assert(rest.drop_first() =~= all.skip(i + 1));
                match account_in(&found[i]) {
                    Some(a) => {
                        return Some(a);
                    },
                    None => {},
                }
                i = i + 1;
            }
            None
        },
        None => None,
    }
}

/// The first of some lines that begins with a prefix, without the prefix.
pub open spec fn first_after(lines: Seq<Seq<char>>, prefix: Seq<char>) -> Option<Seq<char>>
    decreases lines.len(),
{
    if lines.len() == 0 {
        None
    } else if begins_with(lines[0], prefix) {
        Some(lines[0].skip(prefix.len() as int))
    } else {
        first_after(lines.drop_first(), prefix)
    }
}

/// The greeting, from the release information, with the name it gives without the
/// quotes around it.
pub open spec fn greeting_line(release: Option<Seq<char>>) -> Option<Seq<char>> {
    match release {
        Some(content) => match first_after(lines_of(content), "PRETTY_NAME="@) {
            Some(name) => Some("  Welcome to "@ + trimmed(name, set!['"'])),
            None => None,
        },
        None => None,
    }
}

/// The greeting, if the release information has a name.
pub fn greeting(release: &Option<String>) -> (r: Option<String>)
    ensures
        opt_text(r) == greeting_line(opt_text(*release)),
{
    match release {
        Some(content) => {
            let found = lines(content.as_str());
            let ghost all = lines_of(content@);
            let mut i: usize = 0;
            proof {
                reveal_strlit("PRETTY_NAME=");
                assert(all.skip(0) =~= all);
            }
            while i < found.len()
                invariant
                    i <= found@.len(),
                    all == lines_of(content@),
                    texts(found@) == all,
                    *release == Some(*content),
                    "PRETTY_NAME="@.len() == 12,
                    first_after(all, "PRETTY_NAME="@) == first_after(
                        all.skip(i as int),
                        "PRETTY_NAME="@,
                    ),
                decreases found.len() - i,
            {
                let ghost rest = all.skip(i as int);
                assert(rest[0] == texts(found@)[i as int]);
                assert(rest.drop_first() =~= all.skip(i + 1));
                if starts_with(found[i].as_str(), "PRETTY_NAME=") {
                    let name = skip_chars(found[i].as_str(), 12);
                    let start = trim_start_char(name.as_str(), '"');
                    let name = trim_end_char(start.as_str(), '"');
                    return Some(concat2("  Welcome to ", name.as_str()));
                }
                i = i + 1;
            }
            None
        },
        None => None,
    }
}

/// Which shells the sysroot has.
pub struct ShellProbe {
    /// The login shell of the account.
    pub own: bool,
    pub brush: bool,
    pub nu: bool,
}

/// Where in the sysroot the login shell of an account is, if its path is absolute.
pub open spec fn shell_place(shell: Seq<char>) -> Option<Seq<char>> {
    if begins_with(shell, "/"@) {
        Some(without_leading(shell, set!['/']))
    } else {
        None
    }
}

/// Where in the sysroot the login shell of an account is, if its path is absolute.
pub fn shell_path(account: &Account<String>) -> (r: Option<String>)
    ensures
        opt_text(r) == shell_place(account.shell@),
{
    if starts_with(account.shell.as_str(), "/") {
        Some(trim_start_char(account.shell.as_str(), '/'))
    } else {
        None
    }
}

/// The shell of a session with its arguments: the login shell of the account if it
/// is there, else brush, else nu, else the shell of the host if host links are on.
pub open spec fn session_command(
    account: Option<Account<Seq<char>>>,
    shells: ShellProbe,
    host_links: bool,
) -> Option<Seq<Seq<char>>> {
    if account is Some && shell_place(account->0.shell) is Some && shells.own {
        if finishes_with(account->0.shell, "/nu"@) {
            Some(seq![account->0.shell])
        } else {
            Some(seq![account->0.shell, "--login"@, "-i"@])
        }
    } else if shells.brush {
        Some(seq!["/Core/Bin/brush"@, "--login"@, "-i"@])
    } else if shells.nu {
        Some(seq!["/Core/Bin/nu"@])
    } else if host_links {
        Some(seq!["/bin/bash"@, "-i"@])
    } else {
        None
    }
}

/// A shell and its arguments.
fn command(shell: &str, args: &[&str]) -> (r: Vec<String>)
    ensures
        texts(r@) == seq![shell@] + Seq::new(args@.len(), |i: int| args@[i]@),
{
    let mut r: Vec<String> = Vec::new();
    r.push(shell.to_owned());
    let mut i: usize = 0;
    while i < args.len()
        invariant
            i <= args@.len(),
            r@.len() == i + 1,
            r@[0]@ == shell@,
            forall|k: int| 1 <= k <= i ==> (#[trigger] r@[k])@ == args@[k - 1]@,
        decreases args.len() - i,
    {
        r.push(args[i].to_owned());
        i = i + 1;
    }
    assert(texts(r@) =~= seq![shell@] + Seq::new(args@.len(), |i: int| args@[i]@));
    r
}

/// The shell of a session with its arguments.
pub fn choose_shell(account: &Option<Account<String>>, shells: &ShellProbe, host_links: bool) -> (r:
    Option<Vec<String>>)
    ensures
        ({
            let a = match *account {
                Some(a) => Some(account_text(a)),
                None => None,
            };
            match session_command(a, *shells, host_links) {
                Some(cmd) => r matches Some(v) && texts(v@) == cmd,
                None => r is None,
            }
        }),
{
    let own = match account {
        Some(a) => shells.own && shell_path(a).is_some(),
        None => false,
    };
    if own {
        match account {
            Some(a) => {
                let cmd = if ends_with(a.shell.as_str(), "/nu") {
                    let cmd = command(a.shell.as_str(), &[]);
                    assert(texts(cmd@) =~= seq![a.shell@]);
                    cmd
                } else {
                    let cmd = command(a.shell.as_str(), &["--login", "-i"]);
                    assert(texts(cmd@) =~= seq![a.shell@, "--login"@, "-i"@]);
                    cmd
                };
                return Some(cmd);
            },
            None => {},
        }
    }
    if shells.brush {
        let cmd = command("/Core/Bin/brush", &["--login", "-i"]);
        assert(texts(cmd@) =~= seq!["/Core/Bin/brush"@, "--login"@, "-i"@]);
        Some(cmd)
    } else if shells.nu {
        let cmd = command("/Core/Bin/nu", &[]);
        assert(texts(cmd@) =~= seq!["/Core/Bin/nu"@]);
        Some(cmd)
    } else if host_links {
        let cmd = command("/bin/bash", &["-i"]);
        assert(texts(cmd@) =~= seq!["/bin/bash"@, "-i"@]);
        Some(cmd)
    } else {
        None
    }
}

/// The variables of a session.
pub open spec fn session_variables(account: Option<Account<Seq<char>>>) -> Seq<
    (Seq<char>, Seq<char>),
> {
    match account {
        Some(a) => seq![
            ("USER"@, a.name),
            ("LOGNAME"@, a.name),
            ("HOME"@, a.home),
            ("SHELL"@, a.shell),
        ],
        None => Seq::empty(),
    }
}

/// The variables of a session: the user, its home and its login shell.
pub fn session_environment(account: &Option<Account<String>>) -> (r: Vec<(String, String)>)
    ensures
        pairs(r@) == session_variables(
            match *account {
                Some(a) => Some(account_text(a)),
                None => None,
            },
        ),
{
    let mut r: Vec<(String, String)> = Vec::new();
    match account {
        Some(a) => {
            r.push(("USER".to_owned(), a.name.clone()));
            r.push(("LOGNAME".to_owned(), a.name.clone()));
            r.push(("HOME".to_owned(), a.home.clone()));
            r.push(("SHELL".to_owned(), a.shell.clone()));
            assert(pairs(r@) =~= session_variables(Some(account_text(*a))));
        },
        None => {
            assert(pairs(r@) =~= Seq::empty());
        },
    }
    r
}

/// What has come of the last move of a session.
pub enum SessionEvent {
    /// The session was asked for: the release information, the passwd projection, and
    /// whether the sysroot has the setup program.
    Arrived { release: Option<String>, passwd: Option<String>, oobe: bool },
    /// Setup has run.
    SetUp,
    /// The passwd projection, read after setup, and the shells.
    LoggedIn { passwd: Option<String>, shells: ShellProbe },
    /// The shell has ended.
    Left { code: i32 },
}

/// What to do next in a session.
pub enum SessionMove {
    /// Greet, and run setup.
    RunSetup { greeting: Option<String>, plan: SandboxPlan },
    /// Greet, and log in.
    LogIn { greeting: Option<String> },
    /// Run the shell.
    RunShell { plan: SandboxPlan },
    /// The session is over.
    Finish,
    /// The session has failed.
    Fail { message: String },
}

/// `r` is what to do next in a session.
pub open spec fn session_decided(
    host_links: bool,
    term: Option<Seq<char>>,
    event: SessionEvent,
    r: SessionMove,
) -> bool {
    match event {
        SessionEvent::Arrived { release, passwd, oobe } => if no_human_yet(opt_text(passwd))
            && oobe {
            r matches SessionMove::RunSetup { greeting, plan } && opt_text(greeting)
                == greeting_line(opt_text(release)) && plan_runs(
                plan,
                seq!["/Core/Bin/oobe"@],
                Seq::empty(),
                host_links,
                false,
                Seq::empty(),
                None,
                term,
            )
        } else {
            r matches SessionMove::LogIn { greeting } && opt_text(greeting) == greeting_line(
                opt_text(release),
            )
        },
        SessionEvent::SetUp => r matches SessionMove::LogIn { greeting } && greeting is None,
        SessionEvent::LoggedIn { passwd, shells } => {
            let account = session_account(opt_text(passwd));
            match session_command(account, shells, host_links) {
                Some(cmd) => r matches SessionMove::RunShell { plan } && plan_runs(
                    plan,
                    cmd,
                    session_variables(account),
                    host_links,
                    true,
                    Seq::empty(),
                    match account {
                        Some(a) => Some((a.uid, a.gid)),
                        None => None,
                    },
                    term,
                ),
                None => r matches SessionMove::Fail { message } && message@
                    == "No RunixOS shell found (brush or nu). Use --enable-host-links for a host fallback."@,
            }
        },
        SessionEvent::Left { code } => if code == 0 {
            r is Finish
        } else {
            r matches SessionMove::Fail { message } && message@ == "Shell exited with code "@
                + signed_decimal(code as int)
        },
    }
}

/// What to do next in a session: setup if there is no human account yet, then a
/// shell as the first human account, or as root inside if there is still none.
pub fn enter_interactive(host_links: bool, term: &Option<String>, event: &SessionEvent) -> (r:
    SessionMove)
    ensures
        session_decided(host_links, opt_text(*term), *event, r),
{
    let none: Vec<String> = Vec::new();
    assert(texts(none@) =~= Seq::empty());
    match event {
        SessionEvent::Arrived { release, passwd, oobe } => {
            let greeting = greeting(release);
            if needs_oobe(passwd) && *oobe {
                let cmd = command("/Core/Bin/oobe", &[]);
                assert(texts(cmd@) =~= seq!["/Core/Bin/oobe"@]);
                assert(texts(cmd@).len() == cmd@.len());
                let envs: Vec<(String, String)> = Vec::new();
                assert(pairs(envs@) =~= Seq::empty());
                let plan = run_in_sandbox(
                    cmd.as_slice(),
                    envs.as_slice(),
                    host_links,
                    false,
                    none.as_slice(),
                    term,
                );
                SessionMove::RunSetup { greeting, plan }
            } else {
                SessionMove::LogIn { greeting }
            }
        },
        SessionEvent::SetUp => SessionMove::LogIn { greeting: None },
        SessionEvent::LoggedIn { passwd, shells } => {
            let account = session_user(passwd);
            match choose_shell(&account, shells, host_links) {
                Some(cmd) => {
                    assert(texts(cmd@).len() == cmd@.len());
                    let envs = session_environment(&account);
                    let plan = match &account {
                        Some(a) => run_in_sandbox_as(
                            cmd.as_slice(),
                            envs.as_slice(),
                            host_links,
                            none.as_slice(),
                            a.uid,
                            a.gid,
                            term,
                        ),
                        None => run_in_sandbox(
                            cmd.as_slice(),
                            envs.as_slice(),
                            host_links,
                            true,
                            none.as_slice(),
                            term,
                        ),
                    };
                    SessionMove::RunShell { plan }
                },
                None => SessionMove::Fail {
                    message:
                        "No RunixOS shell found (brush or nu). Use --enable-host-links for a host fallback.".to_owned(),
                },
            }
        },
        SessionEvent::Left { code } => {
            if *code == 0 {
                SessionMove::Finish
            } else {
                let message = concat2(
                    "Shell exited with code ",
                    signed_decimal_text(*code as i64).as_str(),
                );
                SessionMove::Fail { message }
            }
        },
    }
}

/// The account of a session comes from a line of its own, and its number is that of
/// a human.
proof fn account_is_in_a_line(lines: Seq<Seq<char>>)
    requires
        first_account(lines) is Some,
    ensures
        exists|i: int|
            0 <= i < lines.len() && has_human_uid(#[trigger] lines[i]) && human_account(lines[i])
                == first_account(lines),
    decreases lines.len(),
{
    if human_account(lines[0]) is None {
        let rest = lines.drop_first();
        account_is_in_a_line(rest);
        let i = choose|i: int|
            0 <= i < rest.len() && has_human_uid(#[trigger] rest[i]) && human_account(rest[i])
                == first_account(rest);
        assert(lines[i + 1] == rest[i]);
    } else {
        assert(has_human_uid(lines[0]));
    }
}

/// Whoever can log in needs no setup: where there is an account for a session,
/// setup is not run.
pub proof fn law_account_means_no_setup(passwd: Option<Seq<char>>)
    ensures
        session_account(passwd) is Some ==> !no_human_yet(passwd),
{
    if session_account(passwd) is Some {
        account_is_in_a_line(lines_of(passwd->0));
    }
}

/// A session is never for a system account, root among them: its user number is
/// 1000 or more.
pub proof fn law_session_is_human(passwd: Option<Seq<char>>)
    ensures
        session_account(passwd) matches Some(a) ==> a.uid >= 1000,
{
    if session_account(passwd) is Some {
        account_is_in_a_line(lines_of(passwd->0));
    }
}

} // verus!
