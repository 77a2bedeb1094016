use rocket::sandbox::SandboxPlan;
use rocket::session::{
    choose_shell, enter_interactive, greeting, needs_oobe, session_environment, session_user,
    shell_path, Account, SessionEvent, SessionMove, ShellProbe,
};

const PASSWD: &str = "root:x:0:0:root:/Vault/Root:/Core/Bin/brush\n\
    short:x:1500\n\
    ren:x:1000:1001:Ren:/Space/ren:/Core/Bin/nu\n\
    ann:x:1002:1002:Ann:/Space/ann:/Core/Bin/brush\n";

fn some(s: &str) -> Option<String> {
    Some(s.to_string())
}

fn account(shell: &str) -> Account<String> {
    Account {
        name: "ren".to_string(),
        uid: 1000,
        gid: 1001,
        home: "/Space/ren".to_string(),
        shell: shell.to_string(),
    }
}

fn shells(own: bool, brush: bool, nu: bool) -> ShellProbe {
    ShellProbe { own, brush, nu }
}

fn shell_plan(event: SessionEvent, host_links: bool) -> SandboxPlan {
    match enter_interactive(host_links, &some("vt100"), &event) {
        SessionMove::RunShell { plan } => plan,
        _ => panic!("no shell"),
    }
}

#[test]
fn setup_is_needed_without_a_human() {
    assert!(needs_oobe(&None));
    assert!(needs_oobe(&some("")));
    assert!(needs_oobe(&some("root:x:0:0::/:/bin/sh\nnobody:x:999:999::/:/bin/sh\n")));
    assert!(needs_oobe(&some("odd:x:12a4:0::/:/bin/sh")));
    assert!(!needs_oobe(&some("a:x:1000")));
    assert!(!needs_oobe(&some(PASSWD)));
}

#[test]
fn first_full_human_account_is_taken() {
    let a = session_user(&some(PASSWD)).unwrap_or_else(|| panic!("no account"));
    assert_eq!(a.name, "ren");
    assert_eq!(a.uid, 1000);
    assert_eq!(a.gid, 1001);
    assert_eq!(a.home, "/Space/ren");
    assert_eq!(a.shell, "/Core/Bin/nu");
}

#[test]
fn group_falls_back_to_the_user_number() {
    let a = session_user(&some("a:x:1234:staff::/h:/s")).unwrap_or_else(|| panic!("no account"));
    assert_eq!(a.gid, 1234);
}

#[test]
fn short_lines_and_system_accounts_are_passed_over() {
    assert!(session_user(&None).is_none());
    assert!(session_user(&some("a:x:1000:1000::/h")).is_none());
    assert!(session_user(&some("a:x:999:999::/h:/s")).is_none());
    assert!(session_user(&some("a:x:-1:999::/h:/s")).is_none());
}

#[test]
fn whoever_can_log_in_needs_no_setup() {
    for passwd in [PASSWD, "", "a:x:1000:1000::/h:/s", "a:x:1000", "a:x:0:0::/h:/s"] {
        let passwd = some(passwd);
        if let Some(a) = session_user(&passwd) {
            assert!(a.uid >= 1000);
            assert!(!needs_oobe(&passwd));
        }
    }
}

#[test]
fn greeting_names_the_release() {
    let release = "ID=runix\nPRETTY_NAME=\"RunixOS 1\"\nPRETTY_NAME=other\n";
    assert_eq!(greeting(&some(release)), some("  Welcome to RunixOS 1"));
    assert_eq!(greeting(&some("PRETTY_NAME=\"\"x\"")), some("  Welcome to x"));
    assert_eq!(greeting(&some(" PRETTY_NAME=x")), None);
    assert_eq!(greeting(&None), None);
}

#[test]
fn login_shell_comes_first() {
    let a = Some(account("/Core/Bin/zsh"));
    let cmd = choose_shell(&a, &shells(true, true, true), true).unwrap();
    assert_eq!(cmd, vec!["/Core/Bin/zsh", "--login", "-i"]);
    let a = Some(account("/Core/Bin/nu"));
    let cmd = choose_shell(&a, &shells(true, true, true), true).unwrap();
    assert_eq!(cmd, vec!["/Core/Bin/nu"]);
}

#[test]
fn other_shells_follow() {
    let relative = Some(account("zsh"));
    let cmd = choose_shell(&relative, &shells(true, true, true), true).unwrap();
    assert_eq!(cmd, vec!["/Core/Bin/brush", "--login", "-i"]);
    let cmd = choose_shell(&None, &shells(true, false, true), true).unwrap();
    assert_eq!(cmd, vec!["/Core/Bin/nu"]);
    let cmd = choose_shell(&None, &shells(false, false, false), true).unwrap();
    assert_eq!(cmd, vec!["/bin/bash", "-i"]);
    assert_eq!(choose_shell(&None, &shells(true, false, false), false), None);
}

#[test]
fn shells_are_looked_up_in_the_sysroot() {
    assert_eq!(shell_path(&account("/Core/Bin/nu")), some("Core/Bin/nu"));
    assert_eq!(shell_path(&account("//x")), some("x"));
    assert_eq!(shell_path(&account("nu")), None);
}

#[test]
fn session_has_the_variables_of_its_user() {
    let vars = session_environment(&Some(account("/s")));
    let expected: Vec<(String, String)> = [
        ("USER", "ren"),
        ("LOGNAME", "ren"),
        ("HOME", "/Space/ren"),
        ("SHELL", "/s"),
    ]
    .iter()
    .map(|(k, v)| (k.to_string(), v.to_string()))
    .collect();
    assert_eq!(vars, expected);
    assert_eq!(session_environment(&None), vec![]);
}

#[test]
fn setup_runs_as_root_in_a_child() {
    let event = SessionEvent::Arrived {
        release: some("PRETTY_NAME=R"),
        passwd: None,
        oobe: true,
    };
    match enter_interactive(false, &None, &event) {
        SessionMove::RunSetup { greeting, plan } => {
            assert_eq!(greeting, some("  Welcome to R"));
            assert!(!plan.in_place);
            assert_eq!((plan.uid, plan.gid), (0, 0));
            assert_eq!(plan.argv, vec!["/Core/Bin/oobe"]);
            assert!(!plan.host_links);
        }
        _ => panic!("no setup"),
    }
}

#[test]
fn setup_is_left_out_without_its_program_or_with_an_account() {
    for (passwd, oobe) in [(None, false), (some(PASSWD), true), (some(PASSWD), false)] {
        let event = SessionEvent::Arrived { release: None, passwd, oobe };
        match enter_interactive(false, &None, &event) {
            SessionMove::LogIn { greeting } => assert_eq!(greeting, None),
            _ => panic!("no login"),
        }
    }
    assert!(matches!(
        enter_interactive(false, &None, &SessionEvent::SetUp),
        SessionMove::LogIn { greeting: None }
    ));
}

#[test]
fn session_runs_as_the_account() {
    let plan = shell_plan(
        SessionEvent::LoggedIn { passwd: some(PASSWD), shells: shells(true, true, true) },
        false,
    );
    assert!(plan.in_place);
    assert_eq!((plan.uid, plan.gid), (1000, 1001));
    assert_eq!(plan.argv, vec!["/Core/Bin/nu"]);
    assert_eq!(
        plan.environment,
        vec![
            "HOME=/Space/ren",
            "TERM=vt100",
            "PATH=/Core/Bin:/Construct/Bin",
            "CONFIG_SITE=/Transit/Ephemeral/config.site",
            "USER=ren",
            "LOGNAME=ren",
            "SHELL=/Core/Bin/nu",
        ]
    );
}

#[test]
fn session_without_account_stays_root_inside() {
    let plan = shell_plan(
        SessionEvent::LoggedIn { passwd: None, shells: shells(false, false, false) },
        true,
    );
    assert!(plan.in_place);
    assert_eq!((plan.uid, plan.gid), (0, 0));
    assert_eq!(plan.argv, vec!["/bin/bash", "-i"]);
}

#[test]
fn session_needs_a_shell() {
    let event = SessionEvent::LoggedIn { passwd: None, shells: shells(false, false, false) };
    match enter_interactive(false, &None, &event) {
        SessionMove::Fail { message } => assert_eq!(
            message,
            "No RunixOS shell found (brush or nu). Use --enable-host-links for a host fallback."
        ),
        _ => panic!("a shell"),
    }
}

#[test]
fn session_ends_with_its_shell() {
    assert!(matches!(
        enter_interactive(false, &None, &SessionEvent::Left { code: 0 }),
        SessionMove::Finish
    ));
    match enter_interactive(false, &None, &SessionEvent::Left { code: -3 }) {
        SessionMove::Fail { message } => assert_eq!(message, "Shell exited with code -3"),
        _ => panic!("no failure"),
    }
}
