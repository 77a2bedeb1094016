use rocket::config::{Package, PackageMeta};
use rocket::resolver::resolve_order;
use rocket::run::{
    build_in_order, deps_order, find_package, installs, line_label, RunEvent, RunMove, Scope,
};
use std::path::PathBuf;

fn package(name: &str, version: &str, deps: &[&str]) -> Package {
    Package {
        meta: PackageMeta {
            name: name.to_string(),
            version: version.to_string(),
            description: String::new(),
            licenses: vec![],
            repository: String::new(),
            dependencies: deps.iter().map(|d| d.to_string()).collect(),
            extra: vec![],
        },
        build_script: PathBuf::new(),
        patches_dir: None,
        pkg_dir: PathBuf::new(),
    }
}

fn order(names: &[&str]) -> Vec<String> {
    names.iter().map(|n| n.to_string()).collect()
}

#[test]
fn closures_are_always_installed() {
    assert!(installs(Scope::Closure));
    assert!(installs(Scope::One { install: true }));
    assert!(!installs(Scope::One { install: false }));
    assert!(installs(Scope::All { no_install: false }));
    assert!(!installs(Scope::All { no_install: true }));
}

#[test]
fn run_builds_in_order_and_ends() {
    let pkgs = [package("curl", "8", &["zlib"]), package("zlib", "1", &[])];
    let names = order(&["zlib", "curl"]);
    match build_in_order(&pkgs, &names, Some("curl"), 0, &RunEvent::Built) {
        RunMove::Build { index, local } => {
            assert_eq!(index, 1);
            assert!(!local);
        }
        _ => panic!("not built"),
    }
    match build_in_order(&pkgs, &names, Some("curl"), 1, &RunEvent::Built) {
        RunMove::Build { index, local } => {
            assert_eq!(index, 0);
            assert!(local);
        }
        _ => panic!("not built"),
    }
    match build_in_order(&pkgs, &names, Some("curl"), 2, &RunEvent::Built) {
        RunMove::Done { summary } => assert_eq!(summary, "built 2/2 packages"),
        _ => panic!("not done"),
    }
}

#[test]
fn no_target_means_no_local_tree() {
    let pkgs = [package("curl", "8", &[])];
    match build_in_order(&pkgs, &order(&["curl"]), None, 0, &RunEvent::Built) {
        RunMove::Build { index, local } => {
            assert_eq!(index, 0);
            assert!(!local);
        }
        _ => panic!("not built"),
    }
}

#[test]
fn run_stops_at_the_first_failure() {
    let pkgs = [package("a", "1", &[]), package("b", "1", &[])];
    let names = order(&["a", "b", "c"]);
    match build_in_order(&pkgs, &names, None, 1, &RunEvent::Failed("mkdir output: no".to_string())) {
        RunMove::Stop { message, summary } => {
            assert_eq!(message, "b: mkdir output: no");
            assert_eq!(summary, "built 1/3 before stopping at b");
        }
        _ => panic!("not stopped"),
    }
}

#[test]
fn run_stops_at_a_missing_package() {
    let pkgs = [package("a", "1", &[])];
    match build_in_order(&pkgs, &order(&["c"]), None, 0, &RunEvent::Built) {
        RunMove::Missing { message } => assert_eq!(message, "c (no package dir)"),
        _ => panic!("not missing"),
    }
}

#[test]
fn resolved_packages_are_never_missing() {
    let pkgs = [
        package("top", "1", &["low", "mid"]),
        package("low", "1", &[]),
        package("mid", "1", &["low"]),
        package("low", "2", &[]),
    ];
    let names = resolve_order(&pkgs, None).unwrap();
    assert_eq!(names, order(&["low", "mid", "top"]));
    for built in 0..names.len() {
        match build_in_order(&pkgs, &names, None, built, &RunEvent::Built) {
            RunMove::Build { index, .. } => assert_eq!(pkgs[index].meta.name, names[built]),
            _ => panic!("not built"),
        }
    }
}

#[test]
fn last_package_of_a_name_is_built() {
    let pkgs = [package("a", "1", &[]), package("a", "2", &[]), package("b", "1", &[])];
    assert_eq!(find_package(&pkgs, "a"), Some(1));
    assert_eq!(find_package(&pkgs, "c"), None);
}

#[test]
fn deps_without_names_are_all() {
    let pkgs = [package("b", "1", &[]), package("a", "1", &["b"]), package("c", "1", &[])];
    assert_eq!(deps_order(&pkgs, &[]).unwrap(), order(&["b", "a", "c"]));
    assert_eq!(deps_order(&pkgs, &order(&["a"])).unwrap(), order(&["b", "a"]));
    assert_eq!(deps_order(&pkgs, &order(&["x"])).unwrap_err(), "unknown package 'x'");
}

#[test]
fn lines_are_numbered_in_a_column() {
    assert_eq!(line_label(0), "   1. ");
    assert_eq!(line_label(8), "   9. ");
    assert_eq!(line_label(9), "  10. ");
    assert_eq!(line_label(99), "  100. ");
}
