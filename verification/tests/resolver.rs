use rocket::config::{Package, PackageMeta};
use rocket::resolver::resolve_order;
use std::path::PathBuf;

fn pkg(name: &str, deps: &[&str]) -> Package {
    Package {
        meta: PackageMeta {
            name: name.to_string(),
            version: "0".to_string(),
            description: String::new(),
            licenses: vec![],
            repository: String::new(),
            dependencies: deps.iter().map(|d| d.to_string()).collect(),
            extra: vec![],
        },
        build_script: PathBuf::new(),
        patches_dir: None,
        pkg_dir: PathBuf::new(),
    }
}

fn idx(order: &[String], name: &str) -> usize {
    order.iter().position(|n| n == name).unwrap()
}

fn strings(names: &[&str]) -> Vec<String> {
    names.iter().map(|n| n.to_string()).collect()
}

#[test]
fn orders_deps_before_dependents() {
    let pkgs = [
        pkg("curl", &["openssl", "zlib"]),
        pkg("openssl", &["zlib"]),
        pkg("zlib", &[]),
    ];
    let order = resolve_order(&pkgs, None).unwrap();
    assert!(idx(&order, "zlib") < idx(&order, "openssl"));
    assert!(idx(&order, "openssl") < idx(&order, "curl"));
}

#[test]
fn target_closure_only() {
    let pkgs = [
        pkg("curl", &["zlib"]),
        pkg("zlib", &[]),
        pkg("helix", &[]),
    ];
    let order = resolve_order(&pkgs, Some(&["curl".to_string()])).unwrap();
    assert_eq!(order, vec!["zlib".to_string(), "curl".to_string()]);
}

#[test]
fn detects_cycle() {
    let pkgs = [pkg("a", &["b"]), pkg("b", &["a"])];
    let err = resolve_order(&pkgs, None).unwrap_err();
    assert!(err.contains("cycle"), "got: {err}");
}

#[test]
fn unknown_dep_errors() {
    let pkgs = [pkg("a", &["ghost"])];
    let err = resolve_order(&pkgs, None).unwrap_err();
    assert!(err.contains("unknown package 'ghost'"), "got: {err}");
}

#[test]
fn deterministic() {
    let pkgs = [pkg("a", &[]), pkg("b", &[]), pkg("c", &[])];
    let o1 = resolve_order(&pkgs, None).unwrap();
    let o2 = resolve_order(&pkgs, None).unwrap();
    assert_eq!(o1, o2);
}

#[test]
fn unrelated_packages_come_by_name() {
    let pkgs = [pkg("zsh", &[]), pkg("Zig", &[]), pkg("awk", &[]), pkg("bash", &[])];
    let order = resolve_order(&pkgs, None).unwrap();
    assert_eq!(order, strings(&["Zig", "awk", "bash", "zsh"]));
}

#[test]
fn dependencies_come_by_name() {
    let pkgs = [pkg("a", &["z", "m"]), pkg("m", &[]), pkg("z", &[])];
    let order = resolve_order(&pkgs, None).unwrap();
    assert_eq!(order, strings(&["m", "z", "a"]));
}

#[test]
fn order_of_listing_does_not_matter() {
    let one = [pkg("a", &["b"]), pkg("b", &["c"]), pkg("c", &[]), pkg("d", &["c"])];
    let other = [pkg("d", &["c"]), pkg("c", &[]), pkg("b", &["c"]), pkg("a", &["b"])];
    assert_eq!(resolve_order(&one, None), resolve_order(&other, None));
    assert_eq!(resolve_order(&one, None).unwrap(), strings(&["c", "b", "a", "d"]));
}

#[test]
fn order_of_request_does_not_matter() {
    let pkgs = [pkg("a", &["c"]), pkg("b", &["c"]), pkg("c", &[])];
    let one = resolve_order(&pkgs, Some(&strings(&["b", "a"]))).unwrap();
    let other = resolve_order(&pkgs, Some(&strings(&["a", "b", "a"]))).unwrap();
    assert_eq!(one, other);
    assert_eq!(one, strings(&["c", "a", "b"]));
}

#[test]
fn target_comes_last() {
    let pkgs = [pkg("top", &["mid", "low"]), pkg("mid", &["low"]), pkg("low", &[]), pkg("x", &[])];
    let order = resolve_order(&pkgs, Some(&strings(&["top"]))).unwrap();
    assert_eq!(order, strings(&["low", "mid", "top"]));
}

#[test]
fn cycle_is_named_from_where_it_is_entered() {
    let pkgs = [pkg("a", &["b"]), pkg("b", &["c"]), pkg("c", &["b"])];
    let err = resolve_order(&pkgs, None).unwrap_err();
    assert_eq!(err, "dependency cycle: b -> c -> b");
}

#[test]
fn package_that_needs_itself_is_a_cycle() {
    let pkgs = [pkg("a", &["a"])];
    assert_eq!(resolve_order(&pkgs, None).unwrap_err(), "dependency cycle: a -> a");
}

#[test]
fn cycle_outside_the_closure_does_not_matter() {
    let pkgs = [pkg("a", &["b"]), pkg("b", &["a"]), pkg("c", &[])];
    assert_eq!(resolve_order(&pkgs, Some(&strings(&["c"]))).unwrap(), strings(&["c"]));
}

#[test]
fn unknown_dependency_is_named_exactly() {
    let pkgs = [pkg("b", &["nope"]), pkg("a", &["b", "ghost", "other"])];
    let err = resolve_order(&pkgs, None).unwrap_err();
    assert_eq!(err, "package 'a' depends on unknown package 'ghost'");
}

#[test]
fn unknown_dependency_comes_before_unknown_target() {
    let pkgs = [pkg("a", &["ghost"]), pkg("b", &[])];
    let err = resolve_order(&pkgs, Some(&strings(&["missing"]))).unwrap_err();
    assert_eq!(err, "package 'a' depends on unknown package 'ghost'");
}

#[test]
fn unknown_target_is_named() {
    let pkgs = [pkg("a", &[])];
    let err = resolve_order(&pkgs, Some(&strings(&["a", "y", "x"]))).unwrap_err();
    assert_eq!(err, "unknown package 'y'");
}

#[test]
fn nothing_to_order() {
    assert_eq!(resolve_order(&[], None).unwrap(), Vec::<String>::new());
    assert_eq!(resolve_order(&[pkg("a", &[])], Some(&[])).unwrap(), Vec::<String>::new());
}

#[test]
fn last_package_of_a_name_counts() {
    let pkgs = [pkg("a", &["ghost"]), pkg("a", &["b"]), pkg("b", &[])];
    assert_eq!(resolve_order(&pkgs, None).unwrap(), strings(&["b", "a"]));
}

#[test]
fn order_of_dependency_lists_does_not_matter() {
    let one = [pkg("a", &["c", "b"]), pkg("b", &["d"]), pkg("c", &["d", "b"]), pkg("d", &[])];
    let other = [pkg("a", &["b", "c", "b"]), pkg("b", &["d"]), pkg("c", &["b", "d"]), pkg("d", &[])];
    assert_eq!(resolve_order(&one, None), resolve_order(&other, None));
    assert_eq!(resolve_order(&one, None).unwrap(), strings(&["d", "b", "c", "a"]));
}
