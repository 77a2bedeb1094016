use rocket::config::{load_package, MetaRead, MetaValue, PackageMeta, Sighting};
use std::path::PathBuf;

fn meta(extra: Vec<(String, MetaValue)>) -> PackageMeta {
    PackageMeta {
        name: "zlib".to_string(),
        version: "1.3".to_string(),
        description: "compression".to_string(),
        licenses: vec!["Zlib".to_string()],
        repository: "https://example.org/zlib".to_string(),
        dependencies: vec![],
        extra,
    }
}

fn sighting(script: bool, patches: bool) -> Sighting {
    Sighting {
        shown: "\"/p/zlib\"".to_string(),
        pkg_dir: PathBuf::from("/p/zlib"),
        build_script: if script { Some(PathBuf::from("/p/zlib/build.sh")) } else { None },
        patches_dir: if patches { Some(PathBuf::from("/p/zlib/patches")) } else { None },
    }
}

fn refused(seen: Sighting, read: MetaRead) -> String {
    match load_package(seen, read) {
        Ok(_) => panic!("loaded"),
        Err(e) => e,
    }
}

#[test]
fn package_with_script_loads() {
    let pkg = match load_package(sighting(true, true), MetaRead::Fields(meta(vec![]))) {
        Ok(pkg) => pkg,
        Err(e) => panic!("{}", e),
    };
    assert_eq!(pkg.meta.name, "zlib");
    assert_eq!(pkg.meta.version, "1.3");
    assert_eq!(pkg.build_script, PathBuf::from("/p/zlib/build.sh"));
    assert_eq!(pkg.patches_dir, Some(PathBuf::from("/p/zlib/patches")));
    assert_eq!(pkg.pkg_dir, PathBuf::from("/p/zlib"));
}

#[test]
fn package_without_patches_loads() {
    match load_package(sighting(true, false), MetaRead::Fields(meta(vec![]))) {
        Ok(pkg) => assert_eq!(pkg.patches_dir, None),
        Err(e) => panic!("{}", e),
    }
}

#[test]
fn missing_meta_is_refused() {
    assert_eq!(refused(sighting(true, false), MetaRead::Missing), "No meta.toml in \"/p/zlib\"");
    assert_eq!(refused(sighting(false, false), MetaRead::Missing), "No meta.toml in \"/p/zlib\"");
}

#[test]
fn unreadable_meta_is_refused() {
    let read = MetaRead::Unreadable("denied".to_string());
    assert_eq!(refused(sighting(true, false), read), "Failed to read meta.toml: denied");
}

#[test]
fn invalid_meta_is_refused_before_a_missing_script() {
    let read = MetaRead::Invalid("missing field `name`".to_string());
    assert_eq!(
        refused(sighting(false, false), read),
        "Failed to parse meta.toml: missing field `name`"
    );
}

#[test]
fn missing_script_is_refused() {
    let read = MetaRead::Fields(meta(vec![]));
    assert_eq!(refused(sighting(false, true), read), "No build.sh in \"/p/zlib\"");
}

#[test]
fn extra_fields_are_found_by_name() {
    let m = meta(vec![
        ("branch".to_string(), MetaValue::Text("main".to_string())),
        ("build_only".to_string(), MetaValue::Flag(true)),
        ("level".to_string(), MetaValue::Number(-7)),
    ]);
    assert_eq!(m.text("branch"), Some(&"main".to_string()));
    assert_eq!(m.text("build_only"), None);
    assert_eq!(m.text("none"), None);
    assert_eq!(m.flag("build_only"), Some(true));
    assert_eq!(m.flag("branch"), None);
    assert!(m.get("level").is_some());
    assert!(m.get("Level").is_none());
}

#[test]
fn values_are_shown_to_the_script() {
    assert_eq!(MetaValue::Text("a b".to_string()).show(), "a b");
    assert_eq!(MetaValue::Flag(true).show(), "true");
    assert_eq!(MetaValue::Flag(false).show(), "false");
    assert_eq!(MetaValue::Number(i64::MIN).show(), i64::MIN.to_string());
    assert_eq!(MetaValue::Number(0).show(), "0");
    let list = MetaValue::List { items: vec![], shown: "[1, 2]".to_string() };
    assert_eq!(list.show(), "[1, 2]");
    assert_eq!(MetaValue::Other("1.5".to_string()).show(), "1.5");
}

#[test]
fn each_field_is_found_under_its_name() {
    let m = meta(vec![
        ("a".to_string(), MetaValue::Number(1)),
        ("b".to_string(), MetaValue::Number(2)),
        ("A".to_string(), MetaValue::Number(3)),
    ]);
    for (name, value) in &m.extra {
        assert_eq!(m.get(name).map(|v| v.show()), Some(value.show()));
    }
}
