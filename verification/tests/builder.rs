use rocket::builder::{
    build_environment, build_key, build_only_heuristic, build_package, copy_entry, copy_failure,
    emit_package_manifest, git_queries, link_target, locate, manifest_failure, manifest_note,
    stamp_text, step_failure, Base, BindSource, BuildEvent, BuildMove, BuildOptions, CopyStep, EntryKind,
    LocalSource, ManifestStage, Milestone, Place, Step, Survey,
};
use rocket::config::{MetaValue, Package, PackageMeta};
use std::collections::hash_map::DefaultHasher;
use std::hash::{Hash, Hasher};
use std::path::PathBuf;

fn package(name: &str, extra: Vec<(&str, MetaValue)>, patches: bool) -> Package {
    Package {
        meta: PackageMeta {
            name: name.to_string(),
            version: "8.1".to_string(),
            description: "transfers".to_string(),
            licenses: vec![],
            repository: "https://example.org/curl".to_string(),
            dependencies: vec!["zlib".to_string(), "openssl".to_string()],
            extra: extra.into_iter().map(|(k, v)| (k.to_string(), v)).collect(),
        },
        build_script: PathBuf::from("/p/build.sh"),
        patches_dir: if patches { Some(PathBuf::from("/p/patches")) } else { None },
        pkg_dir: PathBuf::from("/p"),
    }
}

fn text(s: &str) -> MetaValue {
    MetaValue::Text(s.to_string())
}

fn options(install: bool, force: bool) -> BuildOptions {
    BuildOptions { install, force, self_hosted: false, local_given: false }
}

fn survey(local: bool, siblings: Vec<Option<&str>>) -> Survey {
    Survey {
        local,
        siblings: siblings.into_iter().map(|s| s.map(String::from)).collect(),
        parallelism: Some(12),
        rocket_output: ".".to_string(),
        dash: true,
        term: Some("vt100".to_string()),
    }
}

fn steps(m: BuildMove) -> (Vec<Step>, Milestone) {
    match m {
        BuildMove::Take { steps, then } => (steps, then),
        _ => panic!("no steps"),
    }
}

fn failure(m: BuildMove) -> String {
    match m {
        BuildMove::Fail { message } => message,
        _ => panic!("no failure"),
    }
}

fn keyed(opts: &BuildOptions, key: &str, stamp: Option<&str>) -> BuildMove {
    let event = BuildEvent::Keyed { key: key.to_string(), stamp: stamp.map(String::from) };
    build_package(&package("curl", vec![], false), opts, &event)
}

fn std_key(pieces: &[&[u8]]) -> String {
    let mut h = DefaultHasher::new();
    for p in pieces {
        p.to_vec().hash(&mut h);
    }
    format!("{:016x}", h.finish())
}

fn bytes(s: &str) -> Option<Vec<u8>> {
    Some(s.as_bytes().to_vec())
}

#[test]
fn key_is_the_hash_of_script_and_meta() {
    assert_eq!(build_key(bytes("make"), bytes("name"), vec![]), std_key(&[b"make", b"name"]));
    assert_eq!(build_key(None, bytes("name"), vec![]), std_key(&[b"", b"name"]));
    assert_eq!(build_key(None, None, vec![]), std_key(&[b"", b""]));
    let long = vec![7u8; 70000];
    assert_eq!(build_key(Some(long.clone()), None, vec![]), std_key(&[&long, b""]));
}

#[test]
fn key_of_a_local_tree_holds_the_answers_of_git() {
    let git = vec![bytes("abc\n"), None, bytes("")];
    assert_eq!(
        build_key(bytes("make"), bytes("name"), git),
        std_key(&[b"make", b"name", b"abc\n", b""])
    );
}

#[test]
fn pieces_of_a_key_are_kept_apart() {
    let one = build_key(bytes("ab"), bytes("c"), vec![]);
    let other = build_key(bytes("a"), bytes("bc"), vec![]);
    let third = build_key(bytes("ab"), bytes("c"), vec![bytes("")]);
    assert!(one != other);
    assert!(one != third);
}

#[test]
fn git_is_asked_three_questions() {
    assert_eq!(
        git_queries(),
        vec![vec!["rev-parse", "HEAD"], vec!["diff", "HEAD"], vec!["status", "--porcelain"]]
    );
}

#[test]
fn build_begins_with_its_directories() {
    let pkg = package("curl", vec![], false);
    let (first, then) = steps(build_package(&pkg, &options(true, false), &BuildEvent::Asked));
    assert_eq!(first, vec![Step::MakeDir(Place::Output), Step::MakeDir(Place::BuildDir)]);
    assert_eq!(then, Milestone::Prepared);
}

#[test]
fn command_line_names_the_source_before_meta() {
    let pkg = package("curl", vec![("local_path", text("../curl"))], false);
    let mut opts = options(false, false);
    match build_package(&pkg, &opts, &BuildEvent::Prepared) {
        BuildMove::FindLocal { source: LocalSource::Declared(s) } => assert_eq!(s, "../curl"),
        _ => panic!("not declared"),
    }
    opts.local_given = true;
    assert!(matches!(
        build_package(&pkg, &opts, &BuildEvent::Prepared),
        BuildMove::FindLocal { source: LocalSource::Given }
    ));
}

#[test]
fn build_without_local_source_goes_on_to_the_key() {
    let pkg = package("curl", vec![("local_path", MetaValue::Flag(true))], false);
    assert!(matches!(
        build_package(&pkg, &options(true, false), &BuildEvent::Prepared),
        BuildMove::ReadKey { git: false, stamp: true }
    ));
    assert!(matches!(
        build_package(&pkg, &options(true, true), &BuildEvent::Located),
        BuildMove::ReadKey { git: true, stamp: false }
    ));
    assert!(matches!(
        build_package(&pkg, &options(false, false), &BuildEvent::Located),
        BuildMove::ReadKey { git: true, stamp: false }
    ));
}

#[test]
fn missing_local_source_fails_the_build() {
    let pkg = package("curl", vec![], false);
    let event =
        BuildEvent::NotLocated { shown: "\"../x\"".to_string(), error: "not found".to_string() };
    assert_eq!(
        failure(build_package(&pkg, &options(true, false), &event)),
        "local source \"../x\": not found"
    );
}

#[test]
fn unchanged_build_is_skipped() {
    let key = build_key(bytes("a"), bytes("b"), vec![]);
    let stamp = format!(" {}\n", key);
    assert!(matches!(keyed(&options(true, false), &key, Some(&key)), BuildMove::Skip));
    assert!(matches!(keyed(&options(true, false), &key, Some(&stamp)), BuildMove::Skip));
}

#[test]
fn other_builds_are_not_skipped() {
    let key = build_key(bytes("a"), bytes("b"), vec![]);
    let old = build_key(bytes("a"), bytes("c"), vec![]);
    assert_eq!(steps(keyed(&options(true, true), &key, Some(&key))).1, Milestone::Staged);
    assert_eq!(steps(keyed(&options(false, false), &key, Some(&key))).1, Milestone::Staged);
    assert_eq!(steps(keyed(&options(true, false), &key, Some(&old))).1, Milestone::Staged);
    assert_eq!(steps(keyed(&options(true, false), &key, None)).1, Milestone::Staged);
}

#[test]
fn staging_clears_old_output_first() {
    let event = BuildEvent::Keyed { key: "k".to_string(), stamp: None };
    let (staged, then) = steps(build_package(
        &package("curl", vec![], true),
        &options(true, false),
        &event,
    ));
    assert_eq!(
        staged,
        vec![
            Step::RemoveTree(Place::OutDir),
            Step::CopyFile(Place::Script, Place::StagedScript),
            Step::CopyTree(Place::Patches, Place::StagedPatches),
        ]
    );
    assert_eq!(then, Milestone::Staged);
    let (staged, _) =
        steps(build_package(&package("curl", vec![], false), &options(true, false), &event));
    assert_eq!(staged.len(), 2);
}

#[test]
fn survey_looks_for_the_siblings_that_are_strings() {
    let items = vec![Some("../A".to_string()), None, Some("../B".to_string())];
    let list = MetaValue::List { items, shown: "[..]".to_string() };
    let pkg = package("curl", vec![("sibling_paths", list)], false);
    match build_package(&pkg, &options(true, false), &BuildEvent::Staged { local: true }) {
        BuildMove::Survey { local_source, siblings } => {
            assert_eq!(local_source, Some("/Transit/Build/curl/src".to_string()));
            assert_eq!(siblings, vec!["../A", "../B"]);
        }
        _ => panic!("no survey"),
    }
    let pkg = package("curl", vec![("sibling_paths", text("../A"))], false);
    match build_package(&pkg, &options(true, false), &BuildEvent::Staged { local: false }) {
        BuildMove::Survey { local_source, siblings } => {
            assert_eq!(local_source, None);
            assert_eq!(siblings, Vec::<String>::new());
        }
        _ => panic!("no survey"),
    }
}

#[test]
fn build_script_runs_with_host_tools_by_default() {
    let extra = vec![("branch", text("main")), ("stra\u{df}e", MetaValue::Number(3))];
    let pkg = package("curl", extra, false);
    let event = BuildEvent::Surveyed { survey: survey(true, vec![Some("A"), None, Some("C")]) };
    match build_package(&pkg, &options(true, false), &event) {
        BuildMove::Launch { steps, plan, sources } => {
            assert_eq!(steps, vec![]);
            assert!(plan.host_links);
            assert!(!plan.in_place);
            assert_eq!((plan.uid, plan.gid), (0, 0));
            assert_eq!(plan.argv.len(), 4);
            assert_eq!(plan.argv[0..3], ["/bin/sh", "-e", "-c"]);
            assert_eq!(
                plan.argv[3],
                "cd /Transit/Build/curl && \
                 mkdir -p /Transit/Build/curl/_out && \
                 source ./build.sh && \
                 if type configure >/dev/null 2>&1; then echo '>>> configure' && configure; fi && \
                 if type build >/dev/null 2>&1; then echo '>>> build' && build; fi && \
                 if type install >/dev/null 2>&1; then echo '>>> install' && install; fi"
            );
            assert_eq!(
                plan.environment,
                vec![
                    "HOME=/Vault/Cache/builder",
                    "TERM=vt100",
                    "PATH=/Core/Bin:/Construct/Bin:/usr/bin:/bin",
                    "CONFIG_SITE=/Transit/Ephemeral/config.site",
                    "NAME=curl",
                    "VERSION=8.1",
                    "REPOSITORY=https://example.org/curl",
                    "BRANCH=main",
                    "OUTPUT=/Transit/Build/curl/_out",
                    "SRC=/Transit/Build/curl",
                    "PATCHES=/Transit/Build/curl/patches",
                    "SYSROOT=/",
                    "JOBS=12",
                    "ROCKET_OUTPUT=.",
                    "LOCAL_SRC=/Transit/Build/curl/src",
                    "STRASSE=3",
                ]
            );
            assert_eq!(
                sources,
                vec![BindSource::Local, BindSource::Sibling(0), BindSource::Sibling(2)]
            );
            assert_eq!(
                plan.binds,
                vec!["Transit/Build/curl/src", "Transit/Build/curl/A", "Transit/Build/curl/C"]
            );
        }
        _ => panic!("no launch"),
    }
}

#[test]
fn self_hosted_build_uses_native_shells() {
    let pkg = package("curl", vec![], false);
    let mut opts = options(true, false);
    opts.self_hosted = true;
    let mut seen = survey(false, vec![]);
    seen.dash = false;
    seen.parallelism = None;
    match build_package(&pkg, &opts, &BuildEvent::Surveyed { survey: seen }) {
        BuildMove::Launch { steps, plan, sources } => {
            assert_eq!(
                steps,
                vec![
                    Step::MakeDir(Place::BinDir),
                    Step::RemoveFile(Place::BinShell),
                    Step::LinkShell { dash: false },
                ]
            );
            assert!(!plan.host_links);
            assert!(!plan.in_place);
            assert_eq!(plan.argv[0], "/Core/Bin/bash");
            assert!(plan.environment.contains(&"PATH=/Core/Bin:/Construct/Bin".to_string()));
            assert!(plan.environment.contains(&"JOBS=1".to_string()));
            assert!(plan.environment.iter().all(|v| !v.starts_with("LOCAL_SRC=")));
            assert_eq!(sources, vec![]);
            assert_eq!(plan.binds, Vec::<String>::new());
        }
        _ => panic!("no launch"),
    }
    assert_eq!(link_target(true), "/Core/Bin/dash");
    assert_eq!(link_target(false), "/Core/Bin/sh");
}

#[test]
fn extra_fields_reach_the_script() {
    let pkg = package("curl", vec![("jobs", MetaValue::Number(2)), ("x", text("y"))], false);
    let event = BuildEvent::Surveyed { survey: survey(false, vec![]) };
    match build_package(&pkg, &options(true, false), &event) {
        BuildMove::Launch { plan, .. } => {
            let env = plan.environment;
            assert!(env.contains(&"JOBS=2".to_string()));
            assert!(!env.contains(&"JOBS=12".to_string()));
            assert!(env.contains(&"X=y".to_string()));
        }
        _ => panic!("no launch"),
    }
}

#[test]
fn failed_script_fails_the_build() {
    let pkg = package("curl", vec![], false);
    let opts = options(true, false);
    assert!(matches!(
        build_package(&pkg, &opts, &BuildEvent::Ran { code: 0 }),
        BuildMove::LookForOutput
    ));
    assert_eq!(
        failure(build_package(&pkg, &opts, &BuildEvent::Ran { code: 127 })),
        "Build script exited with code 127"
    );
    assert_eq!(
        failure(build_package(&pkg, &opts, &BuildEvent::Ran { code: -1 })),
        "Build script exited with code -1"
    );
}

#[test]
fn output_is_published_and_recorded_when_installed() {
    let pkg = package("curl", vec![], false);
    let event = BuildEvent::Looked { output: true, shown: "\"x\"".to_string() };
    let (taken, then) = steps(build_package(&pkg, &options(true, false), &event));
    assert_eq!(
        taken,
        vec![
            Step::RemoveTree(Place::PackageOutput),
            Step::MakeDir(Place::PackageOutput),
            Step::CopyTree(Place::OutDir, Place::PackageOutput),
            Step::ReportOutput,
            Step::WriteManifest,
            Step::CopyTree(Place::OutDir, Place::Sysroot),
            Step::ReportInstall,
            Step::WriteStamp,
        ]
    );
    assert_eq!(then, Milestone::Published);
    let (taken, _) = steps(build_package(&pkg, &options(false, false), &event));
    assert_eq!(taken.len(), 5);
    assert!(!taken.contains(&Step::WriteStamp));
    assert!(matches!(
        build_package(&pkg, &options(true, false), &BuildEvent::Published),
        BuildMove::Finish
    ));
}

#[test]
fn nothing_to_install_is_a_failure() {
    let pkg = package("curl", vec![], false);
    let event = BuildEvent::Looked { output: false, shown: "\"/r/_out\"".to_string() };
    assert_eq!(
        failure(build_package(&pkg, &options(true, false), &event)),
        "nothing to install: curl produced no output at \"/r/_out\""
    );
    assert!(matches!(
        build_package(&pkg, &options(false, false), &event),
        BuildMove::Finish
    ));
}

#[test]
fn places_are_found_in_sysroot_and_output() {
    let at = |place: Place| {
        let (base, parts) = locate(place, "curl");
        (base, parts.join("/"))
    };
    assert_eq!(at(Place::Output), (Base::Output, "".to_string()));
    assert_eq!(at(Place::BuildDir), (Base::Sysroot, "Transit/Build/curl".to_string()));
    assert_eq!(at(Place::OutDir), (Base::Sysroot, "Transit/Build/curl/_out".to_string()));
    assert_eq!(at(Place::Script), (Base::Script, "".to_string()));
    assert_eq!(at(Place::StagedScript), (Base::Sysroot, "Transit/Build/curl/build.sh".to_string()));
    assert_eq!(at(Place::Patches), (Base::Patches, "".to_string()));
    assert_eq!(at(Place::StagedPatches), (Base::Sysroot, "Transit/Build/curl/patches".to_string()));
    assert_eq!(at(Place::PackageOutput), (Base::Output, "curl".to_string()));
    assert_eq!(at(Place::Sysroot), (Base::Sysroot, "".to_string()));
    assert_eq!(at(Place::BinDir), (Base::Sysroot, "bin".to_string()));
    assert_eq!(at(Place::BinShell), (Base::Sysroot, "bin/sh".to_string()));
    assert_eq!(at(Place::Stamp), (Base::Sysroot, "Transit/Build/curl/.rocket-stamp".to_string()));
}

#[test]
fn failed_steps_are_told_apart() {
    let fail = |step: Step| step_failure(step, "E");
    let s = |x: &str| Some(x.to_string());
    assert_eq!(fail(Step::MakeDir(Place::Output)), s("mkdir output: E"));
    assert_eq!(fail(Step::MakeDir(Place::BuildDir)), s("mkdir build dir: E"));
    assert_eq!(fail(Step::MakeDir(Place::PackageOutput)), s("mkdir pkg output: E"));
    assert_eq!(fail(Step::CopyFile(Place::Script, Place::StagedScript)), s("copy build.sh: E"));
    assert_eq!(fail(Step::CopyTree(Place::OutDir, Place::Sysroot)), s("E"));
    assert_eq!(fail(Step::WriteManifest), s("E"));
    assert_eq!(fail(Step::MakeDir(Place::BinDir)), None);
    assert_eq!(fail(Step::RemoveTree(Place::OutDir)), None);
    assert_eq!(fail(Step::RemoveFile(Place::BinShell)), None);
    assert_eq!(fail(Step::LinkShell { dash: true }), None);
    assert_eq!(fail(Step::WriteStamp), None);
}

#[test]
fn toolchains_and_headers_are_build_only() {
    for name in [
        "llvm", "llvm21", "compiler-rt", "cmake-native", "kernel-headers", "glibc-headers", "rust",
        "lmtest", "make-native", "-native",
    ] {
        assert!(build_only_heuristic(name), "{}", name);
    }
    for name in ["llvm-runtimes", "curl", "", "native", "rust2", "Llvm", "x-native-y"] {
        assert!(!build_only_heuristic(name), "{}", name);
    }
}

#[test]
fn manifest_says_what_meta_says() {
    let pkg = package("llvm", vec![("build_only", MetaValue::Flag(false))], false);
    let m = emit_package_manifest(&pkg.meta);
    assert_eq!(m.name, "llvm");
    assert_eq!(m.version, "8.1");
    assert_eq!(m.description, "transfers");
    assert_eq!(m.dependencies, vec!["zlib", "openssl"]);
    assert!(!m.build_only);
    assert!(!m.is_meta);
}

#[test]
fn manifest_falls_back_to_the_name() {
    let pkg = package("llvm", vec![("build_only", text("no"))], false);
    assert!(emit_package_manifest(&pkg.meta).build_only);
    let pkg = package("base-image", vec![], false);
    assert!(emit_package_manifest(&pkg.meta).is_meta);
    let pkg = package("base-image", vec![("meta", MetaValue::Flag(false))], false);
    assert!(!emit_package_manifest(&pkg.meta).is_meta);
    let pkg = package("curl", vec![("meta", MetaValue::Flag(true))], false);
    assert!(emit_package_manifest(&pkg.meta).is_meta);
    assert!(!emit_package_manifest(&pkg.meta).build_only);
}

#[test]
fn manifest_is_announced() {
    assert_eq!(manifest_note(12, true), "  Manifest: 12 files (build-only)");
    assert_eq!(manifest_note(0, false), "  Manifest: 0 files");
}

#[test]
fn links_stay_links_and_modes_are_kept() {
    assert_eq!(copy_entry(EntryKind::Directory), vec![CopyStep::Descend]);
    assert_eq!(
        copy_entry(EntryKind::Link),
        vec![CopyStep::ReadLink, CopyStep::ClearWay, CopyStep::MakeLink]
    );
    assert_eq!(
        copy_entry(EntryKind::File),
        vec![CopyStep::ClearWay, CopyStep::CopyContent, CopyStep::CopyMode]
    );
}

#[test]
fn failed_copies_are_told_apart() {
    let fail = |step: CopyStep| copy_failure(step, "\"s\"", "\"d\"", "\"l\"", "E");
    let s = |x: &str| Some(x.to_string());
    assert_eq!(fail(CopyStep::MakeTarget), s("mkdir \"d\": E"));
    assert_eq!(fail(CopyStep::OpenSource), s("readdir \"s\": E"));
    assert_eq!(fail(CopyStep::ReadEntry), s("entry: E"));
    assert_eq!(fail(CopyStep::ReadKind), s("filetype: E"));
    assert_eq!(fail(CopyStep::Descend), s("E"));
    assert_eq!(fail(CopyStep::ReadLink), s("readlink \"s\": E"));
    assert_eq!(fail(CopyStep::ClearWay), None);
    assert_eq!(fail(CopyStep::MakeLink), s("symlink \"d\" -> \"l\": E"));
    assert_eq!(fail(CopyStep::CopyContent), s("copy \"s\": E"));
    assert_eq!(fail(CopyStep::CopyMode), None);
}

#[test]
fn fixed_variables_reach_the_script() {
    let pkg = package("curl", vec![("version", text("9")), ("mode", text("fast"))], false);
    let event = BuildEvent::Surveyed { survey: survey(true, vec![]) };
    let mut opts = options(true, false);
    opts.self_hosted = true;
    let env = match build_package(&pkg, &opts, &event) {
        BuildMove::Launch { plan, .. } => plan.environment,
        _ => panic!("no launch"),
    };
    for expected in [
        "NAME=curl",
        "REPOSITORY=https://example.org/curl",
        "OUTPUT=/Transit/Build/curl/_out",
        "SRC=/Transit/Build/curl",
        "PATCHES=/Transit/Build/curl/patches",
        "SYSROOT=/",
        "JOBS=12",
        "ROCKET_OUTPUT=.",
        "LOCAL_SRC=/Transit/Build/curl/src",
        "VERSION=9",
        "MODE=fast",
        "PATH=/Core/Bin:/Construct/Bin",
    ] {
        assert!(env.contains(&expected.to_string()), "{}", expected);
    }
    assert!(!env.contains(&"VERSION=8.1".to_string()));
}

#[test]
fn extra_field_can_replace_the_path() {
    let pkg = package("curl", vec![("path", text("/x"))], false);
    let event = BuildEvent::Surveyed { survey: survey(false, vec![]) };
    match build_package(&pkg, &options(true, false), &event) {
        BuildMove::Launch { plan, .. } => {
            assert_eq!(plan.environment[2], "PATH=/x");
        }
        _ => panic!("no launch"),
    }
}

#[test]
fn whole_build_clears_publishes_and_records() {
    let pkg = package("curl", vec![], true);
    let mut opts = options(true, false);
    opts.self_hosted = true;
    let mut taken: Vec<Step> = vec![];
    let mut event = BuildEvent::Asked;
    loop {
        event = match build_package(&pkg, &opts, &event) {
            BuildMove::Take { steps, then } => {
                taken.extend(steps);
                match then {
                    Milestone::Prepared => BuildEvent::Prepared,
                    Milestone::Staged => BuildEvent::Staged { local: false },
                    Milestone::Published => BuildEvent::Published,
                }
            }
            BuildMove::ReadKey { git, stamp } => {
                assert!(!git && stamp);
                BuildEvent::Keyed { key: "k".to_string(), stamp: None }
            }
            BuildMove::Survey { .. } => BuildEvent::Surveyed { survey: survey(false, vec![]) },
            BuildMove::Launch { steps, .. } => {
                taken.extend(steps);
                BuildEvent::Ran { code: 0 }
            }
            BuildMove::LookForOutput => {
                BuildEvent::Looked { output: true, shown: String::new() }
            }
            BuildMove::Finish => break,
            _ => panic!("another move"),
        };
    }
    assert_eq!(taken.len(), 16);
    let at = |step: Step| taken.iter().position(|s| *s == step).unwrap();
    let cleared = at(Step::RemoveTree(Place::OutDir));
    assert!(cleared < at(Step::CopyTree(Place::OutDir, Place::PackageOutput)));
    assert!(cleared < at(Step::CopyTree(Place::OutDir, Place::Sysroot)));
    assert_eq!(at(Step::WriteStamp), 15);
}

#[test]
fn branch_is_there_without_a_field() {
    let pkg = package("curl", vec![], false);
    let variables = build_environment(&pkg.meta, &survey(false, vec![]));
    assert!(variables.contains(&("BRANCH".to_string(), "".to_string())));
    let event = BuildEvent::Surveyed { survey: survey(false, vec![]) };
    match build_package(&pkg, &options(true, false), &event) {
        BuildMove::Launch { plan, .. } => {
            for name in ["SYSROOT", "OUTPUT", "SRC", "VERSION", "REPOSITORY", "BRANCH", "JOBS"] {
                let start = format!("{}=", name);
                assert_eq!(plan.environment.iter().filter(|v| v.starts_with(&start)).count(), 1);
            }
            assert!(plan.environment.contains(&"BRANCH=".to_string()));
        }
        _ => panic!("no launch"),
    }
}

#[test]
fn failed_manifests_are_told_apart() {
    assert_eq!(manifest_failure(ManifestStage::Scan, "E"), "scan package manifest: E");
    assert_eq!(manifest_failure(ManifestStage::Write, "E"), "write package.json: E");
}

#[test]
fn copies_can_be_repeated() {
    for (kind, made) in
        [(EntryKind::Link, CopyStep::MakeLink), (EntryKind::File, CopyStep::CopyContent)]
    {
        let steps = copy_entry(kind);
        let at = |step: CopyStep| steps.iter().position(|s| *s == step).unwrap();
        assert!(at(CopyStep::ClearWay) < at(made));
        assert_eq!(copy_failure(CopyStep::ClearWay, "", "", "", "nothing there"), None);
    }
}

#[test]
fn second_build_finds_the_record_of_the_first() {
    let first = build_key(bytes("make"), bytes("name"), vec![bytes("abc\n")]);
    let second = build_key(bytes("make"), bytes("name"), vec![bytes("abc\n")]);
    let record = stamp_text(&first);
    assert_eq!(record, first);
    assert!(matches!(keyed(&options(true, false), &second, Some(&record)), BuildMove::Skip));
    let changed = build_key(bytes("make"), bytes("name"), vec![bytes("def\n")]);
    assert_eq!(
        steps(keyed(&options(true, false), &changed, Some(&record))).1,
        Milestone::Staged
    );
}
