//! What holds of builds: what their keys are made of, where their source comes from, when
//! they are skipped, what their scripts get to see and where their output goes.

use std::collections::hash_map::DefaultHasher;
use vstd::bytes::spec_u64_to_le_bytes;
use vstd::prelude::*;
use vstd::std_specs::hash::DefaultHasherAdditionalSpecFns;

use crate::builder::bind_texts;
use crate::builder::build_command;
use crate::builder::build_dir_inside;
use crate::builder::build_script_call;
use crate::builder::build_variables;
use crate::builder::can_skip;
use crate::builder::complaint;
use crate::builder::content_key;
use crate::builder::copy_complaint;
use crate::builder::decided;
use crate::builder::declared_siblings;
use crate::builder::describes;
use crate::builder::entry_steps;
use crate::builder::extra_variables;
use crate::builder::framed;
use crate::builder::git_questions;
use crate::builder::key_pieces;
use crate::builder::law_key_unambiguous;
use crate::builder::manifest_complaint;
use crate::builder::manifest_line;
use crate::builder::opt_text;
use crate::builder::place_path;
use crate::builder::planned_binds;
use crate::builder::present;
use crate::builder::record;
use crate::builder::shell_target;
use crate::builder::sibling_binds;
use crate::builder::source_of;
use crate::builder::strings_in;
use crate::builder::Base;
use crate::builder::BindSource;
use crate::builder::BuildEvent;
use crate::builder::BuildMove;
use crate::builder::BuildOptions;
use crate::builder::CopyStep;
use crate::builder::EntryKind;
use crate::builder::LocalSource;
use crate::builder::ManifestRequest;
use crate::builder::ManifestStage;
use crate::builder::Milestone;
use crate::builder::Place;
use crate::builder::Step;
use crate::builder::Survey;
use crate::config::field;
use crate::config::MetaValue;
use crate::config::Package;
use crate::config::PackageMeta;
use crate::numbers::decimal;
use crate::numbers::hex16;
use crate::sandbox_laws::law_command_sees_the_defaults;
use crate::sandbox_laws::law_command_sees_what_was_set;
use crate::sandbox_laws::promised_defaults;
use crate::text::begins_with;
use crate::text::finishes_with;
use crate::text::joined;
use crate::text::texts;
use crate::text::trimmed;
use crate::text::uppercase;
use crate::text::white_space;
use crate::text_laws::law_trimmed;
use crate::text_laws::law_white_space;

verus! {

/// Answers that were all given, as git is found to have given them.
pub open spec fn given(answers: Seq<Vec<u8>>) -> Seq<Option<Vec<u8>>> {
    Seq::new(answers.len(), |i: int| Some(answers[i]))
}

/// What was given stands there as it is.
proof fn given_is_present(answers: Seq<Vec<u8>>)
    ensures
        present(given(answers)).len() == answers.len(),
        forall|i: int|
            0 <= i < answers.len() ==> #[trigger] present(given(answers))[i] == answers[i]@,
    decreases answers.len(),
{
    if answers.len() > 0 {
        let init = answers.drop_last();
        given_is_present(init);
        assert(given(answers).drop_last() =~= given(init));
        assert(given(answers).last() == Some(answers.last()));
        assert forall|i: int| 0 <= i < answers.len() implies #[trigger] present(given(answers))[i]
            == answers[i]@ by {
            if i < init.len() {
                assert(init[i] == answers[i]);
            }
        }
    }
}

/// What a key is made of is the script, the `meta.toml` and every answer of git, each
/// whole and in this order.
pub proof fn law_pieces_are_the_inputs(script: Vec<u8>, meta: Vec<u8>, answers: Seq<Vec<u8>>)
    ensures
        key_pieces(Some(script), Some(meta), given(answers)).len() == 2 + answers.len(),
        key_pieces(Some(script), Some(meta), given(answers))[0] == script@,
        key_pieces(Some(script), Some(meta), given(answers))[1] == meta@,
        forall|i: int|
            #![trigger answers[i]]
            0 <= i < answers.len() ==> key_pieces(Some(script), Some(meta), given(answers))[2 + i]
                == answers[i]@,
{
    given_is_present(answers);
    let pieces = key_pieces(Some(script), Some(meta), given(answers));
    assert forall|i: int| #![trigger answers[i]] 0 <= i < answers.len() implies pieces[2 + i]
        == answers[i]@ by {
        assert(pieces[2 + i] == present(given(answers))[i]);
    }
}

/// What could not be read counts as empty, and an answer that git did not give counts as
/// not asked for.
pub proof fn law_missing_inputs_of_a_key(
    script: Option<Vec<u8>>,
    meta: Option<Vec<u8>>,
    before: Seq<Option<Vec<u8>>>,
    after: Seq<Option<Vec<u8>>>,
    empty: Vec<u8>,
)
    requires
        empty@.len() == 0,
    ensures
        content_key(None, meta, before) == content_key(Some(empty), meta, before),
        content_key(script, None, before) == content_key(script, Some(empty), before),
        content_key(script, meta, before.push(None) + after) == content_key(
            script,
            meta,
            before + after,
        ),
{
    assert(empty@ =~= Seq::empty());
    present_in_parts(before.push(None), after);
    present_in_parts(before, after);
    assert(before.push(None).drop_last() =~= before);
}

/// What is there of two rows is what is there of the first and then of the second.
proof fn present_in_parts(a: Seq<Option<Vec<u8>>>, b: Seq<Option<Vec<u8>>>)
    ensures
        present(a + b) == present(a) + present(b),
    decreases b.len(),
{
    if b.len() == 0 {
        assert(a + b =~= a);
        assert(present(a) + present(b) =~= present(a));
    } else {
        present_in_parts(a, b.drop_last());
        assert((a + b).drop_last() =~= a + b.drop_last());
        assert((a + b).last() == b.last());
        match b.last() {
            Some(x) => {
                assert((present(a) + present(b.drop_last())).push(x@) =~= present(a) + present(
                    b.drop_last(),
                ).push(x@));
            },
            None => {},
        }
    }
}

/// Each piece is fed after its length.
proof fn framed_at(pieces: Seq<Seq<u8>>, i: int)
    requires
        0 <= i < pieces.len(),
    ensures
        framed(pieces).len() == 2 * pieces.len(),
        framed(pieces)[2 * i] == spec_u64_to_le_bytes(pieces[i].len() as u64),
        framed(pieces)[2 * i + 1] == pieces[i],
    decreases pieces.len(),
{
    let init = pieces.drop_last();
    if init.len() == 0 {
        assert(framed(init) =~= Seq::empty());
    } else {
        framed_at(init, if i < init.len() {
            i
        } else {
            0
        });
    }
    if i < init.len() {
        assert(init[i] == pieces[i]);
    }
}

/// A key is sixteen hexadecimal digits of the hash of all inputs: whoever feeds the length
/// and the bytes of the script, of the `meta.toml` and of each answer of git to the hasher
/// gets the same key.
pub proof fn law_key_hashes_every_input(
    script: Vec<u8>,
    meta: Vec<u8>,
    answers: Seq<Vec<u8>>,
    fed: Seq<Seq<u8>>,
)
    requires
        fed.len() == 4 + 2 * answers.len(),
        fed[0] == spec_u64_to_le_bytes(script@.len() as u64),
        fed[1] == script@,
        fed[2] == spec_u64_to_le_bytes(meta@.len() as u64),
        fed[3] == meta@,
        forall|i: int|
            #![trigger answers[i]]
            0 <= i < answers.len() ==> fed[4 + 2 * i] == spec_u64_to_le_bytes(
                answers[i]@.len() as u64,
            ) && fed[5 + 2 * i] == answers[i]@,
    ensures
        content_key(Some(script), Some(meta), given(answers)) == hex16(
            DefaultHasher::spec_finish(fed),
        ),
{
    law_pieces_are_the_inputs(script, meta, answers);
    let pieces = key_pieces(Some(script), Some(meta), given(answers));
    assert(framed(pieces).len() == fed.len()) by {
        framed_at(pieces, 0);
    }
    assert forall|k: int| 0 <= k < fed.len() implies framed(pieces)[k] == fed[k] by {
        let i = k / 2;
        framed_at(pieces, i);
        assert(k == 2 * i || k == 2 * i + 1);
        if i >= 2 {
            let j = i - 2;
            assert(answers[j]@ == pieces[2 + j]);
            assert(fed[4 + 2 * j] == spec_u64_to_le_bytes(answers[j]@.len() as u64));
        }
    }
    assert(framed(pieces) =~= fed);
}

/// An edit is noticed: builds whose scripts, `meta.toml` or answers of git differ anywhere
/// feed different bytes to the hasher.
pub proof fn law_edit_changes_what_is_hashed(
    script: Vec<u8>,
    meta: Vec<u8>,
    answers: Seq<Vec<u8>>,
    other_script: Vec<u8>,
    other_meta: Vec<u8>,
    other_answers: Seq<Vec<u8>>,
)
    requires
        script@.len() <= u64::MAX && meta@.len() <= u64::MAX && other_script@.len() <= u64::MAX
            && other_meta@.len() <= u64::MAX,
        forall|i: int| 0 <= i < answers.len() ==> (#[trigger] answers[i])@.len() <= u64::MAX,
        forall|i: int|
            0 <= i < other_answers.len() ==> (#[trigger] other_answers[i])@.len() <= u64::MAX,
        script@ != other_script@ || meta@ != other_meta@ || answers.len() != other_answers.len() || (
        exists|i: int| 0 <= i < answers.len() && (#[trigger] answers[i])@ != other_answers[i]@),
    ensures
        framed(key_pieces(Some(script), Some(meta), given(answers))).flatten() != framed(
            key_pieces(Some(other_script), Some(other_meta), given(other_answers)),
        ).flatten(),
{
    law_pieces_are_the_inputs(script, meta, answers);
    law_pieces_are_the_inputs(other_script, other_meta, other_answers);
    let a = key_pieces(Some(script), Some(meta), given(answers));
    let b = key_pieces(Some(other_script), Some(other_meta), given(other_answers));
    assert forall|i: int| 0 <= i < a.len() implies (#[trigger] a[i]).len() <= u64::MAX by {
        if i >= 2 {
            assert(answers[i - 2]@.len() <= u64::MAX);
            assert(a[2 + (i - 2)] == answers[i - 2]@);
        }
    }
    assert forall|i: int| 0 <= i < b.len() implies (#[trigger] b[i]).len() <= u64::MAX by {
        if i >= 2 {
            assert(other_answers[i - 2]@.len() <= u64::MAX);
            assert(b[2 + (i - 2)] == other_answers[i - 2]@);
        }
    }
    if framed(a).flatten() == framed(b).flatten() {
        law_key_unambiguous(a, b);
        if exists|i: int| 0 <= i < answers.len() && (#[trigger] answers[i])@ != other_answers[i]@ {
            let i = choose|i: int|
                0 <= i < answers.len() && (#[trigger] answers[i])@ != other_answers[i]@;
            assert(a[2 + i] == answers[i]@);
            assert(b[2 + i] == other_answers[i]@);
        }
    }
}

/// A local tree that is named on the command line is what is looked for, whatever the
/// fields of the package say; else it is the one that the package declares; and a package
/// that declares none is built from upstream.
pub proof fn law_local_tree_is_looked_for(pkg: Package, opts: BuildOptions, r: BuildMove)
    requires
        decided(pkg, opts, BuildEvent::Prepared, r),
    ensures
        opts.local_given ==> r == (BuildMove::FindLocal { source: LocalSource::Given }),
        !opts.local_given ==> match field(pkg.meta.extra@, "local_path"@) {
            Some(MetaValue::Text(path)) => r == (BuildMove::FindLocal {
                source: LocalSource::Declared(path),
            }),
            _ => r matches BuildMove::ReadKey { git, .. } && !git,
        },
{
}

/// A local tree that is not found ends the build, with its path in the message; one that
/// is found is asked about.
pub proof fn law_local_tree_must_be_there(
    pkg: Package,
    opts: BuildOptions,
    shown: String,
    error: String,
    lost: BuildMove,
    found: BuildMove,
)
    requires
        decided(pkg, opts, BuildEvent::NotLocated { shown, error }, lost),
        decided(pkg, opts, BuildEvent::Located, found),
    ensures
        lost matches BuildMove::Fail { message } && message@ == "local source "@ + shown@ + ": "@
            + error@,
        found matches BuildMove::ReadKey { git, stamp } && git && stamp == (opts.install
            && !opts.force),
{
}

/// A build is skipped only if it would be installed, is not forced, and the record of the
/// last installed build is its key but for white space around it; and then it is. Else the
/// script is staged.
pub proof fn law_when_a_build_is_skipped(
    pkg: Package,
    opts: BuildOptions,
    key: String,
    stamp: Option<String>,
    r: BuildMove,
)
    requires
        decided(pkg, opts, BuildEvent::Keyed { key, stamp }, r),
    ensures
        r is Skip <==> opts.install && !opts.force && stamp is Some && trimmed(
            stamp->0@,
            white_space(),
        ) == key@,
        !(r is Skip) ==> (r matches BuildMove::Take { steps, then } && then == Milestone::Staged
            && steps@.contains(Step::CopyFile(Place::Script, Place::StagedScript)) && steps@[0]
            == Step::RemoveTree(Place::OutDir) && (steps@.contains(
            Step::CopyTree(Place::Patches, Place::StagedPatches),
        ) <==> pkg.patches_dir is Some) && steps@.len() == (if pkg.patches_dir is Some {
            3nat
        } else {
            2
        })),
{
    if let BuildMove::Take { steps, then } = r {
        assert(steps@[1] == Step::CopyFile(Place::Script, Place::StagedScript));
        if pkg.patches_dir is Some {
            assert(steps@[2] == Step::CopyTree(Place::Patches, Place::StagedPatches));
        }
    }
}

/// The record is looked for whenever a build may be skipped, with a local tree or without.
pub proof fn law_record_is_looked_for(pkg: Package, opts: BuildOptions, event: BuildEvent, r: BuildMove)
    requires
        decided(pkg, opts, event, r),
        r is ReadKey,
    ensures
        r->stamp <==> opts.install && !opts.force,
        r->git <==> event is Located,
{
}

/// A script that fails ends the build, with its code in the message; nothing is published
/// and nothing is recorded. Only code zero is success.
pub proof fn law_failed_script_fails_the_build(
    pkg: Package,
    opts: BuildOptions,
    code: i32,
    r: BuildMove,
)
    requires
        decided(pkg, opts, BuildEvent::Ran { code }, r),
    ensures
        code == 0 <==> r is LookForOutput,
        code > 0 ==> (r matches BuildMove::Fail { message } && message@
            == "Build script exited with code "@ + decimal(code as nat)),
        code < 0 ==> (r matches BuildMove::Fail { message } && message@
            == "Build script exited with code "@ + (seq!['-'] + decimal((-code) as nat))),
{
}

/// Output is published whenever there is some. Without output a build that is to be
/// installed has failed, and any other is done.
pub proof fn law_what_becomes_of_output(
    pkg: Package,
    opts: BuildOptions,
    output: bool,
    shown: String,
    r: BuildMove,
)
    requires
        decided(pkg, opts, BuildEvent::Looked { output, shown }, r),
    ensures
        output ==> (r matches BuildMove::Take { then, .. } && then == Milestone::Published),
        !output && opts.install ==> (r matches BuildMove::Fail { message } && message@
            == "nothing to install: "@ + pkg.meta.name@ + " produced no output at "@ + shown@),
        !output && !opts.install ==> r is Finish,
{
}

/// The artifacts go to the package's own output directory, installed or not: it is emptied
/// and made, what the script left is copied there, and then the manifest is written. Only
/// with an installation anything else is copied, and that is what the script left, into
/// the sysroot, before the record is written. No other place is removed or copied to.
pub proof fn law_output_goes_to_the_package(
    pkg: Package,
    opts: BuildOptions,
    shown: String,
    r: BuildMove,
)
    requires
        decided(pkg, opts, BuildEvent::Looked { output: true, shown }, r),
    ensures
        r matches BuildMove::Take { steps, .. } && {
            &&& steps@.len() >= 5
            &&& steps@[0] == Step::RemoveTree(Place::PackageOutput)
            &&& steps@[1] == Step::MakeDir(Place::PackageOutput)
            &&& steps@[2] == Step::CopyTree(Place::OutDir, Place::PackageOutput)
            &&& steps@.contains(Step::WriteManifest)
            &&& !steps@.take(3).contains(Step::WriteManifest)
            &&& opts.install <==> steps@.contains(Step::CopyTree(Place::OutDir, Place::Sysroot))
            &&& opts.install <==> steps@.contains(Step::WriteStamp)
            &&& opts.install ==> steps@.last() == Step::WriteStamp
            &&& steps@.contains(Step::ReportOutput)
            &&& opts.install <==> steps@.contains(Step::ReportInstall)
            &&& forall|i: int| #![trigger steps@[i]]
                0 <= i < steps@.len() ==> match steps@[i] {
                    Step::CopyTree(from, to) => from == Place::OutDir && (i == 2 || (opts.install
                        && to == Place::Sysroot)),
                    Step::CopyFile(_, _) => false,
                    Step::RemoveTree(_) => i == 0,
                    Step::RemoveFile(_) => false,
                    Step::MakeDir(_) => i == 1,
                    _ => true,
                }
        },
{
    if let BuildMove::Take { steps, .. } = r {
        assert(steps@[3] == Step::ReportOutput);
        assert(steps@[4] == Step::WriteManifest);
        if opts.install {
            assert(steps@[5] == Step::CopyTree(Place::OutDir, Place::Sysroot));
            assert(steps@[6] == Step::ReportInstall);
            assert(steps@[7] == Step::WriteStamp);
        }
    }
}

/// The first thing a build does is to make the output directory and its build directory.
pub proof fn law_directories_are_made_first(pkg: Package, opts: BuildOptions, r: BuildMove)
    requires
        decided(pkg, opts, BuildEvent::Asked, r),
    ensures
        r matches BuildMove::Take { steps, then } && then == Milestone::Prepared && steps@.contains(
            Step::MakeDir(Place::Output),
        ) && steps@.contains(Step::MakeDir(Place::BuildDir)) && steps@.len() == 2,
{
    if let BuildMove::Take { steps, .. } = r {
        assert(steps@[0] == Step::MakeDir(Place::Output));
        assert(steps@[1] == Step::MakeDir(Place::BuildDir));
    }
}

/// The build script runs as root inside, in a child, and with the tools of the host unless
/// the build is self-hosted. A self-hosted build runs it under the native bash, and has the
/// shell of the sysroot linked first, after its directory was made and what was there
/// removed; any other build touches nothing before it.
pub proof fn law_how_the_script_runs(pkg: Package, opts: BuildOptions, survey: Survey, r: BuildMove)
    requires
        decided(pkg, opts, BuildEvent::Surveyed { survey }, r),
    ensures
        r matches BuildMove::Launch { steps, plan, sources } && {
            &&& !plan.in_place
            &&& plan.uid == 0 && plan.gid == 0
            &&& plan.host_links == !opts.self_hosted
            &&& plan.argv@.len() == 4
            &&& plan.argv@[0]@ == (if opts.self_hosted {
                "/Core/Bin/bash"@
            } else {
                "/bin/sh"@
            })
            &&& plan.argv@[1]@ == "-e"@
            &&& plan.argv@[2]@ == "-c"@
            &&& !opts.self_hosted ==> steps@.len() == 0
            &&& opts.self_hosted ==> steps@.len() == 3 && steps@[0] == Step::MakeDir(Place::BinDir)
                && steps@[1] == Step::RemoveFile(Place::BinShell) && steps@[2] == (
            Step::LinkShell { dash: survey.dash })
        },
{
    if let BuildMove::Launch { steps, plan, sources } = r {
        assert(texts(plan.argv@).len() == plan.argv@.len());
        assert(texts(plan.argv@)[0] == plan.argv@[0]@);
        assert(texts(plan.argv@)[1] == plan.argv@[1]@);
        assert(texts(plan.argv@)[2] == plan.argv@[2]@);
    }
}

/// The shell of a self-hosted sysroot is dash where that is there, and else the native one;
/// never one of the host.
pub proof fn law_shell_of_the_sysroot(dash: bool)
    ensures
        dash ==> shell_target(dash) == "/Core/Bin/dash"@,
        !dash ==> shell_target(dash) == "/Core/Bin/sh"@,
{
}

/// What the outer shell is told to do for one part of a build: call it, if the script
/// defines it.
pub open spec fn part_call(part: Seq<char>) -> Seq<char> {
    " && if type "@ + part + " >/dev/null 2>&1; then echo '>>> "@ + part + "' && "@ + part + "; fi"@
}

/// The outer shell is told the same for every package and in every mode: it goes to the
/// build directory, makes the output directory, sources the script, and calls `configure`,
/// `build` and `install` in this order, each if the script defines it.
pub proof fn law_every_script_is_called_alike(name: Seq<char>, self_hosted: bool)
    ensures
        build_command(name, self_hosted)[3] == "cd "@ + build_dir_inside(name) + " && mkdir -p "@
            + build_dir_inside(name) + "/_out"@ + " && source ./build.sh"@ + part_call(
            "configure"@,
        ) + part_call("build"@) + part_call("install"@),
{
    reveal_strlit(" && if type ");
    reveal_strlit(" >/dev/null 2>&1; then echo '>>> ");
    reveal_strlit("' && ");
    reveal_strlit("; fi");
    reveal_strlit("configure");
    reveal_strlit("build");
    reveal_strlit("install");
    reveal_strlit(" && source ./build.sh");
    reveal_strlit(
        " && source ./build.sh && if type configure >/dev/null 2>&1; then echo '>>> configure' && configure; fi && if type build >/dev/null 2>&1; then echo '>>> build' && build; fi && if type install >/dev/null 2>&1; then echo '>>> install' && install; fi",
    );
    let rest =
        " && source ./build.sh && if type configure >/dev/null 2>&1; then echo '>>> configure' && configure; fi && if type build >/dev/null 2>&1; then echo '>>> build' && build; fi && if type install >/dev/null 2>&1; then echo '>>> install' && install; fi"@;
    assert(rest =~= " && source ./build.sh"@ + part_call("configure"@) + part_call("build"@)
        + part_call("install"@));
    assert(build_command(name, self_hosted)[3] =~= "cd "@ + build_dir_inside(name)
        + " && mkdir -p "@ + build_dir_inside(name) + "/_out"@ + rest);
    assert(build_command(name, self_hosted)[3] =~= "cd "@ + build_dir_inside(name)
        + " && mkdir -p "@ + build_dir_inside(name) + "/_out"@ + " && source ./build.sh"@
        + part_call("configure"@) + part_call("build"@) + part_call("install"@));
}

/// What the script is told of its directories is where the host has put things: seen from
/// the sysroot, its build directory is the one that the script and the patches are staged
/// to, and its output directory is the one that is looked into afterwards.
pub proof fn law_script_sees_what_was_staged(meta: PackageMeta, survey: Survey)
    ensures
        ({
            let name = meta.name@;
            let vars = build_variables(meta, survey);
            &&& place_path(Place::BuildDir, name).0 == Base::Sysroot
            &&& place_path(Place::OutDir, name).0 == Base::Sysroot
            &&& place_path(Place::StagedPatches, name).0 == Base::Sysroot
            &&& vars.contains(("SRC"@, "/"@ + joined(place_path(Place::BuildDir, name).1, "/"@)))
            &&& vars.contains(("OUTPUT"@, "/"@ + joined(place_path(Place::OutDir, name).1, "/"@)))
            &&& vars.contains(
                ("PATCHES"@, "/"@ + joined(place_path(Place::StagedPatches, name).1, "/"@)),
            )
            &&& begins_with(
                build_script_call(name),
                "cd "@ + ("/"@ + joined(place_path(Place::BuildDir, name).1, "/"@)),
            )
        }),
{
    let name = meta.name@;
    let vars = build_variables(meta, survey);
    reveal_strlit("/");
    reveal_strlit("/Transit/Build/");
    reveal_strlit("Transit/Build");
    reveal_strlit("/_out");
    reveal_strlit("_out");
    reveal_strlit("/patches");
    reveal_strlit("patches");
    let dir = place_path(Place::BuildDir, name).1;
    let out = place_path(Place::OutDir, name).1;
    let patches = place_path(Place::StagedPatches, name).1;
    reveal_with_fuel(joined, 4);
    assert(out.drop_last() =~= dir);
    assert(patches.drop_last() =~= dir);
    assert(dir.drop_last() =~= seq!["Transit/Build"@]);
    assert("/"@ + joined(dir, "/"@) =~= build_dir_inside(name));
    assert("/"@ + joined(out, "/"@) =~= build_dir_inside(name) + "/_out"@);
    assert("/"@ + joined(patches, "/"@) =~= build_dir_inside(name) + "/patches"@);
    assert(vars[4] == ("OUTPUT"@, build_dir_inside(name) + "/_out"@));
    assert(vars[5] == ("SRC"@, build_dir_inside(name)));
    assert(vars[6] == ("PATCHES"@, build_dir_inside(name) + "/patches"@));
    let call = build_script_call(name);
    let start = "cd "@ + build_dir_inside(name);
    assert(call.take(start.len() as int) =~= start);
}

/// The files of a build lie in directories of its own: two packages share the sysroot, the
/// output directory and the shell, and nothing else; and the places of one package differ.
pub proof fn law_packages_have_places_of_their_own(a: Seq<char>, b: Seq<char>, x: Place, y: Place)
    requires
        place_path(x, a) == place_path(y, b),
    ensures
        x == y,
        a != b ==> x == Place::Output || x == Place::Sysroot || x == Place::Script || x
            == Place::Patches || x == Place::BinDir || x == Place::BinShell,
{
    reveal_strlit("_out");
    reveal_strlit("build.sh");
    reveal_strlit("patches");
    reveal_strlit(".rocket-stamp");
    reveal_strlit("bin");
    reveal_strlit("sh");
    reveal_strlit("Transit/Build");
    let p = place_path(x, a).1;
    let q = place_path(y, b).1;
    assert(p.len() == q.len());
    if p.len() == 3 {
        assert(p[1] == q[1]);
        assert(p[2].len() == q[2].len());
    } else if p.len() == 2 {
        assert(p[0].len() == q[0].len());
        assert(p[1] == q[1]);
    } else if p.len() == 1 {
        assert(p[0] == q[0]);
    }
}

/// What is kept of a build lies in its build directory, and its artifacts in the output
/// directory under its name.
pub proof fn law_where_builds_keep_things(name: Seq<char>)
    ensures
        place_path(Place::BuildDir, name) == (Base::Sysroot, seq!["Transit/Build"@, name]),
        place_path(Place::OutDir, name) == (
            Base::Sysroot,
            place_path(Place::BuildDir, name).1.push("_out"@),
        ),
        place_path(Place::StagedScript, name) == (
            Base::Sysroot,
            place_path(Place::BuildDir, name).1.push("build.sh"@),
        ),
        place_path(Place::StagedPatches, name) == (
            Base::Sysroot,
            place_path(Place::BuildDir, name).1.push("patches"@),
        ),
        place_path(Place::Stamp, name) == (
            Base::Sysroot,
            place_path(Place::BuildDir, name).1.push(".rocket-stamp"@),
        ),
        place_path(Place::PackageOutput, name) == (
            Base::Output,
            place_path(Place::Output, name).1.push(name),
        ),
        place_path(Place::BinDir, name) == (Base::Sysroot, seq!["bin"@]),
        place_path(Place::BinShell, name) == (
            Base::Sysroot,
            place_path(Place::BinDir, name).1.push("sh"@),
        ),
        place_path(Place::Output, name).1.len() == 0 && place_path(Place::Sysroot, name).1.len() == 0
            && place_path(Place::Script, name).1.len() == 0 && place_path(Place::Patches, name).1.len()
            == 0,
        place_path(Place::Output, name).0 == Base::Output && place_path(Place::Sysroot, name).0
            == Base::Sysroot && place_path(Place::Script, name).0 == Base::Script && place_path(
            Place::Patches,
            name,
        ).0 == Base::Patches,
{
    assert(place_path(Place::OutDir, name).1 =~= place_path(Place::BuildDir, name).1.push("_out"@));
    assert(place_path(Place::StagedScript, name).1 =~= place_path(Place::BuildDir, name).1.push(
        "build.sh"@,
    ));
    assert(place_path(Place::StagedPatches, name).1 =~= place_path(Place::BuildDir, name).1.push(
        "patches"@,
    ));
    assert(place_path(Place::Stamp, name).1 =~= place_path(Place::BuildDir, name).1.push(
        ".rocket-stamp"@,
    ));
    assert(place_path(Place::PackageOutput, name).1 =~= place_path(Place::Output, name).1.push(
        name,
    ));
    assert(place_path(Place::BinShell, name).1 =~= place_path(Place::BinDir, name).1.push("sh"@));
}

/// A step that the build rests on ends it when it fails, with the reason in the message;
/// clearing away, linking the shell and recording do not.
pub proof fn law_which_failures_end_a_build(from: Place, to: Place, at: Place, dash: bool)
    ensures
        complaint(Step::MakeDir(at)) is Some <==> at == Place::Output || at == Place::BuildDir || at
            == Place::PackageOutput,
        complaint(Step::CopyFile(from, to)) is Some,
        complaint(Step::CopyTree(from, to)) is Some,
        complaint(Step::WriteManifest) is Some,
        complaint(Step::RemoveTree(at)) is None,
        complaint(Step::RemoveFile(at)) is None,
        complaint(Step::LinkShell { dash }) is None,
        complaint(Step::ReportOutput) is None,
        complaint(Step::ReportInstall) is None,
        complaint(Step::WriteStamp) is None,
{
}

/// The script gets the name, the version and the repository of its package, the sysroot as
/// its root, as many jobs as the machine runs threads and one if that is not known, and the
/// directory around the output.
pub proof fn law_values_of_the_variables(meta: PackageMeta, survey: Survey)
    ensures
        ({
            let vars = build_variables(meta, survey);
            &&& vars.contains(("NAME"@, meta.name@))
            &&& vars.contains(("VERSION"@, meta.version@))
            &&& vars.contains(("REPOSITORY"@, meta.repository@))
            &&& vars.contains(("BRANCH"@, ""@))
            &&& vars.contains(("SYSROOT"@, "/"@))
            &&& vars.contains(("ROCKET_OUTPUT"@, survey.rocket_output@))
            &&& survey.parallelism matches Some(n) ==> vars.contains(("JOBS"@, decimal(n as nat)))
            &&& survey.parallelism is None ==> vars.contains(("JOBS"@, decimal(1)))
            &&& vars.len() == 10 + (if survey.local {
                1nat
            } else {
                0
            }) + meta.extra@.len()
        }),
{
    let vars = build_variables(meta, survey);
    assert(vars[0] == ("NAME"@, meta.name@));
    assert(vars[1] == ("VERSION"@, meta.version@));
    assert(vars[2] == ("REPOSITORY"@, meta.repository@));
    assert(vars[3] == ("BRANCH"@, ""@));
    assert(vars[7] == ("SYSROOT"@, "/"@));
    assert(vars[8].0 == "JOBS"@);
    assert(vars[9] == ("ROCKET_OUTPUT"@, survey.rocket_output@));
}

/// The extra fields come last, in their order, so that none of the other variables hides
/// one of them.
pub proof fn law_extra_fields_come_last(meta: PackageMeta, survey: Survey, i: int)
    requires
        0 <= i < meta.extra@.len(),
    ensures
        ({
            let vars = build_variables(meta, survey);
            vars[vars.len() - meta.extra@.len() + i] == (
                uppercase(meta.extra@[i].0@),
                meta.extra@[i].1.shown(),
            )
        }),
{
    let vars = build_variables(meta, survey);
    assert(vars[vars.len() - meta.extra@.len() + i] == extra_variables(meta.extra@)[i]);
}

/// Where there is a local tree it is bound into the build directory, and `LOCAL_SRC` says
/// where the script finds it; the survey names the same place. Where there is none, the
/// variable is not set, unless a field sets it.
pub proof fn law_local_tree_is_where_the_script_looks(
    pkg: Package,
    opts: BuildOptions,
    survey: Survey,
    r: BuildMove,
)
    requires
        decided(pkg, opts, BuildEvent::Staged { local: survey.local }, r),
    ensures
        survey.local ==> exists|at: Seq<char>| #[trigger]
            planned_binds(pkg.meta.name@, survey).contains((BindSource::Local, at)) && build_variables(
                pkg.meta,
                survey,
            ).contains(("LOCAL_SRC"@, "/"@ + at)) && (r matches BuildMove::Survey {
                local_source,
                ..
            } && opt_text(local_source) == Some("/"@ + at)) && begins_with(
                "/"@ + at,
                build_dir_inside(pkg.meta.name@) + "/"@,
            ),
        !survey.local ==> {
            &&& forall|at: Seq<char>|
                !(#[trigger] planned_binds(pkg.meta.name@, survey).contains((BindSource::Local, at)))
            &&& r matches BuildMove::Survey { local_source, .. } ==> local_source is None
        },
{
    let name = pkg.meta.name@;
    let binds = planned_binds(name, survey);
    let vars = build_variables(pkg.meta, survey);
    if survey.local {
        let at = "Transit/Build/"@ + name + "/src"@;
        reveal_strlit("/");
        reveal_strlit("Transit/Build/");
        reveal_strlit("/Transit/Build/");
        reveal_strlit("/src");
        assert("/"@ + at =~= build_dir_inside(name) + "/src"@);
        assert(binds[0] == (BindSource::Local, at));
        assert(vars[10] == ("LOCAL_SRC"@, build_dir_inside(name) + "/src"@));
        let start = build_dir_inside(name) + "/"@;
        assert(("/"@ + at).take(start.len() as int) =~= start);
        assert(binds.contains((BindSource::Local, at)));
    } else {
        assert forall|at: Seq<char>| !(#[trigger] binds.contains((BindSource::Local, at))) by {
            if binds.contains((BindSource::Local, at)) {
                let k = choose|k: int| 0 <= k < binds.len() && binds[k] == (BindSource::Local, at);
                assert(sibling_binds(name, survey.siblings@)[k] == (BindSource::Local, at));
                only_siblings(name, survey.siblings@, k);
            }
        }
    }
}

/// What is bound for siblings is bound for the siblings that are there.
proof fn only_siblings(name: Seq<char>, siblings: Seq<Option<String>>, k: int)
    requires
        0 <= k < sibling_binds(name, siblings).len(),
    ensures
        sibling_binds(name, siblings)[k].0 is Sibling,
        siblings.len() <= usize::MAX ==> (sibling_binds(name, siblings)[k].0
            matches BindSource::Sibling(i) && 0 <= i < siblings.len() && siblings[i as int] is Some
            && sibling_binds(name, siblings)[k].1 == "Transit/Build/"@ + name + "/"@
            + siblings[i as int]->0@),
    decreases siblings.len(),
{
    let init = siblings.drop_last();
    let before = sibling_binds(name, init);
    if k < before.len() {
        only_siblings(name, init, k);
        assert(sibling_binds(name, siblings)[k] == before[k]);
        let i = before[k].0->Sibling_0;
        assert(init[i as int] == siblings[i as int]);
    }
}

/// A sibling that is there is bound.
proof fn sibling_is_bound(name: Seq<char>, siblings: Seq<Option<String>>, i: int) -> (k: int)
    requires
        0 <= i < siblings.len() <= usize::MAX,
        siblings[i] is Some,
    ensures
        0 <= k < sibling_binds(name, siblings).len(),
        sibling_binds(name, siblings)[k] == (
            BindSource::Sibling(i as usize),
            "Transit/Build/"@ + name + "/"@ + siblings[i]->0@,
        ),
    decreases siblings.len(),
{
    let init = siblings.drop_last();
    if i < init.len() {
        let k = sibling_is_bound(name, init, i);
        assert(init[i] == siblings[i]);
        k
    } else {
        sibling_binds(name, init).len() as int
    }
}

/// Each sibling tree that is there is bound beside the source, under its own name, and
/// nothing else is bound but the local tree.
pub proof fn law_siblings_are_bound_beside(name: Seq<char>, survey: Survey, i: int, k: int)
    requires
        survey.siblings@.len() <= usize::MAX,
    ensures
        0 <= i < survey.siblings@.len() && survey.siblings@[i] is Some ==> planned_binds(
            name,
            survey,
        ).contains(
            (
                BindSource::Sibling(i as usize),
                "Transit/Build/"@ + name + "/"@ + survey.siblings@[i]->0@,
            ),
        ),
        0 <= k < planned_binds(name, survey).len() ==> match planned_binds(name, survey)[k].0 {
            BindSource::Local => survey.local && k == 0,
            BindSource::Sibling(j) => j < survey.siblings@.len() && survey.siblings@[j as int] is Some
                && planned_binds(name, survey)[k].1 == "Transit/Build/"@ + name + "/"@
                + survey.siblings@[j as int]->0@,
        },
{
    let siblings = survey.siblings@;
    let binds = planned_binds(name, survey);
    let first: int = if survey.local {
        1
    } else {
        0
    };
    if 0 <= i < siblings.len() && siblings[i] is Some {
        let at = sibling_is_bound(name, siblings, i);
        assert(binds[first + at] == sibling_binds(name, siblings)[at]);
    }
    if first <= k < binds.len() {
        assert(binds[k] == sibling_binds(name, siblings)[k - first]);
        only_siblings(name, siblings, k - first);
    }
}

/// The sandbox is given a place for each tree that is to be bound, and these are the
/// planned ones.
pub proof fn law_launch_binds_what_was_planned(
    pkg: Package,
    opts: BuildOptions,
    survey: Survey,
    r: BuildMove,
    k: int,
)
    requires
        decided(pkg, opts, BuildEvent::Surveyed { survey }, r),
    ensures
        r matches BuildMove::Launch { plan, sources, .. } && sources@.len() == plan.binds@.len()
            && sources@.len() == planned_binds(pkg.meta.name@, survey).len() && (0 <= k
            < sources@.len() ==> planned_binds(pkg.meta.name@, survey)[k] == (
            sources@[k],
            plan.binds@[k]@,
        )),
{
    if let BuildMove::Launch { plan, sources, .. } = r {
        let all = bind_texts(sources@, texts(plan.binds@));
        assert(texts(plan.binds@).len() == plan.binds@.len());
        if 0 <= k < sources@.len() {
            assert(all[k] == (sources@[k], texts(plan.binds@)[k]));
        }
    }
}

/// The strings of two rows are the strings of the first and then of the second; a string
/// is one, and what is none is passed over.
pub proof fn law_siblings_are_the_strings(
    a: Seq<Option<String>>,
    b: Seq<Option<String>>,
    s: String,
    none: Seq<Option<String>>,
)
    requires
        none.len() == 0,
    ensures
        strings_in(a + b) == strings_in(a) + strings_in(b),
        strings_in(seq![Some(s)]) == seq![s@],
        strings_in(seq![None::<String>]) == Seq::<Seq<char>>::empty(),
        strings_in(none) == Seq::<Seq<char>>::empty(),
    decreases b.len(),
{
    reveal_with_fuel(strings_in, 2);
    let one = seq![Some(s)];
    assert(one.drop_last() =~= Seq::empty());
    assert(strings_in(one) =~= seq![s@]);
    let gap = seq![None::<String>];
    assert(gap.drop_last() =~= Seq::empty());
    if b.len() == 0 {
        assert(a + b =~= a);
        assert(strings_in(a) + strings_in(b) =~= strings_in(a));
    } else {
        law_siblings_are_the_strings(a, b.drop_last(), s, none);
        assert((a + b).drop_last() =~= a + b.drop_last());
        assert((a + b).last() == b.last());
        match b.last() {
            Some(x) => {
                assert((strings_in(a) + strings_in(b.drop_last())).push(x@) =~= strings_in(a)
                    + strings_in(b.drop_last()).push(x@));
            },
            None => {},
        }
    }
}

/// Before the script runs, all sibling trees are looked for that the package names, and
/// none else.
pub proof fn law_named_siblings_are_looked_for(
    pkg: Package,
    opts: BuildOptions,
    local: bool,
    r: BuildMove,
)
    requires
        decided(pkg, opts, BuildEvent::Staged { local }, r),
    ensures
        r matches BuildMove::Survey { siblings, .. } && texts(siblings@) == match field(
            pkg.meta.extra@,
            "sibling_paths"@,
        ) {
            Some(MetaValue::List { items, .. }) => strings_in(items@),
            _ => Seq::empty(),
        },
{
    assert(declared_siblings(pkg.meta) == match field(pkg.meta.extra@, "sibling_paths"@) {
        Some(MetaValue::List { items, .. }) => strings_in(items@),
        _ => Seq::empty(),
    });
}

/// A package manifest carries the package's name, version, description and all of its
/// dependencies in their order. What `meta.toml` says of it counts before what its name
/// suggests: any name that ends in `-native`, and a few others, stands for a package that
/// is only used to build; and `base-image` for a union of packages.
pub proof fn law_manifest_follows_meta(meta: PackageMeta, r: ManifestRequest, i: int)
    requires
        describes(r, meta),
    ensures
        r.name@ == meta.name@ && r.version@ == meta.version@ && r.description@
            == meta.description@,
        r.dependencies@.len() == meta.dependencies@.len(),
        0 <= i < meta.dependencies@.len() ==> r.dependencies@[i]@ == meta.dependencies@[i]@,
        field(meta.extra@, "build_only"@) matches Some(MetaValue::Flag(b)) ==> r.build_only == b,
        field(meta.extra@, "meta"@) matches Some(MetaValue::Flag(b)) ==> r.is_meta == b,
        !(field(meta.extra@, "build_only"@) matches Some(MetaValue::Flag(_))) ==> {
            &&& finishes_with(meta.name@, "-native"@) ==> r.build_only
            &&& (meta.name@ == "llvm"@ || meta.name@ == "llvm21"@ || meta.name@ == "compiler-rt"@
                || meta.name@ == "kernel-headers"@ || meta.name@ == "glibc-headers"@ || meta.name@
                == "rust"@ || meta.name@ == "lmtest"@) ==> r.build_only
            &&& r.build_only ==> finishes_with(meta.name@, "-native"@) || meta.name@ == "llvm"@
                || meta.name@ == "llvm21"@ || meta.name@ == "compiler-rt"@ || meta.name@
                == "kernel-headers"@ || meta.name@ == "glibc-headers"@ || meta.name@ == "rust"@
                || meta.name@ == "lmtest"@
        },
        !(field(meta.extra@, "meta"@) matches Some(MetaValue::Flag(_))) ==> (r.is_meta <==> meta.name@
            == "base-image"@),
{
    assert(texts(r.dependencies@).len() == r.dependencies@.len());
    if 0 <= i < meta.dependencies@.len() {
        assert(texts(r.dependencies@)[i] == texts(meta.dependencies@)[i]);
    }
    reveal_strlit("cmake-native");
    reveal_strlit("-native");
    assert("cmake-native"@.skip(5) =~= "-native"@);
}

/// The script gets each of its variables in its environment, with the value that comes last
/// for its name, whether host tools are there or not; and the terminal is that of the caller.
pub proof fn law_script_gets_its_variables(
    pkg: Package,
    opts: BuildOptions,
    survey: Survey,
    r: BuildMove,
    i: int,
)
    requires
        decided(pkg, opts, BuildEvent::Surveyed { survey }, r),
        0 <= i < build_variables(pkg.meta, survey).len(),
        forall|j: int|
            i < j < build_variables(pkg.meta, survey).len() ==> (#[trigger] build_variables(
                pkg.meta,
                survey,
            )[j]).0 != build_variables(pkg.meta, survey)[i].0,
    ensures
        r matches BuildMove::Launch { plan, .. } && texts(plan.environment@).contains(
            build_variables(pkg.meta, survey)[i].0 + "="@ + build_variables(pkg.meta, survey)[i].1,
        ),
{
    let plan = r->Launch_plan;
    law_command_sees_what_was_set(
        plan,
        build_command(pkg.meta.name@, opts.self_hosted),
        build_variables(pkg.meta, survey),
        !opts.self_hosted,
        false,
        texts(plan.binds@),
        None,
        opt_text(survey.term),
        i,
    );
}

/// The script gets the variables of every sandbox that it does not get a value of its own
/// for: the home, the terminal of the caller, where the tools are, and the defaults for
/// autotools.
pub proof fn law_script_gets_the_defaults(
    pkg: Package,
    opts: BuildOptions,
    survey: Survey,
    r: BuildMove,
    i: int,
)
    requires
        decided(pkg, opts, BuildEvent::Surveyed { survey }, r),
        0 <= i < 4,
        forall|j: int|
            0 <= j < build_variables(pkg.meta, survey).len() ==> (#[trigger] build_variables(
                pkg.meta,
                survey,
            )[j]).0 != promised_defaults(opt_text(survey.term), !opts.self_hosted)[i].0,
    ensures
        ({
            let (name, value) = promised_defaults(opt_text(survey.term), !opts.self_hosted)[i];
            r matches BuildMove::Launch { plan, .. } && texts(plan.environment@).contains(
                name + "="@ + value,
            )
        }),
{
    let plan = r->Launch_plan;
    law_command_sees_the_defaults(
        plan,
        build_command(pkg.meta.name@, opts.self_hosted),
        build_variables(pkg.meta, survey),
        !opts.self_hosted,
        false,
        texts(plan.binds@),
        None,
        opt_text(survey.term),
        i,
    );
}

/// Git is asked for the commit, for the changes since then and for the files that it does
/// not know, so that no edit of a local tree goes unnoticed.
pub proof fn law_what_git_is_asked()
    ensures
        git_questions().len() == 3,
        git_questions()[0] == seq!["rev-parse"@, "HEAD"@],
        git_questions()[1] == seq!["diff"@, "HEAD"@],
        git_questions()[2] == seq!["status"@, "--porcelain"@],
{
}

/// What is written for a build is what the next one looks for: a key without white space at
/// its ends, as every key is, is found again in its record.
pub proof fn law_record_is_found_again(opts: BuildOptions, key: Seq<char>)
    requires
        opts.install,
        !opts.force,
        key.len() > 0,
        !white_space().contains(key[0]),
        !white_space().contains(key.last()),
    ensures
        record(key) == key,
        can_skip(opts, key, Some(record(key))),
        can_skip(opts, key, Some(record(key) + seq!['\n'])),
{
    let none = Seq::<char>::empty();
    assert(none + key + none =~= key);
    law_trimmed(none, key, none, white_space());
    law_white_space('\n');
    assert(none + key + seq!['\n'] =~= key + seq!['\n']);
    law_trimmed(none, key, seq!['\n'], white_space());
}

/// A copy ends with the failure of a step, with the reason in the message, unless that step
/// removes what is in the way or gives the copy its mode.
pub proof fn law_which_failures_end_a_copy(
    step: CopyStep,
    src: Seq<char>,
    dst: Seq<char>,
    link: Seq<char>,
    error: Seq<char>,
)
    ensures
        copy_complaint(step, src, dst, link, error) is None <==> step == CopyStep::ClearWay || step
            == CopyStep::CopyMode,
        copy_complaint(step, src, dst, link, error) matches Some(message) ==> exists|
            start: Seq<char>,
        |
            message == #[trigger] (start + error),
{
    match step {
        CopyStep::MakeTarget => {
            assert(copy_complaint(step, src, dst, link, error) == Some(
                ("mkdir "@ + dst + ": "@) + error,
            ));
        },
        CopyStep::OpenSource => {
            assert(copy_complaint(step, src, dst, link, error) == Some(
                ("readdir "@ + src + ": "@) + error,
            ));
        },
        CopyStep::ReadEntry => {
            assert(copy_complaint(step, src, dst, link, error) == Some("entry: "@ + error));
        },
        CopyStep::ReadKind => {
            assert(copy_complaint(step, src, dst, link, error) == Some("filetype: "@ + error));
        },
        CopyStep::Descend => {
            assert(Seq::<char>::empty() + error =~= error);
        },
        CopyStep::ReadLink => {
            assert(copy_complaint(step, src, dst, link, error) == Some(
                ("readlink "@ + src + ": "@) + error,
            ));
        },
        CopyStep::MakeLink => {
            assert(copy_complaint(step, src, dst, link, error) == Some(
                ("symlink "@ + dst + " -> "@ + link + ": "@) + error,
            ));
        },
        CopyStep::CopyContent => {
            assert(copy_complaint(step, src, dst, link, error) == Some(
                ("copy "@ + src + ": "@) + error,
            ));
        },
        _ => {},
    }
}

/// How the entries of a directory are copied: a directory is gone into; a link is read, and
/// made again once the way is clear; a file is copied once the way is clear, and then gets
/// its full mode.
pub proof fn law_how_entries_are_copied()
    ensures
        entry_steps(EntryKind::Directory) == seq![CopyStep::Descend],
        entry_steps(EntryKind::Link).len() == 3,
        entry_steps(EntryKind::Link)[0] == CopyStep::ReadLink,
        entry_steps(EntryKind::Link)[1] == CopyStep::ClearWay,
        entry_steps(EntryKind::Link)[2] == CopyStep::MakeLink,
        entry_steps(EntryKind::File).len() == 3,
        entry_steps(EntryKind::File)[0] == CopyStep::ClearWay,
        entry_steps(EntryKind::File)[1] == CopyStep::CopyContent,
        entry_steps(EntryKind::File)[2] == CopyStep::CopyMode,
{
}

/// The line about a manifest has the number of files, and says of a package that is only
/// used to build that it is.
pub proof fn law_line_about_a_manifest(files: nat)
    ensures
        manifest_line(files, false) == "  Manifest: "@ + decimal(files) + " files"@,
        manifest_line(files, true) == manifest_line(files, false) + " (build-only)"@,
{
    reveal_strlit("");
    assert(manifest_line(files, false) =~= "  Manifest: "@ + decimal(files) + " files"@);
}

/// The message about a step of a build that failed says which it was; about a copy of a tree
/// and about the manifest it says what these say themselves.
pub proof fn law_messages_of_steps(from: Place, to: Place)
    ensures
        complaint(Step::MakeDir(Place::Output)) == Some("mkdir output: "@),
        complaint(Step::MakeDir(Place::BuildDir)) == Some("mkdir build dir: "@),
        complaint(Step::MakeDir(Place::PackageOutput)) == Some("mkdir pkg output: "@),
        complaint(Step::CopyFile(from, to)) == Some("copy build.sh: "@),
        complaint(Step::CopyTree(from, to)) matches Some(start) && start.len() == 0,
        complaint(Step::WriteManifest) matches Some(start) && start.len() == 0,
{
}

/// The message about a step of a copy that failed names the path that it was about.
pub proof fn law_messages_of_a_copy(
    src: Seq<char>,
    dst: Seq<char>,
    link: Seq<char>,
    error: Seq<char>,
)
    ensures
        copy_complaint(CopyStep::MakeTarget, src, dst, link, error) == Some(
            "mkdir "@ + dst + ": "@ + error,
        ),
        copy_complaint(CopyStep::OpenSource, src, dst, link, error) == Some(
            "readdir "@ + src + ": "@ + error,
        ),
        copy_complaint(CopyStep::ReadEntry, src, dst, link, error) == Some("entry: "@ + error),
        copy_complaint(CopyStep::ReadKind, src, dst, link, error) == Some("filetype: "@ + error),
        copy_complaint(CopyStep::Descend, src, dst, link, error) == Some(error),
        copy_complaint(CopyStep::ReadLink, src, dst, link, error) == Some(
            "readlink "@ + src + ": "@ + error,
        ),
        copy_complaint(CopyStep::MakeLink, src, dst, link, error) == Some(
            "symlink "@ + dst + " -> "@ + link + ": "@ + error,
        ),
        copy_complaint(CopyStep::CopyContent, src, dst, link, error) == Some(
            "copy "@ + src + ": "@ + error,
        ),
{
}

/// The message about a manifest that could not be written tells looking at the files from
/// writing.
pub proof fn law_messages_of_a_manifest(error: Seq<char>)
    ensures
        manifest_complaint(ManifestStage::Scan, error) == "scan package manifest: "@ + error,
        manifest_complaint(ManifestStage::Write, error) == "write package.json: "@ + error,
{
}

/// The source of a package is the local tree from the command line where one is named, else
/// the one in its `meta.toml`, else upstream; a `local_path` that is no text counts for
/// nothing.
pub proof fn law_where_the_source_is(meta: PackageMeta, given: bool)
    ensures
        given ==> source_of(meta, given) is Given,
        !given ==> match field(meta.extra@, "local_path"@) {
            Some(MetaValue::Text(path)) => source_of(meta, given) == LocalSource::Declared(path),
            _ => source_of(meta, given) is Upstream,
        },
{
}

} // verus!
