//! Building one package: which steps are taken in which order, what the build
//! script gets to see, and when a build can be skipped.

use std::collections::hash_map::DefaultHasher;
use std::hash::Hasher;
use vstd::bytes::spec_u64_from_le_bytes;
use vstd::bytes::spec_u64_to_le_bytes;
use vstd::prelude::*;
use vstd::std_specs::hash::DefaultHasherAdditionalSpecFns;

use crate::config::field;
use crate::config::MetaValue;
use crate::config::Package;
use crate::config::PackageMeta;
use crate::numbers::decimal;
use crate::numbers::decimal_text;
use crate::numbers::hex16;
use crate::numbers::hex16_characters;
use crate::numbers::hex16_injective;
use crate::numbers::hex16_text;
use crate::numbers::signed_decimal;
use crate::numbers::signed_decimal_text;
use crate::sandbox::plan_runs;
use crate::sandbox::run_in_sandbox;
use crate::sandbox::SandboxPlan;
use crate::text::concat2;
use crate::text::concat3;
use crate::text::ends_with;
use crate::text::finishes_with;
use crate::text::pairs;
use crate::text::same_text;
use crate::text::texts;
use crate::text::to_uppercase;
use crate::text::trim;
use crate::text::trimmed;
use crate::text::trimmed_is_same;
use crate::text::uppercase;
use crate::text::white_space;

verus! {

/// The content, or nothing if there is none.
pub open spec fn or_nothing(content: Option<Vec<u8>>) -> Seq<u8> {
    match content {
        Some(bytes) => bytes@,
        None => Seq::empty(),
    }
}

/// What there is of `contents`, in order.
pub open spec fn present(contents: Seq<Option<Vec<u8>>>) -> Seq<Seq<u8>>
    decreases contents.len(),
{
    if contents.len() == 0 {
        Seq::empty()
    } else {
        match contents.last() {
            Some(bytes) => present(contents.drop_last()).push(bytes@),
            None => present(contents.drop_last()),
        }
    }
}

/// What a build depends on: its script, its `meta.toml` and, for a local source
/// tree, what git says of it.
pub open spec fn key_pieces(
    script: Option<Vec<u8>>,
    meta: Option<Vec<u8>>,
    git: Seq<Option<Vec<u8>>>,
) -> Seq<Seq<u8>> {
    seq![or_nothing(script), or_nothing(meta)] + present(git)
}

/// The pieces as they are fed to the hasher: before each its length.
pub open spec fn framed(pieces: Seq<Seq<u8>>) -> Seq<Seq<u8>>
    decreases pieces.len(),
{
    if pieces.len() == 0 {
        Seq::empty()
    } else {
        framed(pieces.drop_last()).push(spec_u64_to_le_bytes(pieces.last().len() as u64)).push(
            pieces.last(),
        )
    }
}

/// The content key for the build cache.
pub open spec fn content_key(
    script: Option<Vec<u8>>,
    meta: Option<Vec<u8>>,
    git: Seq<Option<Vec<u8>>>,
) -> Seq<char> {
    hex16(DefaultHasher::spec_finish(framed(key_pieces(script, meta, git))))
}

/// Feeds one piece to the hasher, after its length.
fn feed(h: &mut DefaultHasher, piece: &[u8])
    ensures
        final(h)@ == old(h)@.push(spec_u64_to_le_bytes(piece@.len() as u64)).push(piece@),
{
    let len = vstd::bytes::u64_to_le_bytes(piece.len() as u64);
    h.write(len.as_slice());
    h.write(piece);
}

/// The content key for the build cache: what `DefaultHasher` makes of the build
/// script, of `meta.toml` and, for a local source tree, of what git says of it, so
/// that an edit in any of them is noticed. What could not be read counts as empty;
/// an answer that git did not give is left out.
pub fn build_key(
    script: Option<Vec<u8>>,
    meta: Option<Vec<u8>>,
    git: Vec<Option<Vec<u8>>>,
) -> (key: String)
    ensures
        key@ == content_key(script, meta, git@),
{
    let mut h = DefaultHasher::new();
    let ghost first = seq![or_nothing(script), or_nothing(meta)];
    let empty: Vec<u8> = Vec::new();
    match &script {
        Some(bytes) => feed(&mut h, bytes.as_slice()),
        None => feed(&mut h, empty.as_slice()),
    }
    match &meta {
        Some(bytes) => feed(&mut h, bytes.as_slice()),
        None => feed(&mut h, empty.as_slice()),
    }
    proof {
        reveal_with_fuel(framed, 3);
        assert(first.drop_last() =~= seq![or_nothing(script)]);
        assert(first.drop_last().drop_last() =~= Seq::empty());
        assert(h@ =~= framed(first));
        assert(first + present(git@.take(0)) =~= first);
    }
    let mut i: usize = 0;
    while i < git.len()
        invariant
            i <= git@.len(),
            h@ == framed(first + present(git@.take(i as int))),
        decreases git.len() - i,
    {
        let ghost upto = git@.take(i + 1);
        assert(upto.drop_last() =~= git@.take(i as int));
        match &git[i] {
            Some(bytes) => {
                feed(&mut h, bytes.as_slice());
                proof {
                    let all = first + present(upto);
                    assert(all.drop_last() =~= first + present(git@.take(i as int)));
                }
            },
            None => {},
        }
        i = i + 1;
    }
    assert(git@.take(git@.len() as int) =~= git@);
    hex16_text(h.finish())
}

/// The first piece and its length come first.
proof fn framed_first(pieces: Seq<Seq<u8>>)
    requires
        pieces.len() > 0,
    ensures
        framed(pieces) == seq![spec_u64_to_le_bytes(pieces[0].len() as u64), pieces[0]] + framed(
            pieces.drop_first(),
        ),
    decreases pieces.len(),
{
    let init = pieces.drop_last();
    let head = seq![spec_u64_to_le_bytes(pieces[0].len() as u64), pieces[0]];
    if init.len() == 0 {
        assert(framed(init) =~= Seq::empty());
        assert(pieces.drop_first() =~= Seq::empty());
        assert(framed(pieces) =~= head + framed(pieces.drop_first()));
    } else {
        framed_first(init);
        assert(pieces.drop_first().drop_last() =~= init.drop_first());
        assert(framed(pieces) =~= head + framed(pieces.drop_first()));
    }
}

/// What the hasher is fed leaves no doubt about the pieces: other pieces, or the
/// same content cut into other pieces, give another row of bytes.
pub proof fn law_key_unambiguous(a: Seq<Seq<u8>>, b: Seq<Seq<u8>>)
    requires
        forall|i: int| 0 <= i < a.len() ==> (#[trigger] a[i]).len() <= u64::MAX,
        forall|i: int| 0 <= i < b.len() ==> (#[trigger] b[i]).len() <= u64::MAX,
        framed(a).flatten() == framed(b).flatten(),
    ensures
        a == b,
    decreases a.len(),
{
    vstd::bytes::lemma_auto_spec_u64_to_from_le_bytes();
    if a.len() > 0 {
        fed_bytes(a);
    }
    if b.len() > 0 {
        fed_bytes(b);
    }
    if a.len() == 0 || b.len() == 0 {
        assert(framed(Seq::empty()).flatten() =~= Seq::<u8>::empty());
        if a.len() == 0 {
            assert(a =~= Seq::empty());
        }
        if b.len() == 0 {
            assert(b =~= Seq::empty());
        }
        assert(a =~= b);
    } else {
        let la = spec_u64_to_le_bytes(a[0].len() as u64);
        let lb = spec_u64_to_le_bytes(b[0].len() as u64);
        let ra = framed(a.drop_first()).flatten();
        let rb = framed(b.drop_first()).flatten();
        let all = framed(a).flatten();
        assert(la.len() == 8 && lb.len() == 8);
        assert(all == la + (a[0] + ra));
        assert(all == lb + (b[0] + rb));
        assert(la =~= all.take(8));
        assert(lb =~= all.take(8));
        assert(spec_u64_from_le_bytes(la) == a[0].len() as u64);
        assert(spec_u64_from_le_bytes(lb) == b[0].len() as u64);
        assert(a[0].len() <= u64::MAX && b[0].len() <= u64::MAX);
        assert(a[0].len() == b[0].len());
        let n = a[0].len();
        assert(a[0] =~= all.subrange(8, 8 + n as int));
        assert(b[0] =~= all.subrange(8, 8 + n as int));
        assert(ra =~= all.skip(8 + n as int));
        assert(rb =~= all.skip(8 + n as int));
        let ta = a.drop_first();
        let tb = b.drop_first();
        assert forall|i: int| 0 <= i < ta.len() implies (#[trigger] ta[i]).len() <= u64::MAX by {
            assert(a[i + 1].len() <= u64::MAX);
        }
        assert forall|i: int| 0 <= i < tb.len() implies (#[trigger] tb[i]).len() <= u64::MAX by {
            assert(b[i + 1].len() <= u64::MAX);
        }
        law_key_unambiguous(ta, tb);
        assert(a =~= seq![a[0]] + ta);
        assert(b =~= seq![b[0]] + tb);
    }
}

/// The bytes for some pieces begin with the length of the first and the first.
proof fn fed_bytes(pieces: Seq<Seq<u8>>)
    requires
        pieces.len() > 0,
    ensures
        framed(pieces).flatten() == spec_u64_to_le_bytes(pieces[0].len() as u64) + (pieces[0]
            + framed(pieces.drop_first()).flatten()),
        framed(pieces).flatten().len() >= 8,
{
    vstd::bytes::lemma_auto_spec_u64_to_from_le_bytes();
    framed_first(pieces);
    let len = spec_u64_to_le_bytes(pieces[0].len() as u64);
    let rest = framed(pieces.drop_first());
    let all = framed(pieces);
    assert(all.drop_first() =~= seq![pieces[0]] + rest);
    assert(all.drop_first().drop_first() =~= rest);
    reveal_with_fuel(Seq::flatten, 3);
    assert(all.first() == len);
    assert(all.drop_first().first() == pieces[0]);
}

/// How a package is to be built.
pub struct BuildOptions {
    /// Merge the output into the sysroot, for packages that are built later.
    pub install: bool,
    /// Build even if nothing has changed.
    pub force: bool,
    /// Use no host tools.
    pub self_hosted: bool,
    /// A local source tree was named on the command line.
    pub local_given: bool,
}

/// The places on the host that a build touches.
#[derive(Clone, Copy, PartialEq, Eq, Structural, Debug)]
pub enum Place {
    /// The directory for built artifacts.
    Output,
    /// The build directory of the package in the sysroot.
    BuildDir,
    /// Where the build script installs to.
    OutDir,
    /// The build script of the package.
    Script,
    /// Its copy in the build directory.
    StagedScript,
    /// The patches of the package.
    Patches,
    /// Their copy in the build directory.
    StagedPatches,
    /// The artifacts of this package.
    PackageOutput,
    /// The sysroot.
    Sysroot,
    /// The `bin` directory of the sysroot.
    BinDir,
    /// The shell in it.
    BinShell,
    /// The record of the last installed build.
    Stamp,
}

/// Where a path starts.
#[derive(Clone, Copy, PartialEq, Eq, Structural, Debug)]
pub enum Base {
    /// The sysroot.
    Sysroot,
    /// The directory for built artifacts.
    Output,
    /// The build script of the package.
    Script,
    /// The patches of the package.
    Patches,
}

/// Where a place is: what to join, one after the other, to which path.
pub open spec fn place_path(place: Place, name: Seq<char>) -> (Base, Seq<Seq<char>>) {
    match place {
        Place::Output => (Base::Output, Seq::empty()),
        Place::BuildDir => (Base::Sysroot, seq!["Transit/Build"@, name]),
        Place::OutDir => (Base::Sysroot, seq!["Transit/Build"@, name, "_out"@]),
        Place::Script => (Base::Script, Seq::empty()),
        Place::StagedScript => (Base::Sysroot, seq!["Transit/Build"@, name, "build.sh"@]),
        Place::Patches => (Base::Patches, Seq::empty()),
        Place::StagedPatches => (Base::Sysroot, seq!["Transit/Build"@, name, "patches"@]),
        Place::PackageOutput => (Base::Output, seq![name]),
        Place::Sysroot => (Base::Sysroot, Seq::empty()),
        Place::BinDir => (Base::Sysroot, seq!["bin"@]),
        Place::BinShell => (Base::Sysroot, seq!["bin"@, "sh"@]),
        Place::Stamp => (Base::Sysroot, seq!["Transit/Build"@, name, ".rocket-stamp"@]),
    }
}

/// Where a file of the build directory is.
fn build_dir_parts(name: &str, file: Option<&str>) -> (r: Vec<String>)
    ensures
        file is None ==> texts(r@) == seq!["Transit/Build"@, name@],
        file is Some ==> texts(r@) == seq!["Transit/Build"@, name@, file->0@],
{
    let mut r: Vec<String> = Vec::new();
    r.push("Transit/Build".to_owned());
    r.push(name.to_owned());
    match file {
        Some(f) => {
            r.push(f.to_owned());
            assert(texts(r@) =~= seq!["Transit/Build"@, name@, f@]);
        },
        None => {
            assert(texts(r@) =~= seq!["Transit/Build"@, name@]);
        },
    }
    r
}

/// Where a place is: what to join, one after the other, to which path.
pub fn locate(place: Place, name: &str) -> (r: (Base, Vec<String>))
    ensures
        (r.0, texts(r.1@)) == place_path(place, name@),
{
    let mut parts: Vec<String> = Vec::new();
    assert(texts(parts@) =~= Seq::empty());
    match place {
        Place::Output => (Base::Output, parts),
        Place::BuildDir => (Base::Sysroot, build_dir_parts(name, None)),
        Place::OutDir => (Base::Sysroot, build_dir_parts(name, Some("_out"))),
        Place::Script => (Base::Script, parts),
        Place::StagedScript => (Base::Sysroot, build_dir_parts(name, Some("build.sh"))),
        Place::Patches => (Base::Patches, parts),
        Place::StagedPatches => (Base::Sysroot, build_dir_parts(name, Some("patches"))),
        Place::PackageOutput => {
            parts.push(name.to_owned());
            assert(texts(parts@) =~= seq![name@]);
            (Base::Output, parts)
        },
        Place::Sysroot => (Base::Sysroot, parts),
        Place::BinDir => {
            parts.push("bin".to_owned());
            assert(texts(parts@) =~= seq!["bin"@]);
            (Base::Sysroot, parts)
        },
        Place::BinShell => {
            parts.push("bin".to_owned());
            parts.push("sh".to_owned());
            assert(texts(parts@) =~= seq!["bin"@, "sh"@]);
            (Base::Sysroot, parts)
        },
        Place::Stamp => (Base::Sysroot, build_dir_parts(name, Some(".rocket-stamp"))),
    }
}

/// One thing that a build does on the host.
#[derive(Clone, Copy, PartialEq, Eq, Structural, Debug)]
pub enum Step {
    /// Make a directory and all that it lies in.
    MakeDir(Place),
    /// Remove a directory with all that is in it.
    RemoveTree(Place),
    /// Remove a file.
    RemoveFile(Place),
    /// Copy a file.
    CopyFile(Place, Place),
    /// Copy a directory with all that is in it.
    CopyTree(Place, Place),
    /// Make the shell of the sysroot a link to dash, or to the native `sh`.
    LinkShell { dash: bool },
    /// Say where the artifacts are.
    ReportOutput,
    /// Write the package manifest beside the artifacts.
    WriteManifest,
    /// Say that the package was installed.
    ReportInstall,
    /// Record the build as the last installed one: write its key.
    WriteStamp,
}

/// What the message about a failed step begins with; none if a failure of this
/// step does not matter.
pub open spec fn complaint(step: Step) -> Option<Seq<char>> {
    match step {
        Step::MakeDir(Place::Output) => Some("mkdir output: "@),
        Step::MakeDir(Place::BuildDir) => Some("mkdir build dir: "@),
        Step::MakeDir(Place::PackageOutput) => Some("mkdir pkg output: "@),
        Step::CopyFile(_, _) => Some("copy build.sh: "@),
        Step::CopyTree(_, _) => Some(Seq::empty()),
        Step::WriteManifest => Some(Seq::empty()),
        _ => None,
    }
}

/// The message with which a build ends when a step fails, if it ends.
pub fn step_failure(step: Step, error: &str) -> (r: Option<String>)
    ensures
        match complaint(step) {
            Some(prefix) => r matches Some(m) && m@ == prefix + error@,
            None => r is None,
        },
{
    match step {
        Step::MakeDir(Place::Output) => Some(concat2("mkdir output: ", error)),
        Step::MakeDir(Place::BuildDir) => Some(concat2("mkdir build dir: ", error)),
        Step::MakeDir(Place::PackageOutput) => Some(concat2("mkdir pkg output: ", error)),
        Step::CopyFile(_, _) => Some(concat2("copy build.sh: ", error)),
        Step::CopyTree(_, _) => {
            assert(Seq::<char>::empty() + error@ =~= error@);
            Some(error.to_owned())
        },
        Step::WriteManifest => {
            assert(Seq::<char>::empty() + error@ =~= error@);
            Some(error.to_owned())
        },
        _ => None,
    }
}

/// What `bin/sh` of a sysroot without host tools is a link to.
pub open spec fn shell_target(dash: bool) -> Seq<char> {
    if dash {
        "/Core/Bin/dash"@
    } else {
        "/Core/Bin/sh"@
    }
}

/// What `bin/sh` of a sysroot without host tools is a link to: dash if the sysroot
/// has it. `configure` scripts run their pipelines under it.
pub fn link_target(dash: bool) -> (r: String)
    ensures
        r@ == shell_target(dash),
{
    if dash {
        "/Core/Bin/dash".to_owned()
    } else {
        "/Core/Bin/sh".to_owned()
    }
}

/// Where the source of a package comes from.
pub enum LocalSource {
    /// From upstream.
    Upstream,
    /// From the local tree that was named on the command line.
    Given,
    /// From a local tree, given relative to the package directory.
    Declared(String),
}

/// Where the source comes from.
pub open spec fn source_of(meta: PackageMeta, given: bool) -> LocalSource {
    match (given, field(meta.extra@, "local_path"@)) {
        (true, _) => LocalSource::Given,
        (false, Some(MetaValue::Text(s))) => LocalSource::Declared(s),
        (false, _) => LocalSource::Upstream,
    }
}

/// Where the source comes from: the command line comes before `local_path` in
/// `meta.toml`.
pub fn local_source(meta: &PackageMeta, given: bool) -> (r: LocalSource)
    ensures
        r == source_of(*meta, given),
{
    if given {
        LocalSource::Given
    } else {
        match meta.text("local_path") {
            Some(s) => LocalSource::Declared(s.clone()),
            None => LocalSource::Upstream,
        }
    }
}

/// A build can be skipped: it would be installed, it is not forced, and the last
/// installed build had the same key.
pub open spec fn can_skip(opts: BuildOptions, key: Seq<char>, stamp: Option<Seq<char>>) -> bool {
    &&& opts.install
    &&& !opts.force
    &&& stamp is Some
    &&& trimmed(stamp->0, white_space()) == key
}

/// The text in an optional string.
pub open spec fn opt_text(s: Option<String>) -> Option<Seq<char>> {
    match s {
        Some(t) => Some(t@),
        None => None,
    }
}

/// Whether a build can be skipped.
pub fn is_cached(opts: &BuildOptions, key: &str, stamp: &Option<String>) -> (r: bool)
    ensures
        r == can_skip(*opts, key@, opt_text(*stamp)),
{
    match stamp {
        Some(s) => opts.install && !opts.force && same_text(trim(s.as_str()).as_str(), key),
        None => false,
    }
}

/// What is written to record a build with a key as the last installed one.
pub open spec fn record(key: Seq<char>) -> Seq<char> {
    key
}

/// What is written to record a build with a key as the last installed one.
pub fn stamp_text(key: &str) -> (r: String)
    ensures
        r@ == record(key@),
{
    key.to_owned()
}

/// The steps before anything is looked up.
pub open spec fn preparing() -> Seq<Step> {
    seq![Step::MakeDir(Place::Output), Step::MakeDir(Place::BuildDir)]
}

/// The steps that bring the script and the patches into the build directory. What
/// an earlier build installed is removed, so that it does not leak into artifacts.
pub open spec fn staging(patches: bool) -> Seq<Step> {
    let first = seq![
        Step::RemoveTree(Place::OutDir),
        Step::CopyFile(Place::Script, Place::StagedScript),
    ];
    if patches {
        first.push(Step::CopyTree(Place::Patches, Place::StagedPatches))
    } else {
        first
    }
}

/// The steps before the build script runs.
pub open spec fn linking(self_hosted: bool, dash: bool) -> Seq<Step> {
    if self_hosted {
        seq![
            Step::MakeDir(Place::BinDir),
            Step::RemoveFile(Place::BinShell),
            Step::LinkShell { dash },
        ]
    } else {
        Seq::empty()
    }
}

/// The steps after a build script that left output.
pub open spec fn publishing(install: bool) -> Seq<Step> {
    let first = seq![
        Step::RemoveTree(Place::PackageOutput),
        Step::MakeDir(Place::PackageOutput),
        Step::CopyTree(Place::OutDir, Place::PackageOutput),
        Step::ReportOutput,
        Step::WriteManifest,
    ];
    if install {
        first + seq![
            Step::CopyTree(Place::OutDir, Place::Sysroot),
            Step::ReportInstall,
            Step::WriteStamp,
        ]
    } else {
        first
    }
}

/// The strings among `items`, in order.
pub open spec fn strings_in(items: Seq<Option<String>>) -> Seq<Seq<char>>
    decreases items.len(),
{
    if items.len() == 0 {
        Seq::empty()
    } else {
        match items.last() {
            Some(s) => strings_in(items.drop_last()).push(s@),
            None => strings_in(items.drop_last()),
        }
    }
}

/// The source trees beside its own that a package names in `sibling_paths`.
pub open spec fn declared_siblings(meta: PackageMeta) -> Seq<Seq<char>> {
    match field(meta.extra@, "sibling_paths"@) {
        Some(MetaValue::List { items, shown }) => strings_in(items@),
        _ => Seq::empty(),
    }
}

/// The source trees beside its own that a package names in `sibling_paths`,
/// relative to the package directory. What is no string is passed over.
pub fn sibling_paths(meta: &PackageMeta) -> (r: Vec<String>)
    ensures
        texts(r@) == declared_siblings(*meta),
{
    let mut r: Vec<String> = Vec::new();
    assert(texts(r@) =~= Seq::empty());
    match meta.get("sibling_paths") {
        Some(MetaValue::List { items, shown }) => {
            let mut i: usize = 0;
            assert(items@.take(0) =~= Seq::empty());
            while i < items.len()
                invariant
                    i <= items@.len(),
                    texts(r@) == strings_in(items@.take(i as int)),
                decreases items.len() - i,
            {
                assert(items@.take(i + 1).drop_last() =~= items@.take(i as int));
                match &items[i] {
                    Some(s) => {
                        let ghost before = texts(r@);
                        r.push(s.clone());
                        assert(texts(r@) =~= before.push(s@));
                    },
                    None => {},
                }
                i = i + 1;
            }
            assert(items@.take(items@.len() as int) =~= items@);
        },
        _ => {},
    }
    r
}

/// The build directory as the build script sees it.
pub open spec fn build_dir_inside(name: Seq<char>) -> Seq<char> {
    "/Transit/Build/"@ + name
}

/// What is known when the build script is about to run.
pub struct Survey {
    /// There is a local source tree.
    pub local: bool,
    /// The last part of the path of each sibling tree; none for one that is not there.
    pub siblings: Vec<Option<String>>,
    /// How many threads the machine runs at once, if that is known.
    pub parallelism: Option<usize>,
    /// The directory around the directory for built artifacts.
    pub rocket_output: String,
    /// The sysroot has dash.
    pub dash: bool,
    /// The terminal of the caller, if it has one.
    pub term: Option<String>,
}

/// The variables for the extra fields of `meta.toml`: their names in upper case.
pub open spec fn extra_variables(extra: Seq<(String, MetaValue)>) -> Seq<(Seq<char>, Seq<char>)> {
    Seq::new(extra.len(), |i: int| (uppercase(extra[i].0@), extra[i].1.shown()))
}

/// The variables that the build script of a package gets. `BRANCH` is there for every
/// package and empty, unless a field of its `meta.toml` gives it a value.
pub open spec fn build_variables(meta: PackageMeta, survey: Survey) -> Seq<(Seq<char>, Seq<char>)> {
    let dir = build_dir_inside(meta.name@);
    let jobs = match survey.parallelism {
        Some(n) => n as nat,
        None => 1,
    };
    let fixed = seq![
        ("NAME"@, meta.name@),
        ("VERSION"@, meta.version@),
        ("REPOSITORY"@, meta.repository@),
        ("BRANCH"@, ""@),
        ("OUTPUT"@, dir + "/_out"@),
        ("SRC"@, dir),
        ("PATCHES"@, dir + "/patches"@),
        ("SYSROOT"@, "/"@),
        ("JOBS"@, decimal(jobs)),
        ("ROCKET_OUTPUT"@, survey.rocket_output@),
    ];
    let local = if survey.local {
        seq![("LOCAL_SRC"@, dir + "/src"@)]
    } else {
        Seq::empty()
    };
    fixed + local + extra_variables(meta.extra@)
}

/// A variable.
fn variable(name: &str, value: &str) -> (r: (String, String))
    ensures
        r.0@ == name@,
        r.1@ == value@,
{
    (name.to_owned(), value.to_owned())
}

/// The variables that the build script of a package gets. Its root is the sysroot,
/// so all paths are as seen from there.
pub fn build_environment(meta: &PackageMeta, survey: &Survey) -> (r: Vec<(String, String)>)
    ensures
        pairs(r@) == build_variables(*meta, *survey),
{
    let dir = concat2("/Transit/Build/", meta.name.as_str());
    let jobs: usize = match survey.parallelism {
        Some(n) => n,
        None => 1,
    };
    let mut r: Vec<(String, String)> = Vec::new();
    r.push(variable("NAME", meta.name.as_str()));
    r.push(variable("VERSION", meta.version.as_str()));
    r.push(variable("REPOSITORY", meta.repository.as_str()));
    r.push(variable("BRANCH", ""));
    r.push(variable("OUTPUT", concat2(dir.as_str(), "/_out").as_str()));
    r.push(variable("SRC", dir.as_str()));
    r.push(variable("PATCHES", concat2(dir.as_str(), "/patches").as_str()));
    r.push(variable("SYSROOT", "/"));
    r.push(variable("JOBS", decimal_text(jobs as u64).as_str()));
    r.push(variable("ROCKET_OUTPUT", survey.rocket_output.as_str()));
    if survey.local {
        r.push(variable("LOCAL_SRC", concat2(dir.as_str(), "/src").as_str()));
    }
    let ghost all = build_variables(*meta, *survey);
    let ghost before = (all.len() - meta.extra@.len()) as nat;
    assert(pairs(r@) =~= all.take(before as int));
    let mut i: usize = 0;
    while i < meta.extra.len()
        invariant
            i <= meta.extra@.len(),
            all == build_variables(*meta, *survey),
            before == all.len() - meta.extra@.len(),
            pairs(r@) == all.take(before + i),
            all.skip(before as int) == extra_variables(meta.extra@),
        decreases meta.extra.len() - i,
    {
        let (key, value) = &meta.extra[i];
        let ghost sofar = pairs(r@);
        r.push((to_uppercase(key.as_str()), value.show()));
        proof {
            assert(extra_variables(meta.extra@)[i as int] == all[before + i]);
            assert(pairs(r@) =~= sofar.push(all[before + i]));
            assert(all.take(before + i + 1) =~= all.take(before + i).push(all[before + i]));
        }
        i = i + 1;
    }
    assert(all.take(all.len() as int) =~= all);
    r
}

/// The source of a directory that is bound into the sandbox of a build.
#[derive(Clone, Copy, PartialEq, Eq, Structural, Debug)]
pub enum BindSource {
    /// The local source tree.
    Local,
    /// One of the sibling trees.
    Sibling(usize),
}

/// Where the sibling trees are bound: beside the source of the package.
pub open spec fn sibling_binds(name: Seq<char>, siblings: Seq<Option<String>>) -> Seq<
    (BindSource, Seq<char>),
>
    decreases siblings.len(),
{
    if siblings.len() == 0 {
        Seq::empty()
    } else {
        let before = sibling_binds(name, siblings.drop_last());
        match siblings.last() {
            Some(base) => before.push(
                (
                    BindSource::Sibling((siblings.len() - 1) as usize),
                    "Transit/Build/"@ + name + "/"@ + base@,
                ),
            ),
            None => before,
        }
    }
}

/// What is bound where, relative to the sysroot.
pub open spec fn planned_binds(name: Seq<char>, survey: Survey) -> Seq<(BindSource, Seq<char>)> {
    let local = if survey.local {
        seq![(BindSource::Local, "Transit/Build/"@ + name + "/src"@)]
    } else {
        Seq::empty()
    };
    local + sibling_binds(name, survey.siblings@)
}

/// Sources with the texts of their targets.
pub open spec fn bind_texts(sources: Seq<BindSource>, targets: Seq<Seq<char>>) -> Seq<
    (BindSource, Seq<char>),
> {
    Seq::new(sources.len(), |i: int| (sources[i], targets[i]))
}

/// What is bound where: the local source tree to `src` in the build directory, and
/// each sibling tree that is there beside it. The sources come first, then the target
/// for each of them.
pub fn build_binds(name: &str, survey: &Survey) -> (r: (Vec<BindSource>, Vec<String>))
    ensures
        r.0@.len() == r.1@.len(),
        bind_texts(r.0@, texts(r.1@)) == planned_binds(name@, *survey),
{
    let mut sources: Vec<BindSource> = Vec::new();
    let mut targets: Vec<String> = Vec::new();
    if survey.local {
        sources.push(BindSource::Local);
        targets.push(concat3("Transit/Build/", name, "/src"));
    }
    let ghost local = bind_texts(sources@, texts(targets@));
    proof {
        assert(survey.siblings@.take(0) =~= Seq::empty());
        assert(local + sibling_binds(name@, Seq::empty()) =~= local);
        assert(planned_binds(name@, *survey) =~= local + sibling_binds(name@, survey.siblings@));
    }
    let mut i: usize = 0;
    while i < survey.siblings.len()
        invariant
            i <= survey.siblings@.len(),
            sources@.len() == targets@.len(),
            bind_texts(sources@, texts(targets@)) == local + sibling_binds(
                name@,
                survey.siblings@.take(i as int),
            ),
        decreases survey.siblings.len() - i,
    {
        let ghost upto = survey.siblings@.take(i + 1);
        assert(upto.drop_last() =~= survey.siblings@.take(i as int));
        match &survey.siblings[i] {
            Some(base) => {
                let ghost before = bind_texts(sources@, texts(targets@));
                let mut target = concat3("Transit/Build/", name, "/");
                target.append(base.as_str());
                let ghost text = target@;
                sources.push(BindSource::Sibling(i));
                targets.push(target);
                proof {
                    let now = bind_texts(sources@, texts(targets@));
                    assert(now =~= before.push((BindSource::Sibling(i), text)));
                    assert(now =~= local + sibling_binds(name@, upto));
                }
            },
            None => {},
        }
        i = i + 1;
    }
    assert(survey.siblings@.take(survey.siblings@.len() as int) =~= survey.siblings@);
    (sources, targets)
}

/// What the outer shell is told: source `build.sh` in the build directory and call
/// `configure`, `build` and `install`, as far as it defines them, in this order.
pub open spec fn build_script_call(name: Seq<char>) -> Seq<char> {
    "cd "@ + build_dir_inside(name) + " && mkdir -p "@ + (build_dir_inside(name) + "/_out"@)
        + " && source ./build.sh && if type configure >/dev/null 2>&1; then echo '>>> configure' && configure; fi && if type build >/dev/null 2>&1; then echo '>>> build' && build; fi && if type install >/dev/null 2>&1; then echo '>>> install' && install; fi"@
}

/// The command that runs the build script.
pub open spec fn build_command(name: Seq<char>, self_hosted: bool) -> Seq<Seq<char>> {
    let shell = if self_hosted {
        "/Core/Bin/bash"@
    } else {
        "/bin/sh"@
    };
    seq![shell, "-e"@, "-c"@, build_script_call(name)]
}

/// The command that runs the build script: under the native bash, or under the
/// shell of the host.
pub fn script_command(name: &str, self_hosted: bool) -> (r: Vec<String>)
    ensures
        texts(r@) == build_command(name@, self_hosted),
{
    let dir = concat2("/Transit/Build/", name);
    let out = concat2(dir.as_str(), "/_out");
    let mut call = concat3("cd ", dir.as_str(), " && mkdir -p ");
    call.append(out.as_str());
    call.append(
        " && source ./build.sh && if type configure >/dev/null 2>&1; then echo '>>> configure' && configure; fi && if type build >/dev/null 2>&1; then echo '>>> build' && build; fi && if type install >/dev/null 2>&1; then echo '>>> install' && install; fi",
    );
    let shell = if self_hosted {
        "/Core/Bin/bash"
    } else {
        "/bin/sh"
    };
    let mut r: Vec<String> = Vec::new();
    r.push(shell.to_owned());
    r.push("-e".to_owned());
    r.push("-c".to_owned());
    r.push(call);
    assert(texts(r@) =~= build_command(name@, self_hosted));
    r
}

/// What has come of the last move of a build.
pub enum BuildEvent {
    /// The build was asked for.
    Asked,
    /// The directories are there.
    Prepared,
    /// The local source tree was found.
    Located,
    /// It was not: how its path is shown, and why not.
    NotLocated { shown: String, error: String },
    /// The key of this build, and the record of the last installed one if there is one.
    Keyed { key: String, stamp: Option<String> },
    /// The script and the patches are in the build directory. `local`: there is a
    /// local source tree.
    Staged { local: bool },
    /// What there is to know before the build script runs.
    Surveyed { survey: Survey },
    /// The build script has run.
    Ran { code: i32 },
    /// Whether the build script left output, and how the path of it is shown.
    Looked { output: bool, shown: String },
    /// The output was published.
    Published,
}

/// What is reached when all steps of a move have been taken.
#[derive(Clone, Copy, PartialEq, Eq, Structural, Debug)]
pub enum Milestone {
    Prepared,
    Staged,
    Published,
}

/// What to do next in a build.
pub enum BuildMove {
    /// Take the steps, one after the other, up to the first failure that matters.
    Take { steps: Vec<Step>, then: Milestone },
    /// Find the local source tree.
    FindLocal { source: LocalSource },
    /// Read what the key is made of, with what git says of the local source tree or
    /// without it, and the record of the last installed build or not.
    ReadKey { git: bool, stamp: bool },
    /// Find the sibling trees, and the rest of what the build script gets to know.
    Survey { local_source: Option<String>, siblings: Vec<String> },
    /// Take the steps and run the build script in the sandbox, once. The plan says where
    /// each of the sources is bound.
    Launch { steps: Vec<Step>, plan: SandboxPlan, sources: Vec<BindSource> },
    /// Look whether the build script left output.
    LookForOutput,
    /// The package is in the sysroot already.
    Skip,
    /// The package is built.
    Finish,
    /// The build has failed.
    Fail { message: String },
}

/// `r` is what to do next in the build of `pkg`, after `event`.
pub open spec fn decided(pkg: Package, opts: BuildOptions, event: BuildEvent, r: BuildMove) -> bool {
    match event {
        BuildEvent::Asked => r matches BuildMove::Take { steps, then } && steps@ == preparing()
            && then == Milestone::Prepared,
        BuildEvent::Prepared => match (opts.local_given, field(pkg.meta.extra@, "local_path"@)) {
            (true, _) => r matches BuildMove::FindLocal { source } && source is Given,
            (false, Some(MetaValue::Text(s))) => r matches BuildMove::FindLocal { source }
                && source == LocalSource::Declared(s),
            (false, _) => r == (BuildMove::ReadKey {
                git: false,
                stamp: opts.install && !opts.force,
            }),
        },
        BuildEvent::Located => r == (BuildMove::ReadKey {
            git: true,
            stamp: opts.install && !opts.force,
        }),
        BuildEvent::NotLocated { shown, error } => r matches BuildMove::Fail { message }
            && message@ == "local source "@ + shown@ + ": "@ + error@,
        BuildEvent::Keyed { key, stamp } => if can_skip(opts, key@, opt_text(stamp)) {
            r is Skip
        } else {
            r matches BuildMove::Take { steps, then } && steps@ == staging(
                pkg.patches_dir is Some,
            ) && then == Milestone::Staged
        },
        BuildEvent::Staged { local } => r matches BuildMove::Survey { local_source, siblings }
            && opt_text(local_source) == (if local {
            Some(build_dir_inside(pkg.meta.name@) + "/src"@)
        } else {
            None
        }) && texts(siblings@) == declared_siblings(pkg.meta),
        BuildEvent::Surveyed { survey } => r matches BuildMove::Launch { steps, plan, sources }
            && steps@ == linking(opts.self_hosted, survey.dash) && sources@.len()
            == plan.binds@.len() && bind_texts(sources@, texts(plan.binds@)) == planned_binds(
            pkg.meta.name@,
            survey,
        ) && plan_runs(
            plan,
            build_command(pkg.meta.name@, opts.self_hosted),
            build_variables(pkg.meta, survey),
            !opts.self_hosted,
            false,
            texts(plan.binds@),
            None,
            opt_text(survey.term),
        ),
        BuildEvent::Ran { code } => if code == 0 {
            r is LookForOutput
        } else {
            r matches BuildMove::Fail { message } && message@ == "Build script exited with code "@
                + signed_decimal(code as int)
        },
        BuildEvent::Looked { output, shown } => if output {
            r matches BuildMove::Take { steps, then } && steps@ == publishing(opts.install)
                && then == Milestone::Published
        } else if opts.install {
            r matches BuildMove::Fail { message } && message@ == "nothing to install: "@
                + pkg.meta.name@ + " produced no output at "@ + shown@
        } else {
            r is Finish
        },
        BuildEvent::Published => r is Finish,
    }
}

/// What to do next in the build of `pkg`.
///
/// A build makes its directories, finds the local source tree if there is one, and
/// is skipped if the last installed build had the same key. Else it brings script
/// and patches into the build directory, runs the script in the sandbox, not
/// interactively, as root inside, with host tools or without, and publishes what the
/// script leaves. A build that is to be installed and leaves nothing has failed.
pub fn build_package(pkg: &Package, opts: &BuildOptions, event: &BuildEvent) -> (r: BuildMove)
    ensures
        decided(*pkg, *opts, *event, r),
{
    match event {
        BuildEvent::Asked => {
            let steps = vec![Step::MakeDir(Place::Output), Step::MakeDir(Place::BuildDir)];
            assert(steps@ =~= preparing());
            BuildMove::Take { steps, then: Milestone::Prepared }
        },
        BuildEvent::Prepared => match local_source(&pkg.meta, opts.local_given) {
            LocalSource::Upstream => BuildMove::ReadKey {
                git: false,
                stamp: opts.install && !opts.force,
            },
            source => BuildMove::FindLocal { source },
        },
        BuildEvent::Located => BuildMove::ReadKey {
            git: true,
            stamp: opts.install && !opts.force,
        },
        BuildEvent::NotLocated { shown, error } => {
            let mut message = concat3("local source ", shown.as_str(), ": ");
            message.append(error.as_str());
            BuildMove::Fail { message }
        },
        BuildEvent::Keyed { key, stamp } => {
            if is_cached(opts, key.as_str(), stamp) {
                return BuildMove::Skip;
            }
            let mut steps = vec![
                Step::RemoveTree(Place::OutDir),
                Step::CopyFile(Place::Script, Place::StagedScript),
            ];
            if pkg.patches_dir.is_some() {
                steps.push(Step::CopyTree(Place::Patches, Place::StagedPatches));
            }
            assert(steps@ =~= staging(pkg.patches_dir is Some));
            BuildMove::Take { steps, then: Milestone::Staged }
        },
        BuildEvent::Staged { local } => {
            let local_source = if *local {
                Some(concat3("/Transit/Build/", pkg.meta.name.as_str(), "/src"))
            } else {
                None
            };
            BuildMove::Survey { local_source, siblings: sibling_paths(&pkg.meta) }
        },
        BuildEvent::Surveyed { survey } => {
            let mut steps: Vec<Step> = Vec::new();
            if opts.self_hosted {
                steps.push(Step::MakeDir(Place::BinDir));
                steps.push(Step::RemoveFile(Place::BinShell));
                steps.push(Step::LinkShell { dash: survey.dash });
            }
            assert(steps@ =~= linking(opts.self_hosted, survey.dash));
            let command = script_command(pkg.meta.name.as_str(), opts.self_hosted);
            let variables = build_environment(&pkg.meta, survey);
            let (sources, targets) = build_binds(pkg.meta.name.as_str(), survey);
            assert(texts(command@).len() == command@.len());
            let plan = run_in_sandbox(
                command.as_slice(),
                variables.as_slice(),
                !opts.self_hosted,
                false,
                targets.as_slice(),
                &survey.term,
            );
            assert(texts(plan.binds@).len() == plan.binds@.len());
            assert(texts(targets@).len() == targets@.len());
            BuildMove::Launch { steps, plan, sources }
        },
        BuildEvent::Ran { code } => {
            if *code == 0 {
                BuildMove::LookForOutput
            } else {
                let message = concat2(
                    "Build script exited with code ",
                    signed_decimal_text(*code as i64).as_str(),
                );
                BuildMove::Fail { message }
            }
        },
        BuildEvent::Looked { output, shown } => {
            if *output {
                let mut steps = vec![
                    Step::RemoveTree(Place::PackageOutput),
                    Step::MakeDir(Place::PackageOutput),
                    Step::CopyTree(Place::OutDir, Place::PackageOutput),
                    Step::ReportOutput,
                    Step::WriteManifest,
                ];
                if opts.install {
                    steps.push(Step::CopyTree(Place::OutDir, Place::Sysroot));
                    steps.push(Step::ReportInstall);
                    steps.push(Step::WriteStamp);
                }
                assert(steps@ =~= publishing(opts.install));
                BuildMove::Take { steps, then: Milestone::Published }
            } else if opts.install {
                let mut message = concat3(
                    "nothing to install: ",
                    pkg.meta.name.as_str(),
                    " produced no output at ",
                );
                message.append(shown.as_str());
                BuildMove::Fail { message }
            } else {
                BuildMove::Finish
            }
        },
        BuildEvent::Published => BuildMove::Finish,
    }
}

/// What git is asked about a local source tree.
pub open spec fn git_questions() -> Seq<Seq<Seq<char>>> {
    seq![
        seq!["rev-parse"@, "HEAD"@],
        seq!["diff"@, "HEAD"@],
        seq!["status"@, "--porcelain"@],
    ]
}

/// Two strings in a row.
fn two(a: &str, b: &str) -> (r: Vec<String>)
    ensures
        texts(r@) == seq![a@, b@],
{
    let mut r: Vec<String> = Vec::new();
    r.push(a.to_owned());
    r.push(b.to_owned());
    assert(texts(r@) =~= seq![a@, b@]);
    r
}

/// What git is asked about a local source tree: the commit, the uncommitted changes
/// and the untracked files.
pub fn git_queries() -> (r: Vec<Vec<String>>)
    ensures
        Seq::new(r@.len(), |i: int| texts(r@[i]@)) == git_questions(),
{
    let mut r: Vec<Vec<String>> = Vec::new();
    r.push(two("rev-parse", "HEAD"));
    r.push(two("diff", "HEAD"));
    r.push(two("status", "--porcelain"));
    assert(Seq::new(r@.len(), |i: int| texts(r@[i]@)) =~= git_questions());
    r
}

/// A key is not changed by trimming.
proof fn key_is_trimmed(n: u64)
    ensures
        trimmed(hex16(n), white_space()) == hex16(n),
{
    hex16_characters(n, 0);
    hex16_characters(n, 15);
    trimmed_is_same(hex16(n), white_space());
}

/// A build is skipped if it is to be installed, is not forced, and its key is the
/// one that the last installed build recorded.
pub proof fn law_unchanged_build_is_skipped(opts: BuildOptions, hash: u64)
    requires
        opts.install,
        !opts.force,
    ensures
        can_skip(opts, hex16(hash), Some(hex16(hash))),
{
    key_is_trimmed(hash);
}

/// A build whose inputs hash to another number than those of the last installed
/// build is not skipped.
pub proof fn law_changed_build_is_not_skipped(opts: BuildOptions, hash: u64, last: u64)
    requires
        hash != last,
    ensures
        !can_skip(opts, hex16(hash), Some(hex16(last))),
{
    key_is_trimmed(last);
    if hex16(last) == hex16(hash) {
        hex16_injective(last, hash);
    }
}

/// Every extra field of `meta.toml` is a variable of the build, its name in upper
/// case.
pub proof fn law_extra_fields_are_variables(meta: PackageMeta, survey: Survey, i: int)
    requires
        0 <= i < meta.extra@.len(),
    ensures
        build_variables(meta, survey).contains(
            (uppercase(meta.extra@[i].0@), meta.extra@[i].1.shown()),
        ),
{
    let all = build_variables(meta, survey);
    let at = all.len() - meta.extra@.len() + i;
    assert(all[at] == extra_variables(meta.extra@)[i]);
}

/// A toolchain or a set of headers: used to build, never shipped.
pub open spec fn looks_build_only(name: Seq<char>) -> bool {
    ||| finishes_with(name, "-native"@)
    ||| name == "llvm"@
    ||| name == "llvm21"@
    ||| name == "compiler-rt"@
    ||| name == "cmake-native"@
    ||| name == "kernel-headers"@
    ||| name == "glibc-headers"@
    ||| name == "rust"@
    ||| name == "lmtest"@
}

/// Whether the name is that of a toolchain or of headers, which are build-only
/// (never shipped in a runtime /Core). Runtime libraries (e.g. llvm-runtimes) are
/// not. A package can say otherwise with `build_only` in its `meta.toml`.
pub fn build_only_heuristic(name: &str) -> (r: bool)
    ensures
        r == looks_build_only(name@),
{
    ends_with(name, "-native") || same_text(name, "llvm") || same_text(name, "llvm21") || same_text(
        name,
        "compiler-rt",
    ) || same_text(name, "cmake-native") || same_text(name, "kernel-headers") || same_text(
        name,
        "glibc-headers",
    ) || same_text(name, "rust") || same_text(name, "lmtest")
}

/// What a package manifest is made of, beside the files.
pub struct ManifestRequest {
    pub name: String,
    pub version: String,
    pub description: String,
    pub dependencies: Vec<String>,
    /// Never shipped in a runtime /Core.
    pub build_only: bool,
    /// A union of other packages' files.
    pub is_meta: bool,
}

/// `r` is what the manifest of a package says beside its files.
pub open spec fn describes(r: ManifestRequest, meta: PackageMeta) -> bool {
    &&& r.name@ == meta.name@
    &&& r.version@ == meta.version@
    &&& r.description@ == meta.description@
    &&& texts(r.dependencies@) == texts(meta.dependencies@)
    &&& r.build_only == meta.flag_or("build_only"@, looks_build_only(meta.name@))
    &&& r.is_meta == meta.flag_or("meta"@, meta.name@ == "base-image"@)
}

/// What the manifest of a package says beside its files. `build_only` and `meta` in
/// `meta.toml` come before what the name suggests: toolchains and headers are
/// build-only, and `base-image` is a union of other packages.
pub fn emit_package_manifest(meta: &PackageMeta) -> (r: ManifestRequest)
    ensures
        describes(r, *meta),
{
    let build_only = match meta.flag("build_only") {
        Some(b) => b,
        None => build_only_heuristic(meta.name.as_str()),
    };
    let is_meta = match meta.flag("meta") {
        Some(b) => b,
        None => same_text(meta.name.as_str(), "base-image"),
    };
    let mut dependencies: Vec<String> = Vec::new();
    let mut i: usize = 0;
    while i < meta.dependencies.len()
        invariant
            i <= meta.dependencies@.len(),
            dependencies@.len() == i,
            forall|k: int|
                0 <= k < i ==> (#[trigger] dependencies@[k])@ == meta.dependencies@[k]@,
        decreases meta.dependencies.len() - i,
    {
        dependencies.push(meta.dependencies[i].clone());
        i = i + 1;
    }
    assert(texts(dependencies@) =~= texts(meta.dependencies@));
    ManifestRequest {
        name: meta.name.clone(),
        version: meta.version.clone(),
        description: meta.description.clone(),
        dependencies,
        build_only,
        is_meta,
    }
}

/// The line about a manifest that was written.
pub open spec fn manifest_line(files: nat, build_only: bool) -> Seq<char> {
    "  Manifest: "@ + decimal(files) + " files"@ + (if build_only {
        " (build-only)"@
    } else {
        ""@
    })
}

/// The line about a manifest that was written.
pub fn manifest_note(files: usize, build_only: bool) -> (r: String)
    ensures
        r@ == manifest_line(files as nat, build_only),
{
    let mut r = concat3("  Manifest: ", decimal_text(files as u64).as_str(), " files");
    if build_only {
        r.append(" (build-only)");
    } else {
        r.append("");
    }
    r
}

/// The part of writing a manifest that failed.
#[derive(Clone, Copy, PartialEq, Eq, Structural, Debug)]
pub enum ManifestStage {
    /// Looking at the files of the package.
    Scan,
    /// Writing `package.json`.
    Write,
}

/// The message about a manifest that could not be written.
pub open spec fn manifest_complaint(stage: ManifestStage, error: Seq<char>) -> Seq<char> {
    match stage {
        ManifestStage::Scan => "scan package manifest: "@ + error,
        ManifestStage::Write => "write package.json: "@ + error,
    }
}

/// The message about a manifest that could not be written.
pub fn manifest_failure(stage: ManifestStage, error: &str) -> (r: String)
    ensures
        r@ == manifest_complaint(stage, error@),
{
    match stage {
        ManifestStage::Scan => concat2("scan package manifest: ", error),
        ManifestStage::Write => concat2("write package.json: ", error),
    }
}

/// What an entry of a directory is.
#[derive(Clone, Copy, PartialEq, Eq, Structural, Debug)]
pub enum EntryKind {
    Directory,
    Link,
    File,
}

/// One thing that is done to copy a directory tree.
#[derive(Clone, Copy, PartialEq, Eq, Structural, Debug)]
pub enum CopyStep {
    /// Make the directory that is copied to.
    MakeTarget,
    /// Begin to read the directory that is copied.
    OpenSource,
    /// Read its next entry.
    ReadEntry,
    /// Find out what the entry is.
    ReadKind,
    /// Copy the directory below.
    Descend,
    /// Read where the link leads.
    ReadLink,
    /// Remove what is in the way.
    ClearWay,
    /// Make a link that leads there too.
    MakeLink,
    /// Copy the file.
    CopyContent,
    /// Give the copy the full mode of the file, with setuid, setgid and sticky bits.
    CopyMode,
}

/// How an entry is copied. A link stays a link. What is in the way is removed
/// first, for a read-only file cannot be overwritten in place.
pub open spec fn entry_steps(kind: EntryKind) -> Seq<CopyStep> {
    match kind {
        EntryKind::Directory => seq![CopyStep::Descend],
        EntryKind::Link => seq![CopyStep::ReadLink, CopyStep::ClearWay, CopyStep::MakeLink],
        EntryKind::File => seq![CopyStep::ClearWay, CopyStep::CopyContent, CopyStep::CopyMode],
    }
}

/// How an entry is copied.
pub fn copy_entry(kind: EntryKind) -> (r: Vec<CopyStep>)
    ensures
        r@ == entry_steps(kind),
{
    let r = match kind {
        EntryKind::Directory => vec![CopyStep::Descend],
        EntryKind::Link => vec![CopyStep::ReadLink, CopyStep::ClearWay, CopyStep::MakeLink],
        EntryKind::File => vec![CopyStep::ClearWay, CopyStep::CopyContent, CopyStep::CopyMode],
    };
    assert(r@ =~= entry_steps(kind));
    r
}

/// The message about a step of a copy that failed; none if that does not matter.
/// `src`, `dst` and `link` are how the paths are shown.
pub open spec fn copy_complaint(
    step: CopyStep,
    src: Seq<char>,
    dst: Seq<char>,
    link: Seq<char>,
    error: Seq<char>,
) -> Option<Seq<char>> {
    match step {
        CopyStep::MakeTarget => Some("mkdir "@ + dst + ": "@ + error),
        CopyStep::OpenSource => Some("readdir "@ + src + ": "@ + error),
        CopyStep::ReadEntry => Some("entry: "@ + error),
        CopyStep::ReadKind => Some("filetype: "@ + error),
        CopyStep::Descend => Some(error),
        CopyStep::ReadLink => Some("readlink "@ + src + ": "@ + error),
        CopyStep::ClearWay => None,
        CopyStep::MakeLink => Some("symlink "@ + dst + " -> "@ + link + ": "@ + error),
        CopyStep::CopyContent => Some("copy "@ + src + ": "@ + error),
        CopyStep::CopyMode => None,
    }
}

/// The message about a step of a copy that failed, if the copy ends with it.
pub fn copy_failure(step: CopyStep, src: &str, dst: &str, link: &str, error: &str) -> (r: Option<
    String,
>)
    ensures
        opt_text(r) == copy_complaint(step, src@, dst@, link@, error@),
{
    match step {
        CopyStep::MakeTarget => {
            let mut m = concat3("mkdir ", dst, ": ");
            m.append(error);
            Some(m)
        },
        CopyStep::OpenSource => {
            let mut m = concat3("readdir ", src, ": ");
            m.append(error);
            Some(m)
        },
        CopyStep::ReadEntry => Some(concat2("entry: ", error)),
        CopyStep::ReadKind => Some(concat2("filetype: ", error)),
        CopyStep::Descend => Some(error.to_owned()),
        CopyStep::ReadLink => {
            let mut m = concat3("readlink ", src, ": ");
            m.append(error);
            Some(m)
        },
        CopyStep::ClearWay => None,
        CopyStep::MakeLink => {
            let mut m = concat3("symlink ", dst, " -> ");
            m.append(link);
            m.append(": ");
            m.append(error);
            Some(m)
        },
        CopyStep::CopyContent => {
            let mut m = concat3("copy ", src, ": ");
            m.append(error);
            Some(m)
        },
        CopyStep::CopyMode => None,
    }
}

} // verus!
