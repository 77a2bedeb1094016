//! Whole builds: what the moves of a build come to, from its first event to its last, and
//! what one build leaves for the next.

use std::collections::hash_map::DefaultHasher;
use vstd::prelude::*;
use vstd::std_specs::hash::DefaultHasherAdditionalSpecFns;

use crate::builder::can_skip;
use crate::builder::content_key;
use crate::builder::decided;
use crate::builder::framed;
use crate::builder::key_pieces;
use crate::builder::law_unchanged_build_is_skipped;
use crate::builder::linking;
use crate::builder::opt_text;
use crate::builder::preparing;
use crate::builder::publishing;
use crate::builder::record;
use crate::builder::staging;
use crate::builder::BuildEvent;
use crate::builder::BuildMove;
use crate::builder::BuildOptions;
use crate::builder::LocalSource;
use crate::builder::Milestone;
use crate::builder::Place;
use crate::builder::Step;
use crate::config::Package;

verus! {

/// An event that can come of a move.
pub open spec fn comes_of(m: BuildMove, event: BuildEvent) -> bool {
    match m {
        BuildMove::Take { then, .. } => match then {
            Milestone::Prepared => event is Prepared,
            Milestone::Staged => event is Staged,
            Milestone::Published => event is Published,
        },
        BuildMove::FindLocal { .. } => event is Located || event is NotLocated,
        BuildMove::ReadKey { stamp, .. } => event matches BuildEvent::Keyed { stamp: s, .. } && (
        !stamp ==> s is None),
        BuildMove::Survey { .. } => event is Surveyed,
        BuildMove::Launch { .. } => event is Ran,
        BuildMove::LookForOutput => event is Looked,
        BuildMove::Skip | BuildMove::Finish | BuildMove::Fail { .. } => false,
    }
}

/// The events of a build and what was decided after each: it begins with the request, and
/// each further event comes of the move before it.
pub open spec fn is_build(
    pkg: Package,
    opts: BuildOptions,
    events: Seq<BuildEvent>,
    moves: Seq<BuildMove>,
) -> bool {
    &&& events.len() == moves.len()
    &&& events.len() > 0
    &&& events[0] is Asked
    &&& forall|i: int| 0 <= i < moves.len() ==> decided(pkg, opts, events[i], #[trigger] moves[i])
    &&& forall|i: int| 1 <= i < moves.len() ==> comes_of(moves[i - 1], #[trigger] events[i])
}

/// The steps that a move takes.
pub open spec fn steps_of(m: BuildMove) -> Seq<Step> {
    match m {
        BuildMove::Take { steps, .. } => steps@,
        BuildMove::Launch { steps, .. } => steps@,
        _ => Seq::empty(),
    }
}

/// The steps that some moves take, in order.
pub open spec fn steps_taken(moves: Seq<BuildMove>) -> Seq<Step>
    decreases moves.len(),
{
    if moves.len() == 0 {
        Seq::empty()
    } else {
        steps_taken(moves.drop_last()) + steps_of(moves.last())
    }
}

/// The key that a build was found to have.
pub open spec fn key_in(events: Seq<BuildEvent>) -> Option<Seq<char>>
    decreases events.len(),
{
    if events.len() == 0 {
        None
    } else {
        match events.last() {
            BuildEvent::Keyed { key, .. } => Some(key@),
            _ => key_in(events.drop_last()),
        }
    }
}

/// The record of the last installed build that a build found.
pub open spec fn record_in(events: Seq<BuildEvent>) -> Option<Seq<char>>
    decreases events.len(),
{
    if events.len() == 0 {
        None
    } else {
        match events.last() {
            BuildEvent::Keyed { stamp, .. } => opt_text(stamp),
            _ => record_in(events.drop_last()),
        }
    }
}

/// Whether a build found dash in the sysroot.
pub open spec fn dash_in(events: Seq<BuildEvent>) -> bool
    decreases events.len(),
{
    if events.len() == 0 {
        false
    } else {
        match events.last() {
            BuildEvent::Surveyed { survey } => survey.dash,
            _ => dash_in(events.drop_last()),
        }
    }
}

/// The record that a build leaves, if it leaves one: its key.
pub open spec fn record_left(events: Seq<BuildEvent>, moves: Seq<BuildMove>) -> Option<Seq<char>> {
    if steps_taken(moves).contains(Step::WriteStamp) && key_in(events) is Some {
        Some(record(key_in(events)->0))
    } else {
        None
    }
}

/// All steps of a build that is not skipped and leaves output, in order.
pub open spec fn whole_build(opts: BuildOptions, patches: bool, dash: bool) -> Seq<Step> {
    preparing() + staging(patches) + linking(opts.self_hosted, dash) + publishing(opts.install)
}

/// The record of a build is written if and only if it is installed, as the very
/// last step, after its output has been merged into the sysroot; without an
/// installation nothing is copied into the sysroot at all.
pub proof fn law_recorded_when_installed(opts: BuildOptions, patches: bool, dash: bool)
    ensures
        whole_build(opts, patches, dash).contains(Step::WriteStamp) <==> opts.install,
        whole_build(opts, patches, dash).contains(Step::CopyTree(Place::OutDir, Place::Sysroot))
            <==> opts.install,
        opts.install ==> whole_build(opts, patches, dash).last() == Step::WriteStamp,
        forall|i: int|
            0 <= i < whole_build(opts, patches, dash).len() && #[trigger] whole_build(
                opts,
                patches,
                dash,
            )[i] == Step::WriteStamp ==> i == whole_build(opts, patches, dash).len() - 1,
{
    let all = whole_build(opts, patches, dash);
    if opts.install {
        assert(all[all.len() - 1] == Step::WriteStamp);
        assert(all[all.len() - 3] == Step::CopyTree(Place::OutDir, Place::Sysroot));
    }
}

/// What an earlier build left is removed before the script is staged and run, so
/// that only what this build installs is published.
pub proof fn law_fresh_output(opts: BuildOptions, patches: bool, dash: bool)
    ensures
        forall|i: int|
            0 <= i < whole_build(opts, patches, dash).len() && (match #[trigger] whole_build(
                opts,
                patches,
                dash,
            )[i] {
                Step::CopyTree(from, _) => from == Place::OutDir,
                _ => false,
            }) ==> whole_build(opts, patches, dash).take(i).contains(
                Step::RemoveTree(Place::OutDir),
            ),
{
    let all = whole_build(opts, patches, dash);
    assert(all[2] == Step::RemoveTree(Place::OutDir));
    assert forall|i: int| 3 <= i < all.len() implies all.take(i).contains(
        Step::RemoveTree(Place::OutDir),
    ) by {
        assert(all.take(i)[2] == all[2]);
    }
}

/// One more move takes its steps after those before it.
proof fn one_more(moves: Seq<BuildMove>, i: int)
    requires
        0 <= i < moves.len(),
    ensures
        steps_taken(moves.take(i + 1)) == steps_taken(moves.take(i)) + steps_of(moves[i]),
{
    assert(moves.take(i + 1).drop_last() =~= moves.take(i));
}

/// What one more event says.
proof fn one_more_event(events: Seq<BuildEvent>, i: int)
    requires
        0 <= i < events.len(),
    ensures
        key_in(events.take(i + 1)) == (match events[i] {
            BuildEvent::Keyed { key, .. } => Some(key@),
            _ => key_in(events.take(i)),
        }),
        record_in(events.take(i + 1)) == (match events[i] {
            BuildEvent::Keyed { stamp, .. } => opt_text(stamp),
            _ => record_in(events.take(i)),
        }),
        dash_in(events.take(i + 1)) == (match events[i] {
            BuildEvent::Surveyed { survey } => survey.dash,
            _ => dash_in(events.take(i)),
        }),
{
    assert(events.take(i + 1).drop_last() =~= events.take(i));
}

/// How a build begins: its directories are made, and nothing more is done until its key
/// is known, at the place `k`. Without a key it gets no further than that.
proof fn opening(
    pkg: Package,
    opts: BuildOptions,
    events: Seq<BuildEvent>,
    moves: Seq<BuildMove>,
) -> (k: int)
    requires
        is_build(pkg, opts, events, moves),
    ensures
        k == 2 || k == 3,
        k < events.len() ==> {
            &&& events[k] is Keyed
            &&& comes_of(moves[k - 1], events[k])
            &&& steps_taken(moves.take(k)) == preparing()
            &&& key_in(events.take(k)) is None
            &&& forall|i: int| 0 <= i < k ==> !((#[trigger] moves[i]) is Launch)
        } || (k == 3 && events[2] is NotLocated),
        (k >= events.len() || events[2] is NotLocated) ==> key_in(events) is None && !(
        moves.last() is Finish) && !(moves.last() is Skip),
{
    let n = events.len() as int;
    assert(moves.take(0) =~= Seq::empty());
    assert(events.take(0) =~= Seq::empty());
    assert(events.take(n) =~= events);
    assert(decided(pkg, opts, events[0], moves[0]));
    one_more(moves, 0);
    one_more_event(events, 0);
    assert(steps_taken(moves.take(1)) =~= preparing());
    if n >= 2 {
        assert(comes_of(moves[0], events[1]));
        assert(decided(pkg, opts, events[1], moves[1]));
        one_more(moves, 1);
        one_more_event(events, 1);
        assert(steps_taken(moves.take(2)) =~= preparing());
        if moves[1] is FindLocal {
            if n >= 3 {
                assert(comes_of(moves[1], events[2]));
                assert(decided(pkg, opts, events[2], moves[2]));
                one_more(moves, 2);
                one_more_event(events, 2);
                assert(steps_taken(moves.take(3)) =~= preparing());
                if n >= 4 {
                    assert(comes_of(moves[2], events[3]));
                }
            }
            3
        } else {
            if n >= 3 {
                assert(comes_of(moves[1], events[2]));
            }
            2
        }
    } else {
        2
    }
}

/// An event that comes after the key is known.
spec fn is_late(event: BuildEvent) -> bool {
    event is Staged || event is Surveyed || event is Ran || event is Looked || event is Published
}

/// After the key is known, no further key is looked for.
proof fn late_events(
    pkg: Package,
    opts: BuildOptions,
    events: Seq<BuildEvent>,
    moves: Seq<BuildMove>,
    k: int,
    j: int,
)
    requires
        is_build(pkg, opts, events, moves),
        0 <= k < j < events.len(),
        events[k] is Keyed,
    ensures
        is_late(events[j]),
    decreases j,
{
    if j > k + 1 {
        late_events(pkg, opts, events, moves, k, j - 1);
    }
    assert(decided(pkg, opts, events[j - 1], moves[j - 1]));
    assert(comes_of(moves[j - 1], events[j]));
}

/// The key and the record that a build found are those of the one event that says so.
proof fn keyed_once(
    pkg: Package,
    opts: BuildOptions,
    events: Seq<BuildEvent>,
    moves: Seq<BuildMove>,
    k: int,
    j: int,
)
    requires
        is_build(pkg, opts, events, moves),
        0 <= k < j <= events.len(),
        events[k] is Keyed,
    ensures
        key_in(events.take(j)) == Some(events[k]->Keyed_key@),
        record_in(events.take(j)) == opt_text(events[k]->Keyed_stamp),
    decreases j,
{
    one_more_event(events, j - 1);
    if j > k + 1 {
        keyed_once(pkg, opts, events, moves, k, j - 1);
        late_events(pkg, opts, events, moves, k, j - 1);
    }
}

/// The steps of a build that finishes are those that `whole_build` lists if the build
/// script left output, and else those up to its run; each is taken once and in this order.
pub proof fn law_build_takes_these_steps(
    pkg: Package,
    opts: BuildOptions,
    events: Seq<BuildEvent>,
    moves: Seq<BuildMove>,
)
    requires
        is_build(pkg, opts, events, moves),
        moves.last() is Finish,
    ensures
        steps_taken(moves) == (if events.last() is Published {
            whole_build(opts, pkg.patches_dir is Some, dash_in(events))
        } else {
            preparing() + staging(pkg.patches_dir is Some) + linking(
                opts.self_hosted,
                dash_in(events),
            )
        }),
        opts.install ==> events.last() is Published,
        key_in(events) is Some,
{
    let n = events.len() as int;
    let k = opening(pkg, opts, events, moves);
    let patches = pkg.patches_dir is Some;
    assert(k < n && events[k] is Keyed);
    assert(decided(pkg, opts, events[k], moves[k]));
    one_more(moves, k);
    one_more_event(events, k);
    let a = preparing() + staging(patches);
    assert(steps_taken(moves.take(k + 1)) =~= a);
    assert(k + 1 < n);
    assert(comes_of(moves[k], events[k + 1]));
    assert(decided(pkg, opts, events[k + 1], moves[k + 1]));
    one_more(moves, k + 1);
    one_more_event(events, k + 1);
    assert(steps_taken(moves.take(k + 2)) =~= a);
    assert(comes_of(moves[k + 1], events[k + 2]));
    assert(decided(pkg, opts, events[k + 2], moves[k + 2]));
    one_more(moves, k + 2);
    one_more_event(events, k + 2);
    let dash = dash_in(events.take(k + 3));
    let b = a + linking(opts.self_hosted, dash);
    assert(steps_taken(moves.take(k + 3)) =~= b);
    assert(comes_of(moves[k + 2], events[k + 3]));
    assert(decided(pkg, opts, events[k + 3], moves[k + 3]));
    one_more(moves, k + 3);
    one_more_event(events, k + 3);
    assert(steps_taken(moves.take(k + 4)) =~= b);
    assert(comes_of(moves[k + 3], events[k + 4]));
    assert(decided(pkg, opts, events[k + 4], moves[k + 4]));
    one_more(moves, k + 4);
    one_more_event(events, k + 4);
    if moves[k + 4] is Finish {
        assert(steps_taken(moves.take(k + 5)) =~= b);
        if k + 5 < n {
            assert(comes_of(moves[k + 4], events[k + 5]));
        }
    } else {
        assert(steps_taken(moves.take(k + 5)) =~= b + publishing(opts.install));
        assert(comes_of(moves[k + 4], events[k + 5]));
        assert(decided(pkg, opts, events[k + 5], moves[k + 5]));
        one_more(moves, k + 5);
        one_more_event(events, k + 5);
        assert(steps_taken(moves.take(k + 6)) =~= b + publishing(opts.install));
        if k + 6 < n {
            assert(comes_of(moves[k + 5], events[k + 6]));
        }
    }
    assert(moves.take(n) =~= moves);
    assert(events.take(n) =~= events);
}

/// A build that is installed and finishes leaves its key as the record.
pub proof fn law_installed_build_leaves_its_key(
    pkg: Package,
    opts: BuildOptions,
    events: Seq<BuildEvent>,
    moves: Seq<BuildMove>,
)
    requires
        is_build(pkg, opts, events, moves),
        moves.last() is Finish,
        opts.install,
    ensures
        key_in(events) is Some,
        record_left(events, moves) == Some(record(key_in(events)->0)),
{
    law_build_takes_these_steps(pkg, opts, events, moves);
    law_recorded_when_installed(opts, pkg.patches_dir is Some, dash_in(events));
}

/// An unchanged package is built once. After a build that was installed and finished, a
/// second one that is to be installed, is not forced, and has the same script, the same
/// `meta.toml` and the same answers of git is skipped: it finds the record that the first
/// one left, makes sure that its directories are there, and neither runs the sandbox nor
/// touches any output.
pub proof fn law_second_build_is_skipped(
    pkg: Package,
    opts: BuildOptions,
    events: Seq<BuildEvent>,
    moves: Seq<BuildMove>,
    again: BuildOptions,
    later_events: Seq<BuildEvent>,
    later_moves: Seq<BuildMove>,
    script: Option<Vec<u8>>,
    meta: Option<Vec<u8>>,
    git: Seq<Option<Vec<u8>>>,
)
    requires
        is_build(pkg, opts, events, moves),
        moves.last() is Finish,
        opts.install,
        key_in(events) == Some(content_key(script, meta, git)),
        is_build(pkg, again, later_events, later_moves),
        again.install,
        !again.force,
        key_in(later_events) == Some(content_key(script, meta, git)),
        record_in(later_events) == record_left(events, moves),
    ensures
        later_moves.last() is Skip,
        steps_taken(later_moves) == preparing(),
        forall|i: int| 0 <= i < later_moves.len() ==> !((#[trigger] later_moves[i]) is Launch),
{
    law_installed_build_leaves_its_key(pkg, opts, events, moves);
    let n = later_events.len() as int;
    let k = opening(pkg, again, later_events, later_moves);
    assert(k < n && later_events[k] is Keyed);
    assert(decided(pkg, again, later_events[k], later_moves[k]));
    one_more(later_moves, k);
    one_more_event(later_events, k);
    keyed_once(pkg, again, later_events, later_moves, k, n);
    assert(later_events.take(n) =~= later_events);
    skip_by_key(again, script, meta, git);
    assert(later_moves[k] is Skip);
    if k + 1 < n {
        assert(comes_of(later_moves[k], later_events[k + 1]));
    }
    assert(later_moves.take(n) =~= later_moves);
    assert(steps_taken(later_moves) =~= preparing());
}

/// A key is skipped by itself.
proof fn skip_by_key(
    opts: BuildOptions,
    script: Option<Vec<u8>>,
    meta: Option<Vec<u8>>,
    git: Seq<Option<Vec<u8>>>,
)
    requires
        opts.install,
        !opts.force,
    ensures
        can_skip(opts, content_key(script, meta, git), Some(content_key(script, meta, git))),
{
    law_unchanged_build_is_skipped(
        opts,
        DefaultHasher::spec_finish(framed(key_pieces(script, meta, git))),
    );
}

/// A build for which a local tree was named on the command line knows its key, and runs its
/// script, only after that tree was found.
pub proof fn law_named_tree_is_found_first(
    pkg: Package,
    opts: BuildOptions,
    events: Seq<BuildEvent>,
    moves: Seq<BuildMove>,
    i: int,
)
    requires
        is_build(pkg, opts, events, moves),
        opts.local_given,
        0 <= i < events.len(),
        !(events[i] is Asked) && !(events[i] is Prepared) && !(events[i] is NotLocated),
    ensures
        events.len() > 2,
        moves[1] == (BuildMove::FindLocal { source: LocalSource::Given }),
        events[2] is Located,
        2 <= i,
{
    assert(decided(pkg, opts, events[0], moves[0]));
    assert(i > 0);
    assert(comes_of(moves[0], events[1]));
    assert(decided(pkg, opts, events[1], moves[1]));
    assert(i > 1);
    assert(comes_of(moves[1], events[2]));
    assert(decided(pkg, opts, events[2], moves[2]));
    if i > 2 {
        assert(comes_of(moves[2], events[3]));
    }
}

/// A build that left output and finishes has its artifacts in the package's own output
/// directory, installed or not: what the script left was copied there after that directory
/// was emptied and made, and before the manifest was written; and into the output
/// directory nothing else was copied.
pub proof fn law_finished_build_is_published(
    pkg: Package,
    opts: BuildOptions,
    events: Seq<BuildEvent>,
    moves: Seq<BuildMove>,
)
    requires
        is_build(pkg, opts, events, moves),
        moves.last() is Finish,
        events.last() is Published,
    ensures
        exists|a: int, b: int, c: int, d: int|
            0 <= a < b < c < d < steps_taken(moves).len() && #[trigger] steps_taken(moves)[a]
                == Step::RemoveTree(Place::PackageOutput) && #[trigger] steps_taken(moves)[b]
                == Step::MakeDir(Place::PackageOutput) && #[trigger] steps_taken(moves)[c]
                == Step::CopyTree(Place::OutDir, Place::PackageOutput) && #[trigger] steps_taken(
                moves,
            )[d] == Step::WriteManifest,
        forall|i: int|
            0 <= i < steps_taken(moves).len() ==> match #[trigger] steps_taken(moves)[i] {
                Step::CopyTree(from, to) => {
                    ||| from == Place::OutDir && to == Place::PackageOutput
                    ||| from == Place::OutDir && to == Place::Sysroot && opts.install
                    ||| from == Place::Patches && to == Place::StagedPatches
                },
                Step::CopyFile(from, to) => from == Place::Script && to == Place::StagedScript,
                Step::RemoveTree(at) => at == Place::OutDir || at == Place::PackageOutput,
                Step::RemoveFile(at) => at == Place::BinShell,
                _ => true,
            },
{
    law_build_takes_these_steps(pkg, opts, events, moves);
    let all = steps_taken(moves);
    let patches = pkg.patches_dir is Some;
    let dash = dash_in(events);
    let n = (preparing() + staging(patches) + linking(opts.self_hosted, dash)).len() as int;
    assert(all[n] == Step::RemoveTree(Place::PackageOutput));
    assert(all[n + 1] == Step::MakeDir(Place::PackageOutput));
    assert(all[n + 2] == Step::CopyTree(Place::OutDir, Place::PackageOutput));
    assert(all[n + 4] == Step::WriteManifest);
}

/// A build whose script failed ends there: it is not published, not installed and not
/// recorded.
pub proof fn law_failed_script_ends_the_build(
    pkg: Package,
    opts: BuildOptions,
    events: Seq<BuildEvent>,
    moves: Seq<BuildMove>,
    i: int,
)
    requires
        is_build(pkg, opts, events, moves),
        0 <= i < events.len(),
        events[i] is Ran,
        events[i]->code != 0,
    ensures
        i == events.len() - 1,
        moves.last() is Fail,
{
    assert(decided(pkg, opts, events[i], moves[i]));
    if i + 1 < events.len() {
        assert(comes_of(moves[i], events[i + 1]));
    }
}

/// The script of a build is staged before it is run, and it is run once at most.
pub proof fn law_script_runs_once(
    pkg: Package,
    opts: BuildOptions,
    events: Seq<BuildEvent>,
    moves: Seq<BuildMove>,
    i: int,
    j: int,
)
    requires
        is_build(pkg, opts, events, moves),
        0 <= i <= j < moves.len(),
        moves[i] is Launch,
        moves[j] is Launch,
    ensures
        i == j,
        i >= 2,
        steps_of(moves[i - 2]).contains(Step::CopyFile(Place::Script, Place::StagedScript)),
        pkg.patches_dir is Some ==> steps_of(moves[i - 2]).contains(
            Step::CopyTree(Place::Patches, Place::StagedPatches),
        ),
{
    assert(decided(pkg, opts, events[i], moves[i]));
    assert(i > 0);
    assert(comes_of(moves[i - 1], events[i]));
    assert(decided(pkg, opts, events[i - 1], moves[i - 1]));
    assert(i > 1);
    assert(comes_of(moves[i - 2], events[i - 1]));
    assert(decided(pkg, opts, events[i - 2], moves[i - 2]));
    let staged = steps_of(moves[i - 2]);
    assert(staged[1] == Step::CopyFile(Place::Script, Place::StagedScript));
    if pkg.patches_dir is Some {
        assert(staged[2] == Step::CopyTree(Place::Patches, Place::StagedPatches));
    }
    if i < j {
        after_launch(pkg, opts, events, moves, i, j);
    }
}

/// After the script has run, what is left is to look for output and to publish it.
proof fn after_launch(
    pkg: Package,
    opts: BuildOptions,
    events: Seq<BuildEvent>,
    moves: Seq<BuildMove>,
    i: int,
    j: int,
)
    requires
        is_build(pkg, opts, events, moves),
        0 <= i < j < moves.len(),
        moves[i] is Launch,
    ensures
        events[j] is Ran || events[j] is Looked || events[j] is Published,
        !(moves[j] is Launch),
    decreases j,
{
    if i < j - 1 {
        after_launch(pkg, opts, events, moves, i, j - 1);
    }
    assert(decided(pkg, opts, events[j - 1], moves[j - 1]));
    assert(comes_of(moves[j - 1], events[j]));
    assert(decided(pkg, opts, events[j], moves[j]));
}

} // verus!
