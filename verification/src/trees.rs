//! What copying a directory tree comes to: the steps for each entry, played through on a
//! model of a file system.
//!
//! The model is cautious. A step counts as done only where it is sure to be: a link or a
//! file is made only where nothing stands. A directory is made where nothing stands; one
//! that is there already is used as it is, and so is one that a link leads to. How links
//! lead is left open: what is shown holds for every way in which they may.

use vstd::prelude::*;

use crate::builder::copy_complaint;
use crate::builder::entry_steps;
use crate::builder::CopyStep;
use crate::builder::EntryKind;

verus! {

/// What stands at a path.
pub ghost enum TreeEntry {
    Directory,
    /// A link, with where it leads.
    Link(Seq<char>),
    /// A file, with its full mode: the permissions are the last nine bits.
    File { content: Seq<u8>, mode: nat },
}

/// A path: names, one below the other.
pub type Path = Seq<Seq<char>>;

/// A file system: what stands at each place. A place is a path on which nothing is a link.
pub type Tree = Map<Path, TreeEntry>;

/// Where a link leads: for a file system and the place of a link, the directory at the end
/// of it, if there is one.
pub type Follow = spec_fn(Tree, Path) -> Option<Path>;

/// What kind of entry it is.
pub open spec fn kind_of(entry: TreeEntry) -> EntryKind {
    match entry {
        TreeEntry::Directory => EntryKind::Directory,
        TreeEntry::Link(_) => EntryKind::Link,
        TreeEntry::File { .. } => EntryKind::File,
    }
}

/// What stands at a place, if anything does.
pub open spec fn standing(tree: Tree, path: Path) -> Option<TreeEntry> {
    if tree.contains_key(path) {
        Some(tree[path])
    } else {
        None
    }
}

/// What stands at the target after a step of the copy of `src`, where `at` stood before;
/// none if the step fails. `leads`: what stands there is a link that leads to a directory.
pub open spec fn after_step(
    step: CopyStep,
    src: TreeEntry,
    at: Option<TreeEntry>,
    leads: bool,
) -> Option<Option<TreeEntry>> {
    match step {
        CopyStep::MakeTarget | CopyStep::Descend => match at {
            None => Some(Some(TreeEntry::Directory)),
            Some(TreeEntry::Directory) => Some(at),
            Some(TreeEntry::Link(_)) => if leads {
                Some(at)
            } else {
                None
            },
            Some(TreeEntry::File { .. }) => None,
        },
        CopyStep::OpenSource | CopyStep::ReadEntry | CopyStep::ReadKind => Some(at),
        CopyStep::ReadLink => if src is Link {
            Some(at)
        } else {
            None
        },
        CopyStep::ClearWay => match at {
            Some(TreeEntry::Link(_)) => Some(None),
            Some(TreeEntry::File { .. }) => Some(None),
            _ => None,
        },
        CopyStep::MakeLink => if at is None && src is Link {
            Some(Some(src))
        } else {
            None
        },
        CopyStep::CopyContent => match (src, at) {
            (TreeEntry::File { content, mode }, None) => Some(
                Some(TreeEntry::File { content, mode: mode % 512 }),
            ),
            _ => None,
        },
        CopyStep::CopyMode => match (src, at) {
            (TreeEntry::File { content, mode }, Some(TreeEntry::File { content: copied, .. })) => Some(
                Some(TreeEntry::File { content: copied, mode }),
            ),
            _ => None,
        },
    }
}

/// That a step fails does not matter: there is no message about it.
pub open spec fn may_fail(step: CopyStep) -> bool {
    copy_complaint(step, Seq::empty(), Seq::empty(), Seq::empty(), Seq::empty()) is None
}

/// What stands at the target after some steps; none if a step fails that matters.
pub open spec fn after_steps(
    steps: Seq<CopyStep>,
    src: TreeEntry,
    at: Option<TreeEntry>,
    leads: bool,
) -> Option<Option<TreeEntry>>
    decreases steps.len(),
{
    if steps.len() == 0 {
        Some(at)
    } else {
        match after_step(steps[0], src, at, leads) {
            Some(next) => after_steps(steps.drop_first(), src, next, leads),
            None => if may_fail(steps[0]) {
                after_steps(steps.drop_first(), src, at, leads)
            } else {
                None
            },
        }
    }
}

/// What stands at the target after one entry was copied; none if that fails. The entries
/// of a directory are copied by themselves.
pub open spec fn entry_copied(src: TreeEntry, at: Option<TreeEntry>, leads: bool) -> Option<
    Option<TreeEntry>,
> {
    after_steps(entry_steps(kind_of(src)), src, at, leads)
}

/// An entry can be copied over what stands at the target: a directory over a directory or
/// a link that leads to one, a link or a file over anything but a directory, and each to
/// where nothing stands.
pub open spec fn fits(src: TreeEntry, at: Option<TreeEntry>, leads: bool) -> bool {
    match at {
        None => true,
        Some(TreeEntry::Directory) => src is Directory,
        Some(TreeEntry::Link(_)) => src is Directory ==> leads,
        Some(TreeEntry::File { .. }) => !(src is Directory),
    }
}

/// How far a copy has come: the file system, and the place of each directory that was
/// copied, by its path in the source.
#[verifier::ext_equal]
pub ghost struct CopyState {
    pub tree: Tree,
    pub lands: Map<Path, Path>,
}

/// Where an entry of the source lands, if the directory that it is in has landed.
pub open spec fn landing(state: CopyState, path: Path) -> Path {
    state.lands[path.drop_last()].push(path.last())
}

/// What stands where an entry lands is a link that leads to a directory.
pub open spec fn is_followed(follow: Follow, state: CopyState, path: Path) -> bool {
    let at = landing(state, path);
    standing(state.tree, at) is Some && standing(state.tree, at)->0 is Link && follow(
        state.tree,
        at,
    ) is Some
}

/// How far a copy has come with one more entry; none if that fails.
#[verifier::opaque]
pub open spec fn with_entry(follow: Follow, state: CopyState, path: Path, entry: TreeEntry) -> Option<
    CopyState,
> {
    let at = landing(state, path);
    let leads = is_followed(follow, state, path);
    if path.len() == 0 || !state.lands.contains_key(path.drop_last()) {
        None
    } else {
        match entry_copied(entry, standing(state.tree, at), leads) {
            Some(Some(there)) => Some(
                CopyState {
                    tree: state.tree.insert(at, there),
                    lands: if entry is Directory {
                        state.lands.insert(
                            path,
                            if leads {
                                follow(state.tree, at)->0
                            } else {
                                at
                            },
                        )
                    } else {
                        state.lands
                    },
                },
            ),
            _ => None,
        }
    }
}

/// How far a copy to the directory `root` has come after the first `n` entries of the
/// source, in the order in which they are walked; none if one of them failed.
pub open spec fn copied(
    src: Seq<(Path, TreeEntry)>,
    follow: Follow,
    root: Path,
    tree: Tree,
    n: nat,
) -> Option<CopyState>
    decreases n,
{
    if n == 0 {
        Some(CopyState { tree, lands: Map::empty().insert(Seq::empty(), root) })
    } else {
        match copied(src, follow, root, tree, (n - 1) as nat) {
            Some(state) => with_entry(follow, state, src[n - 1].0, src[n - 1].1),
            None => None,
        }
    }
}

/// Where the `i`th entry of the source lands when its turn comes.
pub open spec fn place(
    src: Seq<(Path, TreeEntry)>,
    follow: Follow,
    root: Path,
    tree: Tree,
    i: int,
) -> Path {
    landing(copied(src, follow, root, tree, i as nat)->0, src[i].0)
}

/// The `i`th entry of the source is a directory, and where it lands when its turn comes a
/// link leads to a directory.
pub open spec fn through_link(
    src: Seq<(Path, TreeEntry)>,
    follow: Follow,
    root: Path,
    tree: Tree,
    i: int,
) -> bool {
    src[i].1 is Directory && is_followed(
        follow,
        copied(src, follow, root, tree, i as nat)->0,
        src[i].0,
    )
}

/// The file system after a whole copy; none if the copy fails.
pub open spec fn tree_copied(
    src: Seq<(Path, TreeEntry)>,
    follow: Follow,
    root: Path,
    tree: Tree,
) -> Option<Tree> {
    match copied(src, follow, root, tree, src.len()) {
        Some(state) => Some(state.tree),
        None => None,
    }
}

/// An entry can be copied exactly where it fits. What stands there then is the same as the
/// entry, or the link that was followed.
proof fn entry_copy(src: TreeEntry, at: Option<TreeEntry>, leads: bool)
    ensures
        entry_copied(src, at, leads) is Some <==> fits(src, at, leads),
        entry_copied(src, at, leads) matches Some(there) ==> there == (if src is Directory
            && at is Some {
            at
        } else {
            Some(src)
        }),
{
    let steps = entry_steps(kind_of(src));
    reveal_with_fuel(after_steps, 4);
    if steps.len() > 1 {
        assert(steps.drop_first()[0] == steps[1]);
        assert(steps.drop_first().drop_first()[0] == steps[2]);
    }
}

/// What is in the way of a link or a file is removed before anything is made, and that
/// there was nothing to remove does not matter.
pub proof fn law_way_is_cleared_first(kind: EntryKind, i: int)
    requires
        0 <= i < entry_steps(kind).len(),
        entry_steps(kind)[i] == CopyStep::MakeLink || entry_steps(kind)[i]
            == CopyStep::CopyContent,
    ensures
        entry_steps(kind).take(i).contains(CopyStep::ClearWay),
        forall|src: Seq<char>, dst: Seq<char>, link: Seq<char>, error: Seq<char>| #[trigger]
            copy_complaint(CopyStep::ClearWay, src, dst, link, error) is None,
{
    let before = entry_steps(kind).take(i);
    assert(before[i - 1] == CopyStep::ClearWay);
}

/// The directory of an entry has landed, and the entry fits where it lands.
pub open spec fn can_land(follow: Follow, state: CopyState, path: Path, entry: TreeEntry) -> bool {
    &&& path.len() > 0
    &&& state.lands.contains_key(path.drop_last())
    &&& fits(
        entry,
        standing(state.tree, landing(state, path)),
        is_followed(follow, state, path),
    )
}

/// One more entry is copied exactly where it can land. It changes the place where it lands,
/// and nothing else.
proof fn entry_lands(follow: Follow, state: CopyState, path: Path, entry: TreeEntry)
    ensures
        with_entry(follow, state, path, entry) is Some <==> can_land(follow, state, path, entry),
        with_entry(follow, state, path, entry) matches Some(next) ==> {
            let at = landing(state, path);
            &&& next.tree == state.tree.insert(
                at,
                if entry is Directory && state.tree.contains_key(at) {
                    state.tree[at]
                } else {
                    entry
                },
            )
            &&& next.lands == (if entry is Directory {
                state.lands.insert(
                    path,
                    if is_followed(follow, state, path) {
                        follow(state.tree, at)->0
                    } else {
                        at
                    },
                )
            } else {
                state.lands
            })
        },
{
    reveal(with_entry);
    let at = landing(state, path);
    entry_copy(entry, standing(state.tree, at), is_followed(follow, state, path));
}

/// A copy succeeds if and only if each entry fits where it lands when its turn comes.
pub proof fn law_copy_succeeds_where_all_fits(
    src: Seq<(Path, TreeEntry)>,
    follow: Follow,
    root: Path,
    tree: Tree,
)
    ensures
        tree_copied(src, follow, root, tree) is Some <==> forall|i: int|
            0 <= i < src.len() ==> (#[trigger] copied(src, follow, root, tree, i as nat) matches Some(
                state,
            ) && can_land(follow, state, src[i].0, src[i].1)),
{
    assert forall|i: int| 0 <= i < src.len() implies (copied(
        src,
        follow,
        root,
        tree,
        (i + 1) as nat,
    ) is Some <==> (#[trigger] copied(src, follow, root, tree, i as nat) matches Some(state)
        && can_land(follow, state, src[i].0, src[i].1))) by {
        if copied(src, follow, root, tree, i as nat) is Some {
            let state = copied(src, follow, root, tree, i as nat)->0;
            entry_lands(follow, state, src[i].0, src[i].1);
        }
    }
    let all = forall|i: int|
        0 <= i < src.len() ==> (#[trigger] copied(src, follow, root, tree, i as nat) matches Some(
            state,
        ) && can_land(follow, state, src[i].0, src[i].1));
    if tree_copied(src, follow, root, tree) is Some {
        assert forall|i: int| 0 <= i < src.len() implies (#[trigger] copied(
            src,
            follow,
            root,
            tree,
            i as nat,
        ) matches Some(state) && can_land(follow, state, src[i].0, src[i].1)) by {
            started(src, follow, root, tree, (i + 1) as nat, src.len());
        }
    }
    if all && src.len() > 0 {
        let last = src.len() - 1;
        assert(copied(src, follow, root, tree, last as nat) is Some);
        assert(copied(src, follow, root, tree, (last + 1) as nat) is Some);
    }
}

/// A copy that came far came less far before.
proof fn started(
    src: Seq<(Path, TreeEntry)>,
    follow: Follow,
    root: Path,
    tree: Tree,
    i: nat,
    n: nat,
)
    requires
        i <= n,
        copied(src, follow, root, tree, n) is Some,
    ensures
        copied(src, follow, root, tree, i) is Some,
    decreases n,
{
    if i < n {
        started(src, follow, root, tree, i, (n - 1) as nat);
    }
}

/// From one point of a copy to a later one, a directory stays a directory, and what is a
/// link or a file stays a link or a file.
proof fn kinds_stay(
    src: Seq<(Path, TreeEntry)>,
    follow: Follow,
    root: Path,
    tree: Tree,
    i: nat,
    n: nat,
    at: Path,
)
    requires
        i <= n <= src.len(),
        copied(src, follow, root, tree, n) is Some,
        copied(src, follow, root, tree, i) is Some,
        copied(src, follow, root, tree, i)->0.tree.contains_key(at),
    ensures
        copied(src, follow, root, tree, n)->0.tree.contains_key(at),
        copied(src, follow, root, tree, n)->0.tree[at] is Directory <==> copied(
            src,
            follow,
            root,
            tree,
            i,
        )->0.tree[at] is Directory,
    decreases n,
{
    if i < n {
        let m = (n - 1) as nat;
        started(src, follow, root, tree, m, n);
        kinds_stay(src, follow, root, tree, i, m, at);
        entry_lands(follow, copied(src, follow, root, tree, m)->0, src[n - 1].0, src[n - 1].1);
    }
}

/// A link or a file that was copied is there when the copy is done, with its content, its
/// full mode or its target, unless a later entry lands at the same place; and a directory
/// stands, or is led to, where a directory was copied.
pub proof fn law_copy_is_faithful(
    src: Seq<(Path, TreeEntry)>,
    follow: Follow,
    root: Path,
    tree: Tree,
    i: int,
)
    requires
        tree_copied(src, follow, root, tree) is Some,
        0 <= i < src.len(),
        forall|j: int|
            i < j < src.len() ==> #[trigger] place(src, follow, root, tree, j) != place(
                src,
                follow,
                root,
                tree,
                i,
            ),
    ensures
        ({
            let at = place(src, follow, root, tree, i);
            let after = tree_copied(src, follow, root, tree)->0;
            &&& after.contains_key(at)
            &&& !(src[i].1 is Directory) ==> after[at] == src[i].1
            &&& src[i].1 is Directory ==> after[at] is Directory || after[at] is Link
        }),
{
    let n = src.len();
    started(src, follow, root, tree, (i + 1) as nat, n);
    started(src, follow, root, tree, i as nat, n);
    let state = copied(src, follow, root, tree, i as nat)->0;
    let at = landing(state, src[i].0);
    entry_lands(follow, state, src[i].0, src[i].1);
    unchanged(src, follow, root, tree, (i + 1) as nat, n, at);
}

/// A place where no entry lands stays as it is.
proof fn unchanged(
    src: Seq<(Path, TreeEntry)>,
    follow: Follow,
    root: Path,
    tree: Tree,
    i: nat,
    n: nat,
    at: Path,
)
    requires
        i <= n <= src.len(),
        copied(src, follow, root, tree, n) is Some,
        copied(src, follow, root, tree, i) is Some,
        forall|j: int| i <= j < n ==> #[trigger] place(src, follow, root, tree, j) != at,
    ensures
        standing(copied(src, follow, root, tree, n)->0.tree, at) == standing(
            copied(src, follow, root, tree, i)->0.tree,
            at,
        ),
    decreases n,
{
    if i < n {
        let m = (n - 1) as nat;
        started(src, follow, root, tree, m, n);
        unchanged(src, follow, root, tree, i, m, at);
        assert(place(src, follow, root, tree, m as int) != at);
        entry_lands(follow, copied(src, follow, root, tree, m)->0, src[n - 1].0, src[n - 1].1);
    }
}

/// At the place one of the first `n` entries has landed that did not go through a link.
spec fn touched(
    src: Seq<(Path, TreeEntry)>,
    follow: Follow,
    root: Path,
    tree: Tree,
    n: nat,
    at: Path,
) -> bool {
    exists|j: int|
        0 <= j < n && #[trigger] place(src, follow, root, tree, j) == at && !through_link(
            src,
            follow,
            root,
            tree,
            j,
        )
}

/// If the first of two copies went through a link for the `i`th entry, the second finds a
/// link there too, and it leads to the same directory.
pub open spec fn link_holds(
    src: Seq<(Path, TreeEntry)>,
    follow: Follow,
    root: Path,
    tree: Tree,
    after: Tree,
    i: int,
) -> bool {
    let first = copied(src, follow, root, tree, i as nat);
    let second = copied(src, follow, root, after, i as nat);
    let at = place(src, follow, root, tree, i);
    first is Some && second is Some && through_link(src, follow, root, tree, i) ==> {
        &&& standing(second->0.tree, at) is Some
        &&& standing(second->0.tree, at)->0 is Link
        &&& follow(second->0.tree, at) == follow(first->0.tree, at)
    }
}

/// The links that a copy went through are still there the second time that they are come
/// upon, and lead to the same directories.
pub open spec fn links_hold(
    src: Seq<(Path, TreeEntry)>,
    follow: Follow,
    root: Path,
    tree: Tree,
    after: Tree,
) -> bool {
    forall|i: int|
        0 <= i < src.len() ==> #[trigger] link_holds(src, follow, root, tree, after, i)
}

/// Something stands where an entry has landed.
proof fn touched_is_there(
    src: Seq<(Path, TreeEntry)>,
    follow: Follow,
    root: Path,
    tree: Tree,
    n: nat,
    at: Path,
)
    requires
        n <= src.len(),
        copied(src, follow, root, tree, n) is Some,
        touched(src, follow, root, tree, n, at),
    ensures
        copied(src, follow, root, tree, n)->0.tree.contains_key(at),
{
    let j = choose|j: int|
        0 <= j < n && #[trigger] place(src, follow, root, tree, j) == at && !through_link(
            src,
            follow,
            root,
            tree,
            j,
        );
    started(src, follow, root, tree, j as nat, n);
    started(src, follow, root, tree, (j + 1) as nat, n);
    entry_lands(follow, copied(src, follow, root, tree, j as nat)->0, src[j].0, src[j].1);
    kinds_stay(src, follow, root, tree, (j + 1) as nat, n, at);
}

/// With one more entry that does not go through a link, one more place is touched.
proof fn touched_once_more(
    src: Seq<(Path, TreeEntry)>,
    follow: Follow,
    root: Path,
    tree: Tree,
    m: nat,
    at: Path,
)
    ensures
        touched(src, follow, root, tree, m + 1, at) <==> touched(src, follow, root, tree, m, at) || (
        at == place(src, follow, root, tree, m as int) && !through_link(
            src,
            follow,
            root,
            tree,
            m as int,
        )),
{
    if touched(src, follow, root, tree, m, at) {
        let j = choose|j: int|
            0 <= j < m && #[trigger] place(src, follow, root, tree, j) == at && !through_link(
                src,
                follow,
                root,
                tree,
                j,
            );
        assert(0 <= j < m + 1 && place(src, follow, root, tree, j) == at);
    }
    if touched(src, follow, root, tree, m + 1, at) {
        let j = choose|j: int|
            0 <= j < m + 1 && #[trigger] place(src, follow, root, tree, j) == at && !through_link(
                src,
                follow,
                root,
                tree,
                j,
            );
        if j < m {
            assert(0 <= j < m && place(src, follow, root, tree, j) == at);
        }
    }
}

/// The second of two copies is at one with the first after `n` entries: each entry lands
/// where it landed the first time; where the second has come by, what stands is what stood
/// there at the same point of the first, and elsewhere it is what the first left.
spec fn at_one(
    src: Seq<(Path, TreeEntry)>,
    follow: Follow,
    root: Path,
    tree: Tree,
    after: Tree,
    n: nat,
) -> bool {
    let first = copied(src, follow, root, tree, n);
    let second = copied(src, follow, root, after, n);
    &&& first is Some
    &&& second is Some
    &&& second->0.lands == first->0.lands
    &&& forall|at: Path| #[trigger]
        standing(second->0.tree, at) == (if touched(src, follow, root, tree, n, at) {
            standing(first->0.tree, at)
        } else {
            standing(after, at)
        })
}

/// Where the second copy finds an entry's place, the entry fits, and it lands where it
/// landed the first time.
proof fn lands_again(
    src: Seq<(Path, TreeEntry)>,
    follow: Follow,
    root: Path,
    tree: Tree,
    after: Tree,
    m: nat,
)
    requires
        m < src.len(),
        tree_copied(src, follow, root, tree) == Some(after),
        links_hold(src, follow, root, tree, after),
        at_one(src, follow, root, tree, after, m),
    ensures
        copied(src, follow, root, tree, m + 1) is Some,
        ({
            let first = copied(src, follow, root, tree, m)->0;
            let second = copied(src, follow, root, after, m)->0;
            let (path, entry) = src[m as int];
            let at = landing(first, path);
            let next = copied(src, follow, root, tree, m + 1)->0;
            &&& landing(second, path) == at
            &&& can_land(follow, second, path, entry)
            &&& second.tree.contains_key(at)
            &&& entry is Directory && !is_followed(follow, first, path) ==> second.tree[at]
                == next.tree[at]
            &&& entry is Directory ==> (is_followed(follow, second, path) <==> is_followed(
                follow,
                first,
                path,
            ))
            &&& entry is Directory && is_followed(follow, first, path) ==> follow(second.tree, at)
                == follow(first.tree, at)
        }),
{
    started(src, follow, root, tree, m + 1, src.len());
    let first = copied(src, follow, root, tree, m)->0;
    let second = copied(src, follow, root, after, m)->0;
    let (path, entry) = src[m as int];
    let at = landing(first, path);
    entry_lands(follow, first, path, entry);
    let next = copied(src, follow, root, tree, m + 1)->0;
    kinds_stay(src, follow, root, tree, m + 1, src.len(), at);
    let here = standing(second.tree, at);
    if touched(src, follow, root, tree, m, at) {
        touched_is_there(src, follow, root, tree, m, at);
        assert(here == standing(first.tree, at));
    } else {
        assert(here == standing(after, at));
    }
    assert(here is Some);
    assert(link_holds(src, follow, root, tree, after, m as int));
    assert(second.lands == first.lands);
}

/// The second of two copies stays at one with the first.
proof fn second_copy(
    src: Seq<(Path, TreeEntry)>,
    follow: Follow,
    root: Path,
    tree: Tree,
    after: Tree,
    n: nat,
)
    requires
        n <= src.len(),
        tree_copied(src, follow, root, tree) == Some(after),
        links_hold(src, follow, root, tree, after),
    ensures
        at_one(src, follow, root, tree, after, n),
    decreases n,
{
    if n > 0 {
        let m = (n - 1) as nat;
        second_copy(src, follow, root, tree, after, m);
        lands_again(src, follow, root, tree, after, m);
        let first = copied(src, follow, root, tree, m)->0;
        let second = copied(src, follow, root, after, m)->0;
        let (path, entry) = src[m as int];
        let at = landing(first, path);
        entry_lands(follow, first, path, entry);
        entry_lands(follow, second, path, entry);
        let next = copied(src, follow, root, tree, n)->0;
        let again = copied(src, follow, root, after, n)->0;
        assert forall|p: Path| #[trigger] standing(again.tree, p) == (if touched(
            src,
            follow,
            root,
            tree,
            n,
            p,
        ) {
            standing(next.tree, p)
        } else {
            standing(after, p)
        }) by {
            touched_once_more(src, follow, root, tree, m, p);
            assert(standing(second.tree, p) == (if touched(src, follow, root, tree, m, p) {
                standing(first.tree, p)
            } else {
                standing(after, p)
            }));
        }
    }
}

/// A copy that was made can be made again: it succeeds and changes nothing. What the first
/// copy left, links and read-only files among it, is replaced by the same. The one thing
/// that can get in between is a link to a directory that was followed the first time: the
/// copy itself may have replaced it, or something on the way that it leads, so that it
/// leads elsewhere now. Where it still leads to the same directory, all is the same.
pub proof fn law_copy_can_be_repeated(
    src: Seq<(Path, TreeEntry)>,
    follow: Follow,
    root: Path,
    tree: Tree,
)
    requires
        tree_copied(src, follow, root, tree) is Some,
        links_hold(src, follow, root, tree, tree_copied(src, follow, root, tree)->0),
    ensures
        tree_copied(src, follow, root, tree_copied(src, follow, root, tree)->0) == tree_copied(
            src,
            follow,
            root,
            tree,
        ),
{
    let after = tree_copied(src, follow, root, tree)->0;
    second_copy(src, follow, root, tree, after, src.len());
    let again = copied(src, follow, root, after, src.len())->0.tree;
    assert forall|at: Path| #[trigger] again.contains_key(at) == after.contains_key(at) && (
    again.contains_key(at) ==> again[at] == after[at]) by {
        assert(standing(again, at) == standing(after, at));
    }
    assert(again =~= after);
}

} // verus!
