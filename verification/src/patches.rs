//! Patches: what is kept of a directory of patches, at any depth.

use vstd::prelude::*;

use crate::text::concat2;
use crate::text::concat3;
use crate::text::join;
use crate::text::joined;
use crate::text::pairs;
use crate::text::texts;

verus! {

/// What was read of a directory.
pub enum PatchDir {
    /// Its entries, in the order in which they were read.
    Entries(Vec<PatchNode>),
    /// Why it could not be opened.
    Unreadable(String),
}

/// What was read of an entry of a directory, links followed.
pub enum PatchNode {
    /// A file with its text, or with why that could not be read.
    File { name: String, text: Result<String, String> },
    /// A directory with what was read of it.
    Directory { name: String, listing: PatchDir },
    /// Anything else.
    Other,
    /// Why the entry could not be read.
    Unreadable(String),
}

/// Names and texts.
pub type Kept = Seq<(Seq<char>, Seq<char>)>;

/// The name of a patch file: where it is below the directory that `patches` is in.
pub open spec fn patch_name(parts: Seq<Seq<char>>) -> Seq<char> {
    "patches/"@ + joined(parts, "/"@)
}

/// What is kept of a directory, or why nothing is; `above` are the names on the way to it.
pub open spec fn kept_of_dir(dir: PatchDir, above: Seq<Seq<char>>) -> Result<Kept, Seq<char>>
    decreases dir,
{
    match dir {
        PatchDir::Entries(nodes) => kept_of_entries(nodes@, above),
        PatchDir::Unreadable(error) => Err("Failed to read patches directory: "@ + error@),
    }
}

/// What is kept of some entries, one after the other, up to the first failure.
pub open spec fn kept_of_entries(nodes: Seq<PatchNode>, above: Seq<Seq<char>>) -> Result<
    Kept,
    Seq<char>,
>
    decreases nodes,
{
    if nodes.len() == 0 {
        Ok(Seq::empty())
    } else {
        match kept_of_entries(nodes.drop_last(), above) {
            Ok(before) => match kept_of_node(nodes.last(), above) {
                Ok(more) => Ok(before + more),
                Err(e) => Err(e),
            },
            Err(e) => Err(e),
        }
    }
}

/// What is kept of an entry: the text of a file under its name, and what is kept of a
/// directory.
pub open spec fn kept_of_node(node: PatchNode, above: Seq<Seq<char>>) -> Result<Kept, Seq<char>>
    decreases node,
{
    match node {
        PatchNode::File { name, text } => match text {
            Ok(t) => Ok(seq![(patch_name(above.push(name@)), t@)]),
            Err(e) => Err(
                "Failed to read patch file '"@ + patch_name(above.push(name@)) + "': "@ + e@,
            ),
        },
        PatchNode::Directory { name, listing } => kept_of_dir(listing, above.push(name@)),
        PatchNode::Other => Ok(Seq::empty()),
        PatchNode::Unreadable(error) => Err(
            "Failed to read entry in patches directory: "@ + error@,
        ),
    }
}

/// What is kept of the patches of a package; it need not have any.
pub open spec fn kept_patches(dir: Option<PatchDir>) -> Result<Kept, Seq<char>> {
    match dir {
        Some(d) => kept_of_dir(d, Seq::empty()),
        None => Ok(Seq::empty()),
    }
}

/// `res` holds what `kept` says.
pub open spec fn is_kept(res: Result<Vec<(String, String)>, String>, kept: Result<Kept, Seq<char>>) -> bool {
    match kept {
        Ok(k) => res matches Ok(v) && pairs(v@) == k,
        Err(e) => res matches Err(m) && m@ == e,
    }
}

/// Names with one more.
fn extended(parts: &Vec<String>, name: &String) -> (r: Vec<String>)
    ensures
        texts(r@) == texts(parts@).push(name@),
{
    let mut r: Vec<String> = Vec::new();
    let mut i: usize = 0;
    while i < parts.len()
        invariant
            i <= parts@.len(),
            r@.len() == i,
            forall|k: int| 0 <= k < i ==> (#[trigger] r@[k])@ == parts@[k]@,
        decreases parts.len() - i,
    {
        r.push(parts[i].clone());
        i = i + 1;
    }
    r.push(name.clone());
    assert(texts(r@) =~= texts(parts@).push(name@));
    r
}

/// What is kept of a directory.
fn collect_dir(dir: &PatchDir, above: &Vec<String>) -> (res: Result<Vec<(String, String)>, String>)
    ensures
        is_kept(res, kept_of_dir(*dir, texts(above@))),
    decreases dir,
{
    match dir {
        PatchDir::Entries(nodes) => {
            let mut r: Vec<(String, String)> = Vec::new();
            let mut i: usize = 0;
            assert(nodes@.take(0) =~= Seq::empty());
            assert(pairs(r@) =~= Seq::empty());
            while i < nodes.len()
                invariant
                    i <= nodes@.len(),
                    *dir == PatchDir::Entries(*nodes),
                    kept_of_entries(nodes@.take(i as int), texts(above@)) == Ok::<Kept, Seq<char>>(
                        pairs(r@),
                    ),
                decreases nodes.len() - i,
            {
                let ghost upto = nodes@.take(i + 1);
                let ghost before = pairs(r@);
                assert(upto.drop_last() =~= nodes@.take(i as int));
                assert(upto.last() == nodes@[i as int]);
                assert(decreases_to!(dir => nodes@[i as int]));
                match collect_node(&nodes[i], above) {
                    Ok(mut more) => {
                        let ghost added = pairs(more@);
                        r.append(&mut more);
                        assert(pairs(r@) =~= before + added);
                    },
                    Err(e) => {
                        proof {
                            failure_stays(nodes@, texts(above@), i + 1);
                        }
                        return Err(e);
                    },
                }
                i = i + 1;
            }
            assert(nodes@.take(nodes@.len() as int) =~= nodes@);
            Ok(r)
        },
        PatchDir::Unreadable(error) => Err(
            concat2("Failed to read patches directory: ", error.as_str()),
        ),
    }
}

/// What is kept of an entry.
fn collect_node(node: &PatchNode, above: &Vec<String>) -> (res: Result<Vec<(String, String)>, String>)
    ensures
        is_kept(res, kept_of_node(*node, texts(above@))),
    decreases node,
{
    match node {
        PatchNode::File { name, text } => {
            let path = extended(above, name);
            let file = concat2("patches/", join(path.as_slice(), "/").as_str());
            match text {
                Ok(t) => {
                    let mut r: Vec<(String, String)> = Vec::new();
                    let ghost kept = seq![(file@, t@)];
                    r.push((file, t.clone()));
                    assert(pairs(r@) =~= kept);
                    Ok(r)
                },
                Err(e) => {
                    let mut m = concat3("Failed to read patch file '", file.as_str(), "': ");
                    m.append(e.as_str());
                    Err(m)
                },
            }
        },
        PatchNode::Directory { name, listing } => collect_dir(listing, &extended(above, name)),
        PatchNode::Other => {
            let r: Vec<(String, String)> = Vec::new();
            assert(pairs(r@) =~= Seq::empty());
            Ok(r)
        },
        PatchNode::Unreadable(error) => Err(
            concat2("Failed to read entry in patches directory: ", error.as_str()),
        ),
    }
}

/// The first failure among some entries is that of all.
proof fn failure_stays(nodes: Seq<PatchNode>, above: Seq<Seq<char>>, n: int)
    requires
        0 <= n <= nodes.len(),
        kept_of_entries(nodes.take(n), above) is Err,
    ensures
        kept_of_entries(nodes, above) == kept_of_entries(nodes.take(n), above),
    decreases nodes.len(),
{
    if n == nodes.len() {
        assert(nodes.take(n) =~= nodes);
    } else {
        let init = nodes.drop_last();
        assert(init.take(n) =~= nodes.take(n));
        failure_stays(init, above, n);
    }
}

/// The patches of a package, each with its name: every file below the directory, at any
/// depth, or the message about the first thing that could not be read. Without the
/// directory there are none.
pub fn collect_patches(dir: &Option<PatchDir>) -> (res: Result<Vec<(String, String)>, String>)
    ensures
        is_kept(res, kept_patches(*dir)),
{
    let none: Vec<String> = Vec::new();
    assert(texts(none@) =~= Seq::empty());
    match dir {
        Some(d) => collect_dir(d, &none),
        None => {
            let r: Vec<(String, String)> = Vec::new();
            assert(pairs(r@) =~= Seq::empty());
            Ok(r)
        },
    }
}

/// Below the directory a file with this text stands at the path.
pub open spec fn has_file(dir: PatchDir, path: Seq<Seq<char>>, text: Seq<char>) -> bool
    decreases path.len(), 1nat,
{
    match dir {
        PatchDir::Entries(nodes) => exists|i: int|
            0 <= i < nodes@.len() && is_file(#[trigger] nodes@[i], path, text),
        PatchDir::Unreadable(_) => false,
    }
}

/// The entry is, or holds, a file with this text at the path; the path begins with the
/// name of the entry.
pub open spec fn is_file(node: PatchNode, path: Seq<Seq<char>>, text: Seq<char>) -> bool
    decreases path.len(), 0nat,
{
    match node {
        PatchNode::File { name, text: t } => path.len() == 1 && path[0] == name@ && (t matches Ok(
            content,
        ) && content@ == text),
        PatchNode::Directory { name, listing } => path.len() > 0 && path[0] == name@ && has_file(
            listing,
            path.drop_first(),
            text,
        ),
        _ => false,
    }
}

/// How many files stand below a directory.
pub open spec fn files_below(dir: PatchDir) -> nat
    decreases dir,
{
    match dir {
        PatchDir::Entries(nodes) => files_among(nodes@),
        PatchDir::Unreadable(_) => 0,
    }
}

/// How many files stand among some entries or below them.
pub open spec fn files_among(nodes: Seq<PatchNode>) -> nat
    decreases nodes,
{
    if nodes.len() == 0 {
        0
    } else {
        files_among(nodes.drop_last()) + files_in(nodes.last())
    }
}

/// How many files an entry is or holds.
pub open spec fn files_in(node: PatchNode) -> nat
    decreases node,
{
    match node {
        PatchNode::File { .. } => 1,
        PatchNode::Directory { listing, .. } => files_below(listing),
        _ => 0,
    }
}

/// What is kept of a directory is what its files give.
proof fn dir_is_kept(dir: PatchDir, above: Seq<Seq<char>>, name: Seq<char>, text: Seq<char>)
    requires
        kept_of_dir(dir, above) is Ok,
    ensures
        kept_of_dir(dir, above)->Ok_0.contains((name, text)) <==> exists|path: Seq<Seq<char>>|
            #[trigger] has_file(dir, path, text) && name == patch_name(above + path),
        kept_of_dir(dir, above)->Ok_0.len() == files_below(dir),
    decreases dir,
{
    let nodes = dir->Entries_0@;
    entries_are_kept(nodes, above, name, text);
    let kept = kept_of_dir(dir, above)->Ok_0;
    if kept.contains((name, text)) {
        let (i, path) = choose|i: int, path: Seq<Seq<char>>|
            0 <= i < nodes.len() && #[trigger] is_file(nodes[i], path, text) && name == patch_name(
                above + path,
            );
        assert(has_file(dir, path, text));
    }
    if exists|path: Seq<Seq<char>>| #[trigger]
        has_file(dir, path, text) && name == patch_name(above + path) {
        let path = choose|path: Seq<Seq<char>>| #[trigger]
            has_file(dir, path, text) && name == patch_name(above + path);
        let i = choose|i: int| 0 <= i < nodes.len() && is_file(#[trigger] nodes[i], path, text);
        assert(is_file(nodes[i], path, text));
    }
}

/// What is kept of some entries is what their files give.
proof fn entries_are_kept(
    nodes: Seq<PatchNode>,
    above: Seq<Seq<char>>,
    name: Seq<char>,
    text: Seq<char>,
)
    requires
        kept_of_entries(nodes, above) is Ok,
    ensures
        kept_of_entries(nodes, above)->Ok_0.contains((name, text)) <==> exists|
            i: int,
            path: Seq<Seq<char>>,
        |
            0 <= i < nodes.len() && #[trigger] is_file(nodes[i], path, text) && name == patch_name(
                above + path,
            ),
        kept_of_entries(nodes, above)->Ok_0.len() == files_among(nodes),
    decreases nodes,
{
    if nodes.len() > 0 {
        let init = nodes.drop_last();
        let last = nodes.last();
        let n = init.len() as int;
        entries_are_kept(init, above, name, text);
        node_is_kept(last, above, name, text);
        let before = kept_of_entries(init, above)->Ok_0;
        let more = kept_of_node(last, above)->Ok_0;
        let all = kept_of_entries(nodes, above)->Ok_0;
        assert(all == before + more);
        if all.contains((name, text)) {
            let k = choose|k: int| 0 <= k < all.len() && all[k] == (name, text);
            if k < before.len() {
                assert(before[k] == (name, text));
                let (i, path) = choose|i: int, path: Seq<Seq<char>>|
                    0 <= i < init.len() && #[trigger] is_file(init[i], path, text) && name
                        == patch_name(above + path);
                assert(is_file(nodes[i], path, text));
            } else {
                assert(more[k - before.len()] == (name, text));
                let path = choose|path: Seq<Seq<char>>| #[trigger]
                    is_file(last, path, text) && name == patch_name(above + path);
                assert(is_file(nodes[n], path, text));
            }
        }
        if exists|i: int, path: Seq<Seq<char>>|
            0 <= i < nodes.len() && #[trigger] is_file(nodes[i], path, text) && name == patch_name(
                above + path,
            ) {
            let (i, path) = choose|i: int, path: Seq<Seq<char>>|
                0 <= i < nodes.len() && #[trigger] is_file(nodes[i], path, text) && name
                    == patch_name(above + path);
            if i < n {
                assert(is_file(init[i], path, text));
                let k = choose|k: int| 0 <= k < before.len() && before[k] == (name, text);
                assert(all[k] == (name, text));
            } else {
                assert(is_file(last, path, text));
                let k = choose|k: int| 0 <= k < more.len() && more[k] == (name, text);
                assert(all[before.len() + k] == (name, text));
            }
        }
    }
}

/// What is kept of an entry is what its files give.
proof fn node_is_kept(
    node: PatchNode,
    above: Seq<Seq<char>>,
    name: Seq<char>,
    text: Seq<char>,
)
    requires
        kept_of_node(node, above) is Ok,
    ensures
        kept_of_node(node, above)->Ok_0.contains((name, text)) <==> exists|path: Seq<Seq<char>>|
            #[trigger] is_file(node, path, text) && name == patch_name(above + path),
        kept_of_node(node, above)->Ok_0.len() == files_in(node),
    decreases node,
{
    let kept = kept_of_node(node, above)->Ok_0;
    match node {
        PatchNode::File { name: own, text: t } => {
            let path = seq![own@];
            assert(above + path =~= above.push(own@));
            if kept.contains((name, text)) {
                assert(is_file(node, path, text));
            }
            if exists|p: Seq<Seq<char>>| #[trigger]
                is_file(node, p, text) && name == patch_name(above + p) {
                let p = choose|p: Seq<Seq<char>>| #[trigger]
                    is_file(node, p, text) && name == patch_name(above + p);
                assert(p =~= path);
                assert(kept[0] == (name, text));
            }
        },
        PatchNode::Directory { name: own, listing } => {
            let below = above.push(own@);
            dir_is_kept(listing, below, name, text);
            if kept.contains((name, text)) {
                let rest = choose|rest: Seq<Seq<char>>| #[trigger]
                    has_file(listing, rest, text) && name == patch_name(below + rest);
                let path = seq![own@] + rest;
                assert(path.drop_first() =~= rest);
                assert(above + path =~= below + rest);
                assert(is_file(node, path, text));
            }
            if exists|p: Seq<Seq<char>>| #[trigger]
                is_file(node, p, text) && name == patch_name(above + p) {
                let p = choose|p: Seq<Seq<char>>| #[trigger]
                    is_file(node, p, text) && name == patch_name(above + p);
                let rest = p.drop_first();
                assert(above + p =~= below + rest);
                assert(has_file(listing, rest, text));
            }
        },
        _ => {},
    }
}

/// Every file below the directory of patches, at whatever depth, is kept, with its text
/// and named by the way to it, and nothing else is: there are as many patches as files.
pub proof fn law_each_file_is_a_patch(dir: PatchDir, name: Seq<char>, text: Seq<char>)
    requires
        kept_patches(Some(dir)) is Ok,
    ensures
        kept_patches(Some(dir))->Ok_0.contains((name, text)) <==> exists|path: Seq<Seq<char>>|
            #[trigger] has_file(dir, path, text) && name == patch_name(path),
        kept_patches(Some(dir))->Ok_0.len() == files_below(dir),
{
    let none = Seq::<Seq<char>>::empty();
    dir_is_kept(dir, none, name, text);
    assert forall|path: Seq<Seq<char>>| #[trigger] has_file(dir, path, text) implies none + path
        == path by {
        assert(none + path =~= path);
    }
}

} // verus!
