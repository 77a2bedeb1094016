//! Dependency resolution: order packages so that every dependency is built
//! before the packages that depend on it.
//!
//! `meta.toml` carries a `dependencies` list of package names. A depth-first
//! walk turns it into a build order; cycles and names that no package has are
//! errors. Packages that do not depend on each other come in the order of their
//! names, so that a build of everything is reproducible.
//!
//! Only build-time package dependencies belong in the graph. External tools
//! (cmake, the kernel headers, the Rust toolchain) are not packages and must not
//! appear in any `dependencies` list.

use vstd::prelude::*;

use crate::config::Package;
use crate::graph::complete;
use crate::graph::dependencies_first;
use crate::graph::depends_on;
use crate::graph::is_cycle;
use crate::graph::leads;
use crate::graph::needed_by;
use crate::graph::needs;
use crate::graph::needs_self;
use crate::graph::order_has_no_cycle;
use crate::graph::closed_at;
use crate::graph::off_path;
use crate::graph::path_shrinks_rest;
use crate::graph::walk_each;
use crate::graph::walk_from;
use crate::graph::walk_result;
use crate::graph::Graph;
use crate::names::comes_before;
use crate::names::in_order;
use crate::names::in_order_lists;
use crate::names::listing_unique;
use crate::names::precedes;
use crate::names::precedes_irreflexive;
use crate::names::precedes_total;
use crate::names::precedes_transitive;
use crate::names::strictly_ascending;
use crate::text::concat2;
use crate::text::concat3;
use crate::text::join;
use crate::text::joined;
use crate::text::texts;

verus! {

/// The dependency graph of a list of packages. Of packages with one name the
/// last one counts.
pub open spec fn dependency_graph(pkgs: Seq<Package>) -> Graph
    decreases pkgs.len(),
{
    if pkgs.len() == 0 {
        Map::empty()
    } else {
        dependency_graph(pkgs.drop_last()).insert(
            pkgs.last().meta.name@,
            texts(pkgs.last().meta.dependencies@),
        )
    }
}

/// Why there is no build order.
pub ghost enum Failure {
    /// A package depends on a name that no package has.
    UnknownDependency { package: Seq<char>, dependency: Seq<char> },
    /// A requested name that no package has.
    UnknownTarget { target: Seq<char> },
    /// Packages that depend on each other in a circle.
    Cycle { names: Seq<Seq<char>> },
}

impl Failure {
    /// The message for it.
    pub open spec fn message(self) -> Seq<char> {
        match self {
            Failure::UnknownDependency { package, dependency } => "package '"@ + package
                + "' depends on unknown package '"@ + dependency + "'"@,
            Failure::UnknownTarget { target } => "unknown package '"@ + target + "'"@,
            Failure::Cycle { names } => "dependency cycle: "@ + joined(names, " -> "@),
        }
    }
}

/// The packages with a dependency that is no package.
pub open spec fn dangling(g: Graph) -> Set<Seq<char>> {
    g.dom().filter(|n: Seq<char>| exists|d: Seq<char>| #[trigger] depends_on(g, n, d) && !g.contains_key(d))
}

/// The names in `s` that no package has, as they come.
pub open spec fn strangers(g: Graph, s: Seq<Seq<char>>) -> Seq<Seq<char>> {
    s.filter(|d: Seq<char>| !g.contains_key(d))
}

/// Where the walk begins: at the requested packages, or at all of them.
pub open spec fn roots(g: Graph, targets: Option<Seq<Seq<char>>>) -> Seq<Seq<char>> {
    match targets {
        Some(ts) => in_order(ts.to_set()),
        None => in_order(g.dom()),
    }
}

/// The build order, or why there is none. An unknown dependency is reported
/// before an unknown target, and that before a cycle; of several unknown
/// dependencies it is the first one of the package whose name comes first.
pub open spec fn resolution(g: Graph, targets: Option<Seq<Seq<char>>>) -> Result<
    Seq<Seq<char>>,
    Failure,
> {
    if !complete(g) {
        let package = in_order(dangling(g))[0];
        Err(Failure::UnknownDependency { package, dependency: strangers(g, g[package])[0] })
    } else if targets is Some && strangers(g, targets->0).len() > 0 {
        Err(Failure::UnknownTarget { target: strangers(g, targets->0)[0] })
    } else {
        match walk_each(g, roots(g, targets), Seq::empty(), Seq::empty()) {
            Ok(order) => Ok(order),
            Err(names) => Err(Failure::Cycle { names }),
        }
    }
}

/// Where the walk stands with a package.
#[derive(Clone, Copy, PartialEq, Eq, Structural)]
enum Mark {
    New,
    Visiting,
    Done,
}

/// The names at the given positions.
spec fn named(rows: Seq<Seq<char>>, at: Seq<usize>) -> Seq<Seq<char>> {
    Seq::new(at.len(), |k: int| rows[at[k] as int])
}

/// Positions in the table, in strictly ascending order.
spec fn ascending_positions(at: Seq<usize>, len: nat) -> bool {
    &&& forall|k: int| 0 <= k < at.len() ==> (#[trigger] at[k]) < len
    &&& forall|i: int, j: int| 0 <= i < j < at.len() ==> (#[trigger] at[i]) < (#[trigger] at[j])
}

/// `rows` lists the packages of `g` by name, and `edges` gives for each of them
/// the positions of its dependencies.
spec fn table_of(g: Graph, rows: Seq<Seq<char>>, edges: Seq<Vec<usize>>) -> bool {
    &&& complete(g)
    &&& strictly_ascending(rows)
    &&& rows.to_set() == g.dom()
    &&& edges.len() == rows.len()
    &&& forall|k: int|
        0 <= k < rows.len() ==> ascending_positions((#[trigger] edges[k])@, rows.len())
    &&& forall|k: int|
        0 <= k < rows.len() ==> named(rows, (#[trigger] edges[k])@).to_set() == g[rows[k]].to_set()
}

/// The marks say which positions are on the path and which are in the order.
spec fn marks_match(marks: Seq<Mark>, path: Seq<usize>, order: Seq<usize>) -> bool {
    forall|k: usize|
        k < marks.len() ==> {
            &&& (#[trigger] marks[k as int] == Mark::Visiting <==> path.contains(k))
            &&& (marks[k as int] == Mark::Done <==> order.contains(k))
        }
}

spec fn within(at: Seq<usize>, len: nat) -> bool {
    forall|k: int| 0 <= k < at.len() ==> (#[trigger] at[k]) < len
}

/// Two rows of a listing with one name are one row.
proof fn row_injective(rows: Seq<Seq<char>>, i: int, j: int)
    requires
        strictly_ascending(rows),
        0 <= i < rows.len(),
        0 <= j < rows.len(),
        rows[i] == rows[j],
    ensures
        i == j,
{
    precedes_irreflexive(rows[i]);
    if i < j {
        assert(precedes(rows[i], rows[j]));
    } else if j < i {
        assert(precedes(rows[j], rows[i]));
    }
}

/// A position is among `at` if and only if its name is among their names.
proof fn named_contains(rows: Seq<Seq<char>>, at: Seq<usize>, x: usize)
    requires
        strictly_ascending(rows),
        within(at, rows.len()),
        x < rows.len(),
    ensures
        named(rows, at).contains(rows[x as int]) <==> at.contains(x),
{
    let n = named(rows, at);
    if n.contains(rows[x as int]) {
        let k = choose|k: int| 0 <= k < n.len() && n[k] == rows[x as int];
        row_injective(rows, at[k] as int, x as int);
        assert(at[k] == x);
    }
    if at.contains(x) {
        let k = choose|k: int| 0 <= k < at.len() && at[k] == x;
        assert(n[k] == rows[x as int]);
    }
}

/// Ascending positions in a listing have ascending names.
proof fn named_ascending(rows: Seq<Seq<char>>, at: Seq<usize>)
    requires
        strictly_ascending(rows),
        ascending_positions(at, rows.len()),
    ensures
        strictly_ascending(named(rows, at)),
{
    let n = named(rows, at);
    assert forall|i: int, j: int| 0 <= i < j < n.len() implies #[trigger] precedes(n[i], n[j]) by {
        assert(at[i] < at[j]);
        assert(precedes(rows[at[i] as int], rows[at[j] as int]));
    }
}

/// Ascending positions list the set of their names in order.
proof fn named_in_order(rows: Seq<Seq<char>>, at: Seq<usize>, s: Set<Seq<char>>)
    requires
        strictly_ascending(rows),
        ascending_positions(at, rows.len()),
        named(rows, at).to_set() == s,
    ensures
        named(rows, at) == in_order(s),
{
    broadcast use vstd::seq_lib::seq_to_set_is_finite;

    named_ascending(rows, at);
    in_order_lists(s);
    listing_unique(named(rows, at), in_order(s));
}

/// Puts `x` among ascending positions, where it belongs, unless it is there.
fn insert_position(at: &mut Vec<usize>, x: usize, Ghost(len): Ghost<nat>)
    requires
        ascending_positions(old(at)@, len),
        x < len,
    ensures
        ascending_positions(final(at)@, len),
        forall|y: usize| final(at)@.contains(y) <==> old(at)@.contains(y) || y == x,
{
    let mut i: usize = 0;
    while i < at.len() && at[i] < x
        invariant
            at@ == old(at)@,
            i <= at.len(),
            forall|k: int| 0 <= k < i ==> (#[trigger] at@[k]) < x,
        decreases at.len() - i,
    {
        i = i + 1;
    }
    if i < at.len() && at[i] == x {
        assert(at@[i as int] == x);
        return ;
    }
    at.insert(i, x);
    let ghost before = old(at)@;
    let ghost after = at@;
    proof {
        assert(after[i as int] == x);
        assert forall|y: usize| before.contains(y) implies after.contains(y) by {
            let k = choose|k: int| 0 <= k < before.len() && before[k] == y;
            if k < i {
                assert(after[k] == y);
            } else {
                assert(after[k + 1] == y);
            }
        }
        assert forall|y: usize| after.contains(y) implies before.contains(y) || y == x by {
            let k = choose|k: int| 0 <= k < after.len() && after[k] == y;
            if k < i {
                assert(before[k] == y);
            } else if k > i {
                assert(before[k - 1] == y);
            }
        }
        assert forall|a: int, b: int| 0 <= a < b < after.len() implies (#[trigger] after[a]) < (
        #[trigger] after[b]) by {
            let pa = if a > i { a - 1 } else { a };
            let pb = if b > i { b - 1 } else { b };
            if a != i && b != i {
                assert(before[pa] < before[pb]);
            } else if a == i {
                if i < pb {
                    assert(before[i as int] < before[pb]);
                }
            }
        }
    }
}

/// Visits one package and, before it, whatever it needs. `stack` leads from where
/// the walk began to this package.
fn visit(
    node: usize,
    edges: &Vec<Vec<usize>>,
    marks: &mut Vec<Mark>,
    order: &mut Vec<usize>,
    stack: &mut Vec<usize>,
    Ghost(g): Ghost<Graph>,
    Ghost(rows): Ghost<Seq<Seq<char>>>,
) -> (res: Result<(), Vec<usize>>)
    requires
        table_of(g, rows, edges@),
        node < rows.len(),
        old(marks)@.len() == rows.len(),
        within(old(order)@, rows.len()),
        within(old(stack)@, rows.len()),
        marks_match(old(marks)@, old(stack)@, old(order)@),
    ensures
        match res {
            Ok(_) => {
                &&& walk_from(
                    g,
                    rows[node as int],
                    named(rows, old(stack)@),
                    named(rows, old(order)@),
                ) == Ok::<Seq<Seq<char>>, Seq<Seq<char>>>(named(rows, final(order)@))
                &&& final(stack)@ == old(stack)@
                &&& final(marks)@.len() == rows.len()
                &&& within(final(order)@, rows.len())
                &&& marks_match(final(marks)@, final(stack)@, final(order)@)
                &&& old(order)@.is_prefix_of(final(order)@)
            },
            Err(cycle) => {
                &&& within(cycle@, rows.len())
                &&& final(marks)@.len() == rows.len()
                &&& marks_match(final(marks)@, final(stack)@, final(order)@)
                &&& old(order)@.is_prefix_of(final(order)@)
                &&& old(stack)@.is_prefix_of(final(stack)@)
                &&& walk_from(
                    g,
                    rows[node as int],
                    named(rows, old(stack)@),
                    named(rows, old(order)@),
                ) == Err::<Seq<Seq<char>>, Seq<Seq<char>>>(named(rows, cycle@))
            },
        },
        old(marks)@[node as int] != Mark::New ==> final(marks)@ == old(marks)@ && final(order)@
            == old(order)@ && final(stack)@ == old(stack)@,
    decreases off_path(g, named(rows, old(stack)@)),
{
    let ghost path = named(rows, stack@);
    let ghost done = named(rows, order@);
    let ghost name = rows[node as int];
    proof {
        named_contains(rows, stack@, node);
        named_contains(rows, order@, node);
    }
    match marks[node] {
        Mark::Done => {
            return Ok(());
        },
        Mark::Visiting => {
            let mut k: usize = 0;
            while k < stack.len() && stack[k] != node
                invariant
                    k <= stack.len(),
                    stack@ == old(stack)@,
                    forall|j: int| 0 <= j < k ==> stack@[j] != node,
                decreases stack.len() - k,
            {
                k = k + 1;
            }
            proof {
                path.index_of_first_ensures(name);
                let first = path.index_of_first(name)->0;
                assert(stack@[first] == node) by {
                    row_injective(rows, stack@[first] as int, node as int);
                }
                if k < first {
                    assert(path[k as int] == name);
                }
                assert(first == k);
            }
            let mut cycle: Vec<usize> = Vec::new();
            let mut j: usize = k;
            while j < stack.len()
                invariant
                    k <= j <= stack.len(),
                    stack@ == old(stack)@,
                    cycle@ == stack@.subrange(k as int, j as int),
                decreases stack.len() - j,
            {
                cycle.push(stack[j]);
                assert(stack@.subrange(k as int, j + 1) =~= stack@.subrange(k as int, j as int).push(
                    stack@[j as int],
                ));
                j = j + 1;
            }
            cycle.push(node);
            assert(named(rows, cycle@) =~= closed_at(path, name));
            return Err(cycle);
        },
        Mark::New => {},
    }
    assert(g.contains_key(name)) by {
        assert(rows.to_set().contains(name));
    }
    marks.set(node, Mark::Visiting);
    stack.push(node);
    let ghost deeper = named(rows, stack@);
    let ghost children = named(rows, edges@[node as int]@);
    let children_at: &Vec<usize> = &edges[node];
    proof {
        assert(deeper =~= path.push(name));
        path_shrinks_rest(g, path, name);
        named_in_order(rows, edges@[node as int]@, g[name].to_set());
        assert(children.skip(0) =~= children);
        assert forall|k: usize| k < marks@.len() implies {
            &&& (#[trigger] marks@[k as int] == Mark::Visiting <==> stack@.contains(k))
            &&& (marks@[k as int] == Mark::Done <==> order@.contains(k))
        } by {
            let was = old(stack)@;
            assert(stack@[was.len() as int] == node);
            if was.contains(k) {
                let i = choose|i: int| 0 <= i < was.len() && was[i] == k;
                assert(stack@[i] == k);
            }
        }
    }
    let mut i: usize = 0;
    while i < children_at.len()
        invariant
            table_of(g, rows, edges@),
            node < rows.len(),
            children_at@ == edges@[node as int]@,
            i <= children_at.len(),
            marks@.len() == rows.len(),
            within(order@, rows.len()),
            within(stack@, rows.len()),
            marks_match(marks@, stack@, order@),
            stack@ == old(stack)@.push(node),
            old(order)@.is_prefix_of(order@),
            old(marks)@[node as int] == Mark::New,
            deeper == named(rows, stack@),
            children == named(rows, edges@[node as int]@),
            off_path(g, deeper) < off_path(g, named(rows, old(stack)@)),
            walk_each(g, children, deeper, done) == walk_each(
                g,
                children.skip(i as int),
                deeper,
                named(rows, order@),
            ),
            walk_from(g, rows[node as int], path, done) == match walk_each(
                g,
                children,
                deeper,
                done,
            ) {
                Ok(o) => Ok::<Seq<Seq<char>>, Seq<Seq<char>>>(o.push(rows[node as int])),
                Err(c) => Err(c),
            },
            path == named(rows, old(stack)@),
            done == named(rows, old(order)@),
        decreases children_at.len() - i,
    {
        let ghost rest = children.skip(i as int);
        proof {
            assert(rest[0] == rows[children_at@[i as int] as int]);
            assert(rest.drop_first() =~= children.skip(i + 1));
        }
        match visit(children_at[i], edges, marks, order, stack, Ghost(g), Ghost(rows)) {
            Ok(_) => {},
            Err(cycle) => {
                return Err(cycle);
            },
        }
        i = i + 1;
    }
    assert(children.skip(i as int) =~= Seq::empty());
    let ghost settled = order@;
    let _ = stack.pop();
    assert(stack@ =~= old(stack)@);
    marks.set(node, Mark::Done);
    order.push(node);
    proof {
        assert(named(rows, order@) =~= named(rows, settled).push(rows[node as int]));
        assert forall|k: usize| k < marks@.len() implies {
            &&& (#[trigger] marks@[k as int] == Mark::Visiting <==> stack@.contains(k))
            &&& (marks@[k as int] == Mark::Done <==> order@.contains(k))
        } by {
            let grown = old(stack)@.push(node);
            assert(order@[settled.len() as int] == node);
            if settled.contains(k) {
                let i = choose|i: int| 0 <= i < settled.len() && settled[i] == k;
                assert(order@[i] == k);
            }
            if stack@.contains(k) {
                let i = choose|i: int| 0 <= i < stack@.len() && stack@[i] == k;
                assert(grown[i] == k);
            }
            assert(grown[stack@.len() as int] == node);
        }
    }
    Ok(())
}

/// The names of the packages at the given places.
spec fn package_names(pkgs: Seq<Package>, at: Seq<usize>) -> Seq<Seq<char>> {
    Seq::new(at.len(), |k: int| pkgs[at[k] as int].meta.name@)
}

/// `at` picks for each name in `g` the package that counts, in ascending order.
spec fn index_of(pkgs: Seq<Package>, at: Seq<usize>, g: Graph) -> bool {
    &&& within(at, pkgs.len())
    &&& strictly_ascending(package_names(pkgs, at))
    &&& forall|n: Seq<char>| package_names(pkgs, at).contains(n) <==> #[trigger] g.contains_key(n)
    &&& forall|k: int|
        0 <= k < at.len() ==> g[package_names(pkgs, at)[k]] == texts(
            pkgs[#[trigger] at[k] as int].meta.dependencies@,
        )
}

/// A list of packages has finitely many names.
proof fn graph_finite(pkgs: Seq<Package>)
    ensures
        dependency_graph(pkgs).dom().finite(),
    decreases pkgs.len(),
{
    if pkgs.len() > 0 {
        graph_finite(pkgs.drop_last());
    }
}

/// The packages that count, by name.
fn index_packages(pkgs: &[Package]) -> (at: Vec<usize>)
    ensures
        index_of(pkgs@, at@, dependency_graph(pkgs@)),
{
    let mut at: Vec<usize> = Vec::new();
    let mut i: usize = 0;
    assert(package_names(pkgs@, at@) =~= Seq::empty());
    while i < pkgs.len()
        invariant
            i <= pkgs.len(),
            index_of(pkgs@, at@, dependency_graph(pkgs@.take(i as int))),
        decreases pkgs.len() - i,
    {
        let ghost before = at@;
        let ghost names = package_names(pkgs@, before);
        let ghost g = dependency_graph(pkgs@.take(i as int));
        let ghost next = dependency_graph(pkgs@.take(i + 1));
        let ghost name = pkgs@[i as int].meta.name@;
        proof {
            assert(pkgs@.take(i + 1).drop_last() =~= pkgs@.take(i as int));
            assert(pkgs@.take(i + 1).last() == pkgs@[i as int]);
            assert(next == g.insert(name, texts(pkgs@[i as int].meta.dependencies@)));
        }
        let mut k: usize = 0;
        while k < at.len() && comes_before(pkgs[at[k]].meta.name.as_str(), pkgs[i].meta.name.as_str())
            invariant
                i < pkgs.len(),
                k <= at.len(),
                at@ == before,
                within(at@, pkgs@.len()),
                names == package_names(pkgs@, before),
                name == pkgs@[i as int].meta.name@,
                forall|j: int| 0 <= j < k ==> precedes(#[trigger] names[j], name),
            ensures
                k <= at.len(),
                at@ == before,
                forall|j: int| 0 <= j < k ==> precedes(#[trigger] names[j], name),
                k < at.len() ==> !precedes(names[k as int], name),
            decreases at.len() - k,
        {
            assert(names[k as int] == pkgs@[at@[k as int] as int].meta.name@);
            k = k + 1;
        }
        let found = k < at.len() && pkgs[at[k]].meta.name == pkgs[i].meta.name;
        if found {
            at.set(k, i);
            proof {
                let after = package_names(pkgs@, at@);
                assert(names[k as int] == name);
                assert(after =~= names);
                assert forall|j: int| 0 <= j < at@.len() implies next[after[j]] == texts(
                    pkgs@[#[trigger] at@[j] as int].meta.dependencies@,
                ) by {
                    if j != k {
                        assert(before[j] == at@[j]);
                        if after[j] == name {
                            row_injective(names, j, k as int);
                        }
                    }
                }
                assert forall|n: Seq<char>| after.contains(n) <==> #[trigger] next.contains_key(n) by {
                    assert(names.contains(names[k as int]));
                    assert(g.contains_key(n) == names.contains(n));
                }
            }
        } else {
            at.insert(k, i);
            proof {
                let after = package_names(pkgs@, at@);
                if k < before.len() {
                    assert(names[k as int] == pkgs@[before[k as int] as int].meta.name@);
                    precedes_total(names[k as int], name);
                    assert(precedes(name, names[k as int]));
                }
                assert(after =~= names.insert(k as int, name));
                assert forall|a: int, b: int| 0 <= a < b < after.len() implies #[trigger] precedes(
                    after[a],
                    after[b],
                ) by {
                    let pa = if a > k { a - 1 } else { a };
                    let pb = if b > k { b - 1 } else { b };
                    if a != k && b != k {
                        assert(precedes(names[pa], names[pb]));
                    } else if a == k {
                        if k < pb {
                            assert(precedes(names[k as int], names[pb]));
                            precedes_transitive(name, names[k as int], names[pb]);
                        }
                    }
                }
                assert forall|n: Seq<char>| after.contains(n) <==> #[trigger] next.contains_key(n) by {
                    assert(g.contains_key(n) == names.contains(n));
                    assert(after[k as int] == name);
                    if names.contains(n) {
                        let j = choose|j: int| 0 <= j < names.len() && names[j] == n;
                        if j < k {
                            assert(after[j] == n);
                        } else {
                            assert(after[j + 1] == n);
                        }
                    }
                    if after.contains(n) {
                        let j = choose|j: int| 0 <= j < after.len() && after[j] == n;
                        if j < k {
                            assert(names[j] == n);
                        } else if j > k {
                            assert(names[j - 1] == n);
                        }
                    }
                }
                assert forall|j: int| 0 <= j < at@.len() implies next[after[j]] == texts(
                    pkgs@[#[trigger] at@[j] as int].meta.dependencies@,
                ) by {
                    if j != k {
                        let pj = if j > k { j - 1 } else { j };
                        assert(before[pj] == at@[j]);
                        if after[j] == name {
                            row_injective(after, j, k as int);
                        }
                    }
                }
            }
        }
        i = i + 1;
    }
    assert(pkgs@.take(pkgs@.len() as int) =~= pkgs@);
    at
}

/// The row of a name, if a package has it.
fn find_row(pkgs: &[Package], at: &Vec<usize>, name: &String) -> (r: Option<usize>)
    requires
        within(at@, pkgs@.len()),
    ensures
        match r {
            Some(k) => k < at@.len() && package_names(pkgs@, at@)[k as int] == name@,
            None => !package_names(pkgs@, at@).contains(name@),
        },
{
    let mut k: usize = 0;
    let ghost names = package_names(pkgs@, at@);
    while k < at.len()
        invariant
            within(at@, pkgs@.len()),
            names == package_names(pkgs@, at@),
            forall|j: int| 0 <= j < k ==> #[trigger] names[j] != name@,
        decreases at.len() - k,
    {
        assert(names[k as int] == pkgs@[at@[k as int] as int].meta.name@);
        if pkgs[at[k]].meta.name == *name {
            return Some(k);
        }
        k = k + 1;
    }
    None
}

/// The first item that passes a test is the first of those that pass it.
pub proof fn first_passing<A>(s: Seq<A>, pass: spec_fn(A) -> bool, k: int)
    requires
        0 <= k < s.len(),
        pass(s[k]),
        forall|j: int| 0 <= j < k ==> !pass(#[trigger] s[j]),
    ensures
        s.filter(pass).len() > 0,
        s.filter(pass)[0] == s[k],
    decreases s.len(),
{
    reveal(Seq::filter);
    let init = s.drop_last();
    if k < init.len() {
        assert forall|j: int| 0 <= j < k implies !pass(#[trigger] init[j]) by {
            assert(init[j] == s[j]);
        }
        first_passing(init, pass, k);
    } else {
        none_passing(init, pass);
    }
}

/// If no item passes a test, none is left of them.
proof fn none_passing<A>(s: Seq<A>, pass: spec_fn(A) -> bool)
    requires
        forall|j: int| 0 <= j < s.len() ==> !pass(#[trigger] s[j]),
    ensures
        s.filter(pass) == Seq::<A>::empty(),
    decreases s.len(),
{
    reveal(Seq::filter);
    if s.len() > 0 {
        let init = s.drop_last();
        assert forall|j: int| 0 <= j < init.len() implies !pass(#[trigger] init[j]) by {
            assert(init[j] == s[j]);
        }
        none_passing(init, pass);
    }
}

/// The unknown dependency that is reported.
proof fn reported_dependency(g: Graph, rows: Seq<Seq<char>>, k: int, j: int)
    requires
        g.dom().finite(),
        strictly_ascending(rows),
        forall|n: Seq<char>| rows.contains(n) <==> #[trigger] g.contains_key(n),
        0 <= k < rows.len(),
        0 <= j < g[rows[k]].len(),
        !g.contains_key(g[rows[k]][j]),
        forall|i: int| 0 <= i < j ==> g.contains_key(#[trigger] g[rows[k]][i]),
        forall|m: int, i: int|
            0 <= m < k && 0 <= i < g[rows[m]].len() ==> g.contains_key(#[trigger] g[rows[m]][i]),
    ensures
        !complete(g),
        in_order(dangling(g))[0] == rows[k],
        strangers(g, g[rows[k]])[0] == g[rows[k]][j],
{
    let package = rows[k];
    let bad = dangling(g);
    assert(rows.contains(rows[k]));
    assert(depends_on(g, package, g[package][j]));
    assert(bad.contains(package));
    first_passing(g[package], |d: Seq<char>| !g.contains_key(d), j);
    assert(bad.subset_of(g.dom()));
    vstd::set_lib::lemma_len_subset(bad, g.dom());
    in_order_lists(bad);
    let q = in_order(bad);
    assert(q.to_set().contains(package));
    let at = choose|at: int| 0 <= at < q.len() && q[at] == package;
    assert(q.to_set().contains(q[0]));
    assert(bad.contains(q[0]));
    assert(g.contains_key(q[0]));
    let m = choose|m: int| 0 <= m < rows.len() && rows[m] == q[0];
    if m < k {
        let d = choose|d: Seq<char>| #[trigger] depends_on(g, q[0], d) && !g.contains_key(d);
        let i = choose|i: int| 0 <= i < g[q[0]].len() && g[q[0]][i] == d;
        assert(g.contains_key(g[rows[m]][i]));
    } else if m > k && at > 0 {
        assert(precedes(rows[k], rows[m]));
        assert(precedes(q[0], q[at]));
        precedes_transitive(package, q[0], package);
        precedes_irreflexive(package);
    }
}

/// The positions of the dependencies of every row, or the message about the
/// first one that is unknown.
fn link_rows(pkgs: &[Package], at: &Vec<usize>) -> (res: Result<Vec<Vec<usize>>, String>)
    requires
        index_of(pkgs@, at@, dependency_graph(pkgs@)),
    ensures
        match res {
            Ok(edges) => table_of(dependency_graph(pkgs@), package_names(pkgs@, at@), edges@),
            Err(e) => {
                let g = dependency_graph(pkgs@);
                let package = in_order(dangling(g))[0];
                &&& !complete(g)
                &&& e@ == (Failure::UnknownDependency {
                    package,
                    dependency: strangers(g, g[package])[0],
                }).message()
            },
        },
{
    let ghost g = dependency_graph(pkgs@);
    let ghost rows = package_names(pkgs@, at@);
    proof {
        graph_finite(pkgs@);
    }
    let mut edges: Vec<Vec<usize>> = Vec::new();
    let mut k: usize = 0;
    while k < at.len()
        invariant
            g == dependency_graph(pkgs@),
            g.dom().finite(),
            rows == package_names(pkgs@, at@),
            index_of(pkgs@, at@, g),
            k <= at.len(),
            edges@.len() == k,
            forall|m: int, i: int|
                0 <= m < k && 0 <= i < g[rows[m]].len() ==> g.contains_key(#[trigger] g[rows[m]][i]),
            forall|m: int|
                0 <= m < k ==> ascending_positions((#[trigger] edges@[m])@, rows.len()),
            forall|m: int|
                0 <= m < k ==> named(rows, (#[trigger] edges@[m])@).to_set()
                    == g[rows[m]].to_set(),
        decreases at.len() - k,
    {
        let deps: &Vec<String> = &pkgs[at[k]].meta.dependencies;
        let mut row: Vec<usize> = Vec::new();
        let mut j: usize = 0;
        assert(g[rows[k as int]] == texts(deps@)) by {
            assert(at@[k as int] == at@[k as int]);
        }
        while j < deps.len()
            invariant
                g == dependency_graph(pkgs@),
                g.dom().finite(),
                rows == package_names(pkgs@, at@),
                index_of(pkgs@, at@, g),
                k < at.len(),
                j <= deps.len(),
                g[rows[k as int]] == texts(deps@),
                forall|m: int, i: int|
                    0 <= m < k && 0 <= i < g[rows[m]].len() ==> g.contains_key(
                        #[trigger] g[rows[m]][i],
                    ),
                forall|i: int| 0 <= i < j ==> g.contains_key(#[trigger] g[rows[k as int]][i]),
                ascending_positions(row@, rows.len()),
                forall|n: Seq<char>|
                    #[trigger] named(rows, row@).contains(n) <==> texts(deps@).take(
                        j as int,
                    ).contains(n),
            decreases deps.len() - j,
        {
            match find_row(pkgs, at, &deps[j]) {
                Some(r) => {
                    let ghost before = row@;
                    insert_position(&mut row, r, Ghost(rows.len()));
                    proof {
                        let upto = texts(deps@).take(j as int);
                        let next = texts(deps@).take(j + 1);
                        assert(next =~= upto.push(rows[r as int]));
                        assert(rows.contains(rows[r as int]));
                        assert(g.contains_key(rows[r as int]));
                        assert forall|n: Seq<char>| #[trigger] named(rows, row@).contains(n)
                            <==> next.contains(n) by {
                            if named(rows, row@).contains(n) {
                                let m = choose|m: int|
                                    0 <= m < row@.len() && named(rows, row@)[m] == n;
                                assert(row@.contains(row@[m]));
                                if row@[m] != r {
                                    let p = choose|p: int|
                                        0 <= p < before.len() && before[p] == row@[m];
                                    assert(named(rows, before)[p] == n);
                                    assert(named(rows, before).contains(n));
                                    let u = choose|u: int| 0 <= u < upto.len() && upto[u] == n;
                                    assert(next[u] == n);
                                } else {
                                    assert(next[j as int] == n);
                                }
                            }
                            if next.contains(n) {
                                let u = choose|u: int| 0 <= u < next.len() && next[u] == n;
                                if u < j {
                                    assert(upto[u] == n);
                                    assert(named(rows, before).contains(n));
                                    let p = choose|p: int|
                                        0 <= p < before.len() && named(rows, before)[p] == n;
                                    assert(before.contains(before[p]));
                                    assert(row@.contains(before[p]));
                                    let m = choose|m: int| 0 <= m < row@.len() && row@[m] == before[p];
                                    assert(named(rows, row@)[m] == n);
                                } else {
                                    assert(row@.contains(r));
                                    let m = choose|m: int| 0 <= m < row@.len() && row@[m] == r;
                                    assert(named(rows, row@)[m] == n);
                                }
                            }
                        }
                    }
                },
                None => {
                    proof {
                        assert(texts(deps@)[j as int] == deps@[j as int]@);
                        reported_dependency(g, rows, k as int, j as int);
                    }
                    let mut e = concat3(
                        "package '",
                        pkgs[at[k]].meta.name.as_str(),
                        "' depends on unknown package '",
                    );
                    e.append(deps[j].as_str());
                    e.append("'");
                    return Err(e);
                },
            }
            j = j + 1;
        }
        proof {
            assert(texts(deps@).take(j as int) =~= texts(deps@));
            assert(named(rows, row@).to_set() =~= g[rows[k as int]].to_set()) by {
                assert forall|n: Seq<char>|
                    named(rows, row@).to_set().contains(n) == g[rows[k as int]].to_set().contains(
                        n,
                    ) by {
                    assert(named(rows, row@).contains(n) == texts(deps@).contains(n));
                }
            }
        }
        edges.push(row);
        k = k + 1;
    }
    proof {
        assert(rows.to_set() =~= g.dom()) by {
            assert forall|n: Seq<char>| rows.to_set().contains(n) == g.dom().contains(n) by {
                assert(rows.contains(n) == g.contains_key(n));
            }
        }
        assert forall|a: Seq<char>, b: Seq<char>| #[trigger] depends_on(g, a, b) implies g.contains_key(
            b,
        ) by {
            assert(rows.contains(a));
            let m = choose|m: int| 0 <= m < rows.len() && rows[m] == a;
            let i = choose|i: int| 0 <= i < g[a].len() && g[a][i] == b;
            assert(g.contains_key(g[rows[m]][i]));
        }
    }
    Ok(edges)
}

/// The rows of the requested names, in ascending order, or the message about the
/// first name that is unknown.
fn target_rows(pkgs: &[Package], at: &Vec<usize>, targets: &[String]) -> (res: Result<
    Vec<usize>,
    String,
>)
    requires
        index_of(pkgs@, at@, dependency_graph(pkgs@)),
    ensures
        match res {
            Ok(rows) => {
                &&& strangers(dependency_graph(pkgs@), texts(targets@)).len() == 0
                &&& ascending_positions(rows@, at@.len())
                &&& named(package_names(pkgs@, at@), rows@) == in_order(texts(targets@).to_set())
            },
            Err(e) => {
                let unknown = strangers(dependency_graph(pkgs@), texts(targets@));
                &&& unknown.len() > 0
                &&& e@ == (Failure::UnknownTarget { target: unknown[0] }).message()
            },
        },
{
    let ghost g = dependency_graph(pkgs@);
    let ghost names = package_names(pkgs@, at@);
    let ghost wanted = texts(targets@);
    let mut rows: Vec<usize> = Vec::new();
    let mut j: usize = 0;
    while j < targets.len()
        invariant
            g == dependency_graph(pkgs@),
            names == package_names(pkgs@, at@),
            wanted == texts(targets@),
            index_of(pkgs@, at@, g),
            j <= targets.len(),
            forall|i: int| 0 <= i < j ==> g.contains_key(#[trigger] wanted[i]),
            ascending_positions(rows@, at@.len()),
            forall|i: int|
                0 <= i < rows@.len() ==> wanted.take(j as int).contains(
                    names[(#[trigger] rows@[i]) as int],
                ),
            forall|i: int| 0 <= i < j ==> named(names, rows@).contains(#[trigger] wanted[i]),
        decreases targets.len() - j,
    {
        match find_row(pkgs, at, &targets[j]) {
            Some(r) => {
                let ghost before = rows@;
                insert_position(&mut rows, r, Ghost(at@.len()));
                proof {
                    let upto = wanted.take(j as int);
                    let next = wanted.take(j + 1);
                    assert(next =~= upto.push(names[r as int]));
                    assert(names.contains(names[r as int]));
                    assert(g.contains_key(names[r as int]));
                    assert forall|i: int| 0 <= i < rows@.len() implies next.contains(
                        names[(#[trigger] rows@[i]) as int],
                    ) by {
                        assert(rows@.contains(rows@[i]));
                        if rows@[i] == r {
                            assert(next[j as int] == names[r as int]);
                        } else {
                            let p = choose|p: int| 0 <= p < before.len() && before[p] == rows@[i];
                            assert(upto.contains(names[before[p] as int]));
                            let u = choose|u: int|
                                0 <= u < upto.len() && upto[u] == names[rows@[i] as int];
                            assert(next[u] == names[rows@[i] as int]);
                        }
                    }
                    assert forall|i: int| 0 <= i < j + 1 implies named(names, rows@).contains(
                        #[trigger] wanted[i],
                    ) by {
                        if i < j {
                            assert(named(names, before).contains(wanted[i]));
                            let p = choose|p: int|
                                0 <= p < before.len() && named(names, before)[p] == wanted[i];
                            assert(before.contains(before[p]));
                            assert(rows@.contains(before[p]));
                            let m = choose|m: int| 0 <= m < rows@.len() && rows@[m] == before[p];
                            assert(named(names, rows@)[m] == wanted[i]);
                        } else {
                            assert(rows@.contains(r));
                            let m = choose|m: int| 0 <= m < rows@.len() && rows@[m] == r;
                            assert(named(names, rows@)[m] == wanted[i]);
                        }
                    }
                }
            },
            None => {
                proof {
                    assert(wanted[j as int] == targets@[j as int]@);
                    first_passing(wanted, |d: Seq<char>| !g.contains_key(d), j as int);
                }
                return Err(concat3("unknown package '", targets[j].as_str(), "'"));
            },
        }
        j = j + 1;
    }
    proof {
        assert(wanted.take(j as int) =~= wanted);
        none_passing(wanted, |d: Seq<char>| !g.contains_key(d));
        assert(named(names, rows@).to_set() =~= wanted.to_set()) by {
            assert forall|n: Seq<char>|
                named(names, rows@).to_set().contains(n) == wanted.to_set().contains(n) by {
                if named(names, rows@).contains(n) {
                    let m = choose|m: int| 0 <= m < rows@.len() && named(names, rows@)[m] == n;
                    assert(wanted.contains(names[rows@[m] as int]));
                }
                if wanted.contains(n) {
                    let i = choose|i: int| 0 <= i < wanted.len() && wanted[i] == n;
                    assert(named(names, rows@).contains(wanted[i]));
                }
            }
        }
        named_in_order(names, rows@, wanted.to_set());
    }
    Ok(rows)
}

/// All rows of a table.
fn all_rows(len: usize) -> (rows: Vec<usize>)
    ensures
        rows@.len() == len,
        forall|k: int| 0 <= k < len ==> (#[trigger] rows@[k]) == k,
{
    let mut rows: Vec<usize> = Vec::new();
    let mut k: usize = 0;
    while k < len
        invariant
            k <= len,
            rows@.len() == k,
            forall|i: int| 0 <= i < k ==> (#[trigger] rows@[i]) == i,
        decreases len - k,
    {
        rows.push(k);
        k = k + 1;
    }
    rows
}

/// The names at the given rows.
fn names_at(pkgs: &[Package], at: &Vec<usize>, rows: &Vec<usize>) -> (names: Vec<String>)
    requires
        within(at@, pkgs@.len()),
        within(rows@, at@.len()),
    ensures
        texts(names@) == named(package_names(pkgs@, at@), rows@),
{
    let mut names: Vec<String> = Vec::new();
    let mut k: usize = 0;
    while k < rows.len()
        invariant
            within(at@, pkgs@.len()),
            within(rows@, at@.len()),
            k <= rows.len(),
            names@.len() == k,
            forall|i: int|
                0 <= i < k ==> (#[trigger] names@[i])@ == pkgs@[at@[rows@[i] as int] as int].meta.name@,
        decreases rows.len() - k,
    {
        names.push(pkgs[at[rows[k]]].meta.name.clone());
        k = k + 1;
    }
    assert(texts(names@) =~= named(package_names(pkgs@, at@), rows@));
    names
}

/// `res` is the build order of some packages, or of all, or the message about why there is
/// none.
pub open spec fn resolved(
    pkgs: Seq<Package>,
    targets: Option<Seq<Seq<char>>>,
    res: Result<Vec<String>, String>,
) -> bool {
    match resolution(dependency_graph(pkgs), targets) {
        Ok(order) => res matches Ok(names) && texts(names@) == order,
        Err(failure) => res matches Err(e) && e@ == failure.message(),
    }
}

/// Order packages, dependencies first.
///
/// Without `targets` every package is ordered; with them, those packages and
/// all that they need. An unknown dependency, an unknown target and a dependency
/// cycle are errors.
pub fn resolve_order(pkgs: &[Package], targets: Option<&[String]>) -> (res: Result<
    Vec<String>,
    String,
>)
    ensures
        resolved(
            pkgs@,
            match targets {
                Some(ts) => Some(texts(ts@)),
                None => None,
            },
            res,
        ),
{
    let at = index_packages(pkgs);
    let ghost g = dependency_graph(pkgs@);
    let ghost rows = package_names(pkgs@, at@);
    let edges = match link_rows(pkgs, &at) {
        Ok(edges) => edges,
        Err(e) => {
            return Err(e);
        },
    };
    let ghost wanted = match targets {
        Some(ts) => Some(texts(ts@)),
        None => None,
    };
    let starts = match targets {
        Some(ts) => match target_rows(pkgs, &at, ts) {
            Ok(starts) => starts,
            Err(e) => {
                return Err(e);
            },
        },
        None => {
            let starts = all_rows(at.len());
            proof {
                assert(named(rows, starts@) =~= rows);
                named_in_order(rows, starts@, g.dom());
            }
            starts
        },
    };
    let ghost begin = roots(g, wanted);
    assert(named(rows, starts@) == begin);
    let mut marks: Vec<Mark> = Vec::new();
    while marks.len() < at.len()
        invariant
            marks@.len() <= at@.len(),
            forall|k: int| 0 <= k < marks@.len() ==> #[trigger] marks@[k] == Mark::New,
        decreases at.len() - marks.len(),
    {
        marks.push(Mark::New);
    }
    let mut order: Vec<usize> = Vec::new();
    let mut stack: Vec<usize> = Vec::new();
    let mut i: usize = 0;
    proof {
        assert(begin.skip(0) =~= begin);
        assert(named(rows, order@) =~= Seq::empty());
        assert(named(rows, stack@) =~= Seq::empty());
    }
    while i < starts.len()
        invariant
            g == dependency_graph(pkgs@),
            rows == package_names(pkgs@, at@),
            index_of(pkgs@, at@, g),
            table_of(g, rows, edges@),
            within(starts@, rows.len()),
            named(rows, starts@) == begin,
            i <= starts.len(),
            marks@.len() == rows.len(),
            within(order@, rows.len()),
            stack@ == Seq::<usize>::empty(),
            marks_match(marks@, stack@, order@),
            walk_each(g, begin, Seq::empty(), Seq::empty()) == walk_each(
                g,
                begin.skip(i as int),
                Seq::empty(),
                named(rows, order@),
            ),
            begin == roots(g, wanted),
            wanted == (match targets {
                Some(ts) => Some(texts(ts@)),
                None => None,
            }),
            wanted is Some ==> strangers(g, wanted->0).len() == 0,
        decreases starts.len() - i,
    {
        proof {
            let rest = begin.skip(i as int);
            assert(rest[0] == rows[starts@[i as int] as int]);
            assert(rest.drop_first() =~= begin.skip(i + 1));
            assert(named(rows, stack@) =~= Seq::empty());
        }
        match visit(starts[i], &edges, &mut marks, &mut order, &mut stack, Ghost(g), Ghost(rows)) {
            Ok(_) => {},
            Err(cycle) => {
                let names = names_at(pkgs, &at, &cycle);
                return Err(concat2("dependency cycle: ", join(names.as_slice(), " -> ").as_str()));
            },
        }
        i = i + 1;
    }
    assert(begin.skip(i as int) =~= Seq::empty());
    Ok(names_at(pkgs, &at, &order))
}

/// `x` is wanted: a target needs it or, without targets, it is a package.
pub open spec fn wanted(g: Graph, targets: Option<Seq<Seq<char>>>, x: Seq<char>) -> bool {
    match targets {
        Some(ts) => needed_by(g, ts, x),
        None => g.contains_key(x),
    }
}

/// The starting points of the walk are known packages, and what they need is
/// what is wanted.
proof fn roots_cover(g: Graph, targets: Option<Seq<Seq<char>>>)
    requires
        complete(g),
        targets is Some ==> strangers(g, targets->0).len() == 0,
    ensures
        forall|i: int| 0 <= i < roots(g, targets).len() ==> g.contains_key(#[trigger] roots(g, targets)[i]),
        forall|x: Seq<char>| #[trigger] needed_by(g, roots(g, targets), x) <==> wanted(g, targets, x),
{
    broadcast use vstd::seq_lib::seq_to_set_is_finite;

    let rs = roots(g, targets);
    let names = match targets {
        Some(ts) => ts.to_set(),
        None => g.dom(),
    };
    in_order_lists(names);
    assert forall|i: int| 0 <= i < rs.len() implies g.contains_key(#[trigger] rs[i]) by {
        assert(rs.to_set().contains(rs[i]));
        if targets is Some {
            no_strangers(g, targets->0, rs[i]);
        }
    }
    assert forall|x: Seq<char>| #[trigger] needed_by(g, rs, x) <==> wanted(g, targets, x) by {
        if needed_by(g, rs, x) {
            let i = choose|i: int| 0 <= i < rs.len() && needs(g, #[trigger] rs[i], x);
            assert(rs.to_set().contains(rs[i]));
            match targets {
                Some(ts) => {
                    let k = choose|k: int| 0 <= k < ts.len() && ts[k] == rs[i];
                    assert(needs(g, ts[k], x));
                },
                None => {
                    let p = choose|p: Seq<Seq<char>>| leads(g, p, rs[i], x);
                    if p.len() > 1 {
                        let k = p.len() - 2;
                        assert(depends_on(g, p[k], p[k + 1]));
                    }
                },
            }
        }
        if wanted(g, targets, x) {
            match targets {
                Some(ts) => {
                    let k = choose|k: int| 0 <= k < ts.len() && needs(g, #[trigger] ts[k], x);
                    assert(names.contains(ts[k]));
                    assert(rs.to_set().contains(ts[k]));
                    let i = choose|i: int| 0 <= i < rs.len() && rs[i] == ts[k];
                    assert(needs(g, rs[i], x));
                },
                None => {
                    assert(rs.to_set().contains(x));
                    let i = choose|i: int| 0 <= i < rs.len() && rs[i] == x;
                    needs_self(g, x);
                    assert(needs(g, rs[i], x));
                },
            }
        }
    }
}

/// Without unknown names among them, all names are known.
proof fn no_strangers(g: Graph, s: Seq<Seq<char>>, x: Seq<char>)
    requires
        strangers(g, s).len() == 0,
        s.contains(x),
    ensures
        g.contains_key(x),
{
    if !g.contains_key(x) {
        let k = choose|k: int| 0 <= k < s.len() && s[k] == x;
        let pass = |d: Seq<char>| !g.contains_key(d);
        some_passing(s, pass, k);
    }
}

/// An item that passes a test is among those that pass it.
proof fn some_passing<A>(s: Seq<A>, pass: spec_fn(A) -> bool, k: int)
    requires
        0 <= k < s.len(),
        pass(s[k]),
    ensures
        s.filter(pass).len() > 0,
    decreases s.len(),
{
    reveal(Seq::filter);
    if k < s.len() - 1 {
        assert(s.drop_last()[k] == s[k]);
        some_passing(s.drop_last(), pass, k);
    }
}

/// Among the items that pass a test is none that does not, and none from elsewhere.
proof fn passing_item<A>(s: Seq<A>, pass: spec_fn(A) -> bool, k: int)
    requires
        0 <= k < s.filter(pass).len(),
    ensures
        pass(s.filter(pass)[k]),
        s.contains(s.filter(pass)[k]),
    decreases s.len(),
{
    reveal(Seq::filter);
    if s.len() > 0 {
        let init = s.drop_last();
        if k < init.filter(pass).len() {
            passing_item(init, pass, k);
            let j = choose|j: int| 0 <= j < init.len() && init[j] == init.filter(pass)[k];
            assert(s[j] == init[j]);
        } else {
            assert(s[s.len() - 1] == s.last());
        }
    }
}

/// In a build order every package comes once, and all its dependencies come
/// before it.
pub proof fn law_dependencies_first(pkgs: Seq<Package>, targets: Option<Seq<Seq<char>>>)
    ensures
        resolution(dependency_graph(pkgs), targets) matches Ok(order) ==> {
            &&& order.no_duplicates()
            &&& dependencies_first(dependency_graph(pkgs), order)
        },
{
    let g = dependency_graph(pkgs);
    if resolution(g, targets) is Ok {
        roots_cover(g, targets);
        walk_result(g, roots(g, targets));
    }
}

/// A build order holds the requested packages and all that they need, direct or
/// not, and nothing else; without a request, all packages.
pub proof fn law_exactly_the_closure(pkgs: Seq<Package>, targets: Option<Seq<Seq<char>>>)
    ensures
        resolution(dependency_graph(pkgs), targets) matches Ok(order) ==> forall|x: Seq<char>|
            #[trigger] order.contains(x) <==> wanted(dependency_graph(pkgs), targets, x),
{
    let g = dependency_graph(pkgs);
    if resolution(g, targets) is Ok {
        roots_cover(g, targets);
        walk_result(g, roots(g, targets));
        let order = resolution(g, targets)->Ok_0;
        assert forall|x: Seq<char>| #[trigger] order.contains(x) <==> wanted(g, targets, x) by {
            assert(needed_by(g, roots(g, targets), x) <==> wanted(g, targets, x));
        }
    }
}

/// An order names known packages only.
pub proof fn law_only_known_packages(
    pkgs: Seq<Package>,
    targets: Option<Seq<Seq<char>>>,
    x: Seq<char>,
)
    ensures
        resolution(dependency_graph(pkgs), targets) matches Ok(order) ==> order.contains(x)
            ==> dependency_graph(pkgs).contains_key(x),
{
    let g = dependency_graph(pkgs);
    if resolution(g, targets) is Ok && resolution(g, targets)->Ok_0.contains(x) {
        law_exactly_the_closure(pkgs, targets);
        if targets is Some {
            let ts = targets->0;
            let i = choose|i: int| 0 <= i < ts.len() && needs(g, #[trigger] ts[i], x);
            let p = choose|p: Seq<Seq<char>>| leads(g, p, ts[i], x);
            if p.len() > 1 {
                let k = p.len() - 2;
                assert(depends_on(g, p[k], p[k + 1]));
            } else {
                no_strangers(g, ts, x);
            }
        }
    }
}

/// An unknown dependency is reported if and only if there is one, and the one
/// that is reported is one.
pub proof fn law_unknown_dependency(pkgs: Seq<Package>, targets: Option<Seq<Seq<char>>>)
    ensures
        (resolution(dependency_graph(pkgs), targets) matches Err(f) && f is UnknownDependency)
            <==> exists|a: Seq<char>, d: Seq<char>|
            #[trigger] depends_on(dependency_graph(pkgs), a, d) && !dependency_graph(
                pkgs,
            ).contains_key(d),
        resolution(dependency_graph(pkgs), targets) matches Err(
            Failure::UnknownDependency { package, dependency },
        ) ==> depends_on(dependency_graph(pkgs), package, dependency) && !dependency_graph(
            pkgs,
        ).contains_key(dependency),
{
    let g = dependency_graph(pkgs);
    graph_finite(pkgs);
    if !complete(g) {
        let bad = dangling(g);
        let (a, d) = choose|a: Seq<char>, d: Seq<char>|
            #[trigger] depends_on(g, a, d) && !g.contains_key(d);
        assert(bad.contains(a));
        assert(bad.subset_of(g.dom()));
        vstd::set_lib::lemma_len_subset(bad, g.dom());
        in_order_lists(bad);
        let q = in_order(bad);
        assert(q.to_set().contains(a));
        assert(q.to_set().contains(q[0]));
        let package = q[0];
        assert(bad.contains(package));
        let e = choose|e: Seq<char>| #[trigger] depends_on(g, package, e) && !g.contains_key(e);
        let k = choose|k: int| 0 <= k < g[package].len() && g[package][k] == e;
        let pass = |d: Seq<char>| !g.contains_key(d);
        some_passing(g[package], pass, k);
        passing_item(g[package], pass, 0);
    }
}

/// With all dependencies known, an unknown target is reported if and only if
/// there is one, and it is the first one.
pub proof fn law_unknown_target(pkgs: Seq<Package>, targets: Seq<Seq<char>>)
    requires
        complete(dependency_graph(pkgs)),
    ensures
        (resolution(dependency_graph(pkgs), Some(targets)) matches Err(f) && f is UnknownTarget)
            <==> exists|i: int|
            0 <= i < targets.len() && !dependency_graph(pkgs).contains_key(#[trigger] targets[i]),
        forall|i: int|
            0 <= i < targets.len() && !dependency_graph(pkgs).contains_key(#[trigger] targets[i])
                && (forall|j: int|
                0 <= j < i ==> dependency_graph(pkgs).contains_key(#[trigger] targets[j]))
                ==> resolution(dependency_graph(pkgs), Some(targets)) == Err::<
                Seq<Seq<char>>,
                Failure,
            >(Failure::UnknownTarget { target: targets[i] }),
{
    let g = dependency_graph(pkgs);
    let pass = |d: Seq<char>| !g.contains_key(d);
    if strangers(g, targets).len() > 0 {
        passing_item(targets, pass, 0);
        let t = strangers(g, targets)[0];
        let i = choose|i: int| 0 <= i < targets.len() && targets[i] == t;
        assert(!g.contains_key(targets[i]));
    }
    assert forall|i: int|
        0 <= i < targets.len() && !g.contains_key(#[trigger] targets[i]) implies strangers(
        g,
        targets,
    ).len() > 0 by {
        some_passing(targets, pass, i);
    }
    assert forall|i: int|
        0 <= i < targets.len() && !g.contains_key(#[trigger] targets[i]) && (forall|j: int|
            0 <= j < i ==> g.contains_key(#[trigger] targets[j])) implies strangers(g, targets)[0]
        == targets[i] by {
        first_passing(targets, pass, i);
    }
}

/// With all names known, there is no build order if and only if a package that
/// is wanted lies on a dependency cycle; the cycle that is reported is one of
/// wanted packages.
pub proof fn law_cycle(pkgs: Seq<Package>, targets: Option<Seq<Seq<char>>>)
    requires
        complete(dependency_graph(pkgs)),
        targets is Some ==> forall|i: int|
            0 <= i < targets->0.len() ==> dependency_graph(pkgs).contains_key(#[trigger] targets->0[i]),
    ensures
        resolution(dependency_graph(pkgs), targets) is Err <==> exists|c: Seq<Seq<char>>|
            #[trigger] is_cycle(dependency_graph(pkgs), c) && wanted(
                dependency_graph(pkgs),
                targets,
                c[0],
            ),
        resolution(dependency_graph(pkgs), targets) matches Err(f) ==> f matches Failure::Cycle {
            names,
        } && is_cycle(dependency_graph(pkgs), names) && forall|i: int|
            0 <= i < names.len() ==> wanted(dependency_graph(pkgs), targets, #[trigger] names[i]),
{
    let g = dependency_graph(pkgs);
    if targets is Some {
        none_passing(targets->0, |d: Seq<char>| !g.contains_key(d));
    }
    roots_cover(g, targets);
    walk_result(g, roots(g, targets));
    match walk_each(g, roots(g, targets), Seq::empty(), Seq::empty()) {
        Ok(o) => {
            assert forall|c: Seq<Seq<char>>| #[trigger] is_cycle(g, c) implies !wanted(
                g,
                targets,
                c[0],
            ) by {
                order_has_no_cycle(g, o, c);
                assert(needed_by(g, roots(g, targets), c[0]) <==> wanted(g, targets, c[0]));
                assert(o.contains(c[0]) <==> needed_by(g, roots(g, targets), c[0]));
            }
        },
        Err(names) => {
            assert forall|i: int| 0 <= i < names.len() implies wanted(
                g,
                targets,
                #[trigger] names[i],
            ) by {
                assert(needed_by(g, roots(g, targets), names[i]));
            }
            assert(wanted(g, targets, names[0]));
        },
    }
}

/// With one target, that target is built last.
pub proof fn law_target_last(pkgs: Seq<Package>, target: Seq<char>)
    ensures
        resolution(dependency_graph(pkgs), Some(seq![target])) matches Ok(order) ==> order.len() > 0
            && order.last() == target,
{
    broadcast use vstd::seq_lib::seq_to_set_is_finite;

    let g = dependency_graph(pkgs);
    let one = seq![target];
    let none = Seq::<Seq<char>>::empty();
    if resolution(g, Some(one)) is Ok {
        in_order_lists(one.to_set());
        assert(strictly_ascending(one));
        listing_unique(one, in_order(one.to_set()));
        assert(one[0] == target);
        no_strangers(g, one, target);
        assert(one.drop_first() =~= none);
        reveal_with_fuel(walk_each, 2);
    }
}

/// The order in which targets are requested, and how often, does not matter.
pub proof fn law_request_order(pkgs: Seq<Package>, a: Seq<Seq<char>>, b: Seq<Seq<char>>)
    requires
        a.to_set() == b.to_set(),
        forall|i: int| 0 <= i < a.len() ==> dependency_graph(pkgs).contains_key(#[trigger] a[i]),
    ensures
        resolution(dependency_graph(pkgs), Some(a)) == resolution(dependency_graph(pkgs), Some(b)),
{
    let g = dependency_graph(pkgs);
    let pass = |d: Seq<char>| !g.contains_key(d);
    none_passing(a, pass);
    assert forall|i: int| 0 <= i < b.len() implies !pass(#[trigger] b[i]) by {
        assert(b.to_set().contains(b[i]));
        let k = choose|k: int| 0 <= k < a.len() && a[k] == b[i];
        assert(g.contains_key(a[k]));
    }
    none_passing(b, pass);
}

/// No two packages have one name.
pub open spec fn distinct_names(pkgs: Seq<Package>) -> bool {
    forall|i: int, j: int|
        0 <= i < pkgs.len() && 0 <= j < pkgs.len() && i != j ==> (#[trigger] pkgs[i]).meta.name@ != (
        #[trigger] pkgs[j]).meta.name@
}

/// With distinct names, the graph holds each package as it declares itself.
proof fn graph_holds(pkgs: Seq<Package>, n: Seq<char>)
    requires
        distinct_names(pkgs),
    ensures
        dependency_graph(pkgs).contains_key(n) <==> exists|i: int|
            0 <= i < pkgs.len() && (#[trigger] pkgs[i]).meta.name@ == n,
        forall|i: int|
            0 <= i < pkgs.len() && (#[trigger] pkgs[i]).meta.name@ == n ==> dependency_graph(pkgs)[n]
                == texts(pkgs[i].meta.dependencies@),
    decreases pkgs.len(),
{
    if pkgs.len() > 0 {
        let init = pkgs.drop_last();
        assert forall|i: int, j: int|
            0 <= i < init.len() && 0 <= j < init.len() && i != j implies (
        #[trigger] init[i]).meta.name@ != (#[trigger] init[j]).meta.name@ by {
            assert(pkgs[i].meta.name@ != pkgs[j].meta.name@);
        }
        graph_holds(init, n);
        let last = pkgs.len() - 1;
        assert(pkgs[last] == pkgs.last());
        assert forall|i: int| 0 <= i < pkgs.len() && (#[trigger] pkgs[i]).meta.name@ == n implies (
        i == last || init[i].meta.name@ == n) by {
            if i != last {
                assert(init[i] == pkgs[i]);
            }
        }
        if exists|i: int| 0 <= i < init.len() && (#[trigger] init[i]).meta.name@ == n {
            let i = choose|i: int| 0 <= i < init.len() && (#[trigger] init[i]).meta.name@ == n;
            assert(pkgs[i].meta.name@ == n);
        }
    }
}

/// The order in which packages are listed does not matter, as long as no two
/// have one name.
pub proof fn law_listing_order(
    a: Seq<Package>,
    b: Seq<Package>,
    targets: Option<Seq<Seq<char>>>,
)
    requires
        a.to_multiset() == b.to_multiset(),
        distinct_names(a),
        distinct_names(b),
    ensures
        resolution(dependency_graph(a), targets) == resolution(dependency_graph(b), targets),
{
    let ga = dependency_graph(a);
    let gb = dependency_graph(b);
    a.to_multiset_ensures();
    b.to_multiset_ensures();
    assert forall|p: Package| a.contains(p) <==> b.contains(p) by {
        assert(a.contains(p) <==> a.to_multiset().count(p) > 0);
        assert(b.contains(p) <==> b.to_multiset().count(p) > 0);
    }
    assert forall|n: Seq<char>|
        #[trigger] ga.dom().contains(n) == gb.dom().contains(n) && (ga.dom().contains(n) ==> ga[n]
            == gb[n]) by {
        graph_holds(a, n);
        graph_holds(b, n);
        if ga.contains_key(n) {
            let i = choose|i: int| 0 <= i < a.len() && (#[trigger] a[i]).meta.name@ == n;
            assert(b.contains(a[i]));
            let j = choose|j: int| 0 <= j < b.len() && b[j] == a[i];
            assert(b[j].meta.name@ == n);
        }
        if gb.contains_key(n) {
            let i = choose|i: int| 0 <= i < b.len() && (#[trigger] b[i]).meta.name@ == n;
            assert(a.contains(b[i]));
            let j = choose|j: int| 0 <= j < a.len() && a[j] == b[i];
            assert(a[j].meta.name@ == n);
        }
    }
    assert(ga =~= gb);
}

/// Two graphs with the same packages, each with the same dependencies in whatever
/// order, and however often each is named.
spec fn same_dependencies(g: Graph, h: Graph) -> bool {
    &&& g.dom() == h.dom()
    &&& forall|n: Seq<char>| #[trigger] g.contains_key(n) ==> g[n].to_set() == h[n].to_set()
}

/// The walk below one package goes by the set of dependencies of each.
proof fn same_walk_from(
    g: Graph,
    h: Graph,
    node: Seq<char>,
    path: Seq<Seq<char>>,
    order: Seq<Seq<char>>,
)
    requires
        same_dependencies(g, h),
    ensures
        walk_from(g, node, path, order) == walk_from(h, node, path, order),
    decreases off_path(g, path), 0nat,
{
    if !order.contains(node) && !path.contains(node) && g.dom().finite() && g.contains_key(node) {
        path_shrinks_rest(g, path, node);
        same_walk_each(g, h, in_order(g[node].to_set()), path.push(node), order);
    }
}

/// The walk below several packages goes by the set of dependencies of each.
proof fn same_walk_each(
    g: Graph,
    h: Graph,
    nodes: Seq<Seq<char>>,
    path: Seq<Seq<char>>,
    order: Seq<Seq<char>>,
)
    requires
        same_dependencies(g, h),
    ensures
        walk_each(g, nodes, path, order) == walk_each(h, nodes, path, order),
    decreases off_path(g, path), nodes.len(),
{
    if nodes.len() > 0 {
        same_walk_from(g, h, nodes[0], path, order);
        match walk_from(g, nodes[0], path, order) {
            Ok(o) => same_walk_each(g, h, nodes.drop_first(), path, o),
            Err(_) => {},
        }
    }
}

/// Packages with the same names and the same dependencies, in whatever order each names
/// them, have graphs that differ in that order only.
proof fn graphs_of_same_dependencies(a: Seq<Package>, b: Seq<Package>)
    requires
        a.len() == b.len(),
        forall|i: int|
            #![trigger a[i]]
            0 <= i < a.len() ==> a[i].meta.name@ == b[i].meta.name@ && texts(
                a[i].meta.dependencies@,
            ).to_set() == texts(b[i].meta.dependencies@).to_set(),
    ensures
        same_dependencies(dependency_graph(a), dependency_graph(b)),
    decreases a.len(),
{
    let ga = dependency_graph(a);
    let gb = dependency_graph(b);
    if a.len() > 0 {
        let ia = a.drop_last();
        let ib = b.drop_last();
        assert forall|i: int| #![trigger ia[i]] 0 <= i < ia.len() implies ia[i].meta.name@
            == ib[i].meta.name@ && texts(ia[i].meta.dependencies@).to_set() == texts(
            ib[i].meta.dependencies@,
        ).to_set() by {
            assert(ia[i] == a[i]);
        }
        graphs_of_same_dependencies(ia, ib);
        let last = a[a.len() - 1];
        assert(ga.dom() =~= gb.dom());
        assert forall|n: Seq<char>| #[trigger] ga.contains_key(n) implies ga[n].to_set()
            == gb[n].to_set() by {
            if n != last.meta.name@ {
                assert(dependency_graph(ia).contains_key(n));
            }
        }
    } else {
        assert(ga.dom() =~= gb.dom());
    }
}

/// The order in which a package names its dependencies does not matter, nor how often it
/// names one, as long as all of them are known: which of several unknown ones is reported
/// goes by that order.
pub proof fn law_dependency_list_order(
    a: Seq<Package>,
    b: Seq<Package>,
    targets: Option<Seq<Seq<char>>>,
)
    requires
        a.len() == b.len(),
        forall|i: int|
            #![trigger a[i]]
            0 <= i < a.len() ==> a[i].meta.name@ == b[i].meta.name@ && texts(
                a[i].meta.dependencies@,
            ).to_set() == texts(b[i].meta.dependencies@).to_set(),
        complete(dependency_graph(a)),
    ensures
        resolution(dependency_graph(a), targets) == resolution(dependency_graph(b), targets),
{
    let ga = dependency_graph(a);
    let gb = dependency_graph(b);
    graphs_of_same_dependencies(a, b);
    assert forall|x: Seq<char>, d: Seq<char>| #[trigger] depends_on(gb, x, d) implies gb.contains_key(
        d,
    ) by {
        assert(ga.contains_key(x));
        assert(gb[x].to_set().contains(d));
        assert(ga[x].to_set().contains(d));
        assert(depends_on(ga, x, d));
    }
    assert(complete(gb));
    if targets is Some {
        let ts = targets->0;
        same_strangers(ga, gb, ts);
    }
    same_walk_each(ga, gb, roots(ga, targets), Seq::empty(), Seq::empty());
}

/// Which names are unknown goes by the names in the graph.
proof fn same_strangers(g: Graph, h: Graph, s: Seq<Seq<char>>)
    requires
        g.dom() == h.dom(),
    ensures
        strangers(g, s) == strangers(h, s),
    decreases s.len(),
{
    reveal(Seq::filter);
    if s.len() > 0 {
        same_strangers(g, h, s.drop_last());
    }
}

} // verus!
