//! What holds of every build order beyond the dependencies: which of several possible orders
//! it is, and what is said where there is none.

use vstd::prelude::*;

use crate::config::Package;
use crate::graph::complete;
use crate::graph::depends_on;
use crate::graph::may_enter;
use crate::graph::needs;
use crate::graph::walk_each;
use crate::graph::walk_from;
use crate::graph::walk_goes_in_turn;
use crate::graph::walk_state;
use crate::names::in_order;
use crate::names::in_order_lists;
use crate::names::listing_unique;
use crate::names::precedes;
use crate::names::strictly_ascending;
use crate::resolver::dangling;
use crate::resolver::dependency_graph;
use crate::resolver::first_passing;
use crate::resolver::resolution;
use crate::resolver::resolved;
use crate::resolver::roots;
use crate::resolver::Failure;
use crate::text::joined;
use crate::text::texts;

verus! {

/// One of the packages that a build order is asked for; without a request, any package.
pub open spec fn is_asked_for(
    pkgs: Seq<Package>,
    targets: Option<Seq<Seq<char>>>,
    name: Seq<char>,
) -> bool {
    match targets {
        Some(ts) => ts.contains(name),
        None => dependency_graph(pkgs).contains_key(name),
    }
}

/// Names decide where dependencies do not: whatever stands before a package that was asked
/// for is needed by that package or by one that was asked for and comes before it by name.
/// So packages that do not need each other come in the order of their names.
pub proof fn law_names_decide(
    pkgs: Seq<Package>,
    targets: Option<Seq<Seq<char>>>,
    at: int,
    before: int,
)
    requires
        resolution(dependency_graph(pkgs), targets) is Ok,
        0 <= before < at < resolution(dependency_graph(pkgs), targets)->Ok_0.len(),
        is_asked_for(pkgs, targets, resolution(dependency_graph(pkgs), targets)->Ok_0[at]),
    ensures
        ({
            let order = resolution(dependency_graph(pkgs), targets)->Ok_0;
            exists|c: Seq<char>| #[trigger]
                needs(dependency_graph(pkgs), c, order[before]) && is_asked_for(pkgs, targets, c)
                    && (c == order[at] || precedes(c, order[at]))
        }),
{
    broadcast use vstd::seq_lib::seq_to_set_is_finite;

    let g = dependency_graph(pkgs);
    let order = resolution(g, targets)->Ok_0;
    let none = Seq::<Seq<char>>::empty();
    let nodes = roots(g, targets);
    let names = match targets {
        Some(ts) => ts.to_set(),
        None => g.dom(),
    };
    in_order_lists(names);
    assert(names.contains(order[at]));
    assert(nodes.to_set().contains(order[at]));
    let k = choose|k: int| 0 <= k < nodes.len() && nodes[k] == order[at];
    assert forall|i: int| 0 <= i < nodes.len() implies may_enter(g, none, #[trigger] nodes[i]) by {
        assert(nodes.to_set().contains(nodes[i]));
        if targets is Some {
            known_target(pkgs, targets->0, nodes[i]);
        }
    }
    assert(walk_state(g, none, none));
    walk_goes_in_turn(g, nodes, none, none, k, at, before);
    let first = nodes.take(k + 1);
    let i = choose|i: int| 0 <= i < first.len() && needs(g, #[trigger] first[i], order[before]);
    assert(first[i] == nodes[i]);
    assert(nodes.to_set().contains(nodes[i]));
    assert(is_asked_for(pkgs, targets, nodes[i]));
    if i < k {
        assert(precedes(nodes[i], nodes[k]));
    }
    assert(needs(g, nodes[i], order[before]));
}

/// Where there is a build order every package that was asked for is known.
proof fn known_target(pkgs: Seq<Package>, targets: Seq<Seq<char>>, name: Seq<char>)
    requires
        resolution(dependency_graph(pkgs), Some(targets)) is Ok,
        targets.contains(name),
    ensures
        dependency_graph(pkgs).contains_key(name),
{
    let g = dependency_graph(pkgs);
    crate::resolver::law_unknown_target(pkgs, targets);
    let i = choose|i: int| 0 <= i < targets.len() && targets[i] == name;
    if !g.contains_key(targets[i]) {
        assert(false);
    }
}

/// The same holds among the dependencies of one package: whatever stands before one of them
/// is needed by that one or by another of them that comes before it by name.
pub proof fn law_names_decide_among_dependencies(
    pkgs: Seq<Package>,
    target: Seq<char>,
    at: int,
    before: int,
)
    requires
        resolution(dependency_graph(pkgs), Some(seq![target])) is Ok,
        0 <= before < at < resolution(dependency_graph(pkgs), Some(seq![target]))->Ok_0.len(),
        depends_on(
            dependency_graph(pkgs),
            target,
            resolution(dependency_graph(pkgs), Some(seq![target]))->Ok_0[at],
        ),
    ensures
        ({
            let g = dependency_graph(pkgs);
            let order = resolution(g, Some(seq![target]))->Ok_0;
            exists|c: Seq<char>| #[trigger]
                needs(g, c, order[before]) && depends_on(g, target, c) && (c == order[at]
                    || precedes(c, order[at]))
        }),
{
    broadcast use vstd::seq_lib::seq_to_set_is_finite;

    let g = dependency_graph(pkgs);
    let one = seq![target];
    let none = Seq::<Seq<char>>::empty();
    let order = resolution(g, Some(one))->Ok_0;
    in_order_lists(one.to_set());
    assert(strictly_ascending(one));
    listing_unique(one, in_order(one.to_set()));
    assert(one.drop_first() =~= none);
    assert(one[0] == target);
    reveal_with_fuel(walk_each, 2);
    assert(walk_from(g, target, none, none) == Ok::<Seq<Seq<char>>, Seq<Seq<char>>>(order));
    let deps = g[target].to_set();
    let nodes = in_order(deps);
    let path = none.push(target);
    in_order_lists(deps);
    let below = walk_each(g, nodes, path, none)->Ok_0;
    assert(order =~= below.push(target));
    assert forall|i: int| 0 <= i < nodes.len() implies may_enter(g, path, #[trigger] nodes[i]) by {
        assert(nodes.to_set().contains(nodes[i]));
        assert(depends_on(g, target, nodes[i]));
    }
    assert(walk_state(g, path, none));
    assert(deps.contains(order[at]));
    assert(nodes.to_set().contains(order[at]));
    let k = choose|k: int| 0 <= k < nodes.len() && nodes[k] == order[at];
    if at == below.len() {
        crate::resolver::law_dependencies_first(pkgs, Some(one));
        assert(order[at] == target);
        assert(depends_on(g, order[at], target));
        let taken = order.take(at);
        let j = choose|j: int| 0 <= j < taken.len() && taken[j] == target;
        assert(order[j] == order[at]);
    } else {
        walk_goes_in_turn(g, nodes, path, none, k, at, before);
        let first = nodes.take(k + 1);
        let i = choose|i: int| 0 <= i < first.len() && needs(g, #[trigger] first[i], order[before]);
        assert(first[i] == nodes[i]);
        assert(nodes.to_set().contains(nodes[i]));
        if i < k {
            assert(precedes(nodes[i], nodes[k]));
        }
        assert(needs(g, nodes[i], order[before]));
    }
}

/// Of several unknown dependencies it is one of the package that comes first by name that is
/// reported.
pub proof fn law_which_unknown_dependency(
    pkgs: Seq<Package>,
    targets: Option<Seq<Seq<char>>>,
    other: Seq<char>,
    unknown: Seq<char>,
)
    requires
        depends_on(dependency_graph(pkgs), other, unknown),
        !dependency_graph(pkgs).contains_key(unknown),
    ensures
        resolution(dependency_graph(pkgs), targets) matches Err(
            Failure::UnknownDependency { package, dependency },
        ) && (package == other || precedes(package, other)),
{
    let g = dependency_graph(pkgs);
    assert(!complete(g));
    let bad = dangling(g);
    assert(bad.contains(other));
    finite_names(pkgs);
    assert(bad.subset_of(g.dom()));
    vstd::set_lib::lemma_len_subset(bad, g.dom());
    in_order_lists(bad);
    let q = in_order(bad);
    assert(q.to_set().contains(other));
    let i = choose|i: int| 0 <= i < q.len() && q[i] == other;
    if i > 0 {
        assert(precedes(q[0], q[i]));
    }
}

/// Of several unknown dependencies of that package it is the one that it names first.
pub proof fn law_first_unknown_dependency(
    pkgs: Seq<Package>,
    targets: Option<Seq<Seq<char>>>,
    package: Seq<char>,
    dependency: Seq<char>,
    i: int,
)
    requires
        resolution(dependency_graph(pkgs), targets) == Err::<Seq<Seq<char>>, Failure>(
            Failure::UnknownDependency { package, dependency },
        ),
        0 <= i < dependency_graph(pkgs)[package].len(),
        !dependency_graph(pkgs).contains_key(dependency_graph(pkgs)[package][i]),
        forall|j: int|
            0 <= j < i ==> dependency_graph(pkgs).contains_key(
                #[trigger] dependency_graph(pkgs)[package][j],
            ),
    ensures
        dependency == dependency_graph(pkgs)[package][i],
{
    let g = dependency_graph(pkgs);
    let pass = |d: Seq<char>| !g.contains_key(d);
    assert forall|j: int| 0 <= j < i implies !pass(#[trigger] g[package][j]) by {
        assert(g.contains_key(g[package][j]));
    }
    first_passing(g[package], pass, i);
}

/// The graph has exactly the names of the packages, and under each name what the last package
/// of that name depends on, in the order in which it says so.
pub proof fn law_graph_of_packages(pkgs: Seq<Package>, name: Seq<char>, i: int)
    ensures
        dependency_graph(pkgs).contains_key(name) <==> (exists|k: int|
            0 <= k < pkgs.len() && (#[trigger] pkgs[k]).meta.name@ == name),
        0 <= i < pkgs.len() && pkgs[i].meta.name@ == name && (forall|j: int|
            i < j < pkgs.len() ==> (#[trigger] pkgs[j]).meta.name@ != name) ==> dependency_graph(
            pkgs,
        )[name] == texts(pkgs[i].meta.dependencies@),
    decreases pkgs.len(),
{
    if pkgs.len() > 0 {
        let init = pkgs.drop_last();
        let n = pkgs.len() - 1;
        assert(pkgs[n] == pkgs.last());
        law_graph_of_packages(init, name, i);
        if pkgs.last().meta.name@ == name {
            assert(dependency_graph(pkgs).contains_key(name));
        } else {
            if exists|k: int| 0 <= k < init.len() && (#[trigger] init[k]).meta.name@ == name {
                let k = choose|k: int| 0 <= k < init.len() && (#[trigger] init[k]).meta.name@
                    == name;
                assert(pkgs[k].meta.name@ == name);
            }
            if exists|k: int| 0 <= k < pkgs.len() && (#[trigger] pkgs[k]).meta.name@ == name {
                let k = choose|k: int| 0 <= k < pkgs.len() && (#[trigger] pkgs[k]).meta.name@
                    == name;
                assert(init[k].meta.name@ == name);
            }
        }
        if 0 <= i < pkgs.len() && pkgs[i].meta.name@ == name && (forall|j: int|
            i < j < pkgs.len() ==> (#[trigger] pkgs[j]).meta.name@ != name) {
            if i < n {
                assert(pkgs[n].meta.name@ != name);
                assert forall|j: int| i < j < init.len() implies (#[trigger] init[j]).meta.name@
                    != name by {
                    assert(pkgs[j].meta.name@ != name);
                }
            }
        }
    }
}

/// There are finitely many packages.
proof fn finite_names(pkgs: Seq<Package>)
    ensures
        dependency_graph(pkgs).dom().finite(),
    decreases pkgs.len(),
{
    if pkgs.len() > 0 {
        finite_names(pkgs.drop_last());
    }
}

/// The messages name what is wrong: the package and what it depends on, the target, or the
/// packages of a cycle one after the other.
pub proof fn law_messages_of_a_resolution(
    package: Seq<char>,
    dependency: Seq<char>,
    names: Seq<Seq<char>>,
)
    ensures
        (Failure::UnknownDependency { package, dependency }).message() == "package '"@ + package
            + "' depends on unknown package '"@ + dependency + "'"@,
        (Failure::UnknownTarget { target: package }).message() == "unknown package '"@ + package
            + "'"@,
        (Failure::Cycle { names }).message() == "dependency cycle: "@ + joined(names, " -> "@),
{
}

/// What comes back is the order itself, name by name, wherever there is one, and the message
/// about why there is none otherwise.
pub proof fn law_order_is_handed_out(
    pkgs: Seq<Package>,
    targets: Option<Seq<Seq<char>>>,
    res: Result<Vec<String>, String>,
    i: int,
)
    requires
        resolved(pkgs, targets, res),
    ensures
        res is Ok <==> resolution(dependency_graph(pkgs), targets) is Ok,
        res matches Ok(names) ==> {
            let order = resolution(dependency_graph(pkgs), targets)->Ok_0;
            names@.len() == order.len() && (0 <= i < order.len() ==> names@[i]@ == order[i])
        },
        res matches Err(e) ==> e@ == resolution(
            dependency_graph(pkgs),
            targets,
        )->Err_0.message(),
{
    if let Ok(names) = res {
        assert(texts(names@).len() == names@.len());
        if 0 <= i < names@.len() {
            assert(texts(names@)[i] == names@[i]@);
        }
    }
}

} // verus!
