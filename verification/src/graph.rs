//! Dependency graphs over package names, and the depth-first walk that puts
//! them into a build order.

use vstd::prelude::*;

use crate::names::in_order;
use crate::names::in_order_lists;

verus! {

/// The packages by name, each with its dependencies as it declares them.
pub type Graph = Map<Seq<char>, Seq<Seq<char>>>;

/// `a` names `b` as a dependency.
pub open spec fn depends_on(g: Graph, a: Seq<char>, b: Seq<char>) -> bool {
    g.contains_key(a) && g[a].contains(b)
}

/// Finitely many packages, and every dependency is one of them.
pub open spec fn complete(g: Graph) -> bool {
    &&& g.dom().finite()
    &&& forall|a: Seq<char>, b: Seq<char>| #[trigger] depends_on(g, a, b) ==> g.contains_key(b)
}

/// Each name in `p` depends on the next one.
pub open spec fn is_chain(g: Graph, p: Seq<Seq<char>>) -> bool {
    forall|i: int| 0 <= i < p.len() - 1 ==> depends_on(g, #[trigger] p[i], p[i + 1])
}

/// A chain of dependencies that leads back to where it starts.
pub open spec fn is_cycle(g: Graph, c: Seq<Seq<char>>) -> bool {
    &&& c.len() >= 2
    &&& c.first() == c.last()
    &&& is_chain(g, c)
}

/// `p` is a chain of dependencies that leads from `a` to `b`.
pub open spec fn leads(g: Graph, p: Seq<Seq<char>>, a: Seq<char>, b: Seq<char>) -> bool {
    &&& p.len() >= 1
    &&& p.first() == a
    &&& p.last() == b
    &&& is_chain(g, p)
}

/// `b` is `a` or one of its dependencies, direct or not.
pub open spec fn needs(g: Graph, a: Seq<char>, b: Seq<char>) -> bool {
    exists|p: Seq<Seq<char>>| leads(g, p, a, b)
}

/// `x` is one of `nodes` or a dependency of one, direct or not.
pub open spec fn needed_by(g: Graph, nodes: Seq<Seq<char>>, x: Seq<char>) -> bool {
    exists|i: int| 0 <= i < nodes.len() && needs(g, #[trigger] nodes[i], x)
}

/// Every dependency of a name in `order` stands earlier in `order`.
pub open spec fn dependencies_first(g: Graph, order: Seq<Seq<char>>) -> bool {
    forall|i: int, d: Seq<char>|
        0 <= i < order.len() && #[trigger] depends_on(g, order[i], d) ==> order.take(i).contains(d)
}

/// How many packages are not on the path that is being followed.
pub open spec fn off_path(g: Graph, path: Seq<Seq<char>>) -> nat {
    g.dom().difference(path.to_set()).len()
}

/// The part of `path` from the first `node` on, closed with `node` again.
pub open spec fn closed_at(path: Seq<Seq<char>>, node: Seq<char>) -> Seq<Seq<char>> {
    path.skip(path.index_of_first(node)->0).push(node)
}

/// The walk below one package: `order` grown by what it needs and by the package
/// itself, or the cycle that the walk ran into. `path` leads from where the walk
/// began to this package.
pub open spec fn walk_from(
    g: Graph,
    node: Seq<char>,
    path: Seq<Seq<char>>,
    order: Seq<Seq<char>>,
) -> Result<Seq<Seq<char>>, Seq<Seq<char>>>
    decreases off_path(g, path), 0nat,
{
    if order.contains(node) {
        Ok(order)
    } else if path.contains(node) {
        Err(closed_at(path, node))
    } else if !(g.dom().finite() && g.contains_key(node)) {
        Ok(order.push(node))
    } else {
        proof {
            path_shrinks_rest(g, path, node);
        }
        match walk_each(g, in_order(g[node].to_set()), path.push(node), order) {
            Ok(o) => Ok(o.push(node)),
            Err(c) => Err(c),
        }
    }
}

/// The walk below each of `nodes` in turn, up to the first cycle.
pub open spec fn walk_each(
    g: Graph,
    nodes: Seq<Seq<char>>,
    path: Seq<Seq<char>>,
    order: Seq<Seq<char>>,
) -> Result<Seq<Seq<char>>, Seq<Seq<char>>>
    decreases off_path(g, path), nodes.len(),
{
    if nodes.len() == 0 {
        Ok(order)
    } else {
        match walk_from(g, nodes[0], path, order) {
            Ok(o) => walk_each(g, nodes.drop_first(), path, o),
            Err(c) => Err(c),
        }
    }
}

/// A path that grows by a package leaves one package fewer off it.
pub proof fn path_shrinks_rest(g: Graph, path: Seq<Seq<char>>, node: Seq<char>)
    requires
        g.dom().finite(),
        g.contains_key(node),
        !path.contains(node),
    ensures
        off_path(g, path.push(node)) < off_path(g, path),
{
    let before = g.dom().difference(path.to_set());
    let after = g.dom().difference(path.push(node).to_set());
    assert(before.contains(node));
    assert(after =~= before.remove(node)) by {
        assert forall|x: Seq<char>| path.push(node).contains(x) <==> path.contains(x) || x == node by {
            if path.contains(x) {
                let k = choose|k: int| 0 <= k < path.len() && path[k] == x;
                assert(path.push(node)[k] == x);
            }
            assert(path.push(node)[path.len() as int] == node);
        }
    }
}

/// The state of a walk: `path` is a chain without repetition, `order` holds each
/// name once and its dependencies first, and the two have no name in common.
pub open spec fn walk_state(g: Graph, path: Seq<Seq<char>>, order: Seq<Seq<char>>) -> bool {
    &&& path.no_duplicates()
    &&& is_chain(g, path)
    &&& forall|i: int| 0 <= i < path.len() ==> g.contains_key(#[trigger] path[i])
    &&& order.no_duplicates()
    &&& forall|i: int| 0 <= i < order.len() ==> g.contains_key(#[trigger] order[i])
    &&& forall|i: int| 0 <= i < path.len() ==> !order.contains(#[trigger] path[i])
    &&& dependencies_first(g, order)
}

/// `node` is a package, and the end of `path`, if there is one, depends on it.
pub open spec fn may_enter(g: Graph, path: Seq<Seq<char>>, node: Seq<char>) -> bool {
    &&& g.contains_key(node)
    &&& path.len() > 0 ==> depends_on(g, path.last(), node)
}

/// What a walk may come back with.
pub open spec fn walk_outcome(
    g: Graph,
    nodes: Seq<Seq<char>>,
    path: Seq<Seq<char>>,
    order: Seq<Seq<char>>,
    outcome: Result<Seq<Seq<char>>, Seq<Seq<char>>>,
) -> bool {
    match outcome {
        Ok(o) => {
            &&& walk_state(g, path, o)
            &&& order.is_prefix_of(o)
            &&& forall|i: int| 0 <= i < nodes.len() ==> o.contains(#[trigger] nodes[i])
            &&& forall|i: int|
                0 <= i < o.len() ==> order.contains(#[trigger] o[i]) || needed_by(g, nodes, o[i])
        },
        Err(c) => {
            &&& is_cycle(g, c)
            &&& forall|i: int|
                0 <= i < c.len() ==> path.contains(#[trigger] c[i]) || needed_by(g, nodes, c[i])
        },
    }
}

/// A package needs itself.
pub proof fn needs_self(g: Graph, a: Seq<char>)
    ensures
        needs(g, a, a),
{
    assert(leads(g, seq![a], a, a));
}

/// What a dependency of `a` needs, `a` needs.
pub proof fn needs_step(g: Graph, a: Seq<char>, b: Seq<char>, c: Seq<char>)
    requires
        depends_on(g, a, b),
        needs(g, b, c),
    ensures
        needs(g, a, c),
{
    let p = choose|p: Seq<Seq<char>>| leads(g, p, b, c);
    let q = seq![a] + p;
    assert forall|i: int| 0 <= i < q.len() - 1 implies depends_on(g, #[trigger] q[i], q[i + 1]) by {
        if i > 0 {
            assert(q[i] == p[i - 1]);
            assert(q[i + 1] == p[i - 1 + 1]);
        } else {
            assert(q[1] == p[0]);
        }
    }
    assert(q.last() == p.last());
    assert(leads(g, q, a, c));
}

proof fn walk_from_outcome(
    g: Graph,
    node: Seq<char>,
    path: Seq<Seq<char>>,
    order: Seq<Seq<char>>,
)
    requires
        complete(g),
        walk_state(g, path, order),
        may_enter(g, path, node),
    ensures
        walk_outcome(g, seq![node], path, order, walk_from(g, node, path, order)),
    decreases off_path(g, path), 0nat,
{
    let nodes = seq![node];
    assert(nodes[0] == node);
    needs_self(g, node);
    assert(needed_by(g, nodes, node));
    if order.contains(node) {
        assert forall|i: int| 0 <= i < order.len() implies order.contains(#[trigger] order[i]) by {}
    } else if path.contains(node) {
        path.index_of_first_ensures(node);
        let k = path.index_of_first(node)->0;
        let tail = path.skip(k);
        let c = tail.push(node);
        assert(c == closed_at(path, node));
        assert(c[0] == path[k]);
        assert forall|i: int| 0 <= i < c.len() - 1 implies depends_on(g, #[trigger] c[i], c[i + 1]) by {
            assert(c[i] == path[k + i]);
            if i < tail.len() - 1 {
                assert(c[i + 1] == path[k + i + 1]);
            } else {
                assert(path[k + i] == path.last());
            }
        }
        assert(is_cycle(g, c));
        assert forall|i: int| 0 <= i < c.len() implies path.contains(#[trigger] c[i]) by {
            if i < tail.len() {
                assert(c[i] == path[k + i]);
            }
        }
    } else {
        path_shrinks_rest(g, path, node);
        let deps = g[node].to_set();
        assert(deps.finite()) by {
            broadcast use vstd::seq_lib::seq_to_set_is_finite;
        }
        in_order_lists(deps);
        let children = in_order(deps);
        let deeper = path.push(node);
        assert(walk_state(g, deeper, order)) by {
            assert forall|i: int| 0 <= i < deeper.len() - 1 implies depends_on(
                g,
                #[trigger] deeper[i],
                deeper[i + 1],
            ) by {
                if i < path.len() - 1 {
                    assert(depends_on(g, path[i], path[i + 1]));
                }
            }
        }
        assert forall|i: int| 0 <= i < children.len() implies may_enter(
            g,
            deeper,
            #[trigger] children[i],
        ) by {
            assert(children.to_set().contains(children[i]));
            assert(deps.contains(children[i]));
            assert(depends_on(g, node, children[i]));
        }
        walk_each_outcome(g, children, deeper, order);
        assert forall|x: Seq<char>| needed_by(g, children, x) implies needed_by(g, nodes, x) by {
            let i = choose|i: int| 0 <= i < children.len() && needs(g, #[trigger] children[i], x);
            assert(may_enter(g, deeper, children[i]));
            needs_step(g, node, children[i], x);
            assert(needs(g, nodes[0], x));
        }
        match walk_each(g, children, deeper, order) {
            Ok(o) => {
                let grown = o.push(node);
                assert(!o.contains(node)) by {
                    assert(deeper[path.len() as int] == node);
                }
                assert(dependencies_first(g, grown)) by {
                    assert forall|i: int, d: Seq<char>|
                        0 <= i < grown.len() && #[trigger] depends_on(g, grown[i], d) implies grown.take(
                        i,
                    ).contains(d) by {
                        if i < o.len() {
                            assert(depends_on(g, o[i], d));
                            assert(grown.take(i) =~= o.take(i));
                        } else {
                            assert(g[node].contains(d));
                            assert(deps.contains(d));
                            assert(children.to_set().contains(d));
                            let k = choose|k: int| 0 <= k < children.len() && children[k] == d;
                            assert(o.contains(children[k]));
                            assert(grown.take(i) =~= o);
                        }
                    }
                }
                assert(walk_state(g, path, grown)) by {
                    assert forall|i: int| 0 <= i < path.len() implies !grown.contains(
                        #[trigger] path[i],
                    ) by {
                        assert(deeper[i] == path[i]);
                        assert(!o.contains(deeper[i]));
                        if grown.contains(path[i]) {
                            let k = choose|k: int| 0 <= k < grown.len() && grown[k] == path[i];
                            if k < o.len() {
                                assert(o[k] == path[i]);
                            }
                        }
                    }
                    assert forall|i: int, j: int|
                        0 <= i < grown.len() && 0 <= j < grown.len() && i != j implies grown[i]
                        != grown[j] by {
                        if i == o.len() {
                            assert(o[j] == grown[j]);
                        } else if j == o.len() {
                            assert(o[i] == grown[i]);
                        }
                    }
                }
                assert(grown[o.len() as int] == node);
                assert forall|i: int| 0 <= i < grown.len() implies order.contains(
                    #[trigger] grown[i],
                ) || needed_by(g, nodes, grown[i]) by {
                    if i < o.len() {
                        assert(grown[i] == o[i]);
                    }
                }
                assert(order.is_prefix_of(grown)) by {
                    assert(order.is_prefix_of(o));
                    assert(grown.subrange(0, order.len() as int) =~= o.subrange(
                        0,
                        order.len() as int,
                    ));
                }
            },
            Err(c) => {
                assert forall|i: int| 0 <= i < c.len() implies path.contains(#[trigger] c[i])
                    || needed_by(g, nodes, c[i]) by {
                    if deeper.contains(c[i]) {
                        let k = choose|k: int| 0 <= k < deeper.len() && deeper[k] == c[i];
                        if k < path.len() {
                            assert(path[k] == c[i]);
                        }
                    }
                }
            },
        }
    }
}

proof fn walk_each_outcome(
    g: Graph,
    nodes: Seq<Seq<char>>,
    path: Seq<Seq<char>>,
    order: Seq<Seq<char>>,
)
    requires
        complete(g),
        walk_state(g, path, order),
        forall|i: int| 0 <= i < nodes.len() ==> may_enter(g, path, #[trigger] nodes[i]),
    ensures
        walk_outcome(g, nodes, path, order, walk_each(g, nodes, path, order)),
    decreases off_path(g, path), nodes.len(),
{
    if nodes.len() == 0 {
        assert forall|i: int| 0 <= i < order.len() implies order.contains(#[trigger] order[i]) by {}
    } else {
        let first = seq![nodes[0]];
        let rest = nodes.drop_first();
        assert(may_enter(g, path, nodes[0]));
        walk_from_outcome(g, nodes[0], path, order);
        assert forall|x: Seq<char>| needed_by(g, first, x) implies needed_by(g, nodes, x) by {
            let i = choose|i: int| 0 <= i < first.len() && needs(g, #[trigger] first[i], x);
            assert(needs(g, nodes[0], x));
        }
        match walk_from(g, nodes[0], path, order) {
            Ok(o) => {
                assert(first[0] == nodes[0]);
                assert(o.contains(first[0]));
                assert forall|i: int| 0 <= i < rest.len() implies may_enter(g, path, #[trigger] rest[i]) by {
                    assert(rest[i] == nodes[i + 1]);
                }
                walk_each_outcome(g, rest, path, o);
                assert forall|x: Seq<char>| needed_by(g, rest, x) implies needed_by(g, nodes, x) by {
                    let i = choose|i: int| 0 <= i < rest.len() && needs(g, #[trigger] rest[i], x);
                    assert(needs(g, nodes[i + 1], x));
                }
                match walk_each(g, rest, path, o) {
                    Ok(p) => {
                        assert forall|x: Seq<char>| o.contains(x) implies p.contains(x) by {
                            let k = choose|k: int| 0 <= k < o.len() && o[k] == x;
                            assert(o == p.subrange(0, o.len() as int));
                            assert(p[k] == x);
                        }
                        assert forall|i: int| 0 <= i < nodes.len() implies p.contains(
                            #[trigger] nodes[i],
                        ) by {
                            if i > 0 {
                                assert(rest[i - 1] == nodes[i]);
                            }
                        }
                        assert forall|i: int| 0 <= i < p.len() implies order.contains(
                            #[trigger] p[i],
                        ) || needed_by(g, nodes, p[i]) by {
                            if o.contains(p[i]) {
                                let k = choose|k: int| 0 <= k < o.len() && o[k] == p[i];
                                assert(order.contains(o[k]) || needed_by(g, first, o[k]));
                            }
                        }
                        assert(order.is_prefix_of(p)) by {
                            assert(o == p.subrange(0, o.len() as int));
                            assert(order =~= p.subrange(0, order.len() as int));
                        }
                    },
                    Err(c) => {},
                }
            },
            Err(c) => {},
        }
    }
}

/// An order with dependencies first holds, with a name, all that it needs.
pub proof fn order_is_closed(g: Graph, order: Seq<Seq<char>>, a: Seq<char>, b: Seq<char>)
    requires
        dependencies_first(g, order),
        order.contains(a),
        needs(g, a, b),
    ensures
        order.contains(b),
{
    let p = choose|p: Seq<Seq<char>>| leads(g, p, a, b);
    chain_stays_inside(g, order, p, p.len() - 1);
}

proof fn chain_stays_inside(g: Graph, order: Seq<Seq<char>>, p: Seq<Seq<char>>, k: int)
    requires
        dependencies_first(g, order),
        is_chain(g, p),
        0 <= k < p.len(),
        order.contains(p[0]),
    ensures
        order.contains(p[k]),
    decreases k,
{
    if k > 0 {
        chain_stays_inside(g, order, p, k - 1);
        let i = choose|i: int| 0 <= i < order.len() && order[i] == p[k - 1];
        assert(depends_on(g, p[k - 1], p[k - 1 + 1]));
        assert(depends_on(g, order[i], p[k]));
        assert(order.take(i).contains(p[k]));
        let j = choose|j: int| 0 <= j < order.take(i).len() && order.take(i)[j] == p[k];
        assert(order[j] == p[k]);
    }
}

/// Along a chain the places in an order with dependencies first go down.
proof fn chain_goes_down(g: Graph, order: Seq<Seq<char>>, p: Seq<Seq<char>>, k: int, from: int) -> (
    at: int)
    requires
        dependencies_first(g, order),
        is_chain(g, p),
        0 <= k < p.len(),
        0 <= from < order.len(),
        order[from] == p[0],
    ensures
        0 <= at <= from - k,
        order[at] == p[k],
    decreases k,
{
    if k == 0 {
        from
    } else {
        let i = chain_goes_down(g, order, p, k - 1, from);
        assert(depends_on(g, p[k - 1], p[k - 1 + 1]));
        assert(depends_on(g, order[i], p[k]));
        let j = choose|j: int| 0 <= j < order.take(i).len() && order.take(i)[j] == p[k];
        assert(order[j] == p[k]);
        j
    }
}

/// No name in an order with dependencies first lies on a cycle.
pub proof fn order_has_no_cycle(g: Graph, order: Seq<Seq<char>>, c: Seq<Seq<char>>)
    requires
        dependencies_first(g, order),
        order.no_duplicates(),
        is_cycle(g, c),
    ensures
        !order.contains(c[0]),
{
    if order.contains(c[0]) {
        let from = choose|i: int| 0 <= i < order.len() && order[i] == c[0];
        let at = chain_goes_down(g, order, c, c.len() - 1, from);
        assert(order[at] == order[from]);
    }
}

/// What a walk over a complete graph comes back with: every package that is
/// needed, each once and its dependencies first; or a cycle among them.
pub proof fn walk_result(g: Graph, nodes: Seq<Seq<char>>)
    requires
        complete(g),
        forall|i: int| 0 <= i < nodes.len() ==> g.contains_key(#[trigger] nodes[i]),
    ensures
        match walk_each(g, nodes, Seq::empty(), Seq::empty()) {
            Ok(o) => {
                &&& o.no_duplicates()
                &&& dependencies_first(g, o)
                &&& forall|x: Seq<char>| #[trigger] o.contains(x) <==> needed_by(g, nodes, x)
            },
            Err(c) => {
                &&& is_cycle(g, c)
                &&& forall|i: int| 0 <= i < c.len() ==> needed_by(g, nodes, #[trigger] c[i])
            },
        },
{
    let none = Seq::<Seq<char>>::empty();
    walk_each_outcome(g, nodes, none, none);
    match walk_each(g, nodes, none, none) {
        Ok(o) => {
            assert forall|x: Seq<char>| #[trigger] o.contains(x) <==> needed_by(g, nodes, x) by {
                if o.contains(x) {
                    let i = choose|i: int| 0 <= i < o.len() && o[i] == x;
                    assert(none.contains(o[i]) || needed_by(g, nodes, o[i]));
                }
                if needed_by(g, nodes, x) {
                    let i = choose|i: int| 0 <= i < nodes.len() && needs(g, #[trigger] nodes[i], x);
                    assert(o.contains(nodes[i]));
                    order_is_closed(g, o, nodes[i], x);
                }
            }
        },
        Err(c) => {
            assert forall|i: int| 0 <= i < c.len() implies needed_by(g, nodes, #[trigger] c[i]) by {
                assert(none.contains(c[i]) || needed_by(g, nodes, c[i]));
            }
        },
    }
}

/// A walk below several packages is one below the first of them and then one below the
/// others.
proof fn walk_in_parts(
    g: Graph,
    nodes: Seq<Seq<char>>,
    path: Seq<Seq<char>>,
    order: Seq<Seq<char>>,
    n: int,
)
    requires
        0 <= n <= nodes.len(),
    ensures
        walk_each(g, nodes, path, order) == (match walk_each(g, nodes.take(n), path, order) {
            Ok(o) => walk_each(g, nodes.skip(n), path, o),
            Err(c) => Err(c),
        }),
    decreases n,
{
    if n == 0 {
        assert(nodes.take(0) =~= Seq::empty());
        assert(nodes.skip(0) =~= nodes);
    } else {
        let rest = nodes.drop_first();
        assert(nodes.take(n)[0] == nodes[0]);
        assert(nodes.take(n).drop_first() =~= rest.take(n - 1));
        assert(nodes.skip(n) =~= rest.skip(n - 1));
        match walk_from(g, nodes[0], path, order) {
            Ok(o) => {
                walk_in_parts(g, rest, path, o, n - 1);
            },
            Err(_) => {},
        }
    }
}

/// A walk below several packages takes them in turn: what it adds to the order before one
/// of them is needed by that one or by one before it.
pub proof fn walk_goes_in_turn(
    g: Graph,
    nodes: Seq<Seq<char>>,
    path: Seq<Seq<char>>,
    order: Seq<Seq<char>>,
    k: int,
    at: int,
    before: int,
)
    requires
        complete(g),
        walk_state(g, path, order),
        forall|i: int| 0 <= i < nodes.len() ==> may_enter(g, path, #[trigger] nodes[i]),
        walk_each(g, nodes, path, order) is Ok,
        0 <= k < nodes.len(),
        order.len() <= before < at < walk_each(g, nodes, path, order)->Ok_0.len(),
        walk_each(g, nodes, path, order)->Ok_0[at] == nodes[k],
    ensures
        needed_by(g, nodes.take(k + 1), walk_each(g, nodes, path, order)->Ok_0[before]),
{
    let first = nodes.take(k + 1);
    let rest = nodes.skip(k + 1);
    let all = walk_each(g, nodes, path, order)->Ok_0;
    walk_in_parts(g, nodes, path, order, k + 1);
    assert forall|i: int| 0 <= i < first.len() implies may_enter(g, path, #[trigger] first[i]) by {
        assert(first[i] == nodes[i]);
    }
    assert forall|i: int| 0 <= i < rest.len() implies may_enter(g, path, #[trigger] rest[i]) by {
        assert(rest[i] == nodes[k + 1 + i]);
    }
    walk_each_outcome(g, first, path, order);
    let so_far = walk_each(g, first, path, order)->Ok_0;
    walk_each_outcome(g, rest, path, so_far);
    assert(first[k] == nodes[k]);
    assert(so_far.contains(first[k]));
    let i = choose|i: int| 0 <= i < so_far.len() && so_far[i] == nodes[k];
    assert(all[i] == so_far[i]);
    assert(i == at);
    assert(all[before] == so_far[before]);
    if order.contains(so_far[before]) {
        let j = choose|j: int| 0 <= j < order.len() && order[j] == so_far[before];
        assert(so_far[j] == order[j]);
    }
}

} // verus!
