//! Runs: the packages of an order are built one after the other, until one fails.

use vstd::prelude::*;

use crate::config::Package;
use crate::numbers::decimal;
use crate::numbers::decimal_text;
use crate::resolver::dependency_graph;
use crate::resolver::law_only_known_packages;
use crate::resolver::resolution;
use crate::resolver::resolve_order;
use crate::resolver::resolved;
use crate::text::concat2;
use crate::text::concat3;
use crate::text::same_text;
use crate::text::texts;

verus! {

/// What a run builds.
#[derive(Clone, Copy, PartialEq, Eq, Structural, Debug)]
pub enum Scope {
    /// One package by itself; it is installed if that was asked for.
    One { install: bool },
    /// One package after all that it needs.
    Closure,
    /// All packages; they are installed unless that was ruled out.
    All { no_install: bool },
}

/// What a run builds is installed into the sysroot.
pub open spec fn is_installed(scope: Scope) -> bool {
    match scope {
        Scope::One { install } => install,
        Scope::Closure => true,
        Scope::All { no_install } => !no_install,
    }
}

/// Whether what a run builds is installed into the sysroot. A package can only be built
/// against what it needs once that is installed, so a closure always is.
pub fn installs(scope: Scope) -> (r: bool)
    ensures
        r == is_installed(scope),
{
    match scope {
        Scope::One { install } => install,
        Scope::Closure => true,
        Scope::All { no_install } => !no_install,
    }
}

/// The package with a name: of several, the last.
pub open spec fn package_named(pkgs: Seq<Package>, name: Seq<char>) -> Option<int>
    decreases pkgs.len(),
{
    if pkgs.len() == 0 {
        None
    } else if pkgs.last().meta.name@ == name {
        Some(pkgs.len() - 1)
    } else {
        package_named(pkgs.drop_last(), name)
    }
}

/// The package with a name: of several, the last.
pub fn find_package(pkgs: &[Package], name: &str) -> (r: Option<usize>)
    ensures
        match r {
            Some(i) => package_named(pkgs@, name@) == Some(i as int),
            None => package_named(pkgs@, name@) is None,
        },
        r matches Some(i) ==> i < pkgs@.len(),
{
    let mut n: usize = pkgs.len();
    assert(pkgs@.take(n as int) =~= pkgs@);
    while n > 0
        invariant
            n <= pkgs@.len(),
            package_named(pkgs@, name@) == package_named(pkgs@.take(n as int), name@),
        decreases n,
    {
        n = n - 1;
        assert(pkgs@.take(n + 1).drop_last() =~= pkgs@.take(n as int));
        if same_text(pkgs[n].meta.name.as_str(), name) {
            return Some(n);
        }
    }
    None
}

/// What has happened in a run so far.
pub enum RunEvent {
    /// All packages before the next one are built.
    Built,
    /// The next package could not be built.
    Failed(String),
}

/// What a run does.
pub enum RunMove {
    /// It builds a package; `local` says whether the local working tree that was given
    /// is for this package.
    Build { index: usize, local: bool },
    /// It stops: there is no such package.
    Missing { message: String },
    /// It stops: a package could not be built.
    Stop { message: String, summary: String },
    /// It is done.
    Done { summary: String },
}

/// How far a run has come.
pub open spec fn progress(built: nat, total: nat) -> Seq<char> {
    "built "@ + decimal(built) + "/"@ + decimal(total)
}

/// How far a run has come.
fn progress_text(built: usize, total: usize) -> (r: String)
    ensures
        r@ == progress(built as nat, total as nat),
{
    let mut r = concat3("built ", decimal_text(built as u64).as_str(), "/");
    r.append(decimal_text(total as u64).as_str());
    r
}

/// `r` is what a run does next, after `built` packages of the order.
pub open spec fn run_decided(
    pkgs: Seq<Package>,
    order: Seq<String>,
    target: Option<Seq<char>>,
    built: usize,
    event: RunEvent,
    r: RunMove,
) -> bool {
    &&& match event {
        RunEvent::Failed(error) => r matches RunMove::Stop { message, summary } && message@
            == order[built as int]@ + ": "@ + error@ && summary@ == progress(
            built as nat,
            order.len(),
        ) + " before stopping at "@ + order[built as int]@,
        RunEvent::Built => if built == order.len() {
            r matches RunMove::Done { summary } && summary@ == progress(
                built as nat,
                order.len(),
            ) + " packages"@
        } else {
            let name = order[built as int]@;
            match package_named(pkgs, name) {
                Some(i) => r matches RunMove::Build { index, local } && index == i && local == (
                target matches Some(t) && t == name),
                None => r matches RunMove::Missing { message } && message@ == name
                    + " (no package dir)"@,
            }
        },
    }
    &&& r matches RunMove::Build { index, local } ==> index < pkgs.len()
}

/// What a run does next, after `built` packages of the order. Only the package that was
/// named as the target is built from the local working tree.
pub fn build_in_order(
    pkgs: &[Package],
    order: &[String],
    target: Option<&str>,
    built: usize,
    event: &RunEvent,
) -> (r: RunMove)
    requires
        built <= order@.len(),
        *event is Failed ==> built < order@.len(),
    ensures
        run_decided(
            pkgs@,
            order@,
            match target {
                Some(t) => Some(t@),
                None => None,
            },
            built,
            *event,
            r,
        ),
{
    match event {
        RunEvent::Failed(error) => {
            let name = order[built].as_str();
            RunMove::Stop {
                message: concat3(name, ": ", error.as_str()),
                summary: concat3(
                    progress_text(built, order.len()).as_str(),
                    " before stopping at ",
                    name,
                ),
            }
        },
        RunEvent::Built => {
            if built == order.len() {
                return RunMove::Done {
                    summary: concat2(progress_text(built, order.len()).as_str(), " packages"),
                };
            }
            let name = order[built].as_str();
            match find_package(pkgs, name) {
                Some(index) => {
                    let local = match target {
                        Some(t) => same_text(t, name),
                        None => false,
                    };
                    RunMove::Build { index, local }
                },
                None => RunMove::Missing { message: concat2(name, " (no package dir)") },
            }
        },
    }
}

/// A name has a package exactly when it is in the graph, and the graph holds the
/// dependencies of that package.
proof fn graph_has_package(pkgs: Seq<Package>, name: Seq<char>)
    ensures
        package_named(pkgs, name) is Some <==> dependency_graph(pkgs).contains_key(name),
        package_named(pkgs, name) matches Some(i) ==> 0 <= i < pkgs.len() && pkgs[i].meta.name@
            == name && dependency_graph(pkgs)[name] == texts(pkgs[i].meta.dependencies@),
    decreases pkgs.len(),
{
    if pkgs.len() > 0 {
        graph_has_package(pkgs.drop_last(), name);
    }
}

/// In a resolved order no package is missing. Each name of it has a package, and it
/// is that package whose dependencies the order was resolved with.
pub proof fn law_resolved_order_is_complete(
    pkgs: Seq<Package>,
    targets: Option<Seq<Seq<char>>>,
    k: int,
)
    requires
        resolution(dependency_graph(pkgs), targets) matches Ok(order) && 0 <= k < order.len(),
    ensures
        ({
            let name = resolution(dependency_graph(pkgs), targets)->Ok_0[k];
            package_named(pkgs, name) matches Some(i) && 0 <= i < pkgs.len() && pkgs[i].meta.name@
                == name && dependency_graph(pkgs)[name] == texts(pkgs[i].meta.dependencies@)
        }),
{
    let g = dependency_graph(pkgs);
    let order = resolution(g, targets)->Ok_0;
    assert(order.contains(order[k]));
    law_only_known_packages(pkgs, targets, order[k]);
    graph_has_package(pkgs, order[k]);
}

/// What is asked for by naming some packages: those, or all if none are named.
pub open spec fn asked_for(packages: Seq<Seq<char>>) -> Option<Seq<Seq<char>>> {
    if packages.len() == 0 {
        None
    } else {
        Some(packages)
    }
}

/// The build order of some packages with all that they need, or of all packages if none
/// are named.
pub fn deps_order(pkgs: &[Package], packages: &[String]) -> (res: Result<Vec<String>, String>)
    ensures
        resolved(pkgs@, asked_for(texts(packages@)), res),
{
    assert(texts(packages@).len() == packages@.len());
    if packages.len() == 0 {
        resolve_order(pkgs, None)
    } else {
        resolve_order(pkgs, Some(packages))
    }
}

/// The number at the beginning of a line of a build order: its digits end in the same
/// column up to two of them.
pub open spec fn order_label(number: nat) -> Seq<char> {
    "  "@ + (if decimal(number).len() < 2 {
        " "@ + decimal(number)
    } else {
        decimal(number)
    }) + ". "@
}

/// The beginning of the line for the package at a place of a build order.
pub fn line_label(place: usize) -> (r: String)
    requires
        place < usize::MAX,
    ensures
        r@ == order_label(place as nat + 1),
{
    let number = decimal_text((place + 1) as u64);
    let padded = if number.as_str().unicode_len() < 2 {
        concat2(" ", number.as_str())
    } else {
        number
    };
    concat3("  ", padded.as_str(), ". ")
}

} // verus!
