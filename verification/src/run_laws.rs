//! What holds of packages and of runs: what makes a directory a package, what of it is
//! installed, and how a run goes through its order.

use vstd::prelude::*;

use crate::config::field;
use crate::config::loaded;
use crate::config::MetaRead;
use crate::config::MetaValue;
use crate::config::Package;
use crate::config::PackageMeta;
use crate::config::Sighting;
use crate::numbers::decimal;
use crate::run::asked_for;
use crate::run::is_installed;
use crate::run::order_label;
use crate::run::package_named;
use crate::run::run_decided;
use crate::run::RunEvent;
use crate::run::RunMove;
use crate::run::Scope;
use crate::text_laws::law_decimal;

verus! {

/// A directory is a package exactly where its `meta.toml` holds the fields of one and a
/// `build.sh` is there. The package has those fields, that script, the directory and the
/// patches if there are any; patches are not asked for.
pub proof fn law_what_a_package_is(seen: Sighting, read: MetaRead, res: Result<Package, String>)
    requires
        loaded(seen, read, res),
    ensures
        res is Ok <==> read is Fields && seen.build_script is Some,
        res matches Ok(pkg) ==> {
            &&& read == MetaRead::Fields(pkg.meta)
            &&& seen.build_script == Some(pkg.build_script)
            &&& pkg.patches_dir == seen.patches_dir
            &&& pkg.pkg_dir == seen.pkg_dir
        },
{
}

/// Why a directory is no package: it has no `meta.toml`, or that could not be read or does
/// not hold the fields of a package, or, with a good one, it has no `build.sh`.
pub proof fn law_why_there_is_no_package(
    seen: Sighting,
    read: MetaRead,
    res: Result<Package, String>,
)
    requires
        loaded(seen, read, res),
    ensures
        read is Missing ==> (res matches Err(e) && e@ == "No meta.toml in "@ + seen.shown@),
        read matches MetaRead::Unreadable(why) ==> (res matches Err(e) && e@
            == "Failed to read meta.toml: "@ + why@),
        read matches MetaRead::Invalid(why) ==> (res matches Err(e) && e@
            == "Failed to parse meta.toml: "@ + why@),
        read is Fields && seen.build_script is None ==> (res matches Err(e) && e@
            == "No build.sh in "@ + seen.shown@),
{
}

/// Under a name that no field has nothing is found, and what is found is a field of that
/// name.
pub proof fn law_only_fields_are_found(fields: Seq<(String, MetaValue)>, key: Seq<char>)
    ensures
        field(fields, key) is None <==> (forall|i: int|
            0 <= i < fields.len() ==> (#[trigger] fields[i]).0@ != key),
        field(fields, key) matches Some(value) ==> exists|i: int|
            0 <= i < fields.len() && (#[trigger] fields[i]).0@ == key && fields[i].1 == value,
    decreases fields.len(),
{
    if fields.len() > 0 {
        let rest = fields.drop_first();
        if fields[0].0@ != key {
            law_only_fields_are_found(rest, key);
            if field(rest, key) is Some {
                let i = choose|i: int|
                    0 <= i < rest.len() && (#[trigger] rest[i]).0@ == key && rest[i].1 == field(
                        rest,
                        key,
                    )->0;
                assert(fields[i + 1] == rest[i]);
            } else {
                assert forall|i: int| 0 <= i < fields.len() implies (#[trigger] fields[i]).0@
                    != key by {
                    if i > 0 {
                        assert(rest[i - 1].0@ != key);
                    }
                }
            }
        }
    }
}

/// How a build script sees a field: a string as it is, a boolean as `true` or `false`, an
/// integer in decimal, and anything else as it is written out.
pub proof fn law_how_fields_are_shown(s: String, n: i64, items: Vec<Option<String>>)
    ensures
        MetaValue::Text(s).shown() == s@,
        MetaValue::Flag(true).shown() == "true"@,
        MetaValue::Flag(false).shown() == "false"@,
        n >= 0 ==> MetaValue::Number(n).shown() == decimal(n as nat),
        n < 0 ==> MetaValue::Number(n).shown() == seq!['-'] + decimal((-n) as nat),
        (MetaValue::List { items, shown: s }).shown() == s@,
        MetaValue::Other(s).shown() == s@,
{
}

/// A field that says yes or no counts; any other value of it, or none, leaves what is taken
/// otherwise.
pub proof fn law_flags_of_a_package(meta: PackageMeta, key: Seq<char>, otherwise: bool)
    ensures
        field(meta.extra@, key) matches Some(MetaValue::Flag(b)) ==> meta.flag_or(key, otherwise)
            == b,
        !(field(meta.extra@, key) matches Some(MetaValue::Flag(_))) ==> meta.flag_or(key, otherwise)
            == otherwise,
{
}

/// What is installed: a single package only if that is asked for, what a closure builds
/// always, since each of it is built against what came before, and all packages unless that
/// is ruled out.
pub proof fn law_what_is_installed()
    ensures
        is_installed(Scope::One { install: true }),
        !is_installed(Scope::One { install: false }),
        is_installed(Scope::Closure),
        is_installed(Scope::All { no_install: false }),
        !is_installed(Scope::All { no_install: true }),
{
}

/// A name stands for the last of the packages that have it, and for none exactly where no
/// package has it.
pub proof fn law_name_of_a_package(pkgs: Seq<Package>, name: Seq<char>)
    ensures
        package_named(pkgs, name) is None <==> (forall|i: int|
            0 <= i < pkgs.len() ==> (#[trigger] pkgs[i]).meta.name@ != name),
        package_named(pkgs, name) matches Some(k) ==> 0 <= k < pkgs.len() && pkgs[k].meta.name@
            == name && forall|i: int|
            k < i < pkgs.len() ==> (#[trigger] pkgs[i]).meta.name@ != name,
    decreases pkgs.len(),
{
    if pkgs.len() > 0 {
        let init = pkgs.drop_last();
        law_name_of_a_package(init, name);
        let n = pkgs.len() - 1;
        assert(pkgs[n] == pkgs.last());
        if pkgs.last().meta.name@ != name {
            match package_named(init, name) {
                Some(k) => {
                    assert(pkgs[k] == init[k]);
                    assert forall|i: int| k < i < pkgs.len() implies (#[trigger] pkgs[i]).meta.name@
                        != name by {
                        if i < n {
                            assert(init[i].meta.name@ != name);
                        }
                    }
                },
                None => {
                    assert forall|i: int| 0 <= i < pkgs.len() implies (
                    #[trigger] pkgs[i]).meta.name@ != name by {
                        if i < n {
                            assert(init[i].meta.name@ != name);
                        }
                    }
                },
            }
        }
    }
}

/// A run builds the packages of its order one after the other: after some of them are built
/// the next one is, and it is done when all are and not before. Of several packages with the
/// name it takes the last. The local tree is for the package that was named as the target
/// and for no other.
pub proof fn law_run_goes_through_its_order(
    pkgs: Seq<Package>,
    order: Seq<String>,
    target: Option<Seq<char>>,
    built: usize,
    r: RunMove,
)
    requires
        built <= order.len(),
        run_decided(pkgs, order, target, built, RunEvent::Built, r),
    ensures
        r is Done <==> built == order.len(),
        r is Missing <==> built < order.len() && (forall|i: int|
            0 <= i < pkgs.len() ==> (#[trigger] pkgs[i]).meta.name@ != order[built as int]@),
        r is Build || r is Done || r is Missing,
        r matches RunMove::Build { index, local } ==> {
            &&& built < order.len()
            &&& index < pkgs.len()
            &&& pkgs[index as int].meta.name@ == order[built as int]@
            &&& forall|i: int|
                index < i < pkgs.len() ==> (#[trigger] pkgs[i]).meta.name@ != order[built as int]@
            &&& local <==> target == Some(order[built as int]@)
        },
        r matches RunMove::Missing { message } ==> message@ == order[built as int]@
            + " (no package dir)"@,
{
    if built < order.len() {
        law_name_of_a_package(pkgs, order[built as int]@);
    }
}

/// A package that cannot be built stops the run, whichever it is. The message names it and
/// gives the reason, and the summary says how many were built of how many and where the run
/// stopped.
pub proof fn law_failure_stops_the_run(
    pkgs: Seq<Package>,
    order: Seq<String>,
    target: Option<Seq<char>>,
    built: usize,
    error: String,
    r: RunMove,
)
    requires
        built < order.len(),
        run_decided(pkgs, order, target, built, RunEvent::Failed(error), r),
    ensures
        r matches RunMove::Stop { message, summary } && message@ == order[built as int]@ + ": "@
            + error@ && summary@ == "built "@ + decimal(built as nat) + "/"@ + decimal(order.len())
            + " before stopping at "@ + order[built as int]@,
{
}

/// When a run is done, its summary says that all packages were built.
pub proof fn law_summary_of_a_run(
    pkgs: Seq<Package>,
    order: Seq<String>,
    target: Option<Seq<char>>,
    built: usize,
    r: RunMove,
)
    requires
        built == order.len(),
        run_decided(pkgs, order, target, built, RunEvent::Built, r),
    ensures
        r matches RunMove::Done { summary } && summary@ == "built "@ + decimal(order.len()) + "/"@
            + decimal(order.len()) + " packages"@,
{
}

/// The labels of a build order are the numbers of its lines; up to 99 they are all of one
/// length.
pub proof fn law_labels_of_an_order(number: nat)
    ensures
        number < 10 ==> order_label(number) == "  "@ + (" "@ + decimal(number)) + ". "@,
        number >= 10 ==> order_label(number) == "  "@ + decimal(number) + ". "@,
        number < 100 ==> order_label(number).len() == 6,
{
    reveal_strlit("  ");
    reveal_strlit(" ");
    reveal_strlit(". ");
    reveal_with_fuel(decimal, 3);
    law_decimal(number);
    if number >= 10 {
        law_decimal(number / 10);
        assert(decimal(number).len() >= 2);
        if number < 100 {
            assert(number / 10 < 10);
        }
    }
}

/// A build order is asked for the packages that are named, in whatever number, and for all of
/// them where none is.
pub proof fn law_what_an_order_is_asked_for(packages: Seq<Seq<char>>)
    ensures
        packages.len() > 0 ==> asked_for(packages) == Some(packages),
        packages.len() == 0 ==> asked_for(packages) is None,
{
}

} // verus!
