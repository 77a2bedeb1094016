//! What a package is: the fields of its `meta.toml` and where its files lie.

use std::path::PathBuf;
use vstd::prelude::*;

use crate::numbers::signed_decimal;
use crate::numbers::signed_decimal_text;
use crate::text::concat2;
use crate::text::flag;
use crate::text::same_text;

verus! {

/// `std::path::PathBuf`, carried through without a look inside.
#[verifier::external_type_specification]
#[verifier::external_body]
pub struct ExPathBuf(PathBuf);

/// The value of a `meta.toml` field that is not one of the fixed fields.
#[derive(Debug)]
pub enum MetaValue {
    /// A string.
    Text(String),
    /// A boolean.
    Flag(bool),
    /// An integer.
    Number(i64),
    /// An array: its items, as far as they are strings, and the array written out.
    List { items: Vec<Option<String>>, shown: String },
    /// Any other value, written out.
    Other(String),
}

/// The fields of a package's `meta.toml`.
#[derive(Debug)]
pub struct PackageMeta {
    pub name: String,
    pub version: String,
    pub description: String,
    pub licenses: Vec<String>,
    pub repository: String,
    pub dependencies: Vec<String>,
    /// All other fields, each once, in the order in which they were read.
    pub extra: Vec<(String, MetaValue)>,
}

/// A package: its fields, its build script, its patches and its directory.
pub struct Package {
    pub meta: PackageMeta,
    pub build_script: PathBuf,
    pub patches_dir: Option<PathBuf>,
    pub pkg_dir: PathBuf,
}

impl MetaValue {
    /// The value as a build script sees it.
    pub open spec fn shown(self) -> Seq<char> {
        match self {
            MetaValue::Text(s) => s@,
            MetaValue::Flag(b) => flag(b),
            MetaValue::Number(n) => signed_decimal(n as int),
            MetaValue::List { items, shown } => shown@,
            MetaValue::Other(s) => s@,
        }
    }

    /// The value as a build script sees it.
    pub fn show(&self) -> (r: String)
        ensures
            r@ == self.shown(),
    {
        match self {
            MetaValue::Text(s) => s.clone(),
            MetaValue::Flag(b) => if *b {
                "true".to_owned()
            } else {
                "false".to_owned()
            },
            MetaValue::Number(n) => signed_decimal_text(*n),
            MetaValue::List { items, shown } => shown.clone(),
            MetaValue::Other(s) => s.clone(),
        }
    }
}

/// The value of the first of the fields with the name `key`.
pub open spec fn field(fields: Seq<(String, MetaValue)>, key: Seq<char>) -> Option<MetaValue>
    decreases fields.len(),
{
    if fields.len() == 0 {
        None
    } else if fields[0].0@ == key {
        Some(fields[0].1)
    } else {
        field(fields.drop_first(), key)
    }
}

impl PackageMeta {
    /// No two of the other fields have the same name.
    pub open spec fn well_formed(self) -> bool {
        forall|i: int, j: int|
            0 <= i < j < self.extra@.len() ==> (#[trigger] self.extra@[i]).0@ != (
            #[trigger] self.extra@[j]).0@
    }

    /// The value of a field that is not one of the fixed fields.
    pub fn get(&self, key: &str) -> (r: Option<&MetaValue>)
        ensures
            match r {
                Some(v) => field(self.extra@, key@) == Some(*v),
                None => field(self.extra@, key@) is None,
            },
    {
        let mut i: usize = 0;
        assert(self.extra@.skip(0) =~= self.extra@);
        while i < self.extra.len()
            invariant
                i <= self.extra@.len(),
                field(self.extra@, key@) == field(self.extra@.skip(i as int), key@),
            decreases self.extra.len() - i,
        {
            let ghost rest = self.extra@.skip(i as int);
            assert(rest[0] == self.extra@[i as int]);
            assert(rest.drop_first() =~= self.extra@.skip(i + 1));
            let (k, v) = &self.extra[i];
            if same_text(k.as_str(), key) {
                return Some(v);
            }
            i = i + 1;
        }
        None
    }

    /// The boolean in the field `key`, or `otherwise`.
    pub open spec fn flag_or(self, key: Seq<char>, otherwise: bool) -> bool {
        match field(self.extra@, key) {
            Some(MetaValue::Flag(b)) => b,
            _ => otherwise,
        }
    }

    /// The boolean in the field `key`, if there is one.
    pub fn flag(&self, key: &str) -> (r: Option<bool>)
        ensures
            r == (match field(self.extra@, key@) {
                Some(MetaValue::Flag(b)) => Some(b),
                _ => None,
            }),
    {
        match self.get(key) {
            Some(MetaValue::Flag(b)) => Some(*b),
            _ => None,
        }
    }

    /// The string in the field `key`, if there is one.
    pub fn text(&self, key: &str) -> (r: Option<&String>)
        ensures
            match r {
                Some(s) => field(self.extra@, key@) == Some(MetaValue::Text(*s)),
                None => !(field(self.extra@, key@) matches Some(MetaValue::Text(_))),
            },
    {
        match self.get(key) {
            Some(MetaValue::Text(s)) => Some(s),
            _ => None,
        }
    }
}

/// Where fields have names of their own, each is found under its name: it does not matter
/// whether the first or the last of a name is taken.
pub proof fn law_each_field_is_found(meta: PackageMeta, i: int)
    requires
        meta.well_formed(),
        0 <= i < meta.extra@.len(),
    ensures
        field(meta.extra@, meta.extra@[i].0@) == Some(meta.extra@[i].1),
        field(meta.extra@.reverse(), meta.extra@[i].0@) == Some(meta.extra@[i].1),
{
    let extra = meta.extra@;
    found_at(extra, i);
    let back = extra.reverse();
    let k = extra.len() - 1 - i;
    assert(back[k] == extra[i]);
    assert forall|j: int| 0 <= j < k implies (#[trigger] back[j]).0@ != back[k].0@ by {
        assert(back[j] == extra[extra.len() - 1 - j]);
    }
    found_at(back, k);
}

/// A field is found if none of its name comes before it.
proof fn found_at(fields: Seq<(String, MetaValue)>, i: int)
    requires
        0 <= i < fields.len(),
        forall|j: int| 0 <= j < i ==> (#[trigger] fields[j]).0@ != fields[i].0@,
    ensures
        field(fields, fields[i].0@) == Some(fields[i].1),
    decreases fields.len(),
{
    if i > 0 {
        let rest = fields.drop_first();
        assert(fields[0].0@ != fields[i].0@);
        assert(rest[i - 1] == fields[i]);
        assert forall|j: int| 0 <= j < i - 1 implies (#[trigger] rest[j]).0@ != rest[i - 1].0@ by {
            assert(rest[j] == fields[j + 1]);
        }
        found_at(rest, i - 1);
    }
}

/// What a look at a package directory found.
pub struct Sighting {
    /// The directory, as it is shown in messages.
    pub shown: String,
    pub pkg_dir: PathBuf,
    /// Where its `build.sh` is, if it has one.
    pub build_script: Option<PathBuf>,
    /// Where its `patches` are, if it has any.
    pub patches_dir: Option<PathBuf>,
}

/// What came of reading a `meta.toml`.
pub enum MetaRead {
    /// There is none.
    Missing,
    /// It could not be read.
    Unreadable(String),
    /// It does not hold the fields of a package.
    Invalid(String),
    /// Its fields.
    Fields(PackageMeta),
}

/// Why a directory is no package. What is wrong with its `meta.toml` comes before a
/// missing `build.sh`.
pub open spec fn refusal(seen: Sighting, read: MetaRead) -> Option<Seq<char>> {
    match read {
        MetaRead::Missing => Some("No meta.toml in "@ + seen.shown@),
        MetaRead::Unreadable(e) => Some("Failed to read meta.toml: "@ + e@),
        MetaRead::Invalid(e) => Some("Failed to parse meta.toml: "@ + e@),
        MetaRead::Fields(_) => if seen.build_script is None {
            Some("No build.sh in "@ + seen.shown@)
        } else {
            None
        },
    }
}

/// `res` is the package in a directory, or why it is none.
pub open spec fn loaded(seen: Sighting, read: MetaRead, res: Result<Package, String>) -> bool {
    match refusal(seen, read) {
        Some(why) => res matches Err(e) && e@ == why,
        None => res matches Ok(pkg) && read == MetaRead::Fields(pkg.meta)
            && seen.build_script == Some(pkg.build_script) && pkg.patches_dir == seen.patches_dir
            && pkg.pkg_dir == seen.pkg_dir,
    }
}

/// The package in a directory, or why it is none.
pub fn load_package(seen: Sighting, read: MetaRead) -> (res: Result<Package, String>)
    ensures
        loaded(seen, read, res),
{
    match read {
        MetaRead::Missing => Err(concat2("No meta.toml in ", seen.shown.as_str())),
        MetaRead::Unreadable(e) => Err(concat2("Failed to read meta.toml: ", e.as_str())),
        MetaRead::Invalid(e) => Err(concat2("Failed to parse meta.toml: ", e.as_str())),
        MetaRead::Fields(meta) => match seen.build_script {
            Some(build_script) => Ok(
                Package {
                    meta,
                    build_script,
                    patches_dir: seen.patches_dir,
                    pkg_dir: seen.pkg_dir,
                },
            ),
            None => Err(concat2("No build.sh in ", seen.shown.as_str())),
        },
    }
}

} // verus!
