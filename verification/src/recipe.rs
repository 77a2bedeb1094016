//! Recipes: a `BUILD` file with placeholders that the fields of a `meta.toml`
//! beside it fill in, on disk or on a server.

use vstd::prelude::*;

use crate::patches::collect_patches;
use crate::patches::kept_patches;
use crate::patches::Kept;
use crate::patches::PatchDir;
use crate::text::begins_with;
use crate::text::concat2;
use crate::text::concat3;
use crate::text::ends_with;
use crate::text::finishes_with;
use crate::text::pairs;
use crate::text::replace;
use crate::text::replaced;
use crate::text::same_text;
use crate::text::skip_chars;
use crate::text::starts_with;
use crate::text::trim_end_char;
use crate::text::without_trailing;

verus! {

/// Where the `BUILD` file of a package is. `packages_dir` is a `file://` address, an
/// `https://` address, an address without a scheme (`//`), or a path.
pub open spec fn recipe_path(packages_dir: Seq<char>, package: Seq<char>) -> Seq<char> {
    let base = if begins_with(packages_dir, "file://"@) {
        packages_dir.skip(7)
    } else if begins_with(packages_dir, "//"@) {
        without_trailing("https:"@ + packages_dir, set!['/'])
    } else {
        without_trailing(packages_dir, set!['/'])
    };
    base + "/"@ + package + "/BUILD"@
}

/// Where the `BUILD` file of a package is.
pub fn build_path(packages_dir: &str, package: &str) -> (r: String)
    ensures
        r@ == recipe_path(packages_dir@, package@),
{
    let base = if starts_with(packages_dir, "file://") {
        proof {
            reveal_strlit("file://");
        }
        skip_chars(packages_dir, 7)
    } else if starts_with(packages_dir, "//") {
        trim_end_char(concat2("https:", packages_dir).as_str(), '/')
    } else {
        trim_end_char(packages_dir, '/')
    };
    let mut r = concat3(base.as_str(), "/", package);
    r.append("/BUILD");
    r
}

/// What stands beside a `BUILD` file.
pub open spec fn beside(build_path: Seq<char>, name: Seq<char>) -> Seq<char> {
    (if finishes_with(build_path, "/BUILD"@) {
        build_path.take(build_path.len() - "/BUILD"@.len())
    } else {
        build_path
    }) + "/"@ + name
}

/// Where something that stands beside a `BUILD` file is.
pub fn path_beside(build_path: &str, name: &str) -> (r: String)
    ensures
        r@ == beside(build_path@, name@),
{
    if ends_with(build_path, "/BUILD") {
        proof {
            reveal_strlit("/BUILD");
        }
        let n: usize = build_path.unicode_len();
        concat3(build_path.substring_char(0, n - 6), "/", name)
    } else {
        concat3(build_path, "/", name)
    }
}

/// What stands beside the `BUILD` file of a directory is in that directory, whatever the
/// directory is called.
pub proof fn law_same_directory(dir: Seq<char>, name: Seq<char>)
    ensures
        beside(dir + "/BUILD"@, name) == dir + "/"@ + name,
{
    let path = dir + "/BUILD"@;
    let n = "/BUILD"@.len() as int;
    assert(path.skip(path.len() - n) =~= "/BUILD"@);
    assert(path.take(path.len() - n) =~= dir);
}

/// The `meta.toml` and all else that belongs to a package is looked for in the directory
/// that its `BUILD` file is in.
pub proof fn law_package_has_one_directory(
    packages_dir: Seq<char>,
    package: Seq<char>,
    name: Seq<char>,
)
    ensures
        exists|dir: Seq<char>|
            recipe_path(packages_dir, package) == dir + "/BUILD"@ && beside(
                recipe_path(packages_dir, package),
                name,
            ) == #[trigger] (dir + "/"@) + name,
{
    let base = if begins_with(packages_dir, "file://"@) {
        packages_dir.skip(7)
    } else if begins_with(packages_dir, "//"@) {
        without_trailing("https:"@ + packages_dir, set!['/'])
    } else {
        without_trailing(packages_dir, set!['/'])
    };
    let dir = base + "/"@ + package;
    assert(recipe_path(packages_dir, package) == dir + "/BUILD"@);
    law_same_directory(dir, name);
}

/// A file has to be fetched from a server.
pub open spec fn fetched(path: Seq<char>) -> bool {
    begins_with(path, "https://"@)
}

/// Whether a file has to be fetched from a server.
pub fn is_remote(path: &str) -> (r: bool)
    ensures
        r == fetched(path@),
{
    starts_with(path, "https://")
}

/// The part of reading a file that failed.
#[derive(Clone, Copy, PartialEq, Eq, Structural, Debug)]
pub enum ReadStage {
    /// Asking the server.
    Fetch,
    /// Reading what the server sends.
    Content,
    /// Reading the file on disk.
    Disk,
}

/// The message about a file that could not be read.
pub open spec fn read_complaint(stage: ReadStage, file: Seq<char>, error: Seq<char>) -> Seq<char> {
    match stage {
        ReadStage::Fetch => "Failed to fetch "@ + file + ": "@ + error,
        ReadStage::Content => "Failed to read "@ + file + " content: "@ + error,
        ReadStage::Disk => "Failed to read "@ + file + ": "@ + error,
    }
}

/// The message about a file that could not be read.
pub fn read_failure(stage: ReadStage, file: &str, error: &str) -> (r: String)
    ensures
        r@ == read_complaint(stage, file@, error@),
{
    let mut r = match stage {
        ReadStage::Fetch => concat3("Failed to fetch ", file, ": "),
        ReadStage::Content => concat3("Failed to read ", file, " content: "),
        ReadStage::Disk => concat3("Failed to read ", file, ": "),
    };
    r.append(error);
    r
}

/// The fields of a `meta.toml` in the order of its table: each with its value if
/// that is a string.
pub type Fields = Vec<(String, Option<String>)>;

/// Fields with the texts in place of the strings.
pub open spec fn fields_text(v: Seq<(String, Option<String>)>) -> Seq<
    (Seq<char>, Option<Seq<char>>),
> {
    Seq::new(
        v.len(),
        |i: int|
            (
                v[i].0@,
                match v[i].1 {
                    Some(s) => Some(s@),
                    None => None,
                },
            ),
    )
}

/// No two fields have the same name.
pub open spec fn keys_distinct(fields: Seq<(Seq<char>, Option<Seq<char>>)>) -> bool {
    forall|i: int, j: int|
        0 <= i < j < fields.len() ==> (#[trigger] fields[i]).0 != (#[trigger] fields[j]).0
}

/// What `toml::from_str` makes of a document: the entries of its table, in the order
/// of the table, each with its value if that is a string; or the message about what
/// is wrong.
pub uninterp spec fn toml_document(text: Seq<char>) -> Result<
    Seq<(Seq<char>, Option<Seq<char>>)>,
    Seq<char>,
>;

/// Calls `toml::from_str` for a `toml::Value` and hands out the entries of its table
/// with `Table::iter` and `Value::as_str`; an error is handed out as its message. What
/// comes back depends on the text alone, and a table holds each key once. Which
/// documents are valid, and which values are strings, is left to the crate.
#[verifier::external_body]
fn parse_toml(text: &str) -> (r: Result<Fields, String>)
    ensures
        match r {
            Ok(fields) => toml_document(text@) == Ok::<
                Seq<(Seq<char>, Option<Seq<char>>)>,
                Seq<char>,
            >(fields_text(fields@)) && keys_distinct(fields_text(fields@)),
            Err(e) => toml_document(text@) == Err::<
                Seq<(Seq<char>, Option<Seq<char>>)>,
                Seq<char>,
            >(e@),
        },
{
    match toml::from_str::<toml::Value>(text) {
        Ok(value) => Ok(
            value.as_table().into_iter().flatten().map(
                |(k, v)| (k.clone(), v.as_str().map(String::from)),
            ).collect(),
        ),
        Err(e) => Err(e.to_string()),
    }
}

/// The placeholder for a field.
pub open spec fn placeholder(key: Seq<char>) -> Seq<char> {
    "{{"@ + key + "}}"@
}

/// A text with the placeholders of all fields that are strings filled in, one field
/// after the other.
pub open spec fn filled_in(text: Seq<char>, fields: Seq<(Seq<char>, Option<Seq<char>>)>) -> Seq<char>
    decreases fields.len(),
{
    if fields.len() == 0 {
        text
    } else {
        let before = filled_in(text, fields.drop_last());
        match fields.last().1 {
            Some(value) => replaced(before, placeholder(fields.last().0), value),
            None => before,
        }
    }
}

/// Fills in the placeholders of all fields that are strings.
pub fn fill_in(text: &str, fields: &Fields) -> (r: String)
    ensures
        r@ == filled_in(text@, fields_text(fields@)),
{
    let mut r = text.to_owned();
    let ghost all = fields_text(fields@);
    let mut i: usize = 0;
    assert(all.take(0) =~= Seq::empty());
    while i < fields.len()
        invariant
            i <= fields@.len(),
            all == fields_text(fields@),
            r@ == filled_in(text@, all.take(i as int)),
        decreases fields.len() - i,
    {
        assert(all.take(i + 1).drop_last() =~= all.take(i as int));
        assert(all.take(i + 1).last() == all[i as int]);
        let (key, value) = &fields[i];
        match value {
            Some(v) => {
                proof {
                    reveal_strlit("{{");
                }
                let mark = concat3("{{", key.as_str(), "}}");
                r = replace(r.as_str(), mark.as_str(), v.as_str());
            },
            None => {},
        }
        i = i + 1;
    }
    assert(all.take(all.len() as int) =~= all);
    r
}

/// `pattern` stands somewhere in `s`.
pub open spec fn occurs(s: Seq<char>, pattern: Seq<char>) -> bool {
    exists|i: int| 0 <= i <= s.len() - pattern.len() && #[trigger] begins_with(s.skip(i), pattern)
}

/// Where a pattern does not occur there is nothing to replace.
proof fn nothing_replaced(s: Seq<char>, pattern: Seq<char>, by: Seq<char>)
    requires
        !occurs(s, pattern),
    ensures
        replaced(s, pattern, by) == s,
    decreases s.len(),
{
    if pattern.len() > 0 && s.len() >= pattern.len() {
        assert(s.skip(0) =~= s);
        assert(!begins_with(s.skip(0), pattern));
        let rest = s.skip(1);
        assert forall|i: int| 0 <= i <= rest.len() - pattern.len() implies !(#[trigger] begins_with(
            rest.skip(i),
            pattern,
        )) by {
            assert(rest.skip(i) =~= s.skip(i + 1));
            assert(!begins_with(s.skip(i + 1), pattern));
        }
        nothing_replaced(rest, pattern, by);
        assert(seq![s[0]] + rest =~= s);
    }
}

/// A text without the placeholder of any string field stays as it is.
pub proof fn law_no_placeholder_no_change(
    text: Seq<char>,
    fields: Seq<(Seq<char>, Option<Seq<char>>)>,
)
    requires
        forall|i: int|
            0 <= i < fields.len() && (#[trigger] fields[i]).1 is Some ==> !occurs(
                text,
                placeholder(fields[i].0),
            ),
    ensures
        filled_in(text, fields) == text,
    decreases fields.len(),
{
    if fields.len() > 0 {
        let init = fields.drop_last();
        assert forall|i: int| 0 <= i < init.len() && (#[trigger] init[i]).1 is Some implies !occurs(
            text,
            placeholder(init[i].0),
        ) by {
            assert(init[i] == fields[i]);
        }
        law_no_placeholder_no_change(text, init);
        let last = fields[fields.len() - 1];
        if last.1 is Some {
            nothing_replaced(text, placeholder(last.0), last.1->0);
        }
    }
}

/// A recipe that is ready to use.
pub struct Recipe {
    /// The `BUILD` file with all placeholders filled in.
    pub build: String,
    /// The fields of the `meta.toml`.
    pub fields: Fields,
    /// The patches, each with its name and its text.
    pub patches: Vec<(String, String)>,
}

/// `res` is the recipe that a `BUILD` file makes with the fields of a `meta.toml` and with
/// patches, or the message about the first of them that is wrong.
pub open spec fn is_recipe(
    res: Result<Recipe, String>,
    build: Seq<char>,
    parsed: Result<Seq<(Seq<char>, Option<Seq<char>>)>, Seq<char>>,
    kept: Result<Kept, Seq<char>>,
) -> bool {
    match (parsed, kept) {
        (Ok(fields), Ok(patches)) => res matches Ok(recipe) && fields_text(recipe.fields@) == fields
            && recipe.build@ == filled_in(build, fields) && pairs(recipe.patches@) == patches,
        (Err(e), _) => res matches Err(m) && m@ == "Failed to parse meta.toml: "@ + e,
        (Ok(_), Err(e)) => res matches Err(m) && m@ == e,
    }
}

/// The recipe that a `BUILD` file makes, once the `meta.toml` beside it was parsed.
pub fn finish_recipe(
    build: &str,
    parsed: Result<Fields, String>,
    patches: &Option<PatchDir>,
) -> (res: Result<Recipe, String>)
    ensures
        is_recipe(
            res,
            build@,
            match parsed {
                Ok(fields) => Ok(fields_text(fields@)),
                Err(e) => Err(e@),
            },
            kept_patches(*patches),
        ),
{
    match parsed {
        Ok(fields) => {
            let build = fill_in(build, &fields);
            match collect_patches(patches) {
                Ok(patches) => Ok(Recipe { build, fields, patches }),
                Err(e) => Err(e),
            }
        },
        Err(e) => Err(concat2("Failed to parse meta.toml: ", e.as_str())),
    }
}

/// The recipe that a `BUILD` file, the `meta.toml` beside it and the patches make.
pub fn init_package_container(build: &str, meta: &str, patches: &Option<PatchDir>) -> (res: Result<
    Recipe,
    String,
>)
    ensures
        is_recipe(res, build@, toml_document(meta@), kept_patches(*patches)),
        res matches Ok(recipe) ==> keys_distinct(fields_text(recipe.fields@)),
{
    finish_recipe(build, parse_toml(meta), patches)
}

/// The value of the first of the fields with the name `key`, if it is a string.
pub open spec fn string_field(
    fields: Seq<(Seq<char>, Option<Seq<char>>)>,
    key: Seq<char>,
) -> Option<Seq<char>>
    decreases fields.len(),
{
    if fields.len() == 0 {
        None
    } else if fields[0].0 == key {
        fields[0].1
    } else {
        string_field(fields.drop_first(), key)
    }
}

/// The value of the first of the fields with the name `key`, if it is a string.
pub fn get_string<'a>(fields: &'a Fields, key: &str) -> (r: Option<&'a String>)
    ensures
        match r {
            Some(s) => string_field(fields_text(fields@), key@) == Some(s@),
            None => string_field(fields_text(fields@), key@) is None,
        },
{
    let ghost all = fields_text(fields@);
    let mut i: usize = 0;
    assert(all.skip(0) =~= all);
    while i < fields.len()
        invariant
            i <= fields@.len(),
            all == fields_text(fields@),
            string_field(all, key@) == string_field(all.skip(i as int), key@),
        decreases fields.len() - i,
    {
        let ghost rest = all.skip(i as int);
        assert(rest[0] == all[i as int]);
        assert(rest.drop_first() =~= all.skip(i + 1));
        let (k, v) = &fields[i];
        if same_text(k.as_str(), key) {
            return match v {
                Some(s) => Some(s),
                None => None,
            };
        }
        i = i + 1;
    }
    None
}

} // verus!
