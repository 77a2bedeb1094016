//! What holds of recipes, of their patches and of the containers that are made from them.

use vstd::prelude::*;
use vstd::utf8::encode_utf8;

use crate::containers::build_context;
use crate::containers::built_from;
use crate::containers::containers_of;
use crate::containers::copies_out;
use crate::containers::copying;
use crate::containers::ends_copy;
use crate::containers::first_names;
use crate::containers::gnu_header;
use crate::containers::gzip_stream;
use crate::containers::image_made;
use crate::containers::image_of;
use crate::containers::list_complaint;
use crate::containers::step_note;
use crate::containers::tag_lines;
use crate::containers::ContainerStep;
use crate::containers::CopyContainer;
use crate::containers::ImageBuild;
use crate::containers::ImageError;
use crate::containers::Listed;
use crate::patches::kept_of_dir;
use crate::patches::kept_of_entries;
use crate::patches::kept_of_node;
use crate::patches::kept_patches;
use crate::patches::patch_name;
use crate::patches::Kept;
use crate::patches::PatchDir;
use crate::patches::PatchNode;
use crate::recipe::beside;
use crate::recipe::fetched;
use crate::recipe::fields_text;
use crate::recipe::filled_in;
use crate::recipe::is_recipe;
use crate::recipe::keys_distinct;
use crate::recipe::placeholder;
use crate::recipe::read_complaint;
use crate::recipe::recipe_path;
use crate::recipe::string_field;
use crate::recipe::ReadStage;
use crate::recipe::Recipe;
use crate::text::begins_with;
use crate::text::finishes_with;
use crate::text::joined;
use crate::text::pairs;
use crate::text::replaced;
use crate::text::texts;
use crate::text::without_trailing;
use crate::text_laws::law_begins_with;
use crate::text_laws::law_joined;
use crate::text_laws::law_trailing;

verus! {

/// A text whose last character is no slash keeps all of it when slashes behind it are cut.
proof fn slashes_are_cut(s: Seq<char>, slashes: Seq<char>)
    requires
        s.len() > 0 ==> s.last() != '/',
        forall|i: int| 0 <= i < slashes.len() ==> #[trigger] slashes[i] == '/',
    ensures
        without_trailing(s + slashes, set!['/']) == s,
{
    let all = s + slashes;
    law_trailing(all, set!['/']);
    let left = without_trailing(all, set!['/']);
    if left.len() > s.len() {
        assert(left.last() == slashes[left.len() - 1 - s.len()]);
    }
    if left.len() < s.len() {
        assert(all[s.len() - 1] == s.last());
    }
    assert(left =~= s);
}

/// Where the `BUILD` file of a package is: in the directory with the name of the package,
/// below the path of a `file` address, below an address without a scheme as an `https` one,
/// and below any other address or path as it is. Slashes at the end do not matter, but in a
/// `file` address.
pub proof fn law_where_a_recipe_is(
    dir: Seq<char>,
    host: Seq<char>,
    path: Seq<char>,
    slashes: Seq<char>,
    package: Seq<char>,
)
    requires
        forall|i: int| 0 <= i < slashes.len() ==> #[trigger] slashes[i] == '/',
        dir.len() > 0 ==> dir.last() != '/',
        !begins_with(dir + slashes, "file://"@) && !begins_with(dir + slashes, "//"@),
        host.len() > 0 && host.last() != '/',
    ensures
        recipe_path("file://"@ + path, package) == path + "/"@ + package + "/BUILD"@,
        recipe_path("//"@ + host + slashes, package) == "https://"@ + host + "/"@ + package
            + "/BUILD"@,
        recipe_path(dir + slashes, package) == dir + "/"@ + package + "/BUILD"@,
{
    reveal_strlit("file://");
    reveal_strlit("//");
    reveal_strlit("https:");
    reveal_strlit("https://");
    let file = "file://"@ + path;
    law_begins_with(file, "file://"@, path);
    assert(file.skip(7) =~= path);
    let bare = "//"@ + host + slashes;
    law_begins_with(bare, "//"@, host + slashes);
    assert(bare =~= "//"@ + (host + slashes));
    assert(bare[0] == '/');
    assert("file://"@[0] == 'f');
    if begins_with(bare, "file://"@) {
        assert(bare.take(7)[0] == 'f');
    }
    let full = "https://"@ + host;
    assert("https:"@ + bare =~= full + slashes);
    assert(full.last() == host.last());
    slashes_are_cut(full, slashes);
    slashes_are_cut(dir, slashes);
}

/// Of a path that does not lead to a `BUILD` file, what stands beside it is below it.
pub proof fn law_beside_another_path(path: Seq<char>, name: Seq<char>)
    requires
        !finishes_with(path, "/BUILD"@),
    ensures
        beside(path, name) == path + "/"@ + name,
{
}

/// What is fetched from a server is what an `https` address names: the recipes below such an
/// address and below one without a scheme.
pub proof fn law_what_is_fetched(host: Seq<char>, path: Seq<char>, package: Seq<char>)
    requires
        host.len() > 0 && host.last() != '/',
        !begins_with(path, "https://"@),
    ensures
        fetched(recipe_path("https://"@ + host, package)),
        fetched(recipe_path("//"@ + host, package)),
        !fetched(path),
{
    reveal_strlit("file://");
    reveal_strlit("//");
    reveal_strlit("https://");
    let none = Seq::<char>::empty();
    let dir = "https://"@ + host;
    assert(dir.last() == host.last());
    assert(dir[0] == 'h');
    assert(dir + none =~= dir);
    assert("//"@ + host + none =~= "//"@ + host);
    if begins_with(dir, "file://"@) {
        assert(dir.take(7)[0] == "file://"@[0]);
    }
    if begins_with(dir, "//"@) {
        assert(dir.take(2)[0] == "//"@[0]);
    }
    law_where_a_recipe_is(dir, host, none, none, package);
    let found = "https://"@ + host + "/"@ + package + "/BUILD"@;
    law_begins_with(found, "https://"@, host + "/"@ + package + "/BUILD"@);
    assert(found =~= "https://"@ + (host + "/"@ + package + "/BUILD"@));
}

/// A message about a file that could not be read names the file and gives the reason; a
/// server that was not reached is told from what could not be read.
pub proof fn law_messages_about_files(stage: ReadStage, file: Seq<char>, error: Seq<char>)
    ensures
        exists|middle: Seq<char>|
            read_complaint(stage, file, error) == (if stage == ReadStage::Fetch {
                "Failed to fetch "@
            } else {
                "Failed to read "@
            }) + file + #[trigger] (middle + error),
{
    let middle = if stage == ReadStage::Content {
        " content: "@
    } else {
        ": "@
    };
    let start = if stage == ReadStage::Fetch {
        "Failed to fetch "@
    } else {
        "Failed to read "@
    };
    assert(read_complaint(stage, file, error) =~= start + file + (middle + error));
}

/// Filling in the fields of two rows is filling in those of the first and then those of the
/// second. One string fills in its placeholder, which is its name in double braces, wherever
/// that stands; what is no string fills in nothing.
pub proof fn law_fields_are_filled_in(
    text: Seq<char>,
    a: Seq<(Seq<char>, Option<Seq<char>>)>,
    b: Seq<(Seq<char>, Option<Seq<char>>)>,
    key: Seq<char>,
    value: Seq<char>,
)
    ensures
        filled_in(text, a + b) == filled_in(filled_in(text, a), b),
        filled_in(text, seq![(key, Some(value))]) == replaced(text, "{{"@ + key + "}}"@, value),
        filled_in(text, seq![(key, None)]) == text,
        filled_in(text, Seq::empty()) == text,
    decreases b.len(),
{
    let none = Seq::<(Seq<char>, Option<Seq<char>>)>::empty();
    let one = seq![(key, Some(value))];
    let gap = seq![(key, None::<Seq<char>>)];
    reveal_with_fuel(filled_in, 2);
    assert(one.drop_last() =~= none);
    assert(gap.drop_last() =~= none);
    assert(placeholder(key) == "{{"@ + key + "}}"@);
    if b.len() == 0 {
        assert(a + b =~= a);
    } else {
        law_fields_are_filled_in(text, a, b.drop_last(), key, value);
        assert((a + b).drop_last() =~= a + b.drop_last());
        assert((a + b).last() == b.last());
    }
}

/// Where fields have names of their own, each is found under its name, and under a name
/// that no field has nothing is found.
pub proof fn law_field_of_a_recipe(
    fields: Seq<(Seq<char>, Option<Seq<char>>)>,
    i: int,
    other: Seq<char>,
)
    requires
        keys_distinct(fields),
    ensures
        0 <= i < fields.len() ==> string_field(fields, fields[i].0) == fields[i].1,
        (forall|j: int| 0 <= j < fields.len() ==> (#[trigger] fields[j]).0 != other) ==> string_field(
            fields,
            other,
        ) is None,
    decreases fields.len(),
{
    if fields.len() > 0 {
        let rest = fields.drop_first();
        assert forall|x: int, y: int| 0 <= x < y < rest.len() implies (#[trigger] rest[x]).0 != (
        #[trigger] rest[y]).0 by {
            assert(fields[x + 1].0 != fields[y + 1].0);
        }
        law_field_of_a_recipe(rest, i - 1, other);
        if 0 < i < fields.len() {
            assert(fields[0].0 != fields[i].0);
            assert(rest[i - 1] == fields[i]);
        }
        if forall|j: int| 0 <= j < fields.len() ==> (#[trigger] fields[j]).0 != other {
            assert(fields[0].0 != other);
            assert forall|j: int| 0 <= j < rest.len() implies (#[trigger] rest[j]).0 != other by {
                assert(rest[j] == fields[j + 1]);
            }
        }
    }
}

/// A recipe is made exactly where the `meta.toml` can be parsed and all patches can be read.
/// It holds the fields and the patches as they were read, and the `BUILD` file with the
/// fields filled in. What is wrong with the `meta.toml` is reported first.
pub proof fn law_what_a_recipe_holds(
    res: Result<Recipe, String>,
    build: Seq<char>,
    parsed: Result<Seq<(Seq<char>, Option<Seq<char>>)>, Seq<char>>,
    kept: Result<Kept, Seq<char>>,
)
    requires
        is_recipe(res, build, parsed, kept),
    ensures
        res is Ok <==> parsed is Ok && kept is Ok,
        res matches Ok(recipe) ==> {
            &&& fields_text(recipe.fields@) == parsed->Ok_0
            &&& pairs(recipe.patches@) == kept->Ok_0
            &&& recipe.build@ == filled_in(build, parsed->Ok_0)
        },
        parsed matches Err(e) ==> (res matches Err(m) && m@ == "Failed to parse meta.toml: "@ + e),
        parsed is Ok && kept is Err ==> (res matches Err(m) && m@ == kept->Err_0),
{
}

/// A patch is named by the way to it below the directory of patches.
pub proof fn law_names_of_patches(above: Seq<Seq<char>>, name: Seq<char>)
    ensures
        patch_name(seq![name]) == "patches/"@ + name,
        above.len() > 0 ==> patch_name(above.push(name)) == patch_name(above) + "/"@ + name,
{
    law_joined(above, seq![name], name, "/"@);
    assert(above.push(name) =~= above + seq![name]);
    if above.len() > 0 {
        assert(patch_name(above.push(name)) =~= patch_name(above) + "/"@ + name);
    }
}

/// Everything in a directory could be read, at any depth.
pub open spec fn readable(dir: PatchDir) -> bool
    decreases dir,
{
    match dir {
        PatchDir::Entries(nodes) => readable_entries(nodes@),
        PatchDir::Unreadable(_) => false,
    }
}

/// All of some entries could be read.
pub open spec fn readable_entries(nodes: Seq<PatchNode>) -> bool
    decreases nodes,
{
    nodes.len() == 0 || (readable_entries(nodes.drop_last()) && readable_node(nodes.last()))
}

/// An entry could be read.
pub open spec fn readable_node(node: PatchNode) -> bool
    decreases node,
{
    match node {
        PatchNode::File { text, .. } => text is Ok,
        PatchNode::Directory { listing, .. } => readable(listing),
        PatchNode::Other => true,
        PatchNode::Unreadable(_) => false,
    }
}

/// What is kept of a directory.
proof fn kept_where_readable(dir: PatchDir, above: Seq<Seq<char>>)
    ensures
        kept_of_dir(dir, above) is Ok <==> readable(dir),
    decreases dir,
{
    if let PatchDir::Entries(nodes) = dir {
        entries_where_readable(nodes@, above);
    }
}

/// What is kept of some entries.
proof fn entries_where_readable(nodes: Seq<PatchNode>, above: Seq<Seq<char>>)
    ensures
        kept_of_entries(nodes, above) is Ok <==> readable_entries(nodes),
    decreases nodes,
{
    if nodes.len() > 0 {
        entries_where_readable(nodes.drop_last(), above);
        node_where_readable(nodes.last(), above);
    }
}

/// What is kept of an entry.
proof fn node_where_readable(node: PatchNode, above: Seq<Seq<char>>)
    ensures
        kept_of_node(node, above) is Ok <==> readable_node(node),
    decreases node,
{
    if let PatchNode::Directory { name, listing } = node {
        kept_where_readable(listing, above.push(name@));
    }
}

/// Patches are kept exactly where every directory, every entry and every file below the
/// directory of patches could be read, at whatever depth: nothing that could not be read is
/// passed over. A package without the directory has no patches.
pub proof fn law_all_patches_or_none(dir: PatchDir)
    ensures
        kept_patches(Some(dir)) is Ok <==> readable(dir),
        kept_patches(None) == Ok::<Kept, Seq<char>>(Seq::empty()),
{
    kept_where_readable(dir, Seq::empty());
}

/// Patches are kept in the order in which they were read.
pub proof fn law_patches_stay_in_order(
    a: Seq<PatchNode>,
    b: Seq<PatchNode>,
    above: Seq<Seq<char>>,
)
    requires
        readable_entries(a + b),
    ensures
        readable_entries(a) && readable_entries(b),
        kept_of_entries(a + b, above)->Ok_0 == kept_of_entries(a, above)->Ok_0 + kept_of_entries(
            b,
            above,
        )->Ok_0,
    decreases b.len(),
{
    entries_where_readable(a + b, above);
    if b.len() == 0 {
        assert(a + b =~= a);
        entries_where_readable(a, above);
        assert(kept_of_entries(a, above)->Ok_0 + kept_of_entries(b, above)->Ok_0
            =~= kept_of_entries(a, above)->Ok_0);
    } else {
        let init = b.drop_last();
        assert((a + b).drop_last() =~= a + init);
        assert((a + b).last() == b.last());
        law_patches_stay_in_order(a, init, above);
        entries_where_readable(a, above);
        entries_where_readable(init, above);
        entries_where_readable(b, above);
        node_where_readable(b.last(), above);
        let x = kept_of_entries(a, above)->Ok_0;
        let y = kept_of_entries(init, above)->Ok_0;
        let z = kept_of_node(b.last(), above)->Ok_0;
        assert((x + y) + z =~= x + (y + z));
    }
}

/// The context of an image holds the build file alone, under the name `Dockerfile`, with its
/// text unchanged, as a file that may be executed.
pub proof fn law_context_holds_the_script(script: Seq<char>)
    ensures
        ({
            let bytes = encode_utf8(script);
            let header = gnu_header("Dockerfile"@, bytes.len() as u64, 0o755);
            let context = build_context(script);
            let n = header.len() as int;
            &&& context.take(n) == header
            &&& context.subrange(n, n + bytes.len()) == bytes
            &&& forall|i: int| n + bytes.len() <= i < context.len() ==> #[trigger] context[i] == 0
        }),
{
    let bytes = encode_utf8(script);
    let header = gnu_header("Dockerfile"@, bytes.len() as u64, 0o755);
    let context = build_context(script);
    let n = header.len() as int;
    assert(context.take(n) =~= header);
    assert(context.subrange(n, n + bytes.len()) =~= bytes);
}

/// The image of a package is named by its name and its version, or `latest` without one. It
/// is built from the context that holds its script, with the base image fetched anew and the
/// containers of the steps removed. Without a name there is no image, whatever else is there.
pub proof fn law_image_of_a_package(
    script: Seq<char>,
    fields: Seq<(Seq<char>, Option<Seq<char>>)>,
    res: Result<ImageBuild, ImageError>,
)
    requires
        image_made(script, fields, res),
    ensures
        string_field(fields, "name"@) is None ==> (res matches Err(ImageError::Unnamed(m)) && m@
            == "Missing 'name' in metadata"@),
        res is Ok <==> string_field(fields, "name"@) is Some && gzip_stream(build_context(script))
            is Ok,
        string_field(fields, "name"@) is Some ==> (gzip_stream(build_context(script)) matches Err(e)
            ==> (res matches Err(ImageError::Context(m)) && m@ == e)),
        res matches Ok(image) ==> {
            &&& image.dockerfile@ == "Dockerfile"@
            &&& image.pull && image.rm
            &&& gzip_stream(build_context(script)) == Ok::<Seq<u8>, Seq<char>>(image.context@)
            &&& string_field(fields, "version"@) matches Some(version) ==> image.tag@
                == string_field(fields, "name"@)->0 + "-"@ + version
            &&& string_field(fields, "version"@) is None ==> image.tag@ == string_field(
                fields,
                "name"@,
            )->0 + "-"@ + "latest"@
        },
{
}

/// What an image is built from is its compressed context under its tag; a context that could
/// not be compressed is reported with the reason.
pub proof fn law_image_has_its_context(
    tag: String,
    compressed: Result<Vec<u8>, String>,
    res: Result<ImageBuild, ImageError>,
)
    requires
        built_from(tag, compressed, res),
    ensures
        res is Ok <==> compressed is Ok,
        res matches Ok(image) ==> image.tag == tag && image.context == compressed->Ok_0
            && image.dockerfile@ == "Dockerfile"@ && image.pull && image.rm,
        compressed matches Err(e) ==> (res matches Err(ImageError::Context(m)) && m == e),
{
}

/// What was built is copied out of the image that was asked for, by a container that is
/// named by the package and may write to the directory of the host, which it finds at
/// `/share`.
pub proof fn law_what_is_copied_out(
    r: CopyContainer,
    package: Seq<char>,
    version: Seq<char>,
    share_source: Seq<char>,
)
    requires
        !package.contains(':'),
        copies_out(r, package + ":"@ + version, share_source) || copies_out(
            r,
            package,
            share_source,
        ),
    ensures
        r.name@ == "copyfiles-"@ + package,
        r.image@ == package + ":"@ + version || r.image@ == package,
        r.share_source@ == share_source,
        r.share_target@ == "/share"@,
        !r.read_only,
        r.command@.len() == 3,
        r.command@[0]@ == "/bin/sh"@ && r.command@[1]@ == "-c"@,
        r.command@[2]@
            == "cp /output/*.tar.gz /share && [ -d /LICENSES ] && cp -r /LICENSES /share/"@
            + package + "-LICENSES || true"@,
{
    crate::containers::law_copy_ignores_version(package, version);
    assert(texts(r.command@).len() == r.command@.len());
    assert(texts(r.command@)[0] == r.command@[0]@);
    assert(texts(r.command@)[1] == r.command@[1]@);
    assert(texts(r.command@)[2] == r.command@[2]@);
}

/// A container is made, started, waited for and removed, each once and in this order. Only a
/// failure to wait does not end the copy, so that the container is removed all the same.
pub proof fn law_order_of_copying(step: ContainerStep)
    ensures
        copying().len() == 4,
        copying()[0] == ContainerStep::Create,
        copying()[1] == ContainerStep::Start,
        copying()[2] == ContainerStep::Wait,
        copying()[3] == ContainerStep::Remove,
        ends_copy(step) <==> step == ContainerStep::Create || step == ContainerStep::Start || step
            == ContainerStep::Remove,
{
}

/// The line about a step says what was done, with the container, or with what came of waiting
/// for it, at its end.
pub proof fn law_notes_about_steps(shown: Seq<char>)
    ensures
        step_note(ContainerStep::Create, Some(shown)) == "Created container with ID: "@ + shown,
        step_note(ContainerStep::Start, Some(shown)) == "Container started: "@ + shown,
        step_note(ContainerStep::Wait, Some(shown)) == "Container finished with status: "@ + shown,
        step_note(ContainerStep::Wait, None) == "Container finished but no status received."@,
        step_note(ContainerStep::Remove, Some(shown)) == "Container removed: "@ + shown,
{
}

/// Containers are listed in their order, each by the first of its names; one without a name
/// is left out.
pub proof fn law_listed_containers(
    a: Seq<Option<Vec<String>>>,
    b: Seq<Option<Vec<String>>>,
    names: Vec<String>,
)
    ensures
        first_names(a + b) == first_names(a) + first_names(b),
        first_names(seq![Some(names)]) == (if names@.len() > 0 {
            seq![names@[0]@]
        } else {
            Seq::empty()
        }),
        first_names(seq![None::<Vec<String>>]) == Seq::<Seq<char>>::empty(),
    decreases b.len(),
{
    reveal_with_fuel(first_names, 2);
    let one = seq![Some(names)];
    let gap = seq![None::<Vec<String>>];
    assert(one.drop_last() =~= Seq::empty());
    assert(gap.drop_last() =~= Seq::empty());
    assert(first_names(one) =~= (if names@.len() > 0 {
        seq![names@[0]@]
    } else {
        Seq::empty()
    }));
    if b.len() == 0 {
        assert(a + b =~= a);
        assert(first_names(a) + first_names(b) =~= first_names(a));
    } else {
        let init = b.drop_last();
        law_listed_containers(a, init, names);
        assert((a + b).drop_last() =~= a + init);
        assert((a + b).last() == b.last());
        assert(first_names(a + b) =~= first_names(a) + first_names(b));
    }
}

/// Each image has a line, in their order, with its tags between commas.
pub proof fn law_listed_images(images: Seq<Vec<String>>, i: int)
    requires
        0 <= i < images.len(),
    ensures
        tag_lines(images).len() == images.len(),
        tag_lines(images)[i] == joined(texts(images[i]@), ", "@),
{
}

/// The texts of fields are those of their strings, in their order; a value that is no string
/// stays none.
pub proof fn law_fields_are_read_as_written(fields: Seq<(String, Option<String>)>, i: int)
    ensures
        fields_text(fields).len() == fields.len(),
        0 <= i < fields.len() ==> fields_text(fields)[i].0 == fields[i].0@ && match fields[i].1 {
            Some(s) => fields_text(fields)[i].1 == Some(s@),
            None => fields_text(fields)[i].1 is None,
        },
{
}

/// Of several things that could not be read the first is reported: what comes before it could
/// be read, and what comes after it does not matter.
pub proof fn law_first_unreadable_is_reported(
    before: Seq<PatchNode>,
    node: PatchNode,
    after: Seq<PatchNode>,
    above: Seq<Seq<char>>,
)
    requires
        readable_entries(before),
        !readable_node(node),
    ensures
        kept_of_entries(before.push(node) + after, above) is Err,
        kept_of_entries(before.push(node) + after, above)->Err_0 == kept_of_node(
            node,
            above,
        )->Err_0,
    decreases after.len(),
{
    entries_where_readable(before, above);
    node_where_readable(node, above);
    let all = before.push(node) + after;
    if after.len() == 0 {
        assert(all =~= before.push(node));
        assert(all.drop_last() =~= before);
    } else {
        assert(all.drop_last() =~= before.push(node) + after.drop_last());
        law_first_unreadable_is_reported(before, node, after.drop_last(), above);
    }
}

/// What is said of a file, of an entry and of a directory that could not be read.
pub proof fn law_messages_of_patches(
    name: String,
    why: String,
    above: Seq<Seq<char>>,
    content: String,
)
    ensures
        kept_of_node(PatchNode::File { name, text: Err(why) }, above) == Err::<Kept, Seq<char>>(
            "Failed to read patch file '"@ + patch_name(above.push(name@)) + "': "@ + why@,
        ),
        kept_of_node(PatchNode::Unreadable(why), above) == Err::<Kept, Seq<char>>(
            "Failed to read entry in patches directory: "@ + why@,
        ),
        kept_of_dir(PatchDir::Unreadable(why), above) == Err::<Kept, Seq<char>>(
            "Failed to read patches directory: "@ + why@,
        ),
        kept_of_node(PatchNode::File { name, text: Ok(content) }, above) == Ok::<Kept, Seq<char>>(
            seq![(patch_name(above.push(name@)), content@)],
        ),
{
}

/// What the container engine is asked for: the containers by the name of the package, and an
/// image by its name and its version.
pub proof fn law_what_the_engine_is_asked(name: Seq<char>, version: Seq<char>)
    ensures
        containers_of(name) == ("name"@, seq![name]),
        image_of(name, version) == ("reference"@, seq![name + ":"@ + version]),
{
}

/// The message about a listing that was refused says what was to be listed.
pub proof fn law_messages_of_listings(error: Seq<char>)
    ensures
        list_complaint(Listed::Containers, error) == "Failed to list containers: "@ + error,
        list_complaint(Listed::Images, error) == "Failed to list images: "@ + error,
{
}

} // verus!
