//! Containers: what the container engine is asked for, and what its answers say.

use vstd::prelude::*;
use vstd::utf8::encode_utf8;

use crate::builder::opt_text;
use crate::recipe::fields_text;
use crate::recipe::get_string;
use crate::recipe::string_field;
use crate::recipe::Fields;
use crate::text::concat2;
use crate::text::concat3;
use crate::text::first_place_is;
use crate::text::is_first_place;
use crate::text::join;
use crate::text::joined;
use crate::text::split;
use crate::text::split_at;
use crate::text::texts;

verus! {

/// The size of a block of a tar archive.
pub const BLOCK: usize = 512;

/// A number of zero bytes.
pub open spec fn zeros(n: nat) -> Seq<u8> {
    Seq::new(n, |i: int| 0u8)
}

/// The number of bytes that fill up the last block of `len` bytes.
pub open spec fn padding(len: nat) -> nat {
    if len % BLOCK as nat == 0 {
        0
    } else {
        (BLOCK - len % BLOCK as nat) as nat
    }
}

/// Whether a text is a file name of a few ASCII letters and digits.
pub open spec fn plain_name(name: Seq<char>) -> bool {
    &&& 1 <= name.len() <= 99
    &&& forall|i: int|
        0 <= i < name.len() ==> {
            let c = #[trigger] name[i];
            'a' <= c <= 'z' || 'A' <= c <= 'Z' || '0' <= c <= '9'
        }
}

/// The bytes of the GNU header that `tar::Header` makes for a file with this path, size
/// and mode.
pub uninterp spec fn gnu_header(path: Seq<char>, size: u64, mode: u32) -> Seq<u8>;

/// Makes a header with `tar::Header::new_gnu`, fills it with `set_path`, `set_size`,
/// `set_mode` and `set_cksum`, and hands out `as_bytes`. The header is one block. It
/// begins with the path and a zero byte. What stands in its other places depends on the
/// three arguments alone; it is not spelt out here. `set_path` takes every name of a few
/// letters and digits.
#[verifier::external_body]
fn make_header(path: &str, size: u64, mode: u32) -> (r: Vec<u8>)
    requires
        plain_name(path@),
    ensures
        r@ == gnu_header(path@, size, mode),
        r@.len() == BLOCK,
        r@.take(path@.len() as int) == encode_utf8(path@),
        r@[path@.len() as int] == 0,
{
    let mut header = tar::Header::new_gnu();
    header.set_path(path).unwrap();
    header.set_size(size);
    header.set_mode(mode);
    header.set_cksum();
    header.as_bytes().to_vec()
}

/// An archive with one entry: the header, the data, zeros to the end of the block, and
/// two blocks of zeros.
pub open spec fn archive(header: Seq<u8>, data: Seq<u8>) -> Seq<u8> {
    header + data + zeros(padding(data.len())) + zeros(2 * BLOCK as nat)
}

/// Makes an archive with one entry: `tar::Builder::append` on a builder that writes to a
/// vector, then `into_inner`. The header is read by `tar::Header::from_byte_slice`, which
/// takes exactly one block. Writing to a vector does not fail.
#[verifier::external_body]
fn make_archive(header: &[u8], data: &[u8]) -> (r: Vec<u8>)
    requires
        header@.len() == BLOCK,
    ensures
        r@ == archive(header@, data@),
{
    let mut builder = tar::Builder::new(Vec::new());
    builder.append(tar::Header::from_byte_slice(header), data).unwrap();
    builder.into_inner().unwrap()
}

/// An archive is made of whole blocks, and behind its header it holds the data
/// unchanged.
pub proof fn law_archive_holds_data(header: Seq<u8>, data: Seq<u8>)
    requires
        header.len() == BLOCK,
    ensures
        archive(header, data).take(BLOCK as int) == header,
        archive(header, data).subrange(BLOCK as int, BLOCK + data.len()) == data,
        archive(header, data).len() % BLOCK as nat == 0,
{
    assert(archive(header, data).take(BLOCK as int) =~= header);
    assert(archive(header, data).subrange(BLOCK as int, BLOCK + data.len()) =~= data);
}

/// What `flate2::write::GzEncoder` makes of some bytes at the default level: the gzip
/// stream, or the message about what went wrong.
pub uninterp spec fn gzip_stream(data: Seq<u8>) -> Result<Seq<u8>, Seq<char>>;

/// Compresses with `flate2::write::GzEncoder` at the default level, into a vector:
/// `write_all`, then `finish`. The stream depends on the bytes alone: its header holds
/// no time and no name. That compressing succeeds is not stated: the encoder can report
/// an error.
#[verifier::external_body]
fn gzip(data: &[u8]) -> (r: Result<Vec<u8>, String>)
    ensures
        match r {
            Ok(stream) => gzip_stream(data@) == Ok::<Seq<u8>, Seq<char>>(stream@),
            Err(e) => gzip_stream(data@) == Err::<Seq<u8>, Seq<char>>(e@),
        },
{
    let mut encoder = flate2::write::GzEncoder::new(Vec::new(), flate2::Compression::default());
    match std::io::Write::write_all(&mut encoder, data).and_then(|_| encoder.finish()) {
        Ok(stream) => Ok(stream),
        Err(e) => Err(e.to_string()),
    }
}

/// What the container engine is asked to build an image from.
pub struct ImageBuild {
    /// The name of the build file in the context.
    pub dockerfile: String,
    /// The name that the image gets.
    pub tag: String,
    /// Whether the base image is fetched anew.
    pub pull: bool,
    /// Whether the containers of the steps are removed.
    pub rm: bool,
    /// The context: a compressed archive.
    pub context: Vec<u8>,
}

/// Why there is nothing to build an image from.
pub enum ImageError {
    /// The fields name no package.
    Unnamed(String),
    /// The context could not be compressed.
    Context(String),
}

/// The name of the image of a package; the version may be missing.
pub open spec fn image_tag(name: Seq<char>, version: Option<Seq<char>>) -> Seq<char> {
    name + "-"@ + (match version {
        Some(v) => v,
        None => "latest"@,
    })
}

/// The archive that holds a build file.
pub open spec fn build_context(script: Seq<char>) -> Seq<u8> {
    let bytes = encode_utf8(script);
    archive(gnu_header("Dockerfile"@, bytes.len() as u64, 0o755), bytes)
}

/// `res` is what an image is built from, once its context was compressed.
pub open spec fn built_from(
    tag: String,
    compressed: Result<Vec<u8>, String>,
    res: Result<ImageBuild, ImageError>,
) -> bool {
    match compressed {
        Ok(stream) => res matches Ok(image) && image.dockerfile@ == "Dockerfile"@ && image.tag
            == tag && image.pull && image.rm && image.context == stream,
        Err(e) => res matches Err(ImageError::Context(m)) && m == e,
    }
}

/// What the image of a package is built from, once its context was compressed.
pub fn image_build(tag: String, compressed: Result<Vec<u8>, String>) -> (res: Result<
    ImageBuild,
    ImageError,
>)
    ensures
        built_from(tag, compressed, res),
{
    match compressed {
        Ok(context) => Ok(
            ImageBuild { dockerfile: "Dockerfile".to_owned(), tag, pull: true, rm: true, context },
        ),
        Err(e) => Err(ImageError::Context(e)),
    }
}

/// `res` is what the image of a package is built from, or why there is nothing.
pub open spec fn image_made(
    script: Seq<char>,
    fields: Seq<(Seq<char>, Option<Seq<char>>)>,
    res: Result<ImageBuild, ImageError>,
) -> bool {
    match string_field(fields, "name"@) {
        None => res matches Err(ImageError::Unnamed(m)) && m@ == "Missing 'name' in metadata"@,
        Some(name) => match gzip_stream(build_context(script)) {
            Ok(stream) => res matches Ok(image) && image.dockerfile@ == "Dockerfile"@
                && image.tag@ == image_tag(
                name,
                string_field(fields, "version"@),
            ) && image.pull && image.rm && image.context@ == stream,
            Err(e) => res matches Err(ImageError::Context(m)) && m@ == e,
        },
    }
}

/// What the image of a package is built from: an archive that holds the build file alone.
/// The fields of the package say how it is named.
pub fn create_container(build_script: &str, fields: &Fields) -> (res: Result<
    ImageBuild,
    ImageError,
>)
    ensures
        image_made(build_script@, fields_text(fields@), res),
{
    let name = match get_string(fields, "name") {
        Some(name) => name,
        None => return Err(ImageError::Unnamed("Missing 'name' in metadata".to_owned())),
    };
    let version = match get_string(fields, "version") {
        Some(version) => version.as_str(),
        None => "latest",
    };
    let tag = concat3(name.as_str(), "-", version);
    proof {
        reveal_strlit("Dockerfile");
    }
    let bytes = build_script.as_bytes();
    let header = make_header("Dockerfile", bytes.len() as u64, 0o755);
    let context = make_archive(header.as_slice(), bytes);
    image_build(tag, gzip(context.as_slice()))
}

/// A container that copies what was built out of an image.
pub struct CopyContainer {
    /// The name of the container.
    pub name: String,
    /// The image that it runs.
    pub image: String,
    /// What it runs.
    pub command: Vec<String>,
    /// The directory of the host that it copies to.
    pub share_source: String,
    /// Where it finds that directory.
    pub share_target: String,
    /// Whether it may only read there.
    pub read_only: bool,
}

/// The shell command that copies archives and licenses to the shared directory.
pub open spec fn copy_command(package: Seq<char>) -> Seq<char> {
    "cp /output/*.tar.gz /share && [ -d /LICENSES ] && cp -r /LICENSES /share/"@ + package
        + "-LICENSES || true"@
}

/// `r` copies what was built out of an image to a directory of the host.
pub open spec fn copies_out(r: CopyContainer, image: Seq<char>, share_source: Seq<char>) -> bool {
    let package = split_at(image, ':')[0];
    &&& r.name@ == "copyfiles-"@ + package
    &&& r.image@ == image
    &&& texts(r.command@) == seq!["/bin/sh"@, "-c"@, copy_command(package)]
    &&& r.share_source@ == share_source
    &&& r.share_target@ == "/share"@
    &&& !r.read_only
}

/// The container that copies what was built out of an image to a directory of the host.
pub fn copy_files(image: &str, share_source: &str) -> (r: CopyContainer)
    ensures
        copies_out(r, image@, share_source@),
{
    let parts = split(image, ':');
    assert(texts(parts@).len() > 0);
    let package = parts[0].as_str();
    assert(package@ == texts(parts@)[0]);
    let copy = concat3(
        "cp /output/*.tar.gz /share && [ -d /LICENSES ] && cp -r /LICENSES /share/",
        package,
        "-LICENSES || true",
    );
    let mut command: Vec<String> = Vec::new();
    command.push("/bin/sh".to_owned());
    command.push("-c".to_owned());
    command.push(copy);
    assert(texts(command@) =~= seq!["/bin/sh"@, "-c"@, copy_command(package@)]);
    CopyContainer {
        name: concat2("copyfiles-", package),
        image: image.to_owned(),
        command,
        share_source: share_source.to_owned(),
        share_target: "/share".to_owned(),
        read_only: false,
    }
}

/// One thing that is done to copy what was built out of an image.
#[derive(Clone, Copy, PartialEq, Eq, Structural, Debug)]
pub enum ContainerStep {
    /// Make the container.
    Create,
    /// Start it.
    Start,
    /// Wait for it to end.
    Wait,
    /// Remove it.
    Remove,
}

/// What is done to copy what was built out of an image, in order.
pub open spec fn copying() -> Seq<ContainerStep> {
    seq![ContainerStep::Create, ContainerStep::Start, ContainerStep::Wait, ContainerStep::Remove]
}

/// What is done to copy what was built out of an image, in order.
pub fn container_steps() -> (r: Vec<ContainerStep>)
    ensures
        r@ == copying(),
{
    let r = vec![
        ContainerStep::Create,
        ContainerStep::Start,
        ContainerStep::Wait,
        ContainerStep::Remove,
    ];
    assert(r@ =~= copying());
    r
}

/// The copy ends with a failure of a step.
pub open spec fn ends_copy(step: ContainerStep) -> bool {
    step != ContainerStep::Wait
}

/// Whether the copy ends with a failure of a step. What comes of waiting is only told.
pub fn failure_ends_copy(step: ContainerStep) -> (r: bool)
    ensures
        r == ends_copy(step),
{
    match step {
        ContainerStep::Wait => false,
        _ => true,
    }
}

/// The line about a step that was taken.
pub open spec fn step_note(step: ContainerStep, shown: Option<Seq<char>>) -> Seq<char> {
    match (step, shown) {
        (ContainerStep::Create, Some(id)) => "Created container with ID: "@ + id,
        (ContainerStep::Start, Some(id)) => "Container started: "@ + id,
        (ContainerStep::Wait, Some(status)) => "Container finished with status: "@ + status,
        (ContainerStep::Wait, None) => "Container finished but no status received."@,
        (ContainerStep::Remove, Some(id)) => "Container removed: "@ + id,
        (_, None) => ""@,
    }
}

/// The line about a step that was taken. `shown`: the container, or what came of waiting
/// for it if anything did.
pub fn container_note(step: ContainerStep, shown: &Option<String>) -> (r: String)
    ensures
        r@ == step_note(step, opt_text(*shown)),
{
    match (step, shown) {
        (ContainerStep::Create, Some(id)) => concat2("Created container with ID: ", id.as_str()),
        (ContainerStep::Start, Some(id)) => concat2("Container started: ", id.as_str()),
        (ContainerStep::Wait, Some(s)) => concat2("Container finished with status: ", s.as_str()),
        (ContainerStep::Wait, None) => "Container finished but no status received.".to_owned(),
        (ContainerStep::Remove, Some(id)) => concat2("Container removed: ", id.as_str()),
        (_, None) => "".to_owned(),
    }
}

/// What comes before the first colon of an image's name is the package. The version
/// does not matter: two versions of a package are copied by the same command.
pub proof fn law_copy_ignores_version(package: Seq<char>, version: Seq<char>)
    requires
        !package.contains(':'),
    ensures
        split_at(package + ":"@ + version, ':')[0] == package,
        split_at(package, ':')[0] == package,
{
    reveal_strlit(":");
    let image = package + ":"@ + version;
    let i = package.len() as int;
    assert forall|j: int| 0 <= j < i implies image[j] != ':' by {
        assert(image[j] == package[j]);
        assert(package.contains(package[j]));
    }
    assert(is_first_place(image, ':', i));
    first_place_is(image, ':', i);
    assert(image.take(i) =~= package);
}

/// What the containers of a package are asked for by: a filter and its values.
pub open spec fn containers_of(package: Seq<char>) -> (Seq<char>, Seq<Seq<char>>) {
    ("name"@, seq![package])
}

/// What the containers of a package are asked for by: a filter and its values.
pub fn container_filter(package: &str) -> (r: (String, Vec<String>))
    ensures
        (r.0@, texts(r.1@)) == containers_of(package@),
{
    let mut values: Vec<String> = Vec::new();
    values.push(package.to_owned());
    assert(texts(values@) =~= seq![package@]);
    ("name".to_owned(), values)
}

/// The first name of each container that has one.
pub open spec fn first_names(containers: Seq<Option<Vec<String>>>) -> Seq<Seq<char>>
    decreases containers.len(),
{
    if containers.len() == 0 {
        seq![]
    } else {
        let before = first_names(containers.drop_last());
        match containers.last() {
            Some(names) => if names@.len() > 0 {
                before.push(names@[0]@)
            } else {
                before
            },
            None => before,
        }
    }
}

/// The names of containers: the first of each that has one.
pub fn list_package_containers(containers: &[Option<Vec<String>>]) -> (r: Vec<String>)
    ensures
        texts(r@) == first_names(containers@),
{
    let mut r: Vec<String> = Vec::new();
    let mut i: usize = 0;
    assert(containers@.take(0) =~= Seq::empty());
    assert(texts(r@) =~= Seq::empty());
    while i < containers.len()
        invariant
            i <= containers@.len(),
            texts(r@) == first_names(containers@.take(i as int)),
        decreases containers.len() - i,
    {
        let ghost before = texts(r@);
        assert(containers@.take(i + 1).drop_last() =~= containers@.take(i as int));
        assert(containers@.take(i + 1).last() == containers@[i as int]);
        match &containers[i] {
            Some(names) => {
                if names.len() > 0 {
                    r.push(names[0].clone());
                    assert(texts(r@) =~= before.push(names@[0]@));
                }
            },
            None => {},
        }
        i = i + 1;
    }
    assert(containers@.take(containers@.len() as int) =~= containers@);
    r
}

/// What an image is asked for by: a filter and its values.
pub open spec fn image_of(name: Seq<char>, version: Seq<char>) -> (Seq<char>, Seq<Seq<char>>) {
    ("reference"@, seq![name + ":"@ + version])
}

/// What an image is asked for by: a filter and its values.
pub fn image_filter(name: &str, version: &str) -> (r: (String, Vec<String>))
    ensures
        (r.0@, texts(r.1@)) == image_of(name@, version@),
{
    let mut values: Vec<String> = Vec::new();
    values.push(concat3(name, ":", version));
    assert(texts(values@) =~= seq![name@ + ":"@ + version@]);
    ("reference".to_owned(), values)
}

/// The tags of each image on a line of its own.
pub open spec fn tag_lines(images: Seq<Vec<String>>) -> Seq<Seq<char>> {
    Seq::new(images.len(), |i: int| joined(texts(images[i]@), ", "@))
}

/// A listing of images: one line for each, with its tags.
pub fn list_images(images: &[Vec<String>]) -> (r: String)
    ensures
        r@ == joined(tag_lines(images@), "\n"@),
{
    let mut lines: Vec<String> = Vec::new();
    let mut i: usize = 0;
    while i < images.len()
        invariant
            i <= images@.len(),
            texts(lines@) == tag_lines(images@).take(i as int),
        decreases images.len() - i,
    {
        let ghost before = texts(lines@);
        lines.push(join(images[i].as_slice(), ", "));
        assert(texts(lines@) =~= before.push(tag_lines(images@)[i as int]));
        assert(tag_lines(images@).take(i + 1) =~= tag_lines(images@).take(i as int).push(
            tag_lines(images@)[i as int],
        ));
        i = i + 1;
    }
    assert(tag_lines(images@).take(images@.len() as int) =~= tag_lines(images@));
    join(lines.as_slice(), "\n")
}

/// What the container engine could not list.
#[derive(Clone, Copy, PartialEq, Eq, Structural, Debug)]
pub enum Listed {
    Containers,
    Images,
}

/// The message about a listing that the container engine refused.
pub open spec fn list_complaint(what: Listed, error: Seq<char>) -> Seq<char> {
    match what {
        Listed::Containers => "Failed to list containers: "@ + error,
        Listed::Images => "Failed to list images: "@ + error,
    }
}

/// The message about a listing that the container engine refused.
pub fn list_failure(what: Listed, error: &str) -> (r: String)
    ensures
        r@ == list_complaint(what, error@),
{
    match what {
        Listed::Containers => concat2("Failed to list containers: ", error),
        Listed::Images => concat2("Failed to list images: ", error),
    }
}

} // verus!
