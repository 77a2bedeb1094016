use rocket::containers::{
    container_filter, container_note, container_steps, copy_files, create_container,
    failure_ends_copy, image_build, image_filter, list_failure, list_images,
    list_package_containers, ContainerStep, ImageBuild, ImageError, Listed,
};
use rocket::patches::{collect_patches, PatchDir, PatchNode};
use rocket::recipe::{
    build_path, fill_in, finish_recipe, get_string, init_package_container, is_remote, path_beside,
    read_failure, Fields, ReadStage,
};
use std::io::Read;

fn field(key: &str, value: &str) -> (String, Option<String>) {
    (key.to_string(), Some(value.to_string()))
}

fn built(script: &str, fields: &Fields) -> ImageBuild {
    match create_container(script, fields) {
        Ok(image) => image,
        Err(ImageError::Unnamed(e)) => panic!("{}", e),
        Err(ImageError::Context(e)) => panic!("{}", e),
    }
}

#[test]
fn recipes_are_found_by_address_and_by_path() {
    assert_eq!(build_path("file:///srv/p/", "zlib"), "/srv/p//zlib/BUILD");
    assert_eq!(build_path("https://example.org/p/", "zlib"), "https://example.org/p/zlib/BUILD");
    assert_eq!(build_path("//example.org/p", "zlib"), "https://example.org/p/zlib/BUILD");
    assert_eq!(build_path("/srv/p//", "zlib"), "/srv/p/zlib/BUILD");
    assert_eq!(build_path("p", "zlib"), "p/zlib/BUILD");
}

#[test]
fn other_files_stand_beside_the_recipe() {
    assert_eq!(path_beside("/srv/p/zlib/BUILD", "meta.toml"), "/srv/p/zlib/meta.toml");
    assert_eq!(path_beside("p/BUILD/BUILD", "patches"), "p/BUILD/patches");
    assert_eq!(path_beside(&build_path("/p", "BUILD"), "meta.toml"), "/p/BUILD/meta.toml");
    assert_eq!(path_beside("p/OTHER", "meta.toml"), "p/OTHER/meta.toml");
}

#[test]
fn only_https_is_remote() {
    assert!(is_remote("https://example.org/BUILD"));
    assert!(!is_remote("http://example.org/BUILD"));
    assert!(!is_remote("/srv/BUILD"));
}

#[test]
fn failed_reads_are_told_apart() {
    assert_eq!(read_failure(ReadStage::Fetch, "BUILD", "x"), "Failed to fetch BUILD: x");
    assert_eq!(
        read_failure(ReadStage::Content, "meta.toml", "x"),
        "Failed to read meta.toml content: x"
    );
    assert_eq!(read_failure(ReadStage::Disk, "BUILD", "x"), "Failed to read BUILD: x");
}

#[test]
fn string_fields_fill_in_placeholders() {
    let recipe = match init_package_container(
        "FROM {{name}}\nRUN {{name}} {{level}} {{version}} {{none}}\n",
        "name = \"zlib\"\nlevel = 3\nversion = \"1.3\"\n",
        &None,
    ) {
        Ok(recipe) => recipe,
        Err(e) => panic!("{}", e),
    };
    assert_eq!(recipe.build, "FROM zlib\nRUN zlib {{level}} 1.3 {{none}}\n");
    assert_eq!(
        recipe.fields,
        vec![("level".to_string(), None), field("name", "zlib"), field("version", "1.3")]
    );
}

#[test]
fn fields_are_filled_in_one_after_the_other() {
    let fields: Fields = vec![field("a", "{{b}}"), field("b", "x"), ("c".to_string(), None)];
    assert_eq!(fill_in("{{a}} {{c}}", &fields), "x {{c}}");
    let fields: Fields = vec![field("b", "x"), field("a", "{{b}}")];
    assert_eq!(fill_in("{{a}}", &fields), "{{b}}");
}

#[test]
fn text_without_placeholders_stays() {
    let fields: Fields = vec![field("a", "x"), field("b", "y")];
    assert_eq!(fill_in("plain {a} {{ a }} {{c}}", &fields), "plain {a} {{ a }} {{c}}");
}

#[test]
fn invalid_meta_is_reported() {
    let expected = match toml::from_str::<toml::Value>("name = ") {
        Ok(_) => panic!("valid"),
        Err(e) => e.to_string(),
    };
    match init_package_container("FROM scratch", "name = ", &None) {
        Ok(_) => panic!("valid"),
        Err(e) => assert_eq!(e, format!("Failed to parse meta.toml: {}", expected)),
    }
    assert!(init_package_container("", "a = 1\na = 2\n", &None).is_err());
}

#[test]
fn first_field_of_a_name_is_found() {
    let fields: Fields = vec![("a".to_string(), None), field("b", "x"), field("b", "y")];
    assert_eq!(get_string(&fields, "a"), None);
    assert_eq!(get_string(&fields, "b"), Some(&"x".to_string()));
    assert_eq!(get_string(&fields, "c"), None);
}

fn file(name: &str, text: &str) -> PatchNode {
    PatchNode::File { name: name.to_string(), text: Ok(text.to_string()) }
}

fn dir(name: &str, nodes: Vec<PatchNode>) -> PatchNode {
    PatchNode::Directory { name: name.to_string(), listing: PatchDir::Entries(nodes) }
}

fn pair(name: &str, text: &str) -> (String, String) {
    (name.to_string(), text.to_string())
}

#[test]
fn each_file_at_any_depth_is_a_patch() {
    let tree = PatchDir::Entries(vec![
        file("a.patch", "A"),
        dir("linux", vec![dir("deep", vec![file("b.patch", "B")]), dir("empty", vec![])]),
        PatchNode::Other,
        file("c.patch", ""),
    ]);
    assert_eq!(
        collect_patches(&Some(tree)).unwrap(),
        vec![
            pair("patches/a.patch", "A"),
            pair("patches/linux/deep/b.patch", "B"),
            pair("patches/c.patch", ""),
        ]
    );
    assert_eq!(collect_patches(&None).unwrap(), vec![]);
    assert_eq!(collect_patches(&Some(PatchDir::Entries(vec![]))).unwrap(), vec![]);
}

#[test]
fn first_unreadable_patch_is_reported() {
    let bad = |name: &str| PatchNode::File { name: name.to_string(), text: Err("E".to_string()) };
    let closed = || PatchNode::Directory {
        name: "d".to_string(),
        listing: PatchDir::Unreadable("F".to_string()),
    };
    let fail = |nodes: Vec<PatchNode>| {
        collect_patches(&Some(PatchDir::Entries(nodes))).unwrap_err()
    };
    assert_eq!(
        fail(vec![file("a", "A"), dir("x", vec![bad("b")]), closed()]),
        "Failed to read patch file 'patches/x/b': E"
    );
    assert_eq!(fail(vec![closed(), bad("b")]), "Failed to read patches directory: F");
    assert_eq!(
        fail(vec![PatchNode::Unreadable("G".to_string()), bad("b")]),
        "Failed to read entry in patches directory: G"
    );
    assert_eq!(
        collect_patches(&Some(PatchDir::Unreadable("H".to_string()))).unwrap_err(),
        "Failed to read patches directory: H"
    );
}

#[test]
fn recipe_comes_with_its_patches() {
    let fields: Fields = vec![field("name", "zlib")];
    let patches = Some(PatchDir::Entries(vec![file("a", "A")]));
    match finish_recipe("FROM {{name}}", Ok(fields), &patches) {
        Ok(recipe) => {
            assert_eq!(recipe.build, "FROM zlib");
            assert_eq!(recipe.fields, vec![field("name", "zlib")]);
            assert_eq!(recipe.patches, vec![pair("patches/a", "A")]);
        }
        Err(e) => panic!("{}", e),
    }
    let closed = Some(PatchDir::Unreadable("E".to_string()));
    match finish_recipe("", Ok(vec![]), &closed) {
        Ok(_) => panic!("a recipe"),
        Err(e) => assert_eq!(e, "Failed to read patches directory: E"),
    }
    match finish_recipe("", Err("F".to_string()), &closed) {
        Ok(_) => panic!("a recipe"),
        Err(e) => assert_eq!(e, "Failed to parse meta.toml: F"),
    }
}

#[test]
fn copying_container_is_made_run_and_removed() {
    assert_eq!(
        container_steps(),
        vec![
            ContainerStep::Create,
            ContainerStep::Start,
            ContainerStep::Wait,
            ContainerStep::Remove,
        ]
    );
    assert!(failure_ends_copy(ContainerStep::Create));
    assert!(failure_ends_copy(ContainerStep::Start));
    assert!(!failure_ends_copy(ContainerStep::Wait));
    assert!(failure_ends_copy(ContainerStep::Remove));
}

#[test]
fn steps_of_the_copying_container_are_told() {
    let id = Some("42".to_string());
    assert_eq!(container_note(ContainerStep::Create, &id), "Created container with ID: 42");
    assert_eq!(container_note(ContainerStep::Start, &id), "Container started: 42");
    assert_eq!(container_note(ContainerStep::Wait, &id), "Container finished with status: 42");
    assert_eq!(
        container_note(ContainerStep::Wait, &None),
        "Container finished but no status received."
    );
    assert_eq!(container_note(ContainerStep::Remove, &id), "Container removed: 42");
    assert_eq!(container_note(ContainerStep::Remove, &None), "");
}

#[test]
fn image_context_holds_the_build_file() {
    for script in ["", "FROM scratch\n", "# gr\u{fc}n\n"] {
        let image = built(script, &vec![field("name", "zlib"), field("version", "1.3")]);
        assert_eq!(image.tag, "zlib-1.3");
        assert_eq!(image.dockerfile, "Dockerfile");
        assert!(image.pull && image.rm);
        let mut archive = tar::Archive::new(flate2::read::GzDecoder::new(image.context.as_slice()));
        let mut n = 0;
        for entry in archive.entries().unwrap() {
            let mut entry = entry.unwrap();
            assert_eq!(entry.path().unwrap().to_str(), Some("Dockerfile"));
            assert_eq!(entry.header().mode().unwrap(), 0o755);
            assert_eq!(entry.header().size().unwrap(), script.len() as u64);
            let mut content = String::new();
            entry.read_to_string(&mut content).unwrap();
            assert_eq!(content, script);
            n += 1;
        }
        assert_eq!(n, 1);
    }
}

#[test]
fn image_context_is_made_of_blocks() {
    for (len, blocks) in [(0usize, 3usize), (1, 4), (512, 4), (513, 5), (1024, 5)] {
        let script = "x".repeat(len);
        let image = built(&script, &vec![field("name", "a")]);
        let mut bytes: Vec<u8> = vec![];
        flate2::read::GzDecoder::new(image.context.as_slice()).read_to_end(&mut bytes).unwrap();
        assert_eq!(bytes.len(), blocks * 512);
        assert_eq!(&bytes[0..11], b"Dockerfile\0");
        assert_eq!(&bytes[512..512 + len], script.as_bytes());
        assert!(bytes[512 + len..].iter().all(|b| *b == 0));
    }
}

#[test]
fn image_context_is_the_same_every_time() {
    let fields: Fields = vec![field("name", "a")];
    assert_eq!(built("FROM x", &fields).context, built("FROM x", &fields).context);
}

#[test]
fn image_without_version_is_the_latest() {
    assert_eq!(built("", &vec![field("name", "zlib")]).tag, "zlib-latest");
    let fields: Fields = vec![field("name", "zlib"), ("version".to_string(), None)];
    assert_eq!(built("", &fields).tag, "zlib-latest");
}

#[test]
fn image_needs_a_name() {
    let nameless: [Fields; 2] = [vec![], vec![("name".to_string(), None), field("version", "1")]];
    for fields in nameless {
        match create_container("FROM x", &fields) {
            Err(ImageError::Unnamed(e)) => assert_eq!(e, "Missing 'name' in metadata"),
            _ => panic!("named"),
        }
    }
}

#[test]
fn failed_compression_is_reported() {
    match image_build("a-1".to_string(), Err("broken".to_string())) {
        Err(ImageError::Context(e)) => assert_eq!(e, "broken"),
        _ => panic!("built"),
    }
    match image_build("a-1".to_string(), Ok(vec![1, 2])) {
        Ok(image) => {
            assert_eq!(image.tag, "a-1");
            assert_eq!(image.context, vec![1, 2]);
        }
        Err(_) => panic!("not built"),
    }
}

#[test]
fn artifacts_are_copied_out_of_an_image() {
    let copy = copy_files("zlib:1.3", "/home/x/local_output");
    assert_eq!(copy.name, "copyfiles-zlib");
    assert_eq!(copy.image, "zlib:1.3");
    assert_eq!(
        copy.command,
        vec![
            "/bin/sh",
            "-c",
            "cp /output/*.tar.gz /share && [ -d /LICENSES ] && cp -r /LICENSES /share/zlib-LICENSES || true"
        ]
    );
    assert_eq!(copy.share_source, "/home/x/local_output");
    assert_eq!(copy.share_target, "/share");
    assert!(!copy.read_only);
}

#[test]
fn version_of_an_image_does_not_change_its_copy() {
    let one = copy_files("zlib:1.3", "/x");
    let other = copy_files("zlib:2:3", "/x");
    let bare = copy_files("zlib", "/x");
    assert_eq!(one.command, other.command);
    assert_eq!(one.command, bare.command);
    assert_eq!(one.name, bare.name);
}

#[test]
fn containers_are_listed_by_their_first_name() {
    let containers = [
        Some(vec!["/a".to_string(), "/b".to_string()]),
        None,
        Some(vec![]),
        Some(vec!["/c".to_string()]),
    ];
    assert_eq!(list_package_containers(&containers), vec!["/a", "/c"]);
    assert_eq!(list_package_containers(&[]), Vec::<String>::new());
    assert_eq!(container_filter("zlib"), ("name".to_string(), vec!["zlib".to_string()]));
}

#[test]
fn images_are_listed_with_their_tags() {
    let images = [vec!["a:1".to_string(), "a:2".to_string()], vec![], vec!["b:1".to_string()]];
    assert_eq!(list_images(&images), "a:1, a:2\n\nb:1");
    assert_eq!(list_images(&[]), "");
    assert_eq!(image_filter("a", "1"), ("reference".to_string(), vec!["a:1".to_string()]));
}

#[test]
fn failed_listings_are_told_apart() {
    assert_eq!(list_failure(Listed::Containers, "x"), "Failed to list containers: x");
    assert_eq!(list_failure(Listed::Images, "x"), "Failed to list images: x");
}
