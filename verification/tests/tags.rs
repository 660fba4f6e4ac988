use teral::tags::{from_raw, tags_document, tags_path, RawTag, Tags};

fn path(p: &str) -> Vec<u8> {
    p.as_bytes().to_vec()
}

#[test]
fn tagging_is_idempotent() {
    let mut tags = Tags::defaults();
    let p = path("/tmp/a");
    tags.set_tagged("Important", &vec![p.clone()], true);
    tags.set_tagged("Important", &vec![p.clone()], true);
    assert_eq!(tags.get("Important").expect("tag").paths.len(), 1);

    tags.set_tagged("Important", &vec![p], false);
    assert!(tags.get("Important").expect("tag").paths.is_empty());
}

#[test]
fn names_are_compared_without_case() {
    let mut tags = Tags::defaults();
    assert!(tags.create("important", "#ffffff").is_err());
    assert!(tags.create("Reference", "#ffffff").is_ok());
}

#[test]
fn renaming_keeps_the_tagged_files() {
    let mut tags = Tags::defaults();
    let p = path("/tmp/a");
    tags.set_tagged("Work", &vec![p.clone()], true);

    tags.update("Work", "Clients", "#123456").expect("update");
    assert!(tags.get("Work").is_none());

    let renamed = tags.get("Clients").expect("renamed tag");
    assert_eq!(renamed.color, "#123456");
    assert_eq!(renamed.paths, vec![p]);
}

#[test]
fn tags_follow_a_moved_folder() {
    let mut tags = Tags::defaults();
    let inside = path("/tmp/project/notes.txt");
    tags.set_tagged("Important", &vec![inside], true);

    tags.relocate(b"/tmp/project", b"/tmp/archive/project");
    assert_eq!(
        tags.get("Important").expect("tag").paths,
        vec![path("/tmp/archive/project/notes.txt")]
    );
}

#[test]
fn deleting_a_folder_forgets_what_was_inside_it() {
    let mut tags = Tags::defaults();
    let inside = path("/tmp/project/notes.txt");
    tags.set_tagged("Important", &vec![inside], true);

    tags.forget(b"/tmp/project");
    assert!(tags.get("Important").expect("tag").paths.is_empty());
}

#[test]
fn a_file_can_carry_several_tags() {
    let mut tags = Tags::defaults();
    let p = path("/tmp/report.pdf");
    tags.set_tagged("Important", &vec![p.clone()], true);
    tags.set_tagged("Work", &vec![p.clone()], true);
    assert!(tags.is_tagged("important", &p));
    let carried: Vec<String> = tags.for_path(&p).iter().map(|t| t.name.clone()).collect();
    assert_eq!(carried, vec!["Important".to_owned(), "Work".to_owned()]);
    tags.delete("Work");
    assert!(tags.get("Work").is_none());
    assert_eq!(tags.for_path(&p).len(), 1);
}

#[test]
fn invalid_tags_are_refused() {
    let mut tags = Tags::defaults();
    assert!(tags.create("   ", "#ffffff").is_err());
    assert!(tags.create("  important ", "#ffffff").is_err());
    assert!(tags.create("Music", "#00ff00").is_ok());
    assert!(tags.get("music").is_some());
    assert!(tags.update("Nope", "Other", "#ffffff").is_err());
}

#[test]
fn the_tag_file_lists_every_tag_and_loads_back() {
    let mut tags = Tags::defaults();
    tags.set_tagged("Important", &vec![path("/tmp/a \"q\"")], true);
    let document = tags_document(&tags);
    assert!(document.contains("version = 2\n"));
    assert!(document.contains("name = \"Important\""));
    assert!(document.contains("paths_hex = [\n  \"2f746d702f6120227122\",\n]\n"));

    let raw = vec![RawTag {
        name: "Important".to_owned(),
        color: Some("#ff0000".to_owned()),
        paths: vec![],
        paths_hex: vec!["2f746d702f61".to_owned(), "2f746d702f676f6e65".to_owned(), "zz".to_owned()],
    }];
    let loaded = from_raw(&raw, &vec![vec![true, false, true]]);
    let tag = loaded.get("Important").expect("tag");
    assert_eq!(tag.paths, vec![path("/tmp/a")]);
    assert_eq!(tag.color, "#ff0000");
    assert_eq!(tags_path(b"/home/zub/.local/share"), path("/home/zub/.local/share/teral/tags.toml"));
}

#[test]
fn a_path_that_is_not_utf8_survives_saving_and_loading() {
    let odd: Vec<u8> = vec![b'/', b't', b'm', b'p', b'/', 0xff, 0xfe, b'x'];
    let mut tags = Tags::defaults();
    tags.set_tagged("Work", &vec![odd.clone()], true);
    let document = tags_document(&tags);
    assert!(document.contains("  \"2f746d702ffffe78\",\n"));

    let raw = vec![RawTag {
        name: "Work".to_owned(),
        color: Some("#6f9fd8".to_owned()),
        paths: vec![],
        paths_hex: vec!["2f746d702ffffe78".to_owned()],
    }];
    let loaded = from_raw(&raw, &vec![vec![true]]);
    assert_eq!(loaded.get("Work").expect("tag").paths, vec![odd]);
}

#[test]
fn a_tag_file_from_an_older_version_keeps_its_plain_paths() {
    let raw = vec![RawTag {
        name: "Archive".to_owned(),
        color: None,
        paths: vec!["/tmp/old".to_owned(), "/tmp/vanished".to_owned()],
        paths_hex: vec!["2f746d702f6e6577".to_owned()],
    }];
    let loaded = from_raw(&raw, &vec![vec![true, false, true]]);
    let tag = loaded.get("Archive").expect("tag");
    assert_eq!(tag.paths, vec![path("/tmp/old"), path("/tmp/new")]);
    assert_eq!(tag.color, "#e0a63c");
}
