use teral::places::{pinned_from, pinned_payload, RawPinned};
use teral::places::{is_pinned, reorder_pin, toggle_pin};
use teral::files::trash::TrashDir;
use teral::places::{display_label, pinned_path, trash_label, trash_places, PathLabels};
use teral::text::escape;

fn dir(root: &str, top: &str) -> TrashDir {
    TrashDir::new(root.as_bytes().to_vec(), top.as_bytes().to_vec())
}

#[test]
fn a_secondary_trash_is_labelled_by_the_disk_it_belongs_to() {
    let home = dir("/home/zub/.local/share/Trash", "/");
    assert_eq!(trash_label(&home, &home), "Trash");

    let unshared = dir("/media/zub/backup/.Trash-1000", "/media/zub/backup");
    assert_eq!(trash_label(&unshared, &home), "Trash on backup");

    let shared = dir("/media/zub/backup/.Trash/1000", "/media/zub/backup");
    assert_eq!(trash_label(&shared, &home), "Trash on backup");
}

#[test]
fn labels_prefer_the_final_component() {
    let home = dir("/home/zub/.local/share/Trash", "/");
    let labels = PathLabels::new();
    assert_eq!(display_label(b"/usr/share", None, &labels, &home, &Vec::new()), "share");
    assert_eq!(display_label(b"/", None, &labels, &home, &Vec::new()), "Filesystem");
}

#[test]
fn escaping_keeps_toml_valid() {
    assert_eq!(escape(r#"a"b\c"#), r#"a\"b\\c"#);
}

#[test]
fn home_devices_and_trashes_get_their_own_names() {
    let home = dir("/home/zub/.local/share/Trash", "/");
    let backup = dir("/media/zub/backup/.Trash-1000", "/media/zub/backup");
    let mut labels = PathLabels::new();
    labels.insert(b"/media/zub/backup".to_vec(), "Backup Disk".to_owned());
    let dirs = vec![home.clone(), backup.clone()];
    assert_eq!(display_label(b"/home/zub", Some(b"/home/zub"), &labels, &home, &dirs), "Home");
    assert_eq!(display_label(b"/media/zub/backup", None, &labels, &home, &dirs), "Backup Disk");
    assert_eq!(display_label(b"/home/zub/.local/share/Trash/files", None, &labels, &home, &dirs), "Trash");
    assert_eq!(
        display_label(b"/media/zub/backup/.Trash-1000/files", None, &labels, &home, &dirs),
        "Trash on backup"
    );

    let places = trash_places(&home, &dirs);
    assert_eq!(places.len(), 2);
    assert_eq!(places[0].label, "Trash");
    assert_eq!(places[1].label, "Trash on backup");
    assert_eq!(places[1].path, b"/media/zub/backup/.Trash-1000/files".to_vec());
}

#[test]
fn a_label_reads_back_what_was_written() {
    let mut labels = PathLabels::new();
    labels.insert(b"/a".to_vec(), "first".to_owned());
    labels.insert(b"/a".to_vec(), "second".to_owned());
    assert_eq!(labels.get(b"/a").as_deref(), Some("second"));
    labels.remove(b"/a");
    assert_eq!(labels.get(b"/a"), None);
    assert_eq!(pinned_path(b"/d"), b"/d/teral/places.toml".to_vec());
}

#[test]
fn pins_toggle_and_move_without_changing_where_they_point() {
    let mut pins = vec![b"/a".to_vec(), b"/b".to_vec(), b"/c".to_vec()];
    toggle_pin(&mut pins, b"/d");
    assert!(is_pinned(&pins, b"/d/"));
    toggle_pin(&mut pins, b"/d");
    assert_eq!(pins, vec![b"/a".to_vec(), b"/b".to_vec(), b"/c".to_vec()]);
    reorder_pin(&mut pins, b"/a", 1);
    assert_eq!(pins, vec![b"/b".to_vec(), b"/a".to_vec(), b"/c".to_vec()]);
    reorder_pin(&mut pins, b"/c", 10);
    assert_eq!(pins, vec![b"/b".to_vec(), b"/a".to_vec(), b"/c".to_vec()]);
    reorder_pin(&mut pins, b"/c", -5);
    assert_eq!(pins, vec![b"/c".to_vec(), b"/a".to_vec(), b"/b".to_vec()]);
    reorder_pin(&mut pins, b"/missing", 1);
    assert_eq!(pins.len(), 3);
}

#[test]
fn saved_bookmarks_load_back_with_their_names() {
    let pins = vec![b"/home/zub/Projects".to_vec(), vec![b'/', b't', 0xff]];
    let mut labels = PathLabels::new();
    labels.insert(b"/home/zub/Projects".to_vec(), "Work \"stuff\"".to_owned());
    let document = pinned_payload(&pins, &labels);
    let table: toml::Table = toml::from_str(&document).expect("valid TOML");
    let bookmarks = table["bookmark"].as_array().expect("bookmarks");
    let raw = RawPinned {
        pinned: Vec::new(),
        bookmarks: bookmarks
            .iter()
            .map(|b| {
                (
                    b["path_hex"].as_str().unwrap().to_owned(),
                    b.get("label").and_then(|l| l.as_str()).map(|l| l.to_owned()),
                )
            })
            .collect(),
    };
    let (loaded, names) = pinned_from(&raw).expect("readable");
    assert_eq!(loaded, pins);
    assert_eq!(names.get(b"/home/zub/Projects").as_deref(), Some("Work \"stuff\""));
    assert_eq!(names.get(&[b'/', b't', 0xff]), None);
}
