use teral::files::entry::{kind_label, resolve, subtitle, EntryData, FileKind, Resolution};
use teral::files::name::{is_lossy_on_screen, validate, NameError, MAX_NAME_BYTES};
use teral::files::preview::{classify_text, is_oversized, TextPreview, MAX_TEXT_BYTES};
use teral::files::{format_permissions, format_size, item_count_label};

fn check(name: &str) -> Result<(), NameError> {
    validate(name.as_bytes())
}

fn entry(name: &str) -> EntryData {
    EntryData {
        path: format!("/tmp/{name}").into_bytes(),
        display_name: name.to_owned(),
        sort_key: name.to_lowercase(),
        is_directory: false,
        is_symlink: false,
        is_broken_symlink: false,
        is_special: false,
        is_hidden: false,
        symlink_target: None,
        size: 0,
        content_type: None,
        kind: "Unknown".to_owned(),
        modified: None,
        created: None,
        accessed: None,
        owner: None,
        group: None,
        mode: None,
    }
}

#[test]
fn sizes_are_human_readable() {
    assert_eq!(format_size(0), "0 B");
    assert_eq!(format_size(999), "999 B");
    assert_eq!(format_size(1024), "1.0 KB");
    assert_eq!(format_size(8_909), "8.7 KB");
    assert_eq!(format_size(1_572_864), "1.5 MB");
    assert_eq!(format_size(1_099_511_627_776), "1.0 TB");
}

#[test]
fn permissions_render_like_ls() {
    assert_eq!(format_permissions(0o755), "rwxr-xr-x");
    assert_eq!(format_permissions(0o640), "rw-r-----");
    assert_eq!(format_permissions(0o000), "---------");
}

#[test]
fn item_counts_are_pluralised() {
    assert_eq!(item_count_label(0), "0 items");
    assert_eq!(item_count_label(1), "1 item");
    assert_eq!(item_count_label(12), "12 items");
}

#[test]
fn preview_limits_are_small_enough_for_an_interactive_panel() {
    assert_eq!(MAX_TEXT_BYTES, 2 * 1024 * 1024);
    assert!(matches!(TextPreview::Binary, TextPreview::Binary));
}

#[test]
fn ordinary_names_are_accepted() {
    assert_eq!(check("notes.txt"), Ok(()));
    assert_eq!(check("Some Folder"), Ok(()));
    assert_eq!(check(".hidden"), Ok(()));
    assert_eq!(check("..hidden"), Ok(()));
    assert_eq!(check("...."), Ok(()));
}

#[test]
fn names_linux_allows_are_not_second_guessed() {
    assert_eq!(check("  leading spaces"), Ok(()));
    assert_eq!(check("trailing spaces  "), Ok(()));
    assert_eq!(check("   "), Ok(()));
    assert_eq!(check("two words\nand a line"), Ok(()));
    assert_eq!(check("quote\"and'apostrophe"), Ok(()));
    assert_eq!(check("star*question?brace{}"), Ok(()));
    assert_eq!(check("back\\slash"), Ok(()));
    assert_eq!(check("emoji 🎉 name"), Ok(()));
    assert_eq!(check("-leading-dash"), Ok(()));
    assert_eq!(check("~tilde"), Ok(()));
}

#[test]
fn a_name_that_is_not_valid_utf8_is_still_a_name() {
    assert_eq!(validate(b"bad\xffname.txt"), Ok(()));
}

#[test]
fn a_name_must_be_exactly_one_component() {
    assert_eq!(check("a/b"), Err(NameError::Separator));
    assert_eq!(check("/absolute"), Err(NameError::Separator));
    assert_eq!(check("trailing/"), Err(NameError::Separator));
    assert_eq!(check("../escape"), Err(NameError::Separator));
    assert_eq!(check("/"), Err(NameError::Separator));
}

#[test]
fn the_two_navigation_names_are_refused() {
    assert_eq!(check("."), Err(NameError::Dot));
    assert_eq!(check(".."), Err(NameError::DotDot));
}

#[test]
fn empty_and_null_names_are_refused() {
    assert_eq!(check(""), Err(NameError::Empty));
    assert_eq!(validate(b"a\0b"), Err(NameError::Nul));
}

#[test]
fn names_are_refused_once_they_exceed_the_filesystem_limit() {
    assert_eq!(check(&"a".repeat(255)), Ok(()));
    assert_eq!(check(&"a".repeat(256)), Err(NameError::TooLong));
    assert_eq!(check(&"é".repeat(127)), Ok(()));
    assert_eq!(check(&"é".repeat(128)), Err(NameError::TooLong));
    assert_eq!(MAX_NAME_BYTES, 255);
}

#[test]
fn every_refusal_explains_itself() {
    for error in [
        NameError::Empty,
        NameError::Separator,
        NameError::Nul,
        NameError::Dot,
        NameError::DotDot,
        NameError::TooLong,
    ] {
        assert!(!error.message().is_empty());
    }
}

#[test]
fn a_lossy_name_is_recognised_before_it_is_written_back() {
    assert!(is_lossy_on_screen(b"/tmp/bad\xffname.txt"));
    assert!(!is_lossy_on_screen(b"/tmp/ordinary.txt"));
    assert!(!is_lossy_on_screen("/tmp/emoji 🎉.txt".as_bytes()));
    assert!(!is_lossy_on_screen(b"/"));
}

#[test]
fn text_previews_are_classified_by_their_bytes() {
    assert_eq!(classify_text(b"hello\nworld\n".to_vec()), TextPreview::Text("hello\nworld\n".to_owned()));
    assert_eq!(classify_text(b"a\0b".to_vec()), TextPreview::Binary);
    // Two control bytes in a hundred is more than one percent.
    let mut noisy = vec![b'a'; 98];
    noisy.push(0x01);
    noisy.push(0x02);
    assert_eq!(classify_text(noisy), TextPreview::Binary);
    // One in a hundred is still text.
    let mut quiet = vec![b'a'; 99];
    quiet.push(0x01);
    assert!(matches!(classify_text(quiet), TextPreview::Text(_)));
    assert_eq!(classify_text(b"caf\xe9".to_vec()), TextPreview::UnsupportedEncoding);
    assert_eq!(classify_text(Vec::new()), TextPreview::Text(String::new()));
    assert_eq!(classify_text(vec![b'a'; (MAX_TEXT_BYTES + 1) as usize]), TextPreview::Oversized);
    assert!(is_oversized(MAX_TEXT_BYTES + 1));
    assert!(!is_oversized(MAX_TEXT_BYTES));
}

#[test]
fn symlinks_are_what_their_targets_are() {
    assert_eq!(
        resolve(true, FileKind::Other, Some(FileKind::Directory)),
        Resolution { is_directory: true, is_broken_symlink: false, is_special: false }
    );
    assert_eq!(
        resolve(true, FileKind::Other, None),
        Resolution { is_directory: false, is_broken_symlink: true, is_special: false }
    );
    assert_eq!(
        resolve(true, FileKind::Other, Some(FileKind::Special)),
        Resolution { is_directory: false, is_broken_symlink: false, is_special: true }
    );
    assert_eq!(
        resolve(false, FileKind::Special, None),
        Resolution { is_directory: false, is_broken_symlink: false, is_special: true }
    );
    let folder = resolve(false, FileKind::Directory, None);
    assert_eq!(kind_label(folder, Some("ignored".to_owned())), "Folder");
    let broken = resolve(true, FileKind::Other, None);
    assert_eq!(kind_label(broken, None), "Broken link");
    let plain = resolve(false, FileKind::Regular, None);
    assert_eq!(kind_label(plain, Some("Plain text document".to_owned())), "Plain text document");
    assert_eq!(kind_label(plain, None), "Unknown");
}

#[test]
fn entries_know_what_can_be_done_with_them() {
    let mut link = entry("link");
    link.symlink_target = Some(b"/tmp/target".to_vec());
    link.is_broken_symlink = true;
    assert!(!link.is_openable());
    assert_eq!(link.link_summary().as_deref(), Some("/tmp/target (missing)"));
    link.is_broken_symlink = false;
    assert_eq!(link.link_summary().as_deref(), Some("/tmp/target"));

    let mut picture = entry("photo.png");
    picture.size = 2048;
    picture.content_type = Some("image/png".to_owned());
    assert!(picture.is_thumbnailable());
    picture.size = 0;
    assert!(!picture.is_thumbnailable());
    picture.size = 33 * 1024 * 1024;
    assert!(!picture.is_thumbnailable());

    assert_eq!(subtitle(true, -1, 0), "");
    assert_eq!(subtitle(true, 3, 0), "3 items");
    assert_eq!(subtitle(false, 7, 1024), "1.0 KB");
}
