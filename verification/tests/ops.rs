use teral::files::ops::{
    archive_name, archive_stem, can_be_executable, compress_command, describe_origin, executable_mode,
    extract_command, is_archive, next_free_name, permission_mode, ArchiveTools,
};
use teral::files::transfer::{destination_name, MAX_NAME_ATTEMPTS};

fn bytes(text: &str) -> Vec<u8> {
    text.as_bytes().to_vec()
}

fn tools() -> ArchiveTools {
    ArchiveTools { bsdtar: None, unzip: None, seven_z: None, seven_za: None, unrar: None, tar: None, zip: None }
}

#[test]
fn an_archive_is_named_after_what_goes_into_it() {
    let folder = bytes("/home/someone/Reports");
    let single = vec![bytes("/home/someone/Reports/March.pdf")];
    assert_eq!(archive_name(&folder, &single), bytes("March.pdf.zip"));

    let several = vec![bytes("/home/someone/Reports/March.pdf"), bytes("/home/someone/Reports/April.pdf")];
    assert_eq!(archive_name(&folder, &several), bytes("Reports.zip"));
}

#[test]
fn unique_destination_leaves_existing_files_alone() {
    assert_eq!(destination_name(b"notes.txt", 1), bytes("notes (copy).txt"));
    assert_eq!(destination_name(b"notes.txt", 2), bytes("notes (copy 2).txt"));
}

#[test]
fn unique_destination_keeps_the_extension() {
    assert_eq!(destination_name(b"archive.tar.gz", 1), bytes("archive.tar (copy).gz"));
}

#[test]
fn only_runnable_files_are_offered_the_execute_bit() {
    assert!(can_be_executable(false, Some("application/x-shellscript")));
    assert!(can_be_executable(false, Some("text/x-python")));
    assert!(!can_be_executable(false, Some("text/plain")));
    assert!(!can_be_executable(false, Some("image/png")));
    assert!(!can_be_executable(true, Some("inode/directory")));
    assert!(!can_be_executable(false, None));
}

#[test]
fn archive_stems_drop_both_extensions() {
    assert_eq!(archive_stem(b"/tmp/project.tar.gz"), bytes("project"));
    assert_eq!(archive_stem(b"/tmp/photos.zip"), bytes("photos"));
    assert_eq!(archive_stem(b"/tmp/archive"), bytes("archive"));
}

#[test]
fn archives_are_recognised_by_content_type() {
    assert!(is_archive(Some("application/zip")));
    assert!(!is_archive(Some("text/plain")));
    assert!(!is_archive(None));
}

#[test]
fn the_execute_bit_follows_the_read_bits() {
    assert_eq!(executable_mode(0o644, true), 0o755);
    assert_eq!(executable_mode(0o600, true), 0o700);
    assert_eq!(executable_mode(0o755, false), 0o644);
    assert_eq!(permission_mode(0o100644, 0o750), Ok(0o100750));
    assert!(permission_mode(0o644, 0o1777).is_err());
}

#[test]
fn extraction_prefers_bsdtar_and_otherwise_the_format_tool() {
    let mut t = tools();
    assert_eq!(extract_command(b"/a.zip", b"/out", "application/zip", &t), None);
    t.unzip = Some(bytes("/usr/bin/unzip"));
    assert_eq!(
        extract_command(b"/a.zip", b"/out", "application/zip", &t),
        Some(vec![bytes("/usr/bin/unzip"), bytes("-o"), bytes("-q"), bytes("/a.zip"), bytes("-d"), bytes("/out")])
    );
    t.bsdtar = Some(bytes("/usr/bin/bsdtar"));
    assert_eq!(
        extract_command(b"/a.zip", b"/out", "application/zip", &t),
        Some(vec![bytes("/usr/bin/bsdtar"), bytes("-x"), bytes("-f"), bytes("/a.zip"), bytes("-C"), bytes("/out")])
    );
}

#[test]
fn compression_needs_a_zip_tool() {
    let names = vec![bytes("a.txt")];
    assert_eq!(compress_command(b"/d", b"/d/a.zip", &names, &tools()), None);
    let mut t = tools();
    t.zip = Some(bytes("/usr/bin/zip"));
    assert!(compress_command(b"/d", b"/d/a.zip", &names, &t).is_some());
}

#[test]
fn an_origin_is_noted_only_when_the_record_has_one() {
    assert_eq!(describe_origin(None), "");
    assert_eq!(describe_origin(Some("from /home/zub")), " (from /home/zub)");
}

#[test]
fn a_free_name_is_looked_for_from_the_name_itself_through_the_copies() {
    assert_eq!(next_free_name(b"notes.txt", None), Some((0, bytes("notes.txt"))));
    assert_eq!(next_free_name(b"notes.txt", Some(0)), Some((1, bytes("notes (copy).txt"))));
    assert_eq!(next_free_name(b"notes.txt", Some(1)), Some((2, bytes("notes (copy 2).txt"))));
    assert_eq!(next_free_name(b"notes.txt", Some(MAX_NAME_ATTEMPTS - 2)), Some((MAX_NAME_ATTEMPTS - 1, bytes("notes (copy 9999).txt"))));
    assert_eq!(next_free_name(b"notes.txt", Some(MAX_NAME_ATTEMPTS - 1)), None);
}
