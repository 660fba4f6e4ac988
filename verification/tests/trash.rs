use teral::files::trash::{
    discover, home_trash, info_from_read, is_in_trash, item_at, parse_info, purge, purge_batch,
    removal_of, strip_info_suffix, top_dir_trashes, trash_candidates_of, trusts_shared_trash,
    BatchStep, InfoError, IoOutcome, PurgeError, ReadOutcome, Removal, TrashDir,
};

fn join(base: &[u8], rel: &str) -> Vec<u8> {
    let mut p = base.to_vec();
    if !p.ends_with(b"/") {
        p.push(b'/');
    }
    p.extend_from_slice(rel.as_bytes());
    p
}

#[test]
fn a_record_decodes_an_absolute_original_path() {
    let info = parse_info(
        b"[Trash Info]\nPath=/home/zub/My%20Notes.txt\nDeletionDate=2026-08-31T10:00:00\n",
        b"/",
    )
    .expect("record");
    assert_eq!(info.original, b"/home/zub/My Notes.txt".to_vec());
    assert_eq!(info.deleted_at.as_deref(), Some("2026-08-31T10:00:00"));
}

#[test]
fn a_relative_record_resolves_against_its_filesystem() {
    let info = parse_info(b"[Trash Info]\nPath=photos/holiday.jpg\n", b"/media/usb").expect("record");
    assert_eq!(info.original, b"/media/usb/photos/holiday.jpg".to_vec());
    assert_eq!(info.deleted_at, None);
}

#[test]
fn a_record_keeps_non_utf8_bytes_exactly() {
    let info = parse_info(b"[Trash Info]\nPath=/tmp/na%FFme.txt\n", b"/").expect("record");
    assert_eq!(info.original.as_slice(), b"/tmp/na\xffme.txt".as_slice());
    assert!(info.original.contains(&0xff));
}

#[test]
fn a_record_keeps_spaces_and_newlines_in_names() {
    let info = parse_info(b"[Trash Info]\nPath=/tmp/two%20words%0Aand%20a%20line.txt\n", b"/")
        .expect("record");
    let name = info.original.rsplit(|b| *b == b'/').next().expect("name");
    assert_eq!(name, b"two words\nand a line.txt".as_slice());
}

#[test]
fn a_lone_percent_in_a_name_is_kept_literally() {
    let info = parse_info(b"[Trash Info]\nPath=/tmp/100%.txt\n", b"/").expect("record");
    assert_eq!(info.original, b"/tmp/100%.txt".to_vec());
}

#[test]
fn the_first_path_in_a_record_wins() {
    let info = parse_info(b"[Trash Info]\nPath=/tmp/real.txt\nPath=/etc/passwd\n", b"/").expect("record");
    assert_eq!(info.original, b"/tmp/real.txt".to_vec());
}

#[test]
fn a_record_without_a_section_header_is_malformed() {
    assert!(matches!(parse_info(b"Path=/tmp/x\n", b"/"), Err(InfoError::Malformed)));
}

#[test]
fn a_record_without_a_path_is_rejected() {
    assert!(matches!(
        parse_info(b"[Trash Info]\nDeletionDate=2026-08-31T10:00:00\n", b"/"),
        Err(InfoError::NoOriginalPath)
    ));
    assert!(matches!(parse_info(b"", b"/"), Err(InfoError::Malformed)));
}

#[test]
fn a_missing_record_is_reported_as_missing_not_as_an_io_error() {
    assert!(matches!(info_from_read(ReadOutcome::NotFound, b"/"), Err(InfoError::Missing)));
    match info_from_read(ReadOutcome::Failed("permission denied".to_owned()), b"/") {
        Err(InfoError::Unreadable(message)) => assert_eq!(message, "permission denied"),
        _ => panic!("an unreadable record must say so"),
    }
}

#[test]
fn the_home_trash_is_located_without_asking_the_filesystem() {
    let never_created = b"/nonexistent-for-this-test/share".to_vec();
    let home = home_trash(&never_created);
    assert_eq!(home.files(), join(&never_created, "Trash/files"));
    let files = String::from_utf8(home.files()).expect("utf-8");
    assert!(!std::path::Path::new(&files).is_dir(), "and it is not there");
    assert!(is_in_trash(&join(&never_created, "Trash/files/deleted.txt"), &vec![home.clone()]));
    assert!(!is_in_trash(&join(&never_created, "Documents/kept.txt"), &vec![home]));
}

#[test]
fn trash_membership_covers_every_discovered_location() {
    let data_home = b"/home/zub/.local/share".to_vec();
    let usb = b"/media/usb".to_vec();
    let candidates = trash_candidates_of(&data_home, &vec![usb.clone()], 1000, &vec![false]);
    let present = vec![true; candidates.len()];
    let dirs = discover(&candidates, &present);
    assert!(is_in_trash(&join(&data_home, "Trash/files/a.txt"), &dirs));
    assert!(is_in_trash(&join(&usb, ".Trash-1000/files/deep/inside.txt"), &dirs));
    assert!(!is_in_trash(b"/home/zub/documents/a.txt", &dirs));
    assert!(!is_in_trash(&join(&data_home, "Trash/info/a.trashinfo"), &dirs));
}

#[test]
fn discovery_keeps_only_the_trashes_that_exist() {
    let data_home = b"/data".to_vec();
    let usb = b"/media/usb".to_vec();
    let candidates = trash_candidates_of(&data_home, &vec![usb.clone()], 1000, &vec![true]);
    assert_eq!(candidates.len(), 3);
    assert_eq!(candidates[0].root, b"/data/Trash".to_vec());
    assert_eq!(candidates[1].root, b"/media/usb/.Trash/1000".to_vec());
    assert_eq!(candidates[2].root, b"/media/usb/.Trash-1000".to_vec());
    let dirs = discover(&candidates, &vec![true, false, true]);
    assert_eq!(dirs.len(), 2);
    assert_eq!(dirs[0].root, b"/data/Trash".to_vec());
    assert_eq!(dirs[1].root, b"/media/usb/.Trash-1000".to_vec());
    assert_eq!(dirs[1].top_dir, usb);
}

#[test]
fn a_shared_trash_is_only_trusted_when_it_is_sticky_and_not_a_symlink() {
    assert!(trusts_shared_trash(true, false, 0o41777));
    assert!(!trusts_shared_trash(true, false, 0o40777));
    assert!(!trusts_shared_trash(true, true, 0o41777));
    assert!(!trusts_shared_trash(false, false, 0o41777));
    assert_eq!(top_dir_trashes(b"/media/usb", 1000, true).len(), 2);
    let private = top_dir_trashes(b"/media/usb", 1000, false);
    assert_eq!(private.len(), 1);
    assert_eq!(private[0].root, b"/media/usb/.Trash-1000".to_vec());
}

#[test]
fn an_origin_summary_names_the_folder_and_the_deletion_time() {
    let root = b"/tmp/teral-trash-origin-summary".to_vec();
    let mut trash_root = root.clone();
    trash_root.extend_from_slice(b"/Trash");
    let dir = TrashDir::new(trash_root.clone(), root.clone());
    let mut record = b"[Trash Info]\nPath=".to_vec();
    record.extend_from_slice(&root);
    record.extend_from_slice(b"/papers/a.txt\nDeletionDate=2026-08-31T10:00:00\n");

    let mut file = trash_root.clone();
    file.extend_from_slice(b"/files/a.txt");
    let item = item_at(&file, &dir, ReadOutcome::Contents(record));
    let summary = item.origin_summary().expect("summary");
    assert!(summary.contains("papers"), "{summary}");
    assert!(summary.contains("2026-08-31T10:00:00"), "{summary}");

    // An item with no usable record has nothing truthful to say about its origin.
    let mut orphan_file = trash_root.clone();
    orphan_file.extend_from_slice(b"/files/b.txt");
    let orphan = item_at(&orphan_file, &dir, ReadOutcome::NotFound);
    assert_eq!(orphan.origin_summary(), None);
}

#[test]
fn a_summary_gives_the_parent_folder_and_the_deletion_time_exactly() {
    let dir = TrashDir::new(b"/home/zub/.local/share/Trash".to_vec(), b"/".to_vec());
    let record = b"[Trash Info]\nPath=/home/zub/Notes/plan.txt\nDeletionDate=2026-08-31T10:00:00\n".to_vec();
    let item = item_at(b"/home/zub/.local/share/Trash/files/plan.txt", &dir, ReadOutcome::Contents(record));
    assert_eq!(item.info, b"/home/zub/.local/share/Trash/info/plan.txt.trashinfo".to_vec());
    assert_eq!(item.original_name(), Some(b"plan.txt".to_vec()));
    assert_eq!(item.original_parent(), Some(b"/home/zub/Notes".to_vec()));
    assert_eq!(
        item.origin_summary().as_deref(),
        Some("from /home/zub/Notes, deleted 2026-08-31T10:00:00")
    );
}

#[test]
fn a_malformed_record_is_reported_as_malformed() {
    let dir = TrashDir::new(b"/home/zub/.local/share/Trash".to_vec(), b"/".to_vec());
    let item = item_at(b"/home/zub/.local/share/Trash/files/x", &dir, ReadOutcome::Contents(b"not a record".to_vec()));
    assert!(matches!(item.info_result, Err(InfoError::Malformed)));
    assert_eq!(item.origin_summary(), None);
}

#[test]
fn records_are_named_after_their_items() {
    assert_eq!(strip_info_suffix(b"a.txt.trashinfo"), Some(b"a.txt".to_vec()));
    assert_eq!(strip_info_suffix(b"a.txt"), None);
}

#[test]
fn purging_removes_the_record_only_after_the_data_is_gone() {
    assert!(purge(IoOutcome::Done, Some(IoOutcome::Done)).is_ok());
    assert!(purge(IoOutcome::NotFound, Some(IoOutcome::Done)).is_ok());
    assert!(purge(IoOutcome::Done, None).is_ok());
    match purge(IoOutcome::Failed("busy".to_owned()), Some(IoOutcome::Done)) {
        Err(PurgeError::Failed(message)) => assert_eq!(message, "busy"),
        _ => panic!("a failed removal keeps the record"),
    }
    assert!(matches!(
        purge(IoOutcome::Done, Some(IoOutcome::Failed("read-only".to_owned()))),
        Err(PurgeError::RecordRemains(_))
    ));
    assert_eq!(removal_of(Ok(())), Removal::Removed);
}

#[test]
fn an_empty_batch_is_not_an_error() {
    let mut outcomes = Vec::new();
    assert_eq!(purge_batch(&mut outcomes, 0, false, None), BatchStep::Finished);
    assert!(outcomes.is_empty());
}

#[test]
fn a_batch_reports_every_item_and_stops_when_cancelled() {
    let mut outcomes = Vec::new();
    assert_eq!(purge_batch(&mut outcomes, 3, false, None), BatchStep::Purge(0));
    assert_eq!(purge_batch(&mut outcomes, 3, false, Some(Ok(()))), BatchStep::Purge(1));
    assert_eq!(
        purge_batch(&mut outcomes, 3, true, Some(Err(PurgeError::Failed("busy".to_owned())))),
        BatchStep::Finished
    );
    assert_eq!(
        outcomes,
        vec![Removal::Removed, Removal::Failed("busy".to_owned()), Removal::Cancelled]
    );

    let mut before_start = Vec::new();
    assert_eq!(purge_batch(&mut before_start, 1, true, None), BatchStep::Finished);
    assert_eq!(before_start, vec![Removal::Cancelled]);
}

#[test]
fn a_summary_shows_a_folder_name_that_is_valid_utf8_as_it_is() {
    let dir = TrashDir::new(b"/home/zub/.local/share/Trash".to_vec(), b"/".to_vec());
    let record = b"[Trash Info]\nPath=/home/zub/Caf%C3%A9/plan.txt\nDeletionDate=2026-08-31T10:00:00\n".to_vec();
    let item = item_at(b"/home/zub/.local/share/Trash/files/plan.txt", &dir, ReadOutcome::Contents(record));
    assert_eq!(item.origin_summary().as_deref(), Some("from /home/zub/Caf\u{e9}, deleted 2026-08-31T10:00:00"));
}
