use teral::files::transfer::{
    classify_conflict, clipboard_payload, destination_name, is_inside_itself, kde_cut_kind,
    parse_gnome_clipboard, parse_uri_list, paths_overlap, private_name, validate_clipboard,
    new_entry_step, placement_step, replace_step, ConflictKind, Ending, Execution, NewEntryEvent, NewEntryStep,
    ReplaceEvent, ReplaceStep, ConflictPolicy, ItemResult, ItemState, JobReport, LeaseRegistry, OnExisting,
    OperationKind, PlacementEvent, PlacementStep, TransferKind, MAX_NAME_ATTEMPTS,
};

fn bytes(text: &str) -> Vec<u8> {
    text.as_bytes().to_vec()
}

/// Stands in for the desktop's URI resolver: a `file://` URI names a local path.
fn local_paths(uris: &[String]) -> Vec<Vec<u8>> {
    uris.iter()
        .filter_map(|uri| uri.strip_prefix("file://"))
        .map(|path| path.as_bytes().to_vec())
        .collect()
}

#[test]
fn destination_names_preserve_extensions_and_non_utf8() {
    let raw = vec![b'n', 0xff, b'.', b't', b'x', b't'];
    assert_eq!(destination_name(&raw, 0), raw);
    assert_eq!(
        destination_name(&raw, 1),
        vec![b'n', 0xff, b' ', b'(', b'c', b'o', b'p', b'y', b')', b'.', b't', b'x', b't']
    );
}

#[test]
fn later_attempts_are_numbered_before_the_extension() {
    assert_eq!(destination_name(b"notes.txt", 2), bytes("notes (copy 2).txt"));
    assert_eq!(destination_name(b"archive.tar.gz", 1), bytes("archive.tar (copy).gz"));
    assert_eq!(destination_name(b"README", 3), bytes("README (copy 3)"));
    assert_eq!(destination_name(b".bashrc", 1), bytes(".bashrc (copy)"));
}

#[test]
fn the_gnome_clipboard_payload_has_no_trailing_newline() {
    let uris = vec!["file:///tmp/one".to_owned(), "file:///tmp/two".to_owned()];
    let payload = clipboard_payload(TransferKind::Move, &uris).unwrap();
    assert_eq!(payload.special, "cut\nfile:///tmp/one\nfile:///tmp/two");
    assert!(!payload.special.ends_with('\n'));
    assert_eq!(payload.uri_list, "file:///tmp/one\r\nfile:///tmp/two\r\n");
    assert_eq!(payload.kde_cut, "1");

    let (kind, read) = parse_gnome_clipboard(payload.special.as_bytes()).unwrap();
    let clipboard = validate_clipboard(kind, local_paths(&read)).unwrap();
    assert_eq!(clipboard.kind, TransferKind::Move);
    assert_eq!(clipboard.sources, vec![bytes("/tmp/one"), bytes("/tmp/two")]);
}

#[test]
fn a_trailing_newline_from_another_application_is_still_accepted() {
    let (kind, uris) = parse_gnome_clipboard(b"copy\nfile:///tmp/one\n\n").unwrap();
    let clipboard = validate_clipboard(kind, local_paths(&uris)).unwrap();
    assert_eq!(clipboard.kind, TransferKind::Copy);
    assert_eq!(clipboard.sources, vec![bytes("/tmp/one")]);
}

#[test]
fn gnome_clipboard_preserves_cut_and_local_uris() {
    let (kind, uris) = parse_gnome_clipboard(b"cut\nfile:///tmp/one\nfile:///tmp/two\n").unwrap();
    let clipboard = validate_clipboard(kind, local_paths(&uris)).unwrap();
    assert_eq!(clipboard.kind, TransferKind::Move);
    assert_eq!(clipboard.sources, vec![bytes("/tmp/one"), bytes("/tmp/two")]);
}

#[test]
fn clipboard_errors_say_what_was_wrong() {
    assert_eq!(
        parse_gnome_clipboard(&[0xff, 0xfe]).unwrap_err(),
        "the clipboard file list is not valid UTF-8"
    );
    assert_eq!(
        parse_gnome_clipboard(b"move\nfile:///tmp/one").unwrap_err(),
        "the clipboard does not contain a valid copy or cut action"
    );
    assert_eq!(
        validate_clipboard(TransferKind::Copy, Vec::new()).unwrap_err(),
        "the clipboard has no local files Teral can paste"
    );
    assert_eq!(
        clipboard_payload(TransferKind::Copy, &Vec::new()).unwrap_err(),
        "there are no local files to copy"
    );
    assert_eq!(
        clipboard_payload(TransferKind::Link, &vec!["file:///tmp/one".to_owned()]).unwrap_err(),
        "link operations cannot be stored in the clipboard"
    );
}

#[test]
fn uri_lists_skip_comments_and_blank_lines() {
    let uris = parse_uri_list(b"# comment\r\nfile:///tmp/a\r\n\r\n  file:///tmp/b  \n").unwrap();
    assert_eq!(uris, vec!["file:///tmp/a".to_owned(), "file:///tmp/b".to_owned()]);
    assert_eq!(kde_cut_kind(Some(b"1")), TransferKind::Move);
    assert_eq!(kde_cut_kind(Some(b"0")), TransferKind::Copy);
    assert_eq!(kde_cut_kind(None), TransferKind::Copy);
}

#[test]
fn operation_leases_reject_overlapping_targets() {
    let root = bytes("/tmp/teral-destination");
    let child = bytes("/tmp/teral-destination/child");
    let mut leases = LeaseRegistry::new();
    assert!(leases.acquire(&vec![root.clone()]).is_ok());
    assert!(leases.acquire(&vec![child.clone()]).is_err());
    leases.release(&vec![root]);
    assert!(leases.acquire(&vec![child]).is_ok());
}

#[test]
fn sibling_paths_do_not_overlap() {
    assert!(paths_overlap(b"/tmp/a", b"/tmp/a/b"));
    assert!(paths_overlap(b"/tmp/a/b", b"/tmp/a"));
    assert!(!paths_overlap(b"/tmp/a", b"/tmp/ab"));
    assert!(is_inside_itself(b"/home/project", b"/home/project/sub"));
    assert!(is_inside_itself(b"/home/project", b"/home/project"));
    assert!(!is_inside_itself(b"/home/project", b"/home"));
}

#[test]
fn conflicts_are_classified_before_a_job() {
    assert_eq!(classify_conflict(TransferKind::Move, true, false, false), ConflictKind::SelfMove);
    assert_eq!(classify_conflict(TransferKind::Copy, true, false, false), ConflictKind::SameEntry);
    assert_eq!(classify_conflict(TransferKind::Copy, false, true, true), ConflictKind::Folder);
    assert_eq!(classify_conflict(TransferKind::Link, false, true, true), ConflictKind::File);
    assert_eq!(classify_conflict(TransferKind::Copy, false, true, false), ConflictKind::File);
}

#[test]
fn tag_updates_follow_only_completed_items() {
    let mut report = JobReport::new(OperationKind::Restore);

    let mut completed = ItemResult::new(bytes("/trash/a"), bytes("/home/a"));
    completed.actual_destination = Some(bytes("/home/a (copy)"));
    completed.state = ItemState::Completed;

    let mut destroyed = ItemResult::new(bytes("/home/b"), bytes("/home/b"));
    destroyed.state = ItemState::Completed;

    let mut partial = ItemResult::new(bytes("/trash/c"), bytes("/home/c"));
    partial.actual_destination = Some(bytes("/home/c"));
    partial.state = ItemState::Partial;

    let mut skipped = ItemResult::new(bytes("/trash/d"), bytes("/home/d"));
    skipped.actual_destination = Some(bytes("/home/d"));
    skipped.state = ItemState::Skipped;

    let mut cancelled = ItemResult::new(bytes("/trash/e"), bytes("/home/e"));
    cancelled.state = ItemState::Cancelled;

    let mut failed = ItemResult::new(bytes("/trash/f"), bytes("/home/f"));
    failed.error = Some("nope".to_owned());

    report.items = vec![completed, destroyed, partial, skipped, cancelled, failed];

    let updates = report.tag_updates();
    assert_eq!(updates.len(), 2, "only completed items may move tags");
    assert_eq!(updates[0].0, bytes("/trash/a"));
    assert_eq!(updates[0].1, Some(bytes("/home/a (copy)")));
    assert_eq!(updates[1].0, bytes("/home/b"));
    assert_eq!(updates[1].1, None);
}

#[test]
fn an_item_that_did_not_move_is_not_treated_as_a_relocation() {
    let mut report = JobReport::new(OperationKind::PermanentDelete);
    let mut item = ItemResult::new(bytes("/home/a"), bytes("/home/a"));
    item.actual_destination = Some(bytes("/home/a"));
    item.state = ItemState::Completed;
    report.items = vec![item];

    assert_eq!(report.tag_updates(), vec![(bytes("/home/a"), None)]);
}

#[test]
fn a_report_counts_what_happened() {
    let mut report = JobReport::new(OperationKind::Copy);
    let mut renamed = ItemResult::new(bytes("/a/x"), bytes("/b/x"));
    renamed.actual_destination = Some(bytes("/b/x (copy)"));
    renamed.state = ItemState::Completed;
    let mut skipped = ItemResult::new(bytes("/a/y"), bytes("/b/y"));
    skipped.state = ItemState::Skipped;
    let mut failed = ItemResult::new(bytes("/a/z"), bytes("/b/z"));
    failed.error = Some("disk full".to_owned());
    report.record(renamed);
    report.record(skipped);
    report.record(failed);
    assert_eq!(report.succeeded(), 1);
    assert_eq!(report.renamed(), 1);
    assert_eq!(report.skipped(), 1);
    assert!(!report.is_complete());
    assert_eq!(report.remaining_sources(), vec![bytes("/a/y"), bytes("/a/z")]);
    assert_eq!(report.completed_moves(), vec![(bytes("/a/x"), bytes("/b/x (copy)"))]);
    assert_eq!(report.problems().len(), 1);
}

#[test]
fn staging_entries_are_private_to_the_process() {
    assert_eq!(private_name("copy", 42, 7), ".teral-copy-42-7");
}

#[test]
fn the_offered_uri_list_reads_back_as_the_same_uris() {
    let uris = vec!["file:///tmp/a%20b".to_owned(), "file:///home/zub/report.pdf".to_owned()];
    let payload = clipboard_payload(TransferKind::Copy, &uris).unwrap();
    assert_eq!(parse_uri_list(payload.uri_list.as_bytes()).unwrap(), uris);
    let (kind, read) = parse_gnome_clipboard(payload.special.as_bytes()).unwrap();
    assert_eq!(kind, TransferKind::Copy);
    assert_eq!(read, uris);
    assert_eq!(payload.kde_cut, "0");
}

#[test]
fn a_conflict_policy_checks_the_requested_name_before_resolving() {
    let name = bytes("notes.txt");
    assert!(matches!(placement_step(ConflictPolicy::Skip, &name, PlacementEvent::Start), PlacementStep::CheckRequested));
    assert!(matches!(
        placement_step(ConflictPolicy::Merge, &name, PlacementEvent::Checked(true)),
        PlacementStep::Resolve(OnExisting::Merge)
    ));
    match placement_step(ConflictPolicy::Replace, &name, PlacementEvent::Checked(false)) {
        PlacementStep::TryName { name: n, attempt } => {
            assert_eq!(n, name);
            assert_eq!(attempt, 0);
        }
        other => panic!("expected a try, got {other:?}"),
    }
    assert!(matches!(
        placement_step(ConflictPolicy::Cancel, &name, PlacementEvent::Tried { attempt: 0, taken: true }),
        PlacementStep::Resolve(OnExisting::Cancel)
    ));
    assert!(matches!(
        placement_step(ConflictPolicy::Skip, &name, PlacementEvent::Tried { attempt: 0, taken: false }),
        PlacementStep::Done
    ));
}

#[test]
fn renaming_tries_each_copy_name_in_turn_and_then_gives_up() {
    let name = bytes("notes.txt");
    match placement_step(ConflictPolicy::RenameIncoming, &name, PlacementEvent::Start) {
        PlacementStep::TryName { name: n, attempt } => {
            assert_eq!(n, bytes("notes.txt"));
            assert_eq!(attempt, 0);
        }
        other => panic!("expected a try, got {other:?}"),
    }
    match placement_step(ConflictPolicy::RenameIncoming, &name, PlacementEvent::Tried { attempt: 0, taken: true }) {
        PlacementStep::TryName { name: n, attempt } => {
            assert_eq!(n, bytes("notes (copy).txt"));
            assert_eq!(attempt, 1);
        }
        other => panic!("expected a try, got {other:?}"),
    }
    match placement_step(ConflictPolicy::RenameIncoming, &name, PlacementEvent::Tried { attempt: 1, taken: true }) {
        PlacementStep::TryName { name: n, attempt } => {
            assert_eq!(n, bytes("notes (copy 2).txt"));
            assert_eq!(attempt, 2);
        }
        other => panic!("expected a try, got {other:?}"),
    }
    match placement_step(
        ConflictPolicy::RenameIncoming,
        &name,
        PlacementEvent::Tried { attempt: MAX_NAME_ATTEMPTS - 1, taken: true },
    ) {
        PlacementStep::GiveUp(message) => {
            assert_eq!(message, "could not reserve an unused name in the destination folder")
        }
        other => panic!("expected to give up, got {other:?}"),
    }
    assert!(matches!(
        placement_step(ConflictPolicy::RenameIncoming, &name, PlacementEvent::Tried { attempt: 3, taken: false }),
        PlacementStep::Done
    ));
}

#[test]
fn a_new_entry_is_linked_moved_or_copied() {
    let target = bytes("/dst/a.txt");
    let start = |cancelled, same_filesystem| NewEntryEvent::Start { cancelled, same_filesystem };
    assert!(matches!(new_entry_step(TransferKind::Copy, &target, start(true, false)), NewEntryStep::Cancel { discard_copy: false }));
    assert!(matches!(new_entry_step(TransferKind::Link, &target, start(false, false)), NewEntryStep::Link));
    assert!(matches!(new_entry_step(TransferKind::Move, &target, start(false, true)), NewEntryStep::MoveInPlace));
    assert!(matches!(new_entry_step(TransferKind::Move, &target, start(false, false)), NewEntryStep::Copy));
    assert!(matches!(new_entry_step(TransferKind::Copy, &target, start(false, true)), NewEntryStep::Copy));
    match new_entry_step(TransferKind::Move, &target, NewEntryEvent::Done) {
        NewEntryStep::Finish(Execution::Completed(p)) => assert_eq!(p, target),
        other => panic!("expected completion, got {other:?}"),
    }
}

#[test]
fn a_moved_copy_removes_its_source_or_reports_it() {
    let target = bytes("/dst/a.txt");
    assert!(matches!(
        new_entry_step(TransferKind::Move, &target, NewEntryEvent::Copied { cancelled: true }),
        NewEntryStep::Cancel { discard_copy: true }
    ));
    assert!(matches!(
        new_entry_step(TransferKind::Move, &target, NewEntryEvent::Copied { cancelled: false }),
        NewEntryStep::RemoveSource
    ));
    assert!(matches!(
        new_entry_step(TransferKind::Copy, &target, NewEntryEvent::Copied { cancelled: true }),
        NewEntryStep::Finish(Execution::Completed(_))
    ));
    match new_entry_step(TransferKind::Move, &target, NewEntryEvent::SourceRemoved { error: Some("busy".to_owned()) }) {
        NewEntryStep::Finish(Execution::Partial(p, m)) => {
            assert_eq!(p, target);
            assert_eq!(m, "the copy completed at /dst/a.txt, but the source could not be removed: busy");
        }
        other => panic!("expected a partial result, got {other:?}"),
    }
}

#[test]
fn a_replacement_stages_moves_aside_and_puts_in_place() {
    let target = bytes("/dst/a.txt");
    assert!(matches!(replace_step(TransferKind::Link, &target, ReplaceEvent::Start), ReplaceStep::Stage { link: true }));
    assert!(matches!(replace_step(TransferKind::Copy, &target, ReplaceEvent::Start), ReplaceStep::Stage { link: false }));
    assert!(matches!(
        replace_step(TransferKind::Copy, &target, ReplaceEvent::Staged { cancelled: true }),
        ReplaceStep::Finish { discard_staged: true, remove_backup_dir: false, ending: Ending::Cancelled }
    ));
    assert!(matches!(replace_step(TransferKind::Copy, &target, ReplaceEvent::Staged { cancelled: false }), ReplaceStep::MoveAside));
    assert!(matches!(
        replace_step(TransferKind::Copy, &target, ReplaceEvent::MovedAside { moved: false }),
        ReplaceStep::Finish { discard_staged: true, remove_backup_dir: true, ending: Ending::Failed }
    ));
    assert!(matches!(replace_step(TransferKind::Copy, &target, ReplaceEvent::MovedAside { moved: true }), ReplaceStep::PutInPlace));
    assert!(matches!(replace_step(TransferKind::Copy, &target, ReplaceEvent::Placed { error: None }), ReplaceStep::RemoveBackup));
    assert!(matches!(
        replace_step(TransferKind::Copy, &target, ReplaceEvent::Placed { error: Some("denied".to_owned()) }),
        ReplaceStep::PutBack
    ));
}

#[test]
fn a_failed_replacement_keeps_the_original_somewhere() {
    let target = bytes("/dst/a.txt");
    let backup = bytes("/dst/.teral-backup-1-2/original");
    assert!(matches!(
        replace_step(
            TransferKind::Copy,
            &target,
            ReplaceEvent::PutBack { restored: true, backup: backup.clone(), error: "denied".to_owned() }
        ),
        ReplaceStep::Finish { discard_staged: true, remove_backup_dir: true, ending: Ending::Failed }
    ));
    match replace_step(
        TransferKind::Copy,
        &target,
        ReplaceEvent::PutBack { restored: false, backup: backup.clone(), error: "denied".to_owned() },
    ) {
        ReplaceStep::Finish {
            discard_staged: true,
            remove_backup_dir: false,
            ending: Ending::Executed(Execution::Partial(p, m)),
        } => {
            assert_eq!(p, backup);
            assert_eq!(m, "replacement failed (denied); the original remains in the reported backup path");
        }
        other => panic!("expected a partial result, got {other:?}"),
    }
}

#[test]
fn a_completed_replacement_removes_the_backup_and_then_the_source() {
    let target = bytes("/dst/a.txt");
    let backup = bytes("/dst/.teral-backup-1-2/original");
    match replace_step(
        TransferKind::Copy,
        &target,
        ReplaceEvent::BackupRemoved { backup: backup.clone(), error: Some("busy".to_owned()) },
    ) {
        ReplaceStep::Finish { ending: Ending::Executed(Execution::Partial(p, m)), remove_backup_dir: false, .. } => {
            assert_eq!(p, target);
            assert_eq!(m, "replacement completed, but the old destination remains at /dst/.teral-backup-1-2/original: busy");
        }
        other => panic!("expected a partial result, got {other:?}"),
    }
    assert!(matches!(
        replace_step(TransferKind::Copy, &target, ReplaceEvent::BackupRemoved { backup: backup.clone(), error: None }),
        ReplaceStep::Finish { remove_backup_dir: true, ending: Ending::Executed(Execution::Completed(_)), .. }
    ));
    assert!(matches!(
        replace_step(TransferKind::Move, &target, ReplaceEvent::BackupRemoved { backup, error: None }),
        ReplaceStep::RemoveSource { remove_backup_dir: true }
    ));
    match replace_step(TransferKind::Move, &target, ReplaceEvent::SourceRemoved { error: Some("busy".to_owned()) }) {
        ReplaceStep::Finish { ending: Ending::Executed(Execution::Partial(p, m)), .. } => {
            assert_eq!(p, target);
            assert_eq!(m, "replacement completed, but the source could not be removed: busy");
        }
        other => panic!("expected a partial result, got {other:?}"),
    }
    assert!(matches!(
        replace_step(TransferKind::Move, &target, ReplaceEvent::SourceRemoved { error: None }),
        ReplaceStep::Finish { discard_staged: false, remove_backup_dir: false, ending: Ending::Executed(Execution::Completed(_)) }
    ));
}
