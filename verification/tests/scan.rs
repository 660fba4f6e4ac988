use teral::details::{shown_count_label, status_line};
use teral::files::scan::visible_entries;
use teral::details::{action_labels, count_label, is_text_preview, owner_text, preview_message, selection_summary, selection_title};
use teral::files::entry::EntryData;
use teral::files::preview::TextPreview;
use teral::files::scan::{sort, SortKey, Sorting};
use teral::files::search::{Search, SearchEvent, RESULT_BATCH};

fn entry(name: &str, directory: bool, size: u64, modified: Option<i64>) -> EntryData {
    EntryData {
        path: format!("/d/{name}").into_bytes(),
        display_name: name.to_owned(),
        sort_key: name.to_lowercase(),
        is_directory: directory,
        is_symlink: false,
        is_broken_symlink: false,
        is_special: false,
        is_hidden: name.starts_with('.'),
        symlink_target: None,
        size,
        content_type: None,
        kind: if directory { "Folder".to_owned() } else { "Document".to_owned() },
        modified,
        created: None,
        accessed: None,
        owner: None,
        group: None,
        mode: None,
    }
}

fn names(entries: &[EntryData]) -> Vec<&str> {
    entries.iter().map(|e| e.display_name.as_str()).collect()
}

#[test]
fn folders_come_first_then_names_without_case() {
    let mut entries = vec![
        entry("beta.txt", false, 5, None),
        entry("Zeta", true, 0, None),
        entry("alpha.txt", false, 9, None),
        entry("Delta", true, 0, None),
    ];
    sort(&mut entries, Sorting::default());
    assert_eq!(names(&entries), ["Delta", "Zeta", "alpha.txt", "beta.txt"]);
}

#[test]
fn descending_size_keeps_ties_in_name_order() {
    let mut entries = vec![
        entry("b", false, 10, None),
        entry("a", false, 10, None),
        entry("c", false, 99, None),
    ];
    sort(&mut entries, Sorting { key: SortKey::Size, descending: true, folders_first: false });
    assert_eq!(names(&entries), ["c", "a", "b"]);
}

#[test]
fn unknown_times_sort_before_known_ones() {
    let mut entries = vec![entry("new", false, 0, Some(100)), entry("unknown", false, 0, None), entry("old", false, 0, Some(-5))];
    sort(&mut entries, Sorting { key: SortKey::Modified, descending: false, folders_first: true });
    assert_eq!(names(&entries), ["unknown", "old", "new"]);
}

#[test]
fn filtering_hides_dotfiles_and_matches_without_case() {
    let hidden = entry(".config", true, 0, None);
    let report = entry("Quarterly Report.pdf", false, 1, None);
    assert!(!teral::files::scan::matches(&hidden, false, ""));
    assert!(teral::files::scan::matches(&hidden, true, ""));
    assert!(teral::files::scan::matches(&report, false, "report"));
    assert!(!teral::files::scan::matches(&report, false, "invoice"));
    assert_eq!(SortKey::all().len(), 4);
    assert_eq!(SortKey::Modified.label(), "Modified");
}

#[test]
fn batches_are_bounded_and_other_devices_are_not_entered() {
    let mut search = Search::new(b"/r".to_vec(), "Note", false, 7);
    assert_eq!(search.next_directory(), Some(b"/r".to_vec()));
    assert!(search.skips(b".hidden"));
    assert!(!search.skips(b"visible"));

    let mut batches = Vec::new();
    for index in 0..RESULT_BATCH + 2 {
        let name = format!("note-{index}");
        if let Some(event) = search.observe(name.as_bytes(), format!("/r/{name}").into_bytes(), false, 7) {
            batches.push(event);
        }
    }
    assert_eq!(batches.len(), 1);
    match &batches[0] {
        SearchEvent::Batch(paths) => assert_eq!(paths.len(), RESULT_BATCH),
        other => panic!("unexpected {other:?}"),
    }
    assert!(search.observe(b"other", b"/r/other".to_vec(), true, 7).is_none());
    assert!(search.observe(b"mount", b"/r/mount".to_vec(), true, 8).is_none());
    search.record_unreadable();
    assert_eq!(search.next_directory(), Some(b"/r/other".to_vec()));
    assert_eq!(search.next_directory(), None);

    let events = search.finish();
    assert_eq!(events.len(), 2);
    match &events[0] {
        SearchEvent::Batch(paths) => assert_eq!(paths.len(), 2),
        other => panic!("unexpected {other:?}"),
    }
    match &events[1] {
        SearchEvent::Finished { unreadable } => assert_eq!(*unreadable, 1),
        other => panic!("unexpected {other:?}"),
    }
}

#[test]
fn the_details_panel_describes_a_selection() {
    assert_eq!(count_label(1, "file"), "1 file");
    assert_eq!(count_label(3, "folder"), "3 folders");
    assert_eq!(selection_title(4), "4 items selected");
    assert_eq!(selection_summary(&vec![(true, 4096), (false, 1024), (false, 512)]), "1 folder   \u{b7}   2 files   \u{b7}   1.5 KB");
    assert_eq!(selection_summary(&vec![(true, 0), (true, 0)]), "2 folders");
    assert_eq!(owner_text(Some("zub"), Some("users")), "zub:users");
    assert_eq!(owner_text(None, Some("users")), "users");
    assert!(is_text_preview(Some("text/markdown")));
    assert!(is_text_preview(Some("application/json")));
    assert!(!is_text_preview(Some("image/png")));
    assert_eq!(preview_message(&Ok(TextPreview::Binary)).as_deref(), Some("This file contains binary data"));
    assert_eq!(preview_message(&Err("gone".to_owned())).as_deref(), Some("Preview unavailable: gone"));
    assert_eq!(action_labels(true), ("Restore", "Delete"));
    assert_eq!(action_labels(false), ("Cut", "Trash"));
}

#[test]
fn a_folder_view_lists_what_the_filter_lets_through_in_order() {
    let all = vec![
        entry("Zeta notes", false, 5, None),
        entry(".hidden notes", false, 5, None),
        entry("alpha NOTES", false, 5, None),
        entry("other", false, 5, None),
    ];
    let shown = visible_entries(&all, false, "Notes", Sorting::default());
    assert_eq!(names(&shown), ["alpha NOTES", "Zeta notes"]);
    assert_eq!(shown_count_label(shown.len(), all.len()), "2 of 4 items");
    assert_eq!(shown_count_label(4, 4), "4 items");
    assert_eq!(status_line(&vec![(false, 1024), (true, 4096)]), ("2 selected".to_owned(), "1.0 KB".to_owned()));
    assert_eq!(status_line(&Vec::new()), (String::new(), String::new()));
}
