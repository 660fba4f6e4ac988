use teral::navigation::{cycle_tab, open_tab};
use teral::navigation::{location_of, History, HistoryStep, Location, Tab, ViewMode};

fn bytes(text: &str) -> Vec<u8> {
    text.as_bytes().to_vec()
}

#[test]
fn only_a_real_folder_can_be_acted_in() {
    let folder = Location::Directory(bytes("/home/zub/Documents"));
    assert_eq!(folder.working_directory(), Some(&bytes("/home/zub/Documents")));
    assert!(folder.accepts_new_files());
    assert!(!folder.is_virtual());
    assert!(!folder.is_trash());

    let trash = Location::Trash(bytes("/home/zub/.local/share/Trash/files"));
    assert_eq!(trash.working_directory(), None);
    assert!(!trash.accepts_new_files());
    assert!(trash.is_trash());
    assert!(!trash.is_virtual());

    let tagged = Location::Tag("Important".to_owned());
    assert_eq!(tagged.working_directory(), None);
    assert!(!tagged.accepts_new_files());
    assert!(tagged.is_virtual());
    assert!(!tagged.is_trash());

    let searched = Location::Search { root: bytes("/home/zub"), query: "report".to_owned() };
    assert_eq!(searched.working_directory(), None);
    assert!(!searched.accepts_new_files());
    assert!(searched.is_virtual());
    assert!(!searched.is_trash());
}

#[test]
fn a_tab_remembers_the_view_it_was_showing() {
    let mut tab = Tab::new(bytes("/home/zub"));
    assert_eq!(tab.tag, None);
    assert_eq!(tab.search, None);
    assert!(tab.back.is_empty());
    assert!(tab.forward.is_empty());

    tab.tag = Some("Important".to_owned());
    let restored = tab.clone();
    assert_eq!(restored.tag.as_deref(), Some("Important"));
    assert_eq!(restored.path, bytes("/home/zub"));
}

#[test]
fn the_location_follows_search_then_tag_then_trash() {
    assert_eq!(
        location_of(Some((bytes("/r"), "q".to_owned())), Some("T".to_owned()), bytes("/c"), true),
        Location::Search { root: bytes("/r"), query: "q".to_owned() }
    );
    assert_eq!(location_of(None, Some("T".to_owned()), bytes("/c"), true), Location::Tag("T".to_owned()));
    assert_eq!(location_of(None, None, bytes("/c"), true), Location::Trash(bytes("/c")));
    assert_eq!(location_of(None, None, bytes("/c"), false), Location::Directory(bytes("/c")));
}

#[test]
fn back_then_forward_returns_to_where_it_started() {
    let mut history = History::new(bytes("/a"));
    let step = history.navigate_step(b"/b", false);
    assert_eq!(step, Some(HistoryStep::Push(bytes("/a"))));
    history.commit(bytes("/b"), step);
    assert_eq!(history.navigate_step(b"/b", false), None);
    assert_eq!(history.up_target(), Some(bytes("/")));

    let back = history.back_target().expect("somewhere to go back to");
    assert_eq!(back, bytes("/a"));
    history.commit(back, Some(HistoryStep::Back));
    assert_eq!(history.current, bytes("/a"));

    let forward = history.forward_target().expect("somewhere to go forward to");
    history.commit(forward, Some(HistoryStep::Forward));
    assert_eq!(history.current, bytes("/b"));
    assert_eq!(history.back, vec![bytes("/a")]);
    assert!(history.forward.is_empty());

    let step = history.navigate_step(b"/c", false);
    history.commit(bytes("/c"), step);
    assert_eq!(history.back, vec![bytes("/a"), bytes("/b")]);
    assert_eq!(history.forward_target(), None);
}

#[test]
fn view_modes_name_their_pages() {
    assert_eq!(ViewMode::Grid.stack_name(), "grid");
    assert_eq!(ViewMode::List.stack_name(), "list");
}

#[test]
fn closing_a_tab_keeps_the_one_on_screen() {
    let mut tabs = vec![Tab::new(bytes("/a")), Tab::new(bytes("/b")), Tab::new(bytes("/c"))];
    assert_eq!(teral::navigation::close_tab(&mut tabs, 2, 0), Some(1));
    assert_eq!(tabs[1].path, bytes("/c"));
    assert_eq!(teral::navigation::close_tab(&mut tabs, 1, 1), Some(0));
    assert_eq!(tabs.len(), 1);
    assert_eq!(teral::navigation::close_tab(&mut tabs, 0, 0), None);
    assert_eq!(tabs.len(), 1);
}

#[test]
fn tabs_cycle_around_and_open_at_the_end() {
    assert_eq!(cycle_tab(3, 2, true), Some(0));
    assert_eq!(cycle_tab(3, 0, false), Some(2));
    assert_eq!(cycle_tab(3, 1, true), Some(2));
    assert_eq!(cycle_tab(1, 0, true), None);
    let mut tabs = vec![Tab::new(bytes("/a"))];
    assert_eq!(open_tab(&mut tabs, bytes("/b")), 1);
    assert_eq!(tabs[1].path, bytes("/b"));
}
