use teral::persistence::{decode_path, encode_path, hex_digit, temporary_name};
use teral::session::{from_raw, path, save, RawSession, RawTab, SavedTab, Session, MAX_HISTORY};

fn session_with(tab: SavedTab) -> Session {
    Session { active: 0, tabs: vec![tab] }
}

fn parse(document: &str) -> toml::Table {
    toml::from_str(document).expect("valid TOML")
}

fn first_tab(table: &toml::Table) -> &toml::Table {
    table["tab"].as_array().expect("tabs")[0].as_table().expect("tab")
}

#[test]
fn session_paths_are_serialized_without_utf8_loss() {
    let p = vec![b'/', b't', b'm', b'p', b'/', 0xfe];
    let tab = SavedTab { path: p.clone(), tag: None, back: vec![p.clone()], forward: Vec::new() };
    let document = save(&session_with(tab)).expect("a session with a tab");
    let table = parse(&document);
    let encoded = first_tab(&table)["back_hex"][0].as_str().expect("path");
    assert_eq!(decode_path(encoded).expect("decode"), p);
}

#[test]
fn history_is_bounded_to_the_most_recent_entries() {
    let paths: Vec<Vec<u8>> = (0..200).map(|index| format!("/{index}").into_bytes()).collect();
    let tab = SavedTab { path: b"/".to_vec(), tag: None, back: paths, forward: Vec::new() };
    let document = save(&session_with(tab)).expect("a session with a tab");
    let table = parse(&document);
    let back = first_tab(&table)["back_hex"].as_array().expect("array");
    assert_eq!(back.len(), MAX_HISTORY);
    assert_eq!(decode_path(back[0].as_str().unwrap()).unwrap(), b"/72".to_vec());
    assert_eq!(decode_path(back[127].as_str().unwrap()).unwrap(), b"/199".to_vec());
}

#[test]
fn raw_linux_paths_round_trip() {
    let p = vec![b'/', b'h', 0xff, 0x00, b'\n', b'"'];
    assert_eq!(decode_path(&encode_path(&p)).expect("decode"), p);
    assert_eq!(encode_path(b"/a"), "2f61");
}

#[test]
fn malformed_encodings_are_refused() {
    assert_eq!(decode_path("2f6").unwrap_err(), "encoded path has an odd number of digits");
    assert_eq!(decode_path("zz").unwrap_err(), "encoded path is not hexadecimal");
    assert_eq!(decode_path("2F61").unwrap(), b"/a".to_vec());
    assert_eq!(hex_digit(b'a'), Some(10));
    assert_eq!(hex_digit(b'G'), None);
}

#[test]
fn a_saved_session_loads_back() {
    let session = Session {
        active: 5,
        tabs: vec![
            SavedTab { path: b"/home".to_vec(), tag: Some("Work \"q\"".to_owned()), back: vec![b"/".to_vec()], forward: Vec::new() },
            SavedTab { path: b"/tmp".to_vec(), tag: None, back: Vec::new(), forward: vec![b"/var".to_vec()] },
        ],
    };
    let document = save(&session).expect("saved");
    let table = parse(&document);
    let tabs = table["tab"].as_array().expect("tabs");
    let raw = RawSession {
        active: table.get("active").and_then(|v| v.as_integer()).map(|n| n as usize),
        tabs: tabs
            .iter()
            .map(|t| RawTab {
                path_hex: t["path_hex"].as_str().unwrap().to_owned(),
                tag: t.get("tag").and_then(|v| v.as_str()).map(|s| s.to_owned()),
                back_hex: t["back_hex"].as_array().unwrap().iter().map(|v| v.as_str().unwrap().to_owned()).collect(),
                forward_hex: t["forward_hex"].as_array().unwrap().iter().map(|v| v.as_str().unwrap().to_owned()).collect(),
            })
            .collect(),
    };
    let restored = from_raw(&raw).expect("readable").expect("not empty");
    assert_eq!(restored.active, 1);
    assert_eq!(restored.tabs, session.tabs);
}

#[test]
fn an_empty_session_is_refused_and_an_empty_file_restores_nothing() {
    assert!(save(&Session { active: 0, tabs: Vec::new() }).is_err());
    assert_eq!(from_raw(&RawSession { active: None, tabs: Vec::new() }), Ok(None));
    let broken = RawSession {
        active: None,
        tabs: vec![RawTab { path_hex: "xyz".to_owned(), tag: None, back_hex: Vec::new(), forward_hex: Vec::new() }],
    };
    assert!(from_raw(&broken).is_err());
}

#[test]
fn session_files_live_under_the_data_home() {
    assert_eq!(path(b"/home/zub/.local/share"), b"/home/zub/.local/share/teral/session.toml".to_vec());
    assert_eq!(temporary_name(Some(b"session.toml"), 12, 3), b".session.toml.teral-12-3.tmp".to_vec());
    assert_eq!(temporary_name(None, 1, 0), b".state.teral-1-0.tmp".to_vec());
}
