use teral::command::{
    choose_shell, history_document, history_from, history_path, kill_arguments, parse_program_spec,
    quick_command_argv, quick_command_directory, summarise, terminal_candidates, terminal_spec,
    validate_program, HISTORY_LIMIT,
};

fn strings(items: &[&str]) -> Vec<String> {
    items.iter().map(|s| (*s).to_owned()).collect()
}

#[test]
fn a_shell_is_always_available() {
    assert!(!choose_shell("", None, None).is_empty());
    assert_eq!(choose_shell("", None, None), "/bin/sh");
}

#[test]
fn the_configured_shell_wins_then_the_environment() {
    assert_eq!(choose_shell("  /bin/zsh ", Some("/bin/fish"), Some("/bin/bash")), "/bin/zsh");
    assert_eq!(choose_shell("   ", Some("/bin/fish"), Some("/bin/bash")), "/bin/fish");
    assert_eq!(choose_shell("", Some(""), Some("/bin/bash")), "/bin/bash");
}

#[test]
fn summaries_show_the_command_and_its_folder() {
    let summary = summarise("  git status  ", b"/tmp");
    assert!(summary.starts_with("$ git status"));
    assert!(summary.ends_with("/tmp"));
    assert_eq!(summary, "$ git status   \u{b7}   /tmp");
}

#[test]
fn executable_specs_keep_arguments_without_shell_expansion() {
    assert_eq!(
        parse_program_spec("kitty --title 'Files here'").expect("parse"),
        ["kitty", "--title", "Files here"]
    );
    assert!(parse_program_spec("kitty 'unfinished").is_err());
}

#[test]
fn program_specs_handle_escapes_and_empty_input() {
    assert_eq!(parse_program_spec("a\\ b \"c d\" ''").expect("parse"), ["a b", "c d"]);
    assert_eq!(parse_program_spec("   ").unwrap_err(), "an executable is required");
    assert_eq!(validate_program(&Vec::new(), false).unwrap_err(), "an executable is required");
    assert_eq!(
        validate_program(&strings(&["nope"]), false).unwrap_err(),
        "nope is not an executable on PATH"
    );
    assert!(validate_program(&strings(&["kitty"]), true).is_ok());
}

#[test]
fn quick_commands_run_through_the_shell() {
    assert_eq!(
        quick_command_argv(strings(&["/bin/sh"]), "ls -la".to_owned()),
        strings(&["/bin/sh", "-c", "ls -la"])
    );
    assert_eq!(quick_command_directory(b"/home/zub").unwrap(), "/home/zub");
    assert!(quick_command_directory(&[b'/', 0xff]).is_err());
    assert_eq!(kill_arguments(42, true), strings(&["-KILL", "--", "-42"]));
    assert_eq!(kill_arguments(42, false), strings(&["-KILL", "--", "42"]));
}

#[test]
fn history_keeps_the_most_recent_non_blank_commands() {
    let mut stored: Vec<String> = (0..150).map(|n| format!("echo {n}")).collect();
    stored.insert(3, "   ".to_owned());
    let kept = history_from(stored);
    assert_eq!(kept.len(), HISTORY_LIMIT);
    assert_eq!(kept[0], "echo 50");
    assert_eq!(kept[HISTORY_LIMIT - 1], "echo 149");

    let document = history_document(&strings(&["say \"hi\"", "a\\b"]));
    let table: toml::Table = toml::from_str(&document).expect("valid TOML");
    let commands: Vec<&str> = table["command"].as_array().unwrap().iter().map(|v| v.as_str().unwrap()).collect();
    assert_eq!(commands, ["say \"hi\"", "a\\b"]);
    assert_eq!(history_path(b"/d"), b"/d/teral/command-history.toml".to_vec());
}

#[test]
fn terminals_are_chosen_from_settings_then_the_environment() {
    assert_eq!(terminal_spec(" foot ", Some("kitty")).as_deref(), Some("foot"));
    assert_eq!(terminal_spec("", Some("kitty")).as_deref(), Some("kitty"));
    assert_eq!(terminal_spec("", Some("  ")), None);
    assert_eq!(terminal_spec("", None), None);
    assert_eq!(terminal_candidates()[0], "ghostty");
    assert_eq!(terminal_candidates().len(), 10);
}
