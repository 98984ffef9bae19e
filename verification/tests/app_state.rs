use diffitrust::app_state::{
    dock_action, shortcut, AppState, Command, DockAction, Message, ReadOutcome,
};
use std::path::PathBuf;

fn read(state: &mut AppState, command: Command) -> Command {
    match command {
        Command::ReadFiles(paths) => {
            for p in paths {
                let name = p.file_name().map(|n| n.to_string_lossy().to_string());
                let content = format!("contents of {}\nline two\n", p.display());
                state.load_file(p, ReadOutcome::Read { file_name: name, content });
            }
            state.files_loaded()
        }
        other => other,
    }
}

#[test]
fn test_toggle_wrap_lines_message() {
    let mut app = AppState::new(Some(true), false);
    assert!(app.wrap_lines);
    let _ = app.update(Message::ToggleWrapLines(false));
    assert!(!app.wrap_lines);
    let _ = app.update(Message::ToggleWrapLines(true));
    assert!(app.wrap_lines);
}

#[test]
fn test_dock_files_dropped_two_files() {
    let mut app = AppState::new(None, false);
    let p1 = PathBuf::from("Cargo.toml");
    let p2 = PathBuf::from("Cargo.lock");
    let c = app.update(Message::DockFilesDropped(vec![p1, p2]));
    let c = read(&mut app, c);
    assert!(matches!(c, Command::MaximizeWindow));
    assert!(app.file_1.is_some());
    assert!(app.file_2.is_some());
    assert!(app.diff_data.is_some());
}

#[test]
fn test_dock_files_dropped_replaces_existing() {
    let mut app = AppState::new(None, false);
    let p1 = PathBuf::from("Cargo.toml");
    let p2 = PathBuf::from("Cargo.lock");
    let c = app.update(Message::DockFilesDropped(vec![p1, p2]));
    read(&mut app, c);
    let original_name = app.file_1.as_ref().unwrap().name.clone();
    assert_eq!(original_name, "Cargo.toml");

    let c = app.update(Message::DockFilesDropped(vec![
        PathBuf::from("Cargo.lock"),
        PathBuf::from("Cargo.toml"),
    ]));
    read(&mut app, c);
    assert_eq!(app.file_1.as_ref().unwrap().name, "Cargo.lock");
    assert_ne!(app.file_1.as_ref().unwrap().name, original_name);
}

#[test]
fn test_clear_all_resets_files() {
    let mut app = AppState::new(None, false);
    let c = app.update(Message::DockFilesDropped(vec![
        PathBuf::from("Cargo.toml"),
        PathBuf::from("Cargo.lock"),
    ]));
    read(&mut app, c);
    assert!(app.file_1.is_some());
    assert!(app.file_2.is_some());
    assert!(app.diff_data.is_some());

    let c = app.update(Message::ClearAll);
    assert!(matches!(c, Command::RestoreWindow));
    assert!(app.file_1.is_none());
    assert!(app.file_2.is_none());
    assert!(app.diff_data.is_none());
}

#[test]
fn test_check_system_theme_updates_theme() {
    let system_dark = true;
    let mut app = AppState::new(None, !system_dark);
    let c = app.update(Message::CheckSystemTheme);
    assert!(matches!(c, Command::ReadSystemAppearance));
    let c = app.system_appearance(system_dark);
    assert!(matches!(c, Command::LoadTheme(true)));
    assert_eq!(app.is_os_dark, system_dark);
    let c = app.system_appearance(system_dark);
    assert!(matches!(c, Command::Nothing));
}

#[test]
fn dropping_more_than_two_files_reads_the_first_two() {
    let mut app = AppState::new(None, false);
    let c = app.update(Message::DockFilesDropped(vec![
        PathBuf::from("a"),
        PathBuf::from("b"),
        PathBuf::from("c"),
    ]));
    match c {
        Command::ReadFiles(p) => assert_eq!(p, vec![PathBuf::from("a"), PathBuf::from("b")]),
        _ => panic!("expected ReadFiles"),
    }
    let c = app.update(Message::DockFilesDropped(vec![]));
    let c = read(&mut app, c);
    assert!(matches!(c, Command::Nothing));
}

#[test]
fn hover_then_drop_starts_a_new_pair() {
    let mut app = AppState::new(None, false);
    let c = app.update(Message::DockFilesDropped(vec![PathBuf::from("x"), PathBuf::from("y")]));
    read(&mut app, c);
    let _ = app.update(Message::FileHovered);
    assert!(app.is_hovering && app.is_new_drop_sequence);
    let c = app.update(Message::FileDropped(PathBuf::from("z")));
    assert!(app.file_1.is_none() && app.file_2.is_none() && app.diff_data.is_none());
    read(&mut app, c);
    assert_eq!(app.file_1.as_ref().unwrap().name, "z");
    assert!(app.file_2.is_none());
    assert!(!app.is_hovering && !app.is_new_drop_sequence);

    let c = app.update(Message::FileDropped(PathBuf::from("w")));
    read(&mut app, c);
    assert_eq!(app.file_2.as_ref().unwrap().name, "w");
    assert!(app.diff_data.is_some());
    let _ = app.update(Message::FileHovered);
    let _ = app.update(Message::FilesHoveredLeft);
    assert!(!app.is_hovering && !app.is_new_drop_sequence);
}

#[test]
fn swap_sides_swaps_and_rediffs() {
    let mut app = AppState::new(None, false);
    app.load_file(PathBuf::from("l"), ReadOutcome::Read { file_name: None, content: "a\nb\n".to_string() });
    app.load_file(PathBuf::from("r"), ReadOutcome::Read { file_name: Some("r".to_string()), content: "a\n".to_string() });
    assert_eq!(app.file_1.as_ref().unwrap().name, "Unknown");
    let before = app.diff_data.as_ref().unwrap().rows[1].left.kind.clone();
    let _ = app.update(Message::SwapSides);
    assert_eq!(app.file_1.as_ref().unwrap().name, "r");
    let after = &app.diff_data.as_ref().unwrap().rows[1];
    assert_eq!(before, diffitrust::diff::CellKind::Delete);
    assert_eq!(after.right.kind, diffitrust::diff::CellKind::Insert);
    let _ = app.update(Message::SwapSides);
    assert_eq!(app.file_1.as_ref().unwrap().name, "Unknown");
}

#[test]
fn read_failures_set_the_status() {
    let mut app = AppState::new(None, false);
    app.load_file(PathBuf::from("/d"), ReadOutcome::Directory { display: "/d".to_string() });
    assert_eq!(app.status_message.as_deref(), Some("\"/d\" is a directory. Please choose plain text files."));
    app.load_file(
        PathBuf::from("/f.bin"),
        ReadOutcome::Failed { file_name: Some("f.bin".to_string()), display: "/f.bin".to_string(), error: "stream did not contain valid UTF-8".to_string() },
    );
    assert_eq!(app.status_message.as_deref(), Some("Could not read \"f.bin\" as plain text: stream did not contain valid UTF-8"));
    app.load_file(
        PathBuf::from("/"),
        ReadOutcome::Failed { file_name: None, display: "/".to_string(), error: "e".to_string() },
    );
    assert_eq!(app.status_message.as_deref(), Some("Could not read \"/\" as plain text: e"));
    assert!(app.file_1.is_none());
    app.load_file(PathBuf::from("ok"), ReadOutcome::Read { file_name: Some("ok".to_string()), content: String::new() });
    assert!(app.status_message.is_none());
}

#[test]
fn zoom_messages_become_commands() {
    let mut app = AppState::new(Some(false), false);
    assert!(!app.wrap_lines);
    assert!(matches!(app.update(Message::ZoomIn), Command::ZoomIn));
    assert!(matches!(app.update(Message::ZoomOut), Command::ZoomOut));
    assert!(matches!(app.update(Message::ResetZoom), Command::ResetZoom));
    assert!(matches!(app.update(Message::ChooseFiles), Command::PickFiles));
}

#[test]
fn zoom_shortcuts_need_the_command_modifier() {
    assert!(matches!(shortcut(true, "+"), Some(Message::ZoomIn)));
    assert!(matches!(shortcut(true, "="), Some(Message::ZoomIn)));
    assert!(matches!(shortcut(true, "-"), Some(Message::ZoomOut)));
    assert!(matches!(shortcut(true, "_"), Some(Message::ZoomOut)));
    assert!(matches!(shortcut(true, "0"), Some(Message::ResetZoom)));
    assert!(shortcut(false, "+").is_none());
    assert!(shortcut(false, "0").is_none());
    assert!(shortcut(true, "a").is_none());
    assert!(shortcut(true, "").is_none());
    assert!(shortcut(true, "+=").is_none());
}

#[test]
fn dock_batches_queue_until_a_window_listens() {
    assert_eq!(dock_action(0, 0), DockAction::Ignore);
    assert_eq!(dock_action(0, 3), DockAction::Ignore);
    assert_eq!(dock_action(2, 0), DockAction::Queue);
    assert_eq!(dock_action(1, 1), DockAction::Broadcast);
}
