use std::path::PathBuf;

use wzed::diff::{compute_diff, DiffLineKind};
use wzed::ipc::{format_command_message, parse_ipc_message, IpcMessage};
use wzed::names::{file_name_from_path, format_action_name, untitled_name};

#[test]
fn test_format_action_simple() {
    assert_eq!(format_action_name("lite_editor::SaveFile"), "save-file");
}

#[test]
fn test_format_action_single_word() {
    assert_eq!(format_action_name("lite_editor::Save"), "save");
}

#[test]
fn test_format_action_no_namespace() {
    assert_eq!(format_action_name("SaveFile"), "save-file");
}

#[test]
fn test_format_action_all_caps() {
    assert_eq!(format_action_name("UTF8"), "u-t-f8");
}

#[test]
fn test_format_action_consecutive_caps() {
    assert_eq!(format_action_name("OpenURL"), "open-u-r-l");
}

#[test]
fn test_format_action_deeply_nested() {
    assert_eq!(format_action_name("a::b::c::DoThing"), "do-thing");
}

#[test]
fn test_file_name_from_path() {
    assert_eq!(file_name_from_path("/tmp/hello.rs"), "hello.rs");
}

#[test]
fn test_file_name_from_path_no_extension() {
    assert_eq!(file_name_from_path("/tmp/Makefile"), "Makefile");
}

#[test]
fn test_file_name_from_path_empty() {
    assert_eq!(file_name_from_path("/"), "untitled");
}

#[test]
fn test_untitled_name_format() {
    let name = untitled_name().unwrap();
    assert!(name.starts_with("untitled-"), "got: {name}");
    // untitled-YYYYMMDD-HHMMSS
    assert_eq!(name.len(), "untitled-20260613-120000".len());
    assert_eq!(name.as_bytes()[17], b'-');
}

#[test]
fn test_ipc_parse_open_files() {
    let msg = parse_ipc_message("/tmp/a.rs\n/tmp/b.rs").unwrap();
    match msg {
        IpcMessage::OpenFiles(paths) => {
            assert_eq!(paths.len(), 2);
            assert_eq!(PathBuf::from(&paths[0]), PathBuf::from("/tmp/a.rs"));
        }
        _ => panic!("expected OpenFiles"),
    }
}

#[test]
fn test_ipc_parse_execute_command() {
    let msg = parse_ipc_message("CMD:lite_editor::SaveFile").unwrap();
    match msg {
        IpcMessage::ExecuteCommand(cmd) => {
            assert_eq!(cmd, "lite_editor::SaveFile");
        }
        _ => panic!("expected ExecuteCommand"),
    }
}

#[test]
fn test_ipc_parse_set_text() {
    let msg = parse_ipc_message("SET:hello world").unwrap();
    match msg {
        IpcMessage::SetText(content) => assert_eq!(content, "hello world"),
        _ => panic!("expected SetText"),
    }
}

#[test]
fn test_ipc_parse_save_as() {
    let msg = parse_ipc_message("SAVEAS:/tmp/out.rs").unwrap();
    match msg {
        IpcMessage::SaveAs(path) => {
            assert_eq!(PathBuf::from(&path), PathBuf::from("/tmp/out.rs"));
        }
        _ => panic!("expected SaveAs"),
    }
}

#[test]
fn test_ipc_parse_switch_tab() {
    let msg = parse_ipc_message("SWITCHTAB:3").unwrap();
    match msg {
        IpcMessage::SwitchTab(idx) => assert_eq!(idx, 3),
        _ => panic!("expected SwitchTab"),
    }
}

#[test]
fn test_ipc_parse_empty() {
    assert!(parse_ipc_message("").is_none());
}

#[test]
fn test_ipc_format_command_regular() {
    assert_eq!(format_command_message("lite_editor::SaveFile"), "CMD:lite_editor::SaveFile");
}

#[test]
fn test_ipc_format_command_set_text() {
    assert_eq!(format_command_message("set-text:hello"), "SET:hello");
}

#[test]
fn test_ipc_format_command_save_as() {
    assert_eq!(format_command_message("save-as:/tmp/out.rs"), "SAVEAS:/tmp/out.rs");
}

#[test]
fn test_ipc_format_command_switch_tab() {
    assert_eq!(format_command_message("switch-tab:2"), "SWITCHTAB:2");
}

#[test]
fn test_diff_identical() {
    let state = compute_diff("hello\nworld\n", "hello\nworld\n", "a".into(), "b".into());
    assert_eq!(state.lines.len(), 2);
}

#[test]
fn test_diff_empty() {
    let state = compute_diff("", "", "a".into(), "b".into());
    assert!(state.lines.is_empty());
}

#[test]
fn test_diff_added_line() {
    let state = compute_diff("a\n", "a\nb\n", "left".into(), "right".into());
    assert_eq!(state.lines.len(), 2);
    assert_eq!(state.lines[1].1.kind, DiffLineKind::Added);
}

#[test]
fn test_diff_removed_line() {
    let state = compute_diff("a\nb\n", "a\n", "left".into(), "right".into());
    assert_eq!(state.lines.len(), 2);
    assert_eq!(state.lines[1].0.kind, DiffLineKind::Removed);
}

#[test]
fn test_diff_all_changed() {
    let state = compute_diff("old\n", "new\n", "l".into(), "r".into());
    assert_eq!(state.lines.len(), 1);
    assert_eq!(state.lines[0].0.kind, DiffLineKind::Removed);
    assert_eq!(state.lines[0].1.kind, DiffLineKind::Added);
}
