use wzed::cli::{parse_cli_args, qualified_command};
use wzed::commands::{
    clamp_selection, collect_commands, grammar_display_name, grammar_name, menu_matches,
    submenu_action, submenu_items, CommandCenter, CommandChoice, CommandEntry, CommandSubmenu,
    SubmenuAction, GRAMMAR_COUNT,
};
use wzed::file_watcher::FileWatcher;
use wzed::sidebar::{sidebar_rows, tab_icon, SidebarRow};
use wzed::diff::{compute_diff, pair_changes, DiffLineKind, CHANGE_DELETE, CHANGE_EQUAL, CHANGE_INSERT};
use wzed::ipc::{format_open_files_message, parse_index, parse_ipc_message, IpcMessage};
use wzed::names::{command_listing, friendly_name_to_qualified, untitled_name_at};
use wzed::search::{find_literal_matches, find_matches, SearchState};
use wzed::session::{restore_action, session_of, session_tab, RestoreAction, SessionTab};
use wzed::tabs::{following_group, icon_path_for_extension, Tab, TabList};
use wzed::text::{same_text, sort_by_text_key, text_less};

fn strings(items: &[&str]) -> Vec<String> {
    items.iter().map(|s| s.to_string()).collect()
}

fn tab(id: u32, path: Option<&str>, pinned: bool) -> Tab<u32> {
    Tab {
        editor: id,
        path: path.map(|p| p.to_string()),
        title: format!("t{id}"),
        group: None,
        encoding: "UTF-8".to_string(),
        pinned,
    }
}

fn editors(list: &TabList<u32>) -> Vec<u32> {
    list.tabs.iter().map(|t| t.editor).collect()
}

fn action_names() -> Vec<String> {
    strings(&["editor::Copy", "lite_editor::SaveFile", "other::SaveFile", "lite_editor::NewFile"])
}

// ---- IPC ----

#[test]
fn open_files_message_round_trip() {
    let paths = strings(&["/tmp/a.rs", "/tmp/b c.rs"]);
    let message = format_open_files_message(&paths);
    assert_eq!(message, "/tmp/a.rs\n/tmp/b c.rs");
    match parse_ipc_message(&message) {
        Some(IpcMessage::OpenFiles(back)) => assert_eq!(back, paths),
        _ => panic!("expected OpenFiles"),
    }
}

#[test]
fn parse_skips_empty_lines() {
    match parse_ipc_message("\n/a\n\n/b\n") {
        Some(IpcMessage::OpenFiles(paths)) => assert_eq!(paths, strings(&["/a", "/b"])),
        _ => panic!("expected OpenFiles"),
    }
    assert!(parse_ipc_message("\n\n").is_none());
}

#[test]
fn switch_tab_with_bad_index_is_a_file_name() {
    match parse_ipc_message("SWITCHTAB:x") {
        Some(IpcMessage::OpenFiles(paths)) => assert_eq!(paths, strings(&["SWITCHTAB:x"])),
        _ => panic!("expected OpenFiles"),
    }
}

#[test]
fn parse_index_follows_usize_parsing() {
    assert_eq!(parse_index("42"), Some(42));
    assert_eq!(parse_index("+3"), Some(3));
    assert_eq!(parse_index("007"), Some(7));
    assert_eq!(parse_index(""), None);
    assert_eq!(parse_index("+"), None);
    assert_eq!(parse_index("-1"), None);
    assert_eq!(parse_index("12a"), None);
    assert_eq!(parse_index("99999999999999999999999"), None);
}

// ---- command line ----

#[test]
fn cli_reads_files_command_and_flags() {
    let args = strings(&["wzed", "a.rs", "-c", "new-file", "--list-commands", "--bogus", "b.rs"]);
    let parsed = parse_cli_args(&args);
    assert_eq!(parsed.files, strings(&["a.rs", "b.rs"]));
    assert_eq!(parsed.command, Some("new-file".to_string()));
    assert!(parsed.list_commands);
    assert_eq!(parsed.unknown, strings(&["--bogus"]));
}

#[test]
fn cli_command_without_value_clears_it() {
    let parsed = parse_cli_args(&strings(&["wzed", "--command", "x", "-c"]));
    assert_eq!(parsed.command, None);
    assert!(parsed.files.is_empty());
    let empty = parse_cli_args(&Vec::new());
    assert!(empty.files.is_empty() && empty.command.is_none() && !empty.list_commands);
}

#[test]
fn cli_command_is_qualified_unless_it_carries_an_argument() {
    let names = action_names();
    assert_eq!(qualified_command("set-text:hi", &names), "set-text:hi");
    assert_eq!(qualified_command("switch-tab:1", &names), "switch-tab:1");
    assert_eq!(qualified_command("save-file", &names), "lite_editor::SaveFile");
}

#[test]
fn friendly_names_resolve_to_actions() {
    let names = action_names();
    assert_eq!(friendly_name_to_qualified("save-file", &names), "lite_editor::SaveFile");
    assert_eq!(friendly_name_to_qualified("COPY", &names), "editor::Copy");
    assert_eq!(friendly_name_to_qualified("a::b", &names), "a::b");
    assert_eq!(friendly_name_to_qualified("no-such", &names), "lite_editor::no-such");
}

#[test]
fn command_listing_is_sorted_and_limited_to_the_editor() {
    let listing = command_listing(&action_names());
    assert_eq!(
        listing,
        vec![
            ("new-file".to_string(), "lite_editor::NewFile".to_string()),
            ("save-file".to_string(), "lite_editor::SaveFile".to_string()),
        ]
    );
}

#[test]
fn untitled_name_uses_the_stamp() {
    assert_eq!(untitled_name_at("20260613-120000"), "untitled-20260613-120000");
}

// ---- session ----

#[test]
fn session_keeps_text_of_unsaved_or_changed_tabs() {
    let untitled = session_tab(None, false, "draft".to_string(), true, "UTF-8".to_string());
    assert_eq!(untitled.unsaved_content, Some("draft".to_string()));
    assert!(untitled.pinned);
    assert_eq!(untitled.encoding, Some("UTF-8".to_string()));
    let clean = session_tab(Some("/f.rs".to_string()), false, "body".to_string(), false, "GBK".to_string());
    assert_eq!(clean.unsaved_content, None);
    assert_eq!(clean.encoding, Some("GBK".to_string()));
    let dirty = session_tab(Some("/f.rs".to_string()), true, "body".to_string(), false, "UTF-8".to_string());
    assert_eq!(dirty.unsaved_content, Some("body".to_string()));
}

#[test]
fn session_of_lists_every_tab() {
    let mut second = tab(2, None, false);
    second.encoding = "Shift_JIS".to_string();
    let list = TabList { tabs: vec![tab(1, Some("/a"), true), second], active: 1 };
    let state = session_of(&list, &vec![false, false], &strings(&["A", "B"]), false);
    assert!(!state.show_toolbar);
    assert_eq!(state.active, 1);
    assert_eq!(state.tabs.len(), 2);
    assert_eq!(state.tabs[0].path, Some("/a".to_string()));
    assert_eq!(state.tabs[0].unsaved_content, None);
    assert!(state.tabs[0].pinned);
    assert_eq!(state.tabs[0].encoding, Some("UTF-8".to_string()));
    assert_eq!(state.tabs[1].unsaved_content, Some("B".to_string()));
    assert_eq!(state.tabs[1].encoding, Some("Shift_JIS".to_string()));
}

#[test]
fn restore_actions_follow_the_saved_entry() {
    let saved = |path: Option<&str>, text: Option<&str>, encoding: Option<&str>| SessionTab {
        path: path.map(|p| p.to_string()),
        unsaved_content: text.map(|t| t.to_string()),
        pinned: false,
        encoding: encoding.map(|e| e.to_string()),
    };
    match restore_action(saved(Some("/x/f.rs"), Some("t"), Some("latin1")), true) {
        RestoreAction::Open { path, text, encoding } => {
            assert_eq!(path, "/x/f.rs");
            assert_eq!(text, Some("t".to_string()));
            assert_eq!(encoding, Some("windows-1252".to_string()));
        }
        _ => panic!("expected Open"),
    }
    match restore_action(saved(Some("/x/f.rs"), None, Some("no-such")), true) {
        RestoreAction::Open { encoding, .. } => assert_eq!(encoding, None),
        _ => panic!("expected Open"),
    }
    match restore_action(saved(Some("/x/f.rs"), Some("t"), None), false) {
        RestoreAction::Recreate { path, title, text, encoding } => {
            assert_eq!(path, "/x/f.rs");
            assert_eq!(title, "f.rs");
            assert_eq!(text, "t");
            assert_eq!(encoding, "UTF-8");
        }
        _ => panic!("expected Recreate"),
    }
    match restore_action(saved(Some("/x/f.rs"), Some("t"), Some("GBK")), false) {
        RestoreAction::Recreate { encoding, .. } => assert_eq!(encoding, "GBK"),
        _ => panic!("expected Recreate"),
    }
    assert!(matches!(restore_action(saved(Some("/x/f.rs"), None, None), false), RestoreAction::Nothing));
    match restore_action(saved(None, None, None), false) {
        RestoreAction::Untitled { text } => assert_eq!(text, ""),
        _ => panic!("expected Untitled"),
    }
}

// ---- tabs ----

#[test]
fn sorting_puts_pinned_tabs_first_and_follows_the_active_tab() {
    let mut list = TabList { tabs: vec![tab(1, None, true), tab(2, None, false), tab(3, None, true)], active: 1 };
    list.sort_tabs_pinned_first();
    assert_eq!(editors(&list), vec![1, 3, 2]);
    assert_eq!(list.active, 2);
}

#[test]
fn closing_tabs() {
    let mut list = TabList { tabs: vec![tab(1, None, false), tab(2, None, false), tab(3, None, false)], active: 2 };
    assert!(list.close_tab_at(1));
    assert_eq!(editors(&list), vec![1, 3]);
    assert_eq!(list.active, 1);
    let mut pinned = TabList { tabs: vec![tab(1, None, true), tab(2, None, false)], active: 0 };
    assert!(!pinned.close_tab_at(0));
    assert!(!pinned.close_tab_at(5));
    let mut single = TabList { tabs: vec![tab(1, None, false)], active: 0 };
    assert!(!single.close_tab_at(0));
    assert_eq!(single.tabs.len(), 1);
}

#[test]
fn dragging_tabs_stays_within_the_pinned_block() {
    let mut list = TabList { tabs: vec![tab(1, None, false), tab(2, None, false), tab(3, None, false)], active: 0 };
    assert!(list.move_tab(0, 2));
    assert_eq!(editors(&list), vec![2, 3, 1]);
    assert_eq!(list.active, 2);
    let mut mixed = TabList { tabs: vec![tab(1, None, true), tab(2, None, false)], active: 0 };
    assert_eq!(mixed.leading_pinned_count(), 1);
    assert!(!mixed.move_tab(0, 1));
    assert_eq!(editors(&mixed), vec![1, 2]);
}

#[test]
fn pinning_moves_the_tab_into_the_pinned_block() {
    let mut list = TabList { tabs: vec![tab(1, None, false), tab(2, None, false), tab(3, None, false)], active: 2 };
    assert!(list.toggle_pin(2));
    assert_eq!(editors(&list), vec![3, 1, 2]);
    assert_eq!(list.active, 0);
    assert!(list.unpin(0));
    assert!(!list.tabs[0].pinned);
    assert!(!list.toggle_pin(9));
}

#[test]
fn finding_and_switching_tabs() {
    let mut list = TabList { tabs: vec![tab(1, Some("/a"), false), tab(2, Some("/b"), false)], active: 0 };
    assert_eq!(list.position_of_path("/b"), Some(1));
    assert_eq!(list.position_of_path("/c"), None);
    assert!(list.switch_to(1));
    assert_eq!(list.active, 1);
    assert!(!list.switch_to(2));
    assert_eq!(list.active, 1);
    list.set_active_encoding("GBK".to_string());
    assert_eq!(list.tabs[1].encoding, "GBK");
    list.push_active(tab(3, None, false));
    assert_eq!(list.active, 2);
    assert_eq!(list.len(), 3);
}

#[test]
fn groups_cycle_through_a_b_c() {
    assert_eq!(following_group(&None), Some("A".to_string()));
    assert_eq!(following_group(&Some("A".to_string())), Some("B".to_string()));
    assert_eq!(following_group(&Some("B".to_string())), Some("C".to_string()));
    assert_eq!(following_group(&Some("C".to_string())), None);
    let mut list = TabList { tabs: vec![tab(1, None, false)], active: 0 };
    list.move_active_to_next_group();
    assert_eq!(list.tabs[0].group, Some("A".to_string()));
}

#[test]
fn restoring_pins_and_activates_the_last_tab() {
    let mut list: TabList<u32> = TabList::new();
    list.tabs.push(tab(1, None, false));
    list.restore_entry_done(false, false);
    list.tabs.push(tab(2, None, false));
    list.restore_entry_done(true, true);
    assert!(list.tabs[1].pinned);
    assert_eq!(list.active, 1);
    list.finish_restore(tab(9, None, false));
    assert_eq!(editors(&list), vec![2, 1]);
    assert_eq!(list.active, 0);
}

#[test]
fn tab_icons_by_extension() {
    assert_eq!(icon_path_for_extension(Some("rs")), "icons/file_rust.svg");
    assert_eq!(icon_path_for_extension(Some("mdx")), "icons/file_markdown.svg");
    assert_eq!(icon_path_for_extension(Some("yml")), "icons/file_generic.svg");
    assert_eq!(icon_path_for_extension(Some("patch")), "icons/file_diff.svg");
    assert_eq!(icon_path_for_extension(Some("zzz")), "icons/file.svg");
    assert_eq!(icon_path_for_extension(None), "icons/file.svg");
}

// ---- search ----

#[test]
fn literal_matches_do_not_overlap() {
    assert_eq!(find_literal_matches("aaaa", "aa"), vec![(0, 2), (2, 4)]);
    assert_eq!(find_literal_matches("héllo héllo", "é"), vec![(1, 3), (8, 10)]);
    assert!(find_literal_matches("abc", "").is_empty());
    assert!(find_literal_matches("ab", "abc").is_empty());
}

#[test]
fn regex_matches_come_from_the_regex_crate() {
    assert_eq!(find_matches(true, "a+", "baaab a"), vec![(1, 4), (6, 7)]);
    assert!(find_matches(true, "(", "abc").is_empty());
    assert_eq!(find_matches(false, "a+", "a+a"), vec![(0, 2)]);
}

#[test]
fn navigating_matches_wraps_around() {
    let mut state = SearchState::new();
    state.run_search("x.x.x", "x");
    assert_eq!(state.matches, vec![(0, 1), (2, 3), (4, 5)]);
    assert_eq!(state.current_match, Some(0));
    assert_eq!(state.navigate_match(1), Some((2, 3)));
    assert_eq!(state.navigate_match(-1), Some((0, 1)));
    assert_eq!(state.navigate_match(-1), Some((4, 5)));
    assert_eq!(state.navigate_match(1), Some((0, 1)));
    assert_eq!(state.replace_target(), Some((0, 1)));
    assert_eq!(state.replace_all(), vec![(0, 1), (2, 3), (4, 5)]);
    assert_eq!(state.current_match, None);
    assert_eq!(state.navigate_match(1), None);
}

#[test]
fn search_bar_toggles() {
    let mut state = SearchState::new();
    assert!(state.toggle_find());
    state.run_search("abc", "b");
    assert!(!state.toggle_find());
    assert!(state.matches.is_empty());
    state.toggle_replace();
    assert!(state.visible && state.show_replace);
    state.toggle_regex("aXbX", "X");
    assert!(state.use_regex);
    assert_eq!(state.matches, vec![(1, 2), (3, 4)]);
    state.close();
    assert!(!state.visible);
}

#[test]
fn multi_tab_search_lists_tabs_with_matches() {
    let mut state = SearchState::new();
    let tabs = vec![
        ("hello world\nfoo bar\nfoo".to_string(), "one".to_string()),
        ("nothing here".to_string(), "two".to_string()),
    ];
    state.toggle_search_all_tabs(&tabs, "foo");
    assert!(state.visible && state.search_all_tabs);
    assert_eq!(state.tab_results.len(), 1);
    let r = &state.tab_results[0];
    assert_eq!((r.tab_index, r.title.as_str(), r.match_count, r.first_line.as_str()), (0, "one", 2, "foo bar"));
    state.toggle_search_all_tabs(&tabs, "foo");
    assert!(state.tab_results.is_empty());
}

#[test]
fn multi_tab_search_reports_a_bad_regex() {
    let mut state = SearchState::new();
    state.toggle_regex("", "");
    state.run_multi_tab_search(&vec![("a(".to_string(), "t".to_string())], "(");
    let error = state.last_error.clone().unwrap();
    assert!(error.starts_with("Invalid regex: "), "got: {error}");
    assert!(state.tab_results.is_empty());
}

// ---- diff ----

#[test]
fn diff_numbers_both_sides() {
    let state = compute_diff("a\nb\nc\n", "a\nx\nc\nd\n", "left".to_string(), "right".to_string());
    let rows: Vec<(Option<usize>, String, Option<usize>, String)> = state
        .lines
        .iter()
        .map(|(l, r)| (l.line_number, l.content.clone(), r.line_number, r.content.clone()))
        .collect();
    assert_eq!(
        rows,
        vec![
            (Some(1), "a\n".to_string(), Some(1), "a\n".to_string()),
            (Some(2), "b\n".to_string(), Some(2), "x\n".to_string()),
            (Some(3), "c\n".to_string(), Some(3), "c\n".to_string()),
            (None, String::new(), Some(4), "d\n".to_string()),
        ]
    );
    assert_eq!(state.lines[3].1.kind, DiffLineKind::Added);
    assert_eq!(state.left_title, "left");
    assert_eq!(state.right_title, "right");
}

#[test]
fn pairing_a_longer_delete_run() {
    let changes = vec![
        (CHANGE_DELETE, "p".to_string()),
        (CHANGE_DELETE, "q".to_string()),
        (CHANGE_INSERT, "r".to_string()),
        (CHANGE_EQUAL, "s".to_string()),
    ];
    let rows = pair_changes(&changes);
    assert_eq!(rows.len(), 3);
    assert_eq!((rows[0].0.line_number, rows[0].1.line_number), (Some(1), Some(1)));
    assert_eq!(rows[1].0.content, "q");
    assert_eq!(rows[1].1.line_number, None);
    assert_eq!(rows[1].1.kind, DiffLineKind::Normal);
    assert_eq!((rows[2].0.line_number, rows[2].1.line_number), (Some(3), Some(2)));
}

// ---- command center ----

#[test]
fn command_center_lines_are_sorted() {
    let commands: Vec<CommandEntry> = collect_commands(&action_names());
    let shown: Vec<&str> = commands.iter().map(|c| c.display_name.as_str()).collect();
    assert_eq!(
        shown,
        vec!["change-file-type", "new-file", "recent-files", "save-file", "switch-buffer", "switch-encoding"]
    );
    assert_eq!(commands[3].action_name, "lite_editor::SaveFile");
    assert_eq!(commands[0].submenu_kind, Some(CommandSubmenu::ChangeFileType));
}

#[test]
fn menu_filters_by_lower_case_text() {
    let items = strings(&["Save File", "open", "Ünïcode SAVE"]);
    let shown = menu_matches(&items, "SAVE");
    assert_eq!(shown, vec![(0, "Save File".to_string()), (2, "Ünïcode SAVE".to_string())]);
    assert_eq!(menu_matches(&items, "").len(), 3);
    assert_eq!(clamp_selection(5, 3), 2);
    assert_eq!(clamp_selection(1, 3), 1);
    assert_eq!(clamp_selection(4, 0), 0);
}

#[test]
fn command_center_state_changes() {
    let mut center = CommandCenter::new();
    center.toggle();
    assert!(center.visible);
    center.select_next();
    center.select_next();
    center.select_previous();
    assert_eq!(center.selected, 1);
    let picker = CommandEntry {
        action_name: String::new(),
        display_name: "recent-files".to_string(),
        submenu_kind: Some(CommandSubmenu::RecentFiles),
    };
    assert!(matches!(center.execute_command(&picker), CommandChoice::OpenPicker(CommandSubmenu::RecentFiles)));
    assert_eq!(center.selected, 0);
    center.escape();
    assert!(center.visible && center.submenu.is_none());
    let action = CommandEntry {
        action_name: "lite_editor::SaveFile".to_string(),
        display_name: "save-file".to_string(),
        submenu_kind: None,
    };
    match center.execute_command(&action) {
        CommandChoice::Dispatch(name) => assert_eq!(name, "lite_editor::SaveFile"),
        _ => panic!("expected Dispatch"),
    }
    assert!(!center.visible);
    let shown = vec![(4, "x".to_string())];
    assert_eq!(center.chosen_command(&shown), Some(4));
    center.select_next();
    assert_eq!(center.chosen_command(&shown), None);
    assert_eq!(center.chosen_item(&shown), 0);
}

#[test]
fn submenu_choices() {
    let recent = strings(&["/r1", "/r2"]);
    assert!(matches!(submenu_action(CommandSubmenu::SwitchBuffer, 1, 3, true, false, false, &recent), SubmenuAction::SwitchTo(1)));
    assert!(matches!(submenu_action(CommandSubmenu::SwitchBuffer, 3, 3, true, false, false, &recent), SubmenuAction::Nothing));
    match submenu_action(CommandSubmenu::ChangeEncoding, 0, 1, false, false, false, &recent) {
        SubmenuAction::Notify(m) => assert_eq!(m, "No file to reload"),
        _ => panic!("expected Notify"),
    }
    match submenu_action(CommandSubmenu::ChangeEncoding, 0, 1, true, true, false, &recent) {
        SubmenuAction::Notify(m) => assert_eq!(m, "Save changes before switching encoding"),
        _ => panic!("expected Notify"),
    }
    match submenu_action(CommandSubmenu::ChangeEncoding, 3, 1, true, true, true, &recent) {
        SubmenuAction::ReloadWith(e) => assert_eq!(e, "GBK"),
        _ => panic!("expected a confirmed ReloadWith"),
    }
    match submenu_action(CommandSubmenu::ChangeEncoding, 9, 1, true, false, false, &recent) {
        SubmenuAction::ReloadWith(e) => assert_eq!(e, "windows-1252"),
        _ => panic!("expected ReloadWith"),
    }
    match submenu_action(CommandSubmenu::ChangeFileType, 11, 1, true, false, false, &recent) {
        SubmenuAction::SetLanguage(g) => assert_eq!(g, "rust"),
        _ => panic!("expected SetLanguage"),
    }
    match submenu_action(CommandSubmenu::RecentFiles, 1, 1, true, false, false, &recent) {
        SubmenuAction::Open(p) => assert_eq!(p, "/r2"),
        _ => panic!("expected Open"),
    }
    assert!(matches!(submenu_action(CommandSubmenu::RecentFiles, 2, 1, true, false, false, &recent), SubmenuAction::Nothing));
}

#[test]
fn submenu_lists() {
    let titles = strings(&["a", "b"]);
    let many: Vec<String> = (0..25).map(|i| format!("/f{i}")).collect();
    assert_eq!(submenu_items(CommandSubmenu::SwitchBuffer, &titles, &many), titles);
    let encodings = submenu_items(CommandSubmenu::ChangeEncoding, &titles, &many);
    assert_eq!(encodings.len(), 15);
    assert_eq!(encodings[1], "UTF-16LE");
    let types = submenu_items(CommandSubmenu::ChangeFileType, &titles, &many);
    assert_eq!(types.len(), GRAMMAR_COUNT);
    assert_eq!(types[2], "C++");
    let recent = submenu_items(CommandSubmenu::RecentFiles, &titles, &many);
    assert_eq!(recent.len(), 20);
    assert_eq!(recent[19], "/f19");
    assert_eq!(grammar_name(13), Some("typescript"));
    assert_eq!(grammar_display_name(13), Some("TypeScript"));
    assert_eq!(grammar_name(GRAMMAR_COUNT), None);
}

// ---- text ----

#[test]
fn text_helpers() {
    assert!(same_text("abc", "abc"));
    assert!(!same_text("abc", "abd"));
    assert!(text_less("Zebra", "apple"));
    assert!(!text_less("b", "a"));
    assert!(text_less("ab", "abc"));
    let sorted = sort_by_text_key(vec![("b".to_string(), 1), ("a".to_string(), 2), ("b".to_string(), 3)]);
    assert_eq!(sorted, vec![("a".to_string(), 2), ("b".to_string(), 1), ("b".to_string(), 3)]);
}

// ---- file watcher ----

#[test]
fn own_saves_are_not_outside_changes() {
    let mut watcher = FileWatcher::new();
    assert!(watcher.is_external_change("/f", Some((10, 5))));
    assert!(!watcher.is_external_change("/f", None));
    watcher.note_current_mtime("/f", Some((10, 5)));
    assert!(!watcher.is_external_change("/f", Some((10, 5))));
    watcher.note_current_mtime("/f", Some((11, 0)));
    assert_eq!(watcher.known_mtime("/f"), Some((10, 5)));
    assert!(watcher.is_external_change("/f", Some((10, 6))));
    watcher.update_mtime("/f", Some((12, 0)));
    assert!(!watcher.is_external_change("/f", Some((12, 0))));
    watcher.mark_seen("/g", Some((1, 1)));
    assert_eq!(watcher.known_mtime("/g"), Some((1, 1)));
    assert_eq!(watcher.known_mtime("/f"), Some((12, 0)));
    watcher.update_mtime("/g", None);
    assert_eq!(watcher.known_mtime("/g"), Some((1, 1)));
    assert_eq!(watcher.known_mtime("/h"), None);
}

// ---- sidebar ----

fn grouped(id: u32, pinned: bool, group: Option<&str>) -> Tab<u32> {
    let mut t = tab(id, None, pinned);
    t.group = group.map(|g| g.to_string());
    t
}

fn describe(rows: &[SidebarRow]) -> Vec<String> {
    rows.iter()
        .map(|r| match r {
            SidebarRow::Divider => "-".to_string(),
            SidebarRow::GroupHeader(g) => format!("[{g}]"),
            SidebarRow::Tab(i) => i.to_string(),
        })
        .collect()
}

#[test]
fn sidebar_has_a_divider_and_group_headers() {
    let list = TabList {
        tabs: vec![
            grouped(1, true, None),
            grouped(2, false, Some("A")),
            grouped(3, false, Some("A")),
            grouped(4, false, None),
            grouped(5, false, Some("A")),
            grouped(6, false, Some("B")),
        ],
        active: 4,
    };
    let (rows, active_row) = sidebar_rows(&list);
    assert_eq!(describe(&rows), vec!["0", "-", "[A]", "1", "2", "3", "[A]", "4", "[B]", "5"]);
    assert_eq!(active_row, 7);
    let past_end = TabList { tabs: vec![grouped(1, false, None)], active: 3 };
    assert_eq!(sidebar_rows(&past_end).1, 0);
}

#[test]
fn tab_icons_by_lower_cased_extension() {
    assert_eq!(tab_icon(&Some("/src/MAIN.RS".to_string())), "icons/file_rust.svg");
    assert_eq!(tab_icon(&Some("/notes/todo.Txt".to_string())), "icons/file_text_outlined.svg");
    assert_eq!(tab_icon(&Some("/Makefile".to_string())), "icons/file.svg");
    assert_eq!(tab_icon(&None), "icons/file.svg");
}

#[test]
fn find_bar_counter() {
    let mut state = SearchState::new();
    assert_eq!(state.match_counter(), (0, 0));
    state.run_search("abab", "b");
    assert_eq!(state.match_counter(), (1, 2));
    state.navigate_match(1);
    assert_eq!(state.match_counter(), (2, 2));
}

#[test]
fn escape_closes_the_diff_first() {
    let mut state = SearchState::new();
    state.toggle_find();
    state.run_search("aa", "a");
    assert!(state.dismiss(true));
    assert!(state.visible);
    assert_eq!(state.matches.len(), 2);
    assert!(!state.dismiss(false));
    assert!(!state.visible);
    assert!(state.matches.is_empty());
}

// ---- paths, status, pickers, footer ----

#[test]
fn paths_are_compared_by_components() {
    assert!(wzed::paths::same_path("/a/b", "/a/b/"));
    assert!(wzed::paths::same_path("/a//b", "/a/./b"));
    assert!(!wzed::paths::same_path("/a/b", "/a/c"));
    assert!(!wzed::paths::same_path("/a/../b", "/b"));
    let list = TabList { tabs: vec![tab(1, Some("/x/a.rs"), false)], active: 0 };
    assert_eq!(list.position_of_path("/x//a.rs"), Some(0));
    let mut watcher = FileWatcher::new();
    watcher.update_mtime("/x/a.rs", Some((3, 0)));
    assert!(!watcher.is_external_change("/x/./a.rs", Some((3, 0))));
}

#[test]
fn status_bar_text_of_the_active_tab() {
    let mut second = tab(2, None, false);
    second.encoding = "GBK".to_string();
    let list = TabList { tabs: vec![tab(1, None, false), second, tab(3, None, false)], active: 1 };
    let (title, encoding, position) = wzed::sidebar::status_bar_text(&list);
    assert_eq!(title, "t2");
    assert_eq!(encoding, "GBK");
    assert_eq!(position, "Tab 2 of 3");
    let many: Vec<Tab<u32>> = (0..12).map(|i| tab(i, None, false)).collect();
    let big = TabList { tabs: many, active: 10 };
    assert_eq!(wzed::sidebar::status_bar_text(&big).2, "Tab 11 of 12");
}

#[test]
fn current_encoding_is_marked_in_the_picker() {
    let current = Some("GBK".to_string());
    assert_eq!(wzed::commands::picker_line_text(Some(CommandSubmenu::ChangeEncoding), &current, "GBK"), "● GBK");
    let latin = Some("windows-1252".to_string());
    assert_eq!(
        wzed::commands::picker_line_text(Some(CommandSubmenu::ChangeEncoding), &latin, "Windows-1252"),
        "● Windows-1252"
    );
    assert_eq!(wzed::commands::picker_line_text(Some(CommandSubmenu::ChangeEncoding), &latin, "ISO-8859-1"), "ISO-8859-1");
    assert_eq!(wzed::commands::picker_line_text(Some(CommandSubmenu::ChangeEncoding), &current, "Big5"), "Big5");
    assert_eq!(wzed::commands::picker_line_text(Some(CommandSubmenu::SwitchBuffer), &current, "GBK"), "GBK");
    assert_eq!(wzed::commands::picker_line_text(None, &None, "x"), "x");
}

#[test]
fn diff_footer_counts() {
    let state = compute_diff("a\nb\nc\n", "a\nx\nc\nd\n", "l".to_string(), "r".to_string());
    assert_eq!(wzed::diff::change_counts(&state.lines), (2, 1));
}

#[test]
fn diff_columns_give_back_both_texts() {
    let state = compute_diff("one\ntwo", "one\nthree\n", "l".to_string(), "r".to_string());
    let left: String = state.lines.iter().filter(|(l, _)| l.line_number.is_some()).map(|(l, _)| l.content.clone()).collect();
    let right: String = state.lines.iter().filter(|(_, r)| r.line_number.is_some()).map(|(_, r)| r.content.clone()).collect();
    assert_eq!(left, "one\ntwo\n");
    assert_eq!(right, "one\nthree\n");
}

#[test]
fn command_center_has_one_line_per_action_and_picker() {
    let commands = collect_commands(&action_names());
    assert_eq!(commands.len(), 2 + 4);
}

#[test]
fn restoring_nothing_falls_back_to_one_tab() {
    let mut list: TabList<u32> = TabList::new();
    list.finish_restore(tab(7, None, false));
    assert_eq!(editors(&list), vec![7]);
    assert_eq!(list.active, 0);
}

#[test]
fn drawing_clamps_the_active_tab() {
    let mut list = TabList { tabs: vec![tab(1, None, false), tab(2, None, false)], active: 5 };
    let (_, _, position) = wzed::sidebar::status_bar_text(&list);
    assert_eq!(position, "Tab 2 of 2");
    list.clamp_active();
    assert_eq!(list.active, 1);
    assert_eq!(wzed::sidebar::scroll_target(3, 1, 0), Some(3));
    assert_eq!(wzed::sidebar::scroll_target(3, 1, 1), None);
}

#[test]
fn find_bar_counter_past_the_end() {
    let mut state = SearchState::new();
    state.current_match = Some(4);
    assert_eq!(state.match_counter(), (5, 0));
}

#[test]
fn diff_view_rows_and_footer() {
    let state = compute_diff("a  \nb\n", "a  \nc\nd\n", "l".to_string(), "r".to_string());
    let texts = wzed::diff::diff_row_texts(&state.lines);
    assert_eq!(texts[0], ("1".to_string(), "a".to_string(), "1".to_string(), "a".to_string()));
    assert_eq!(texts[2], (String::new(), String::new(), "3".to_string(), "d".to_string()));
    let footer = wzed::diff::diff_footer(&state.lines);
    assert_eq!(footer, ("3 lines".to_string(), "+2".to_string(), "-1".to_string()));
}

#[test]
fn recent_menu_lists_fifteen_with_name_and_directory() {
    let many: Vec<String> = (0..20).map(|i| format!("/home/u/f{i}.rs")).collect();
    let entries = wzed::recent_files::recent_menu_entries(&many);
    assert_eq!(entries.len(), 15);
    assert_eq!(entries[3], ("/home/u/f3.rs".to_string(), "f3.rs".to_string(), "/home/u".to_string()));
    let root = wzed::recent_files::recent_menu_entries(&vec!["/".to_string()]);
    assert_eq!(root[0], ("/".to_string(), "untitled".to_string(), String::new()));
}
