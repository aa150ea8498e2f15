use windows_side_dock::config::{
    always_on_top_value, dock_side_value, format_registered_items, parse_always_on_top,
    parse_dock_side, parse_process_tool, parse_registered_items, popup_opens_left, parse_popup_direction, popup_direction_value,
    legacy_config_files, migrates, migration_plan,
    process_explorer_path_value, process_tool_value, DockSide, PopupDirection, ProcessTool,
};

fn items(pairs: &[(&str, &str)]) -> Vec<(String, String)> {
    pairs
        .iter()
        .map(|(a, b)| (a.to_string(), b.to_string()))
        .collect()
}

#[test]
fn parses_process_tool_with_safe_default() {
    assert_eq!(
        parse_process_tool("process_explorer\n"),
        ProcessTool::ProcessExplorer
    );
    assert_eq!(parse_process_tool("task_manager"), ProcessTool::TaskManager);
    assert_eq!(parse_process_tool("unknown"), ProcessTool::TaskManager);
}

#[test]
fn stored_values_round_trip() {
    for tool in [ProcessTool::TaskManager, ProcessTool::ProcessExplorer] {
        assert_eq!(parse_process_tool(process_tool_value(tool)), tool);
    }
}

#[test]
fn parses_registered_items_and_skips_malformed_lines() {
    let items =
        parse_registered_items("Code|C:\\Apps\\Code.exe\r\nbroken line\nURL|https://a/b|c\n");
    assert_eq!(
        items,
        [
            ("Code".to_owned(), r"C:\Apps\Code.exe".to_owned()),
            ("URL".to_owned(), "https://a/b|c".to_owned()),
        ]
    );
}

#[test]
fn registered_items_round_trip_and_replace_separators() {
    let text = format_registered_items(&items(&[("A|B", r"C:\a.exe"), ("メモ帳", r"C:\x|y.exe")]));
    assert_eq!(text, "A B|C:\\a.exe\nメモ帳|C:\\x y.exe");
    assert_eq!(
        parse_registered_items(&text),
        [
            ("A B".to_owned(), r"C:\a.exe".to_owned()),
            ("メモ帳".to_owned(), r"C:\x y.exe".to_owned()),
        ]
    );
}

#[test]
fn empty_pin_list_round_trips() {
    assert_eq!(format_registered_items(&Vec::new()), "");
    assert!(parse_registered_items("").is_empty());
    assert!(parse_registered_items("\n\n").is_empty());
    assert_eq!(parse_registered_items("|"), items(&[("", "")]));
}

#[test]
fn keeps_a_carriage_return_only_on_an_unterminated_last_line() {
    assert_eq!(
        parse_registered_items("a|b\r\nc|d\r"),
        items(&[("a", "b"), ("c", "d\r")])
    );
    assert_eq!(parse_registered_items("a|b\r\r\n"), items(&[("a", "b\r")]));
}

#[test]
fn round_trip_of_three_entries() {
    let written = items(&[("One", "1.exe"), ("", ""), ("x|y", "a|b|c")]);
    let text = format_registered_items(&written);
    assert_eq!(text, "One|1.exe\n|\nx y|a b c");
    assert_eq!(
        parse_registered_items(&text),
        items(&[("One", "1.exe"), ("", ""), ("x y", "a b c")])
    );
}

#[test]
fn always_on_top_is_off_unless_stored_as_on() {
    assert!(parse_always_on_top(always_on_top_value(true)));
    assert!(!parse_always_on_top(always_on_top_value(false)));
    assert!(parse_always_on_top(" on\n"));
    assert!(!parse_always_on_top("ON"));
    assert!(!parse_always_on_top(""));
    assert_eq!(always_on_top_value(true), "on");
    assert_eq!(always_on_top_value(false), "off");
}

#[test]
fn dock_side_is_right_unless_stored_as_left() {
    for side in [DockSide::Left, DockSide::Right] {
        assert_eq!(parse_dock_side(dock_side_value(side)), side);
    }
    assert_eq!(parse_dock_side("left\r\n"), DockSide::Left);
    assert_eq!(parse_dock_side("Left"), DockSide::Right);
    assert_eq!(parse_dock_side(""), DockSide::Right);
    assert_eq!(dock_side_value(DockSide::Right), "right");
}

#[test]
fn process_explorer_path_is_stored_trimmed() {
    let stored = process_explorer_path_value("  E:\\procexp.exe \n");
    assert_eq!(stored, r"E:\procexp.exe");
    assert_eq!(process_explorer_path_value(&stored), stored);
    assert_eq!(process_explorer_path_value(" \t "), "");
    assert_eq!(process_tool_value(ProcessTool::TaskManager), "task_manager");
}

#[test]
fn opens_popups_toward_the_middle_unless_told_otherwise() {
    // A dock at the right edge of a 1920-pixel screen, and one at the left edge.
    assert!(popup_opens_left(PopupDirection::Auto, Some((1842, 1920)), 1920));
    assert!(!popup_opens_left(PopupDirection::Auto, Some((0, 78)), 1920));
    // Without the dock window, popups open to the left.
    assert!(popup_opens_left(PopupDirection::Auto, None, 1920));
    // A dock exactly in the middle is not in the right half.
    assert!(!popup_opens_left(PopupDirection::Auto, Some((920, 1000)), 1920));
    assert!(popup_opens_left(PopupDirection::Left, Some((0, 78)), 1920));
    assert!(!popup_opens_left(PopupDirection::Right, Some((1842, 1920)), 1920));
}

#[test]
fn popup_direction_round_trips_with_auto_default() {
    for direction in [PopupDirection::Auto, PopupDirection::Left, PopupDirection::Right] {
        assert_eq!(parse_popup_direction(popup_direction_value(direction)), direction);
    }
    assert_eq!(parse_popup_direction(" right\r\n"), PopupDirection::Right);
    assert_eq!(parse_popup_direction("Left"), PopupDirection::Auto);
    assert_eq!(parse_popup_direction(""), PopupDirection::Auto);
    assert_eq!(popup_direction_value(PopupDirection::Left), "left");
}

#[test]
fn migrates_only_missing_files_from_the_former_folder() {
    assert_eq!(
        legacy_config_files(),
        ["items.txt", "process_tool.txt", "process_explorer_path.txt"]
    );
    assert!(migrates(false, true));
    assert!(!migrates(true, true));
    assert!(!migrates(false, false));
    assert!(!migrates(true, false));
}

#[test]
fn a_second_migration_copies_nothing() {
    let target_exists = vec![false, true, false];
    let source_is_file = vec![true, true, false];
    let plan = migration_plan(&target_exists, &source_is_file);
    assert_eq!(plan, [true, false, false]);
    let after: Vec<bool> = target_exists.iter().zip(&plan).map(|(t, c)| *t || *c).collect();
    assert_eq!(migration_plan(&after, &source_is_file), [false, false, false]);
}
