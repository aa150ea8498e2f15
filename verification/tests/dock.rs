use windows_side_dock::config::ProcessTool;
use windows_side_dock::dock::{
    activation_steps, add_pin, initial_pins, launch_action, next_selection, pin_running,
    previous_selection, process_tool_ready, refresh_due, running_action, next_repaint_ms,
    menu_step, menu_target_present, MenuEvent, MenuStep, tool_report, unpin, LaunchAction,
    RunningAction, WindowStep,
};
use windows_side_dock::layout::ContextMenuTarget;
use windows_side_dock::model::{IconKind, LauncherItem, RunningWindow};

fn pairs(list: &[(&str, &str)]) -> Vec<(String, String)> {
    list.iter()
        .map(|(a, b)| (a.to_string(), b.to_string()))
        .collect()
}

fn commands(list: &[(String, String)]) -> Vec<&str> {
    list.iter().map(|(_, c)| c.as_str()).collect()
}

fn item(name: &str, command: &str) -> LauncherItem {
    LauncherItem {
        name: name.into(),
        command: command.into(),
        fallback_icon: IconKind::File,
        windows: Vec::new(),
        active: false,
    }
}

fn window(handle: isize) -> RunningWindow {
    RunningWindow {
        handle,
        title: format!("window {handle}"),
    }
}

#[test]
fn starts_with_explorer_and_settings_on_first_run() {
    let pins = initial_pins(None, None, r"C:\Windows", r"C:\Local");
    assert_eq!(commands(&pins), [r"C:\Windows\explorer.exe", "ms-settings:"]);
    assert_eq!(pins[1].0, "Windows 設定");
}

#[test]
fn keeps_saved_pins_even_when_every_pin_was_removed() {
    let pins = initial_pins(Some(Vec::new()), Some(pairs(&[("a", "a.exe")])), r"C:\Windows", r"C:\Local");
    assert!(pins.is_empty());
    let saved = pairs(&[("Code", r"C:\Code.exe")]);
    assert_eq!(initial_pins(Some(saved.clone()), None, "", ""), saved);
}

#[test]
fn carries_over_the_former_builtin_icons_and_old_pins_without_duplicates() {
    let registered = pairs(&[
        ("Code", r"C:\Apps\Code.exe"),
        ("メモ帳", r"C:\Windows\System32\notepad.exe"),
        ("Code again", r"C:\Apps\Code.exe"),
    ]);
    let pins = initial_pins(None, Some(registered), r"C:\Windows", r"C:\Local");
    assert_eq!(
        commands(&pins),
        [
            r"C:\Windows\explorer.exe",
            r"C:\Local\Microsoft\WindowsApps\wt.exe",
            r"C:\Windows\System32\notepad.exe",
            "ms-settings:",
            r"C:\Apps\Code.exe",
        ]
    );
    assert_eq!(pins[4].0, "Code");
    assert_eq!(initial_pins(None, Some(Vec::new()), r"C:\W", r"C:\L").len(), 4);
}

#[test]
fn adds_dropped_files_once() {
    let mut items = vec![item("A", r"C:\a.exe")];
    assert!(add_pin(&mut items, r"C:\Games\Steam.lnk"));
    assert!(!add_pin(&mut items, r"C:\Games\Steam.lnk"));
    assert_eq!(items.len(), 2);
    assert_eq!(items[1].name, "Steam");
    assert_eq!(items[1].command, r"C:\Games\Steam.lnk");
    assert_eq!(items[1].fallback_icon, IconKind::File);
    // Only the exact command counts as a duplicate.
    assert!(add_pin(&mut items, r"C:\A.EXE"));
    assert_eq!(items.len(), 3);
}

#[test]
fn unpins_any_item_down_to_an_empty_dock() {
    let mut items = vec![item("a", "a"), item("b", "b"), item("c", "c"), item("d", "d"), item("e", "e")];
    let mut selected = 5;
    assert!(!unpin(&mut items, &mut selected, 9));
    assert_eq!(items.len(), 5);
    assert_eq!(selected, 5);
    assert!(unpin(&mut items, &mut selected, 0));
    assert_eq!(items.len(), 4);
    assert_eq!(selected, 3);
    assert_eq!(items[0].command, "b");
    selected = 1;
    assert!(unpin(&mut items, &mut selected, 3));
    assert_eq!(selected, 1);
    while !items.is_empty() {
        unpin(&mut items, &mut selected, 0);
    }
    assert_eq!(selected, 0);
}

#[test]
fn pins_running_programs_without_their_windows() {
    let mut items = vec![item("a", "a")];
    let running = vec![LauncherItem {
        windows: vec![window(1)],
        active: true,
        ..item("Chrome", r"C:\Apps\Chrome.exe")
    }];
    assert!(!pin_running(&mut items, &running, 5));
    assert!(pin_running(&mut items, &running, 0));
    assert_eq!(items.len(), 2);
    assert_eq!(items[1].command, r"C:\Apps\Chrome.exe");
    assert!(items[1].windows.is_empty());
    assert!(!items[1].active);
}

#[test]
fn moves_selection_around_the_dock() {
    assert_eq!(next_selection(3, 4), 0);
    assert_eq!(next_selection(0, 4), 1);
    assert_eq!(previous_selection(0, 4), 3);
    assert_eq!(previous_selection(2, 4), 1);
    assert_eq!(next_selection(0, 1), 0);
}

#[test]
fn launches_items_and_reuses_open_settings_window() {
    let mut items = vec![item("Explorer", r"C:\Windows\explorer.exe"), item("Settings", "ms-settings:")];
    match launch_action(&items, 0) {
        LaunchAction::Open(command) => assert_eq!(command, r"C:\Windows\explorer.exe"),
        other => panic!("unexpected {other:?}"),
    }
    match launch_action(&items, 1) {
        LaunchAction::Open(command) => assert_eq!(command, "ms-settings:"),
        other => panic!("unexpected {other:?}"),
    }
    items[1].windows = vec![window(9)];
    match launch_action(&items, 1) {
        LaunchAction::Activate(windows) => assert_eq!(windows[0].handle, 9),
        other => panic!("unexpected {other:?}"),
    }
    assert!(matches!(launch_action(&items, 99), LaunchAction::Nothing));
    items[0].windows = vec![window(3)];
    assert!(matches!(launch_action(&items, 0), LaunchAction::Open(_)));
}

#[test]
fn activates_single_window_or_opens_picker() {
    let running = vec![
        LauncherItem { windows: vec![window(1)], ..item("One", "one.exe") },
        LauncherItem { windows: vec![window(2), window(3)], ..item("Two", "two.exe") },
    ];
    match running_action(&running, 0) {
        RunningAction::Activate(windows) => assert_eq!(windows[0].handle, 1),
        other => panic!("unexpected {other:?}"),
    }
    match running_action(&running, 1) {
        RunningAction::Pick(name, windows) => {
            assert_eq!(name, "Two");
            assert_eq!(windows.len(), 2);
        }
        other => panic!("unexpected {other:?}"),
    }
    assert!(matches!(running_action(&running, 7), RunningAction::Nothing));
}

#[test]
fn minimizes_the_foreground_window_and_raises_others() {
    let windows = vec![window(9), window(10)];
    assert_eq!(activation_steps(&windows, 9, false), [WindowStep::Minimize(9)]);
    assert_eq!(activation_steps(&windows, 0, false), [WindowStep::SetForeground(9)]);
    assert_eq!(
        activation_steps(&windows, 0, true),
        [WindowStep::Restore(9), WindowStep::SetForeground(9)]
    );
    assert!(activation_steps(&Vec::new(), 0, true).is_empty());
}

#[test]
fn launches_task_manager_and_reports_failure() {
    assert!(process_tool_ready(ProcessTool::TaskManager, false));
    let report = tool_report(ProcessTool::TaskManager, true, false);
    assert_eq!(report.status, Some("タスク マネージャーを起動できませんでした"));
    assert!(!report.open_settings);
}

#[test]
fn launches_configured_process_explorer() {
    assert!(process_tool_ready(ProcessTool::ProcessExplorer, true));
    let report = tool_report(ProcessTool::ProcessExplorer, true, true);
    assert_eq!(report.status, None);
    assert!(!report.open_settings);
}

#[test]
fn opens_settings_when_process_explorer_cannot_start() {
    let report = tool_report(ProcessTool::ProcessExplorer, true, false);
    assert_eq!(report.status, Some("Process Explorerを起動できませんでした"));
    assert!(report.open_settings);
}

#[test]
fn asks_for_a_valid_process_explorer_path() {
    assert!(!process_tool_ready(ProcessTool::ProcessExplorer, false));
    let report = tool_report(ProcessTool::ProcessExplorer, false, false);
    assert_eq!(report.status, Some("Process Explorerの実行ファイルが見つかりません"));
    assert!(report.open_settings);
}

#[test]
fn refreshes_on_window_changes_or_once_the_poll_interval_passes() {
    // Changes are watched: only a change, or the first frame, counts again.
    assert!(refresh_due(Some(true), Some(10), 1000));
    assert!(!refresh_due(Some(false), Some(5000), 1000));
    assert!(refresh_due(Some(false), None, 1000));
    // Changes are not watched: the first frame, then once per poll interval.
    assert!(refresh_due(None, None, 1000));
    assert!(!refresh_due(None, Some(999), 1000));
    assert!(refresh_due(None, Some(1000), 1000));
}

#[test]
fn redraws_at_the_next_minute_or_poll_interval() {
    assert_eq!(next_repaint_ms(5, true, 1000), 55_000);
    assert_eq!(next_repaint_ms(5, false, 1000), 1000);
    assert_eq!(next_repaint_ms(59, true, 1000), 1000);
    assert_eq!(next_repaint_ms(60, false, 5000), 1000);
    assert_eq!(next_repaint_ms(0, false, 120_000), 60_000);
}

#[test]
fn closing_every_window_takes_a_confirmation() {
    let step = |confirming, close_windows, close_menu| MenuStep { confirming, close_windows, close_menu };
    assert_eq!(menu_step(false, MenuEvent::CloseAll), step(true, false, false));
    assert_eq!(menu_step(true, MenuEvent::ConfirmCloseAll), step(false, true, true));
    assert_eq!(menu_step(false, MenuEvent::ConfirmCloseAll), step(false, false, false));
    assert_eq!(menu_step(true, MenuEvent::Cancel), step(false, false, false));
    assert_eq!(menu_step(true, MenuEvent::WindowChosen), step(false, false, true));
    assert_eq!(menu_step(true, MenuEvent::EntryChosen), step(false, false, true));
    assert_eq!(menu_step(true, MenuEvent::Dismissed), step(false, false, true));
}

#[test]
fn menus_for_removed_items_close() {
    assert!(menu_target_present(ContextMenuTarget::Handle, 0, 0));
    assert!(menu_target_present(ContextMenuTarget::Clock, 0, 0));
    assert!(menu_target_present(ContextMenuTarget::Pinned(1), 2, 0));
    assert!(!menu_target_present(ContextMenuTarget::Pinned(2), 2, 5));
    assert!(menu_target_present(ContextMenuTarget::Running(4), 0, 5));
    assert!(!menu_target_present(ContextMenuTarget::Running(0), 5, 0));
}
