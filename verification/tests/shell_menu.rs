use windows_side_dock::config::ProcessTool;
use windows_side_dock::shell_menu::{
    menu_roots, normalized_executable_path, process_tool_entry, process_tool_menu_writes,
};

#[test]
fn uses_task_manager_by_default() {
    assert_eq!(
        process_tool_entry(ProcessTool::TaskManager, r"E:\Tools\procexp.exe"),
        ("タスク マネージャー", "taskmgr.exe".to_owned())
    );
}

#[test]
fn quotes_configured_process_explorer_path() {
    assert_eq!(
        process_tool_entry(ProcessTool::ProcessExplorer, " \"E:\\Tools\\procexp.exe\" "),
        ("Process Explorer", "\"E:\\Tools\\procexp.exe\"".to_owned())
    );
}

#[test]
fn falls_back_when_process_explorer_path_is_missing() {
    assert_eq!(
        process_tool_entry(ProcessTool::ProcessExplorer, "  "),
        ("タスク マネージャー", "taskmgr.exe".to_owned())
    );
}

#[test]
fn strips_whitespace_and_quotes_from_executable_path() {
    assert_eq!(
        normalized_executable_path(" \"E:\\Tools\\procexp.exe\"\n"),
        r"E:\Tools\procexp.exe"
    );
    assert_eq!(
        normalized_executable_path(r"'C:\a b\x.exe'"),
        r"C:\a b\x.exe"
    );
    assert_eq!(normalized_executable_path("   "), "");
}

#[test]
fn updates_only_installed_menu_entries() {
    let roots = menu_roots();
    let writes = process_tool_menu_writes(ProcessTool::ProcessExplorer, r"E:\procexp.exe", &vec![false, true]);
    assert_eq!(writes.len(), 2);
    assert_eq!(writes[0].key, roots[1]);
    assert_eq!(writes[0].subkey, "");
    assert_eq!(writes[0].name, "MUIVerb");
    assert_eq!(writes[0].value, "Process Explorer");
    assert_eq!(writes[1].key, roots[1]);
    assert_eq!(writes[1].subkey, "command");
    assert_eq!(writes[1].name, "");
    assert_eq!(writes[1].value, r#""E:\procexp.exe""#);
    assert!(process_tool_menu_writes(ProcessTool::TaskManager, "", &vec![false, false]).is_empty());
    let both = process_tool_menu_writes(ProcessTool::TaskManager, "", &vec![true, true]);
    assert_eq!(both.len(), 4);
    assert_eq!(both[0].key, roots[0]);
    assert_eq!(both[1].value, "taskmgr.exe");
    assert_eq!(both[2].key, roots[1]);
    assert_eq!(both[2].value, "タスク マネージャー");
}
