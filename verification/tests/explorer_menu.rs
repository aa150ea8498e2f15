use windows_side_dock::explorer_menu::{
    enumerate_next, enumerate_skip, invoke_action, item_title, registered_process_tool,
    sub_commands, ExplorerInvoke, ExplorerItem,
};

#[test]
fn root_holds_folder_and_process_tool() {
    assert_eq!(
        sub_commands(ExplorerItem::Root),
        Some(vec![ExplorerItem::OpenFolder, ExplorerItem::ProcessTool])
    );
    assert_eq!(sub_commands(ExplorerItem::ProcessTool), None);
    assert_eq!(item_title(ExplorerItem::Root, "x"), "Windows Side Dock");
    assert_eq!(item_title(ExplorerItem::OpenFolder, "x"), "Windows Side Dockの場所を開く");
    assert_eq!(item_title(ExplorerItem::ProcessTool, "Process Explorer"), "Process Explorer");
}

#[test]
fn falls_back_to_task_manager_when_nothing_is_registered() {
    assert_eq!(
        registered_process_tool(None, None),
        ("タスク マネージャー".to_owned(), "taskmgr.exe".to_owned())
    );
    assert_eq!(
        registered_process_tool(Some("P".into()), Some("\"p.exe\"".into())),
        ("P".to_owned(), "\"p.exe\"".to_owned())
    );
}

#[test]
fn runs_the_registered_command_or_opens_the_folder() {
    match invoke_action(ExplorerItem::ProcessTool, None, r#""C:\Tools\procexp64.exe" /t"#) {
        ExplorerInvoke::Run { file, parameters } => {
            assert_eq!(file, r"C:\Tools\procexp64.exe");
            assert_eq!(parameters, "/t");
        }
        other => panic!("unexpected {other:?}"),
    }
    match invoke_action(ExplorerItem::OpenFolder, Some(r"C:\Program Files\Dock"), "") {
        ExplorerInvoke::Run { file, parameters } => {
            assert_eq!(file, "explorer.exe");
            assert_eq!(parameters, r#""C:\Program Files\Dock""#);
        }
        other => panic!("unexpected {other:?}"),
    }
    assert!(matches!(invoke_action(ExplorerItem::OpenFolder, None, ""), ExplorerInvoke::Nothing));
    assert!(matches!(invoke_action(ExplorerItem::Root, Some("C:"), "x"), ExplorerInvoke::Nothing));
}

#[test]
fn enumerates_subentries_in_batches() {
    assert_eq!(enumerate_next(2, 0, 1), (1, 1));
    assert_eq!(enumerate_next(2, 1, 5), (2, 1));
    assert_eq!(enumerate_next(2, 2, 3), (2, 0));
    assert_eq!(enumerate_next(2, 0, 2), (2, 2));
    assert_eq!(enumerate_skip(2, 0, 1), 1);
    assert_eq!(enumerate_skip(2, 1, 7), 2);
}
