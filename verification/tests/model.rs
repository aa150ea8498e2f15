use windows_side_dock::model::{
    assign_running, fallback_icon, friendly_window_name, group_windows, is_settings_uri,
    names_match, pinned_entries, running_items,
    running_tooltip, same_application, IconKind, LauncherItem, RunningWindow,
};
use windows_side_dock::paths::item_name_for_path;

fn item(name: &str, command: &str) -> LauncherItem {
    LauncherItem {
        name: name.into(),
        command: command.into(),
        fallback_icon: IconKind::File,
        windows: Vec::new(),
        active: false,
    }
}

fn running(name: &str, command: &str, handles: &[isize], active: bool) -> LauncherItem {
    LauncherItem {
        windows: handles
            .iter()
            .map(|&handle| RunningWindow {
                handle,
                title: name.into(),
            })
            .collect(),
        active,
        ..item(name, command)
    }
}

fn window(handle: isize, command: &str, title: &str) -> (isize, String, String) {
    (handle, command.into(), title.into())
}

#[test]
fn matches_commands_without_case_sensitivity() {
    let pinned = item("VS Code", r"C:\Apps\Code.exe");
    let running = item("Code", r"c:\apps\CODE.EXE");
    assert!(same_application(&pinned, &running));
}

#[test]
fn matches_windows_settings_protocol_to_system_settings() {
    let pinned = item("Windows 設定", "ms-settings:");
    let running = item(
        "Settings",
        r"C:\Windows\ImmersiveControlPanel\SystemSettings.exe",
    );
    assert!(same_application(&pinned, &running));
}

#[test]
fn matches_registered_name_after_normalization() {
    let pinned = item("Visual Studio Code", r"C:\Portable\launcher.exe");
    let running = item("Studio-Code", r"C:\Apps\Code.exe");
    assert!(same_application(&pinned, &running));
}

#[test]
fn rejects_short_or_unrelated_names() {
    let pinned = item("メモ帳", r"C:\Apps\memo.exe");
    let running = item("メモ", r"C:\Other\memo.exe");
    assert!(!same_application(&pinned, &running));
}

#[test]
fn settings_uri_does_not_match_other_programs() {
    let pinned = item("Windows 設定", "MS-SETTINGS:");
    assert!(same_application(&pinned, &item("x", r"D:\SYSTEMSETTINGS.EXE")));
    assert!(!same_application(&pinned, &item("x", r"D:\SystemSettings.exe\..")));
    assert!(!same_application(&pinned, &item("x", r"D:\OtherSettings.exe")));
}

#[test]
fn derives_application_name_from_window_title() {
    assert_eq!(
        friendly_window_name("notes.txt - Visual Studio Code", "Code"),
        "Visual Studio Code"
    );
}

#[test]
fn falls_back_for_an_empty_window_title() {
    assert_eq!(friendly_window_name("   ", "notepad"), "notepad");
}

#[test]
fn uses_whole_title_when_it_has_no_application_suffix() {
    assert_eq!(friendly_window_name("  電卓  ", "calc"), "電卓");
    assert_eq!(friendly_window_name("draft - ", "notepad"), "draft -");
}

#[test]
fn takes_the_name_after_the_last_separator() {
    assert_eq!(friendly_window_name("a - b - c", "x"), "c");
    assert_eq!(friendly_window_name(" - - ", "x"), "- -");
    assert_eq!(friendly_window_name("", "x"), "x");
}

#[test]
fn groups_windows_by_executable_ignoring_case() {
    let groups = group_windows(
        vec![
            window(1, r"C:\Apps\Code.exe", "a.rs - Visual Studio Code"),
            window(2, r"C:\Windows\explorer.exe", "Downloads"),
            window(3, r"c:\apps\CODE.EXE", "b.rs - Visual Studio Code"),
        ],
        0,
    );
    assert_eq!(groups.len(), 2);
    assert_eq!(groups[0].name, "Visual Studio Code");
    assert_eq!(groups[0].command, r"C:\Apps\Code.exe");
    let titles: Vec<_> = groups[0].windows.iter().map(|w| w.title.as_str()).collect();
    assert_eq!(
        titles,
        ["a.rs - Visual Studio Code", "b.rs - Visual Studio Code"]
    );
    assert_eq!(groups[1].name, "Downloads");
}

#[test]
fn marks_group_active_when_any_window_is_foreground() {
    let groups = group_windows(
        vec![
            window(1, r"C:\Apps\Code.exe", "a"),
            window(2, r"C:\Apps\Code.exe", "b"),
            window(3, r"C:\Apps\Other.exe", "c"),
        ],
        2,
    );
    assert!(groups[0].active);
    assert!(!groups[1].active);
}

#[test]
fn names_group_from_executable_when_title_is_blank() {
    let groups = group_windows(vec![window(1, r"C:\Tools\procexp64.exe", " ")], 0);
    assert_eq!(groups[0].name, "procexp64");
}

#[test]
fn groups_nothing_from_no_windows() {
    assert!(group_windows(Vec::new(), 5).is_empty());
}

#[test]
fn pinned_entries_keep_every_item_in_order() {
    let items = vec![
        item("エクスプローラー", r"C:\Windows\explorer.exe"),
        item("Windows 設定", "ms-settings:"),
        item("Code", r"C:\Apps\Code.exe"),
    ];
    let entries = pinned_entries(&items);
    let entries: Vec<(&str, &str)> = entries
        .iter()
        .map(|(a, b)| (a.as_str(), b.as_str()))
        .collect();
    assert_eq!(
        entries,
        [
            ("エクスプローラー", r"C:\Windows\explorer.exe"),
            ("Windows 設定", "ms-settings:"),
            ("Code", r"C:\Apps\Code.exe"),
        ]
    );
}

#[test]
fn picks_fallback_icons_for_well_known_commands() {
    let windows = r"C:\Windows";
    assert_eq!(
        fallback_icon("ms-settings:", windows),
        (
            IconKind::Settings,
            r"C:\Windows\ImmersiveControlPanel\SystemSettings.exe".to_owned()
        )
    );
    for (command, kind) in [
        (r"C:\Windows\EXPLORER.EXE", IconKind::Folder),
        (r"C:\Local\Microsoft\WindowsApps\wt.exe", IconKind::Terminal),
        (r"C:\Windows\System32\notepad.exe", IconKind::Note),
        (r"C:\Apps\Code.exe", IconKind::File),
    ] {
        assert_eq!(fallback_icon(command, windows), (kind, command.to_owned()));
    }
}

#[test]
fn names_dropped_file_without_extension() {
    assert_eq!(
        item_name_for_path(r"C:\Users\me\Desktop\Steam.lnk"),
        "Steam"
    );
    assert_eq!(item_name_for_path(r"C:\"), "アプリ");
}

#[test]
fn names_dropped_paths_like_windows_does() {
    assert_eq!(item_name_for_path(r"C:\Games\archive.tar.gz"), "archive.tar");
    assert_eq!(item_name_for_path(r"C:\Users\me\.profile"), ".profile");
    assert_eq!(item_name_for_path(r"C:\Tools\"), "Tools");
    assert_eq!(item_name_for_path(r"C:\Tools\."), "Tools");
    assert_eq!(item_name_for_path(r"C:\Tools\.."), "アプリ");
    assert_eq!(item_name_for_path("D:/music/song.mp3"), "song");
    assert_eq!(item_name_for_path("C:notes.txt"), "notes");
    assert_eq!(item_name_for_path("C:"), "アプリ");
    assert_eq!(item_name_for_path(""), "アプリ");
    assert_eq!(item_name_for_path("name."), "name");
}

#[test]
fn assigns_running_windows_to_pinned_items() {
    let mut items = vec![
        item("Code", r"C:\Apps\Code.exe"),
        item("Steam", r"C:\Steam\steam.exe"),
    ];
    items[1].windows = vec![RunningWindow {
        handle: 99,
        title: "stale".into(),
    }];
    items[1].active = true;
    let unpinned = assign_running(
        &mut items,
        vec![
            running("Code", r"c:\apps\code.exe", &[1, 2], true),
            running("Chrome", r"C:\Chrome\chrome.exe", &[3], false),
        ],
    );

    let handles: Vec<_> = items[0].windows.iter().map(|w| w.handle).collect();
    assert_eq!(handles, [1, 2]);
    assert!(items[0].active);
    assert!(items[1].windows.is_empty());
    assert!(!items[1].active);
    assert_eq!(unpinned.len(), 1);
    assert_eq!(unpinned[0].name, "Chrome");
}

#[test]
fn gives_each_pin_the_first_matching_program() {
    let mut items = vec![item("Code", r"C:\Apps\Code.exe")];
    let unpinned = assign_running(
        &mut items,
        vec![
            running("Code", r"C:\APPS\CODE.EXE", &[7], false),
            running("Code", r"c:\apps\code.exe", &[8], true),
        ],
    );
    assert_eq!(items[0].windows.len(), 1);
    assert_eq!(items[0].windows[0].handle, 7);
    assert!(!items[0].active);
    assert!(unpinned.is_empty());
}

#[test]
fn describes_running_apps_by_window_count() {
    let mut item = running("Code", "code.exe", &[1], false);
    assert_eq!(running_tooltip(&item), "Code（実行中）");
    item.windows.push(RunningWindow {
        handle: 2,
        title: "b".into(),
    });
    assert_eq!(running_tooltip(&item), "Code（2個のウィンドウ）");
    let many = running("X", "x.exe", &(0..12).collect::<Vec<_>>(), false);
    assert_eq!(running_tooltip(&many), "X（12個のウィンドウ）");
}

#[test]
fn recognises_the_settings_uri_in_any_case() {
    assert!(is_settings_uri("ms-settings:"));
    assert!(is_settings_uri("MS-Settings:"));
    assert!(!is_settings_uri("ms-settings:display"));
    assert!(!is_settings_uri(r"C:\Windows\explorer.exe"));
}

#[test]
fn matches_reduced_names_of_four_or_more_characters() {
    let chars = |s: &str| s.chars().collect::<Vec<char>>();
    assert!(names_match(&chars("visualstudiocode"), &chars("studiocode")));
    assert!(names_match(&chars("code"), &chars("code")));
    assert!(!names_match(&chars("メモ帳"), &chars("メモ")));
    assert!(!names_match(&chars("visualstudiocode"), &chars("vsc")));
    assert!(!names_match(&chars("chrome"), &chars("firefox")));
}

#[test]
fn names_dropped_paths_after_every_windows_prefix() {
    assert_eq!(item_name_for_path(r"\\server\share"), "アプリ");
    assert_eq!(item_name_for_path(r"\\server\share\"), "アプリ");
    assert_eq!(item_name_for_path(r"\\server\share\Tools\procexp.exe"), "procexp");
    assert_eq!(item_name_for_path(r"//server/share/a.b.c"), "a.b");
    assert_eq!(item_name_for_path(r"\\server"), "server");
    assert_eq!(item_name_for_path(r"\\?\UNC\server\share"), "アプリ");
    assert_eq!(item_name_for_path(r"\\?\UNC\server\share\x.lnk"), "x");
    assert_eq!(item_name_for_path(r"\\?\C:\Apps\Code.exe"), "Code");
    assert_eq!(item_name_for_path(r"\\?\C:\Apps\."), "アプリ");
    assert_eq!(item_name_for_path(r"C:\Apps\."), "Apps");
    assert_eq!(item_name_for_path(r"\\?\C:"), "アプリ");
    assert_eq!(item_name_for_path(r"\\?\Volume{x}\dir/name.txt"), "dir/name");
    assert_eq!(item_name_for_path(r"\\.\COM1"), "アプリ");
    assert_eq!(item_name_for_path(r"\\.\pipe\name.x"), "name");
    assert_eq!(item_name_for_path(r"C:"), "アプリ");
    assert_eq!(item_name_for_path(r"C:.."), "アプリ");
}

#[test]
fn turns_window_groups_into_running_items() {
    let items = running_items(
        vec![
            (1, r"C:\Apps\Code.exe".to_string(), "a.rs - Visual Studio Code".to_string()),
            (2, r"C:\Tools\procexp64.exe".to_string(), " ".to_string()),
            (3, r"c:\apps\CODE.EXE".to_string(), "b.rs - Visual Studio Code".to_string()),
        ],
        2,
    );
    assert_eq!(items.len(), 2);
    assert_eq!(items[0].name, "Visual Studio Code");
    assert_eq!(items[0].command, r"C:\Apps\Code.exe");
    assert_eq!(items[0].fallback_icon, IconKind::File);
    let handles: Vec<isize> = items[0].windows.iter().map(|w| w.handle).collect();
    assert_eq!(handles, [1, 3]);
    assert!(!items[0].active);
    assert_eq!(items[1].name, "procexp64");
    assert!(items[1].active);
}
