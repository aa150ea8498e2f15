use windows_side_dock::command_line::split_command;

#[test]
fn splits_quoted_and_plain_commands() {
    assert_eq!(
        split_command(r#" "E:\Tools\Process Explorer\procexp64.exe" /t "#),
        (
            r"E:\Tools\Process Explorer\procexp64.exe".into(),
            "/t".into()
        )
    );
    assert_eq!(
        split_command(r#""C:\a.exe""#),
        (r"C:\a.exe".into(), String::new())
    );
    assert_eq!(
        split_command(r#""C:\unterminated.exe"#),
        (r"C:\unterminated.exe".into(), String::new())
    );
    assert_eq!(
        split_command("taskmgr.exe"),
        ("taskmgr.exe".into(), String::new())
    );
    assert_eq!(
        split_command("cmd.exe /k echo"),
        ("cmd.exe".into(), "/k echo".into())
    );
}

#[test]
fn split_command_trims_arguments_and_handles_empty_input() {
    assert_eq!(split_command(""), (String::new(), String::new()));
    assert_eq!(split_command("   "), (String::new(), String::new()));
    assert_eq!(
        split_command("\t\"C:\\x y\\a.exe\"   -v  -w \n"),
        (r"C:\x y\a.exe".into(), "-v  -w".into())
    );
    assert_eq!(split_command("a.exe    b"), ("a.exe".into(), "b".into()));
    assert_eq!(split_command("\u{3000}calc.exe\u{3000}"), ("calc.exe".into(), String::new()));
}
