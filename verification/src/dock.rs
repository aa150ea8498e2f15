//! The dock's decisions about its pins: which pins it starts with, adding, pinning and
//! unpinning, moving the selection, what launching a pin or a running program does, and
//! how starting the process tool is reported.

use vstd::prelude::*;
use crate::config::{pairs_view, ProcessTool};
use crate::layout::ContextMenuTarget;
use crate::model::{
    copy_windows, items_view, spec_fallback_icon, windows_view, IconKind, ItemView, LauncherItem,
    RunningWindow,
};
use crate::paths::{item_name_for_path, spec_item_name_for_path};
use crate::text::{append_str, chars_eq_ignore_ascii_case, chars_of, eq_ignore_ascii_case};

verus! {

/// The pins of the dock before the pin list was kept (the former built-in icons).
pub open spec fn former_builtin_pins(windows_dir: Seq<char>, local_app_data: Seq<char>) -> Seq<(Seq<char>, Seq<char>)> {
    seq![
        ("ファイルエクスプローラー"@, windows_dir + "\\explorer.exe"@),
        ("ターミナル"@, local_app_data + "\\Microsoft\\WindowsApps\\wt.exe"@),
        ("メモ帳"@, windows_dir + "\\System32\\notepad.exe"@),
        ("Windows 設定"@, "ms-settings:"@),
    ]
}

/// The pins of a first run: the file explorer and the Windows settings.
pub open spec fn first_run_pins(windows_dir: Seq<char>) -> Seq<(Seq<char>, Seq<char>)> {
    seq![("ファイルエクスプローラー"@, windows_dir + "\\explorer.exe"@), ("Windows 設定"@, "ms-settings:"@)]
}

/// Whether some entry of `pins` has the command `command`.
pub open spec fn has_command(pins: Seq<(Seq<char>, Seq<char>)>, command: Seq<char>) -> bool {
    exists|k: int| 0 <= k < pins.len() && (#[trigger] pins[k]).1 == command
}

/// `pins` followed by each registered entry whose command is not yet there.
pub open spec fn merge_registered(pins: Seq<(Seq<char>, Seq<char>)>, registered: Seq<(Seq<char>, Seq<char>)>) -> Seq<(Seq<char>, Seq<char>)>
    decreases registered.len(),
{
    if registered.len() == 0 {
        pins
    } else {
        let merged = merge_registered(pins, registered.drop_last());
        if has_command(merged, registered.last().1) {
            merged
        } else {
            merged.push(registered.last())
        }
    }
}

/// The pins the dock starts with: the saved pin list when there is one (even an empty one);
/// else, after an update from a version without it, the former built-in icons followed by the
/// registered items they do not already hold; else, on a first run, the explorer and settings.
pub open spec fn spec_initial_pins(
    saved: Option<Seq<(Seq<char>, Seq<char>)>>,
    registered: Option<Seq<(Seq<char>, Seq<char>)>>,
    windows_dir: Seq<char>,
    local_app_data: Seq<char>,
) -> Seq<(Seq<char>, Seq<char>)> {
    match saved {
        Some(pins) => pins,
        None => match registered {
            Some(reg) => merge_registered(former_builtin_pins(windows_dir, local_app_data), reg),
            None => first_run_pins(windows_dir),
        },
    }
}

fn pair(name: &str, command_head: &str, command_tail: &str) -> (r: (String, String))
    ensures
        r.0@ == name@,
        r.1@ == command_head@ + command_tail@,
{
    let mut n = String::new();
    append_str(&mut n, name);
    let mut c = String::new();
    append_str(&mut c, command_head);
    append_str(&mut c, command_tail);
    (n, c)
}

fn string_eq(a: &String, b: &String) -> (r: bool)
    ensures
        r == (a@ == b@),
{
    let x = chars_of(a.as_str());
    let y = chars_of(b.as_str());
    if x.len() != y.len() {
        return false;
    }
    let mut i: usize = 0;
    while i < x.len()
        invariant
            x.len() == y.len(),
            x@ == a@,
            y@ == b@,
            i <= x.len(),
            forall|k: int| 0 <= k < i ==> x@[k] == #[trigger] y@[k],
        decreases x.len() - i,
    {
        if x[i] != y[i] {
            assert(a@[i as int] != b@[i as int]);
            return false;
        }
        i = i + 1;
    }
    assert(x@ =~= y@);
    true
}

fn pins_have_command(pins: &Vec<(String, String)>, command: &String) -> (r: bool)
    ensures
        r == has_command(pairs_view(pins@), command@),
{
    let mut k: usize = 0;
    while k < pins.len()
        invariant
            k <= pins.len(),
            forall|m: int| 0 <= m < k ==> pins@[m].1@ != command@,
        decreases pins.len() - k,
    {
        if string_eq(&pins[k].1, command) {
            assert(pairs_view(pins@)[k as int].1 == command@);
            return true;
        }
        k = k + 1;
    }
    assert forall|m: int| 0 <= m < pairs_view(pins@).len() implies (#[trigger] pairs_view(pins@)[m]).1 != command@ by {
        assert(pairs_view(pins@)[m].1 == pins@[m].1@);
    }
    false
}

pub fn initial_pins(
    saved: Option<Vec<(String, String)>>,
    registered: Option<Vec<(String, String)>>,
    windows_dir: &str,
    local_app_data: &str,
) -> (r: Vec<(String, String)>)
    ensures
        pairs_view(r@) == spec_initial_pins(
            match saved {
                Some(v) => Some(pairs_view(v@)),
                None => None,
            },
            match registered {
                Some(v) => Some(pairs_view(v@)),
                None => None,
            },
            windows_dir@,
            local_app_data@,
        ),
{
    match saved {
        Some(pins) => pins,
        None => match registered {
            None => {
                let mut r: Vec<(String, String)> = Vec::new();
                r.push(pair("ファイルエクスプローラー", windows_dir, "\\explorer.exe"));
                r.push(pair("Windows 設定", "ms-settings:", ""));
                proof {
                    reveal_strlit("");
                }
                assert("ms-settings:"@ + ""@ =~= "ms-settings:"@);
                assert(pairs_view(r@) =~= first_run_pins(windows_dir@));
                r
            },
            Some(reg) => {
                let mut r: Vec<(String, String)> = Vec::new();
                r.push(pair("ファイルエクスプローラー", windows_dir, "\\explorer.exe"));
                r.push(pair("ターミナル", local_app_data, "\\Microsoft\\WindowsApps\\wt.exe"));
                r.push(pair("メモ帳", windows_dir, "\\System32\\notepad.exe"));
                r.push(pair("Windows 設定", "ms-settings:", ""));
                proof {
                    reveal_strlit("");
                }
                assert("ms-settings:"@ + ""@ =~= "ms-settings:"@);
                let ghost builtins = former_builtin_pins(windows_dir@, local_app_data@);
                assert(pairs_view(r@) =~= builtins);
                let ghost regv = pairs_view(reg@);
                let mut i: usize = 0;
                while i < reg.len()
                    invariant
                        regv == pairs_view(reg@),
                        i <= reg.len(),
                        pairs_view(r@) == merge_registered(builtins, regv.take(i as int)),
                    decreases reg.len() - i,
                {
                    assert(regv.take(i + 1).drop_last() == regv.take(i as int));
                    assert(regv.take(i + 1).last() == regv[i as int]);
                    if !pins_have_command(&r, &reg[i].1) {
                        r.push((reg[i].0.clone(), reg[i].1.clone()));
                        assert(pairs_view(r@) =~= merge_registered(builtins, regv.take(i as int)).push(regv[i as int]));
                    }
                    i = i + 1;
                }
                assert(regv.take(reg@.len() as int) == regv);
                r
            },
        },
    }
}

/// Whether no two pins have the same command.
pub open spec fn distinct_commands(items: Seq<ItemView>) -> bool {
    forall|a: int, b: int| 0 <= a < b < items.len() ==> (#[trigger] items[a]).command != (#[trigger] items[b]).command
}

/// Whether some pin has the command `command`.
pub open spec fn pinned_command(items: Seq<ItemView>, command: Seq<char>) -> bool {
    exists|k: int| 0 <= k < items.len() && (#[trigger] items[k]).command == command
}

/// A new pin for a dropped file: named after the file, with the plain file icon, not running.
pub open spec fn dropped_pin(path: Seq<char>) -> ItemView {
    ItemView {
        name: spec_item_name_for_path(path),
        command: path,
        fallback_icon: IconKind::File,
        windows: Seq::empty(),
        active: false,
    }
}

/// Pins a dropped file unless a pin already has it as its command; says whether it did.
pub fn add_pin(items: &mut Vec<LauncherItem>, path: &str) -> (added: bool)
    ensures
        added == !pinned_command(items_view(old(items)@), path@),
        added ==> items_view(final(items)@) == items_view(old(items)@).push(dropped_pin(path@)),
        !added ==> items_view(final(items)@) == items_view(old(items)@),
{
    let command = {
        let mut c = String::new();
        append_str(&mut c, path);
        c
    };
    let ghost before = items_view(items@);
    let mut k: usize = 0;
    while k < items.len()
        invariant
            before == items_view(items@),
            command@ == path@,
            k <= items.len(),
            forall|m: int| 0 <= m < k ==> before[m].command != path@,
        decreases items.len() - k,
    {
        if string_eq(&items[k].command, &command) {
            assert(before[k as int].command == path@);
            return false;
        }
        k = k + 1;
    }
    let item = LauncherItem {
        name: item_name_for_path(path),
        command,
        fallback_icon: IconKind::File,
        windows: Vec::new(),
        active: false,
    };
    assert(windows_view(Seq::<RunningWindow>::empty()) =~= Seq::empty());
    items.push(item);
    assert(items_view(items@) =~= before.push(dropped_pin(path@)));
    true
}

/// The selection once `remaining` pins are left: kept when still on a pin, else the last pin
/// (or 0 when none is left).
pub open spec fn selection_after_unpin(selected: int, remaining: int) -> int {
    if selected < remaining {
        selected
    } else if remaining == 0 {
        0
    } else {
        remaining - 1
    }
}

/// Removes pin `index` when there is one, and keeps the selection on an existing pin (or 0).
pub fn unpin(items: &mut Vec<LauncherItem>, selected: &mut usize, index: usize) -> (removed: bool)
    ensures
        removed == (index < old(items)@.len()),
        removed ==> items_view(final(items)@) == items_view(old(items)@).remove(index as int),
        removed ==> *final(selected) == selection_after_unpin(*old(selected) as int, final(items)@.len() as int),
        !removed ==> items_view(final(items)@) == items_view(old(items)@) && *final(selected) == *old(selected),
{
    if index >= items.len() {
        return false;
    }
    let ghost before = items_view(items@);
    items.remove(index);
    assert(items_view(items@) =~= before.remove(index as int));
    let last = if items.len() == 0 { 0 } else { items.len() - 1 };
    if *selected > last {
        *selected = last;
    }
    true
}

/// A running program pinned: its name, command and icon, with no windows and not active.
pub open spec fn pinned_from_running(running: ItemView) -> ItemView {
    ItemView { windows: Seq::empty(), active: false, ..running }
}

/// Pins running program `index` when there is one; says whether it did.
pub fn pin_running(items: &mut Vec<LauncherItem>, running: &Vec<LauncherItem>, index: usize) -> (pinned: bool)
    ensures
        pinned == (index < running@.len()),
        pinned ==> items_view(final(items)@) == items_view(old(items)@).push(pinned_from_running(running@[index as int]@)),
        !pinned ==> items_view(final(items)@) == items_view(old(items)@),
{
    if index >= running.len() {
        return false;
    }
    let ghost before = items_view(items@);
    let item = LauncherItem {
        name: running[index].name.clone(),
        command: running[index].command.clone(),
        fallback_icon: running[index].fallback_icon,
        windows: Vec::new(),
        active: false,
    };
    assert(windows_view(Seq::<RunningWindow>::empty()) =~= Seq::empty());
    items.push(item);
    assert(items_view(items@) =~= before.push(pinned_from_running(running@[index as int]@)));
    true
}

/// The pin after the selected one, wrapping around.
pub fn next_selection(selected: usize, count: usize) -> (r: usize)
    requires
        count > 0,
        selected + 1 <= usize::MAX,
    ensures
        r == (selected + 1) % (count as int),
{
    (selected + 1) % count
}

/// The pin before the selected one, wrapping around.
pub fn previous_selection(selected: usize, count: usize) -> (r: usize)
    requires
        count > 0,
        selected + count <= usize::MAX,
    ensures
        r == (selected + count - 1) % (count as int),
{
    (selected + count - 1) % count
}

/// What launching a pin does.
#[derive(Debug)]
pub enum LaunchAction {
    /// There is no such pin.
    Nothing,
    /// Open the command (a new instance when it is already running).
    Open(String),
    /// Bring the open window to the front (the Windows settings, which has a single window).
    Activate(Vec<RunningWindow>),
}

/// Launching pin `index`: the Windows settings go to their open window if they have one;
/// any other pin is opened anew.
pub fn launch_action(items: &Vec<LauncherItem>, index: usize) -> (r: LaunchAction)
    ensures
        index >= items@.len() ==> r is Nothing,
        index < items@.len() ==> {
            let item = items@[index as int]@;
            if eq_ignore_ascii_case(item.command, "ms-settings:"@) && item.windows.len() > 0 {
                (r matches LaunchAction::Activate(ws) && windows_view(ws@) == item.windows)
            } else {
                (r matches LaunchAction::Open(c) && c@ == item.command)
            }
        },
{
    if index >= items.len() {
        return LaunchAction::Nothing;
    }
    let command = chars_of(items[index].command.as_str());
    let settings = chars_of("ms-settings:");
    if chars_eq_ignore_ascii_case(&command, &settings) && items[index].windows.len() > 0 {
        LaunchAction::Activate(copy_windows(&items[index].windows))
    } else {
        LaunchAction::Open(items[index].command.clone())
    }
}

/// What activating a running program does.
#[derive(Debug)]
pub enum RunningAction {
    /// There is no such program.
    Nothing,
    /// Bring its only window forward (or toggle it).
    Activate(Vec<RunningWindow>),
    /// Let the user pick one of its windows.
    Pick(String, Vec<RunningWindow>),
}

/// Activating running program `index`: one window is activated directly; several are offered
/// in a picker, under the program's name.
pub fn running_action(running: &Vec<LauncherItem>, index: usize) -> (r: RunningAction)
    ensures
        index >= running@.len() ==> r is Nothing,
        index < running@.len() ==> {
            let item = running@[index as int]@;
            if item.windows.len() <= 1 {
                (r matches RunningAction::Activate(ws) && windows_view(ws@) == item.windows)
            } else {
                (r matches RunningAction::Pick(name, ws) && name@ == item.name && windows_view(ws@) == item.windows)
            }
        },
{
    if index >= running.len() {
        return RunningAction::Nothing;
    }
    let windows = copy_windows(&running[index].windows);
    if running[index].windows.len() <= 1 {
        RunningAction::Activate(windows)
    } else {
        RunningAction::Pick(running[index].name.clone(), windows)
    }
}

/// One operation on a window.
#[derive(Clone, Copy, Debug, PartialEq, Eq)]
pub enum WindowStep {
    Minimize(isize),
    Restore(isize),
    SetForeground(isize),
}

/// The steps that activate the first of `windows`: the foreground window is minimized;
/// any other is restored if minimized and then brought to the front.
pub open spec fn spec_activation_steps(windows: Seq<(isize, Seq<char>)>, foreground: isize, minimized: bool) -> Seq<WindowStep> {
    if windows.len() == 0 {
        Seq::empty()
    } else {
        let w = windows[0].0;
        if w == foreground {
            seq![WindowStep::Minimize(w)]
        } else if minimized {
            seq![WindowStep::Restore(w), WindowStep::SetForeground(w)]
        } else {
            seq![WindowStep::SetForeground(w)]
        }
    }
}

/// `minimized` says whether the first window is minimized.
pub fn activation_steps(windows: &Vec<RunningWindow>, foreground: isize, minimized: bool) -> (r: Vec<WindowStep>)
    ensures
        r@ == spec_activation_steps(windows_view(windows@), foreground, minimized),
{
    let mut r: Vec<WindowStep> = Vec::new();
    if windows.len() == 0 {
        return r;
    }
    let w = windows[0].handle;
    if w == foreground {
        r.push(WindowStep::Minimize(w));
    } else {
        if minimized {
            r.push(WindowStep::Restore(w));
        }
        r.push(WindowStep::SetForeground(w));
    }
    assert(r@ =~= spec_activation_steps(windows_view(windows@), foreground, minimized));
    r
}

/// Whether the process tool can be started: Task Manager always; Process Explorer when its
/// path names an existing file (`path_is_file`).
pub fn process_tool_ready(tool: ProcessTool, path_is_file: bool) -> (r: bool)
    ensures
        r == (tool == ProcessTool::TaskManager || path_is_file),
{
    match tool {
        ProcessTool::TaskManager => true,
        ProcessTool::ProcessExplorer => path_is_file,
    }
}

/// What the dock reports after trying to start the process tool.
#[derive(Debug)]
pub struct ToolReport {
    /// The message for the settings window, if any.
    pub status: Option<&'static str>,
    /// Whether to open the settings window so the path can be fixed.
    pub open_settings: bool,
}

/// The report after starting the process tool: `found` says whether its program was there
/// (Process Explorer's path names an existing file; Task Manager is always found), `opened`
/// whether the shell started it.
pub open spec fn spec_tool_report(tool: ProcessTool, found: bool, opened: bool) -> (Option<Seq<char>>, bool) {
    if tool == ProcessTool::ProcessExplorer && !found {
        (Some("Process Explorerの実行ファイルが見つかりません"@), true)
    } else if opened {
        (None, false)
    } else if tool == ProcessTool::TaskManager {
        (Some("タスク マネージャーを起動できませんでした"@), false)
    } else {
        (Some("Process Explorerを起動できませんでした"@), true)
    }
}

pub fn tool_report(tool: ProcessTool, found: bool, opened: bool) -> (r: ToolReport)
    ensures
        (match r.status {
            Some(s) => Some(s@),
            None => None,
        }, r.open_settings) == spec_tool_report(tool, found, opened),
{
    match tool {
        ProcessTool::ProcessExplorer if !found => ToolReport {
            status: Some("Process Explorerの実行ファイルが見つかりません"),
            open_settings: true,
        },
        _ => if opened {
            ToolReport { status: None, open_settings: false }
        } else {
            match tool {
                ProcessTool::TaskManager => ToolReport {
                    status: Some("タスク マネージャーを起動できませんでした"),
                    open_settings: false,
                },
                ProcessTool::ProcessExplorer => ToolReport {
                    status: Some("Process Explorerを起動できませんでした"),
                    open_settings: true,
                },
            }
        },
    }
}


/// Starting the process tool: a tool that was started (Task Manager, or Process Explorer whose
/// program was found) reports nothing and opens no settings window; otherwise a message is
/// reported. The settings window opens exactly when Process Explorer could not be used (its
/// program missing or not started), so that its path can be fixed; never for Task Manager.
pub proof fn law_tool_report(tool: ProcessTool, found: bool, opened: bool)
    ensures
        opened && (tool == ProcessTool::TaskManager || found) ==> spec_tool_report(tool, found, opened).0 is None
            && !spec_tool_report(tool, found, opened).1,
        !(opened && (tool == ProcessTool::TaskManager || found)) ==> spec_tool_report(tool, found, opened).0 is Some,
        spec_tool_report(tool, found, opened).1 <==> (tool == ProcessTool::ProcessExplorer && (!found || !opened)),
{
}

/// Whether the running programs are counted again in this frame. When window changes can be
/// watched (`changes` is `Some`): when they changed, or when nothing was counted yet. When they
/// cannot: when nothing was counted yet, or when `poll_ms` milliseconds have passed since the
/// last count (`since_last_ms`).
pub open spec fn spec_refresh_due(changes: Option<bool>, since_last_ms: Option<u64>, poll_ms: u64) -> bool {
    match changes {
        Some(changed) => changed || since_last_ms is None,
        None => match since_last_ms {
            Some(elapsed) => elapsed >= poll_ms,
            None => true,
        },
    }
}

pub fn refresh_due(changes: Option<bool>, since_last_ms: Option<u64>, poll_ms: u64) -> (r: bool)
    ensures
        r == spec_refresh_due(changes, since_last_ms, poll_ms),
{
    match changes {
        Some(changed) => changed || since_last_ms.is_none(),
        None => match since_last_ms {
            Some(elapsed) => elapsed >= poll_ms,
            None => true,
        },
    }
}

/// Milliseconds until the dock is drawn again: at the next minute for the clock (at `second`
/// of the current minute, a leap second counting as 59), and no later than `poll_ms` when
/// window changes are not watched.
pub open spec fn spec_next_repaint_ms(second: u16, watching: bool, poll_ms: u64) -> int {
    let to_next_minute = (60 - if second < 59 { second as int } else { 59 }) * 1000;
    if watching || to_next_minute <= poll_ms {
        to_next_minute
    } else {
        poll_ms as int
    }
}

pub fn next_repaint_ms(second: u16, watching: bool, poll_ms: u64) -> (r: u64)
    ensures
        r == spec_next_repaint_ms(second, watching, poll_ms),
{
    let s: u64 = if second < 59 { second as u64 } else { 59 };
    let to_next_minute: u64 = (60 - s) * 1000;
    if watching || to_next_minute <= poll_ms {
        to_next_minute
    } else {
        poll_ms
    }
}

/// The dock is drawn again within a minute: when window changes are watched, exactly at the
/// start of the next minute (whole seconds away, at least one); otherwise no later than that
/// and no later than the poll interval.
pub proof fn law_next_repaint(second: u16, watching: bool, poll_ms: u64)
    ensures
        spec_next_repaint_ms(second, watching, poll_ms) <= 60_000,
        watching && second < 60 ==> spec_next_repaint_ms(second, watching, poll_ms) == (60 - second) * 1000,
        watching ==> spec_next_repaint_ms(second, watching, poll_ms) >= 1000,
        !watching ==> spec_next_repaint_ms(second, watching, poll_ms) <= poll_ms,
        !watching ==> spec_next_repaint_ms(second, true, poll_ms) >= spec_next_repaint_ms(second, false, poll_ms),
        !watching && poll_ms >= 60_000 ==> spec_next_repaint_ms(second, false, poll_ms) == spec_next_repaint_ms(second, true, poll_ms),
{
}

/// What happens in an open window menu or window picker.
#[derive(Clone, Copy, Debug, PartialEq, Eq)]
pub enum MenuEvent {
    /// "Close all" was pressed.
    CloseAll,
    /// "Really close all" was pressed.
    ConfirmCloseAll,
    /// "Cancel" was pressed.
    Cancel,
    /// One of the windows was chosen.
    WindowChosen,
    /// Another entry that ends the menu was chosen.
    EntryChosen,
    /// The menu was dismissed: Escape, a lost focus, or its window closed.
    Dismissed,
}

/// The menu after an event, from whether it asks to confirm closing every window.
#[derive(Clone, Copy, Debug, PartialEq, Eq)]
pub struct MenuStep {
    /// Whether the menu now asks to confirm closing every window.
    pub confirming: bool,
    /// Whether every listed window is closed now.
    pub close_windows: bool,
    /// Whether the menu closes.
    pub close_menu: bool,
}

/// Closing every window takes two steps: "close all" only asks for confirmation, and only the
/// confirmation while asking closes the windows and the menu. Cancel stops asking; choosing a
/// window or another entry, or dismissing the menu, closes it and stops asking.
pub open spec fn spec_menu_step(confirming: bool, event: MenuEvent) -> MenuStep {
    match event {
        MenuEvent::CloseAll => MenuStep { confirming: true, close_windows: false, close_menu: false },
        MenuEvent::ConfirmCloseAll => MenuStep {
            confirming: false,
            close_windows: confirming,
            close_menu: confirming,
        },
        MenuEvent::Cancel => MenuStep { confirming: false, close_windows: false, close_menu: false },
        _ => MenuStep { confirming: false, close_windows: false, close_menu: true },
    }
}

pub fn menu_step(confirming: bool, event: MenuEvent) -> (r: MenuStep)
    ensures
        r == spec_menu_step(confirming, event),
{
    match event {
        MenuEvent::CloseAll => MenuStep { confirming: true, close_windows: false, close_menu: false },
        MenuEvent::ConfirmCloseAll => MenuStep {
            confirming: false,
            close_windows: confirming,
            close_menu: confirming,
        },
        MenuEvent::Cancel => MenuStep { confirming: false, close_windows: false, close_menu: false },
        _ => MenuStep { confirming: false, close_windows: false, close_menu: true },
    }
}

/// Whether the item a context menu was opened on is still there; a menu whose pin or running
/// program is gone closes at once.
pub open spec fn spec_menu_target_present(target: ContextMenuTarget, pins: int, running: int) -> bool {
    match target {
        ContextMenuTarget::Handle => true,
        ContextMenuTarget::Clock => true,
        ContextMenuTarget::Pinned(i) => i < pins,
        ContextMenuTarget::Running(i) => i < running,
    }
}

pub fn menu_target_present(target: ContextMenuTarget, pins: usize, running: usize) -> (r: bool)
    ensures
        r == spec_menu_target_present(target, pins as int, running as int),
{
    match target {
        ContextMenuTarget::Handle => true,
        ContextMenuTarget::Clock => true,
        ContextMenuTarget::Pinned(i) => i < pins,
        ContextMenuTarget::Running(i) => i < running,
    }
}

/// No single event closes every window of a menu that is not asking to confirm: it takes
/// "close all" and then the confirmation.
pub proof fn law_close_all_needs_confirmation(event: MenuEvent, next: MenuEvent)
    ensures
        !spec_menu_step(false, event).close_windows,
        spec_menu_step(spec_menu_step(false, event).confirming, next).close_windows
            <==> (event == MenuEvent::CloseAll && next == MenuEvent::ConfirmCloseAll),
{
}

/// Activating a program's windows touches only its first window: the foreground window is
/// minimized and nothing else; any other window is brought to the front, and restored first
/// exactly when it is minimized (a window shown normally is never restored).
pub proof fn law_activation_steps(windows: Seq<(isize, Seq<char>)>, foreground: isize, minimized: bool)
    ensures
        windows.len() == 0 ==> spec_activation_steps(windows, foreground, minimized).len() == 0,
        windows.len() > 0 && windows[0].0 == foreground ==> spec_activation_steps(windows, foreground, minimized)
            == seq![WindowStep::Minimize(foreground)],
        windows.len() > 0 && windows[0].0 != foreground ==> {
            let steps = spec_activation_steps(windows, foreground, minimized);
            &&& steps.len() > 0
            &&& steps.last() == WindowStep::SetForeground(windows[0].0)
            &&& (exists|i: int| 0 <= i < steps.len() && #[trigger] steps[i] == WindowStep::Restore(windows[0].0)) <==> minimized
            &&& forall|i: int| 0 <= i < steps.len() ==> !(#[trigger] steps[i] is Minimize)
        },
        forall|i: int| 0 <= i < spec_activation_steps(windows, foreground, minimized).len() ==> match #[trigger] spec_activation_steps(windows, foreground, minimized)[i] {
            WindowStep::Minimize(h) => h == windows[0].0,
            WindowStep::Restore(h) => h == windows[0].0,
            WindowStep::SetForeground(h) => h == windows[0].0,
        },
{
    if windows.len() > 0 && windows[0].0 != foreground {
        let steps = spec_activation_steps(windows, foreground, minimized);
        if minimized {
            assert(steps[0] == WindowStep::Restore(windows[0].0));
        }
    }
}

/// The pins a dock starts with: a saved pin list is taken exactly as saved, even when empty
/// and whatever else is stored; without one, a first run pins the file explorer under
/// `windows_dir` and then the Windows settings URI; after an update from a version without a
/// pin list, the former built-in icons come first and every registered item whose command they
/// lack follows, each command once.
pub proof fn law_initial_pins(
    saved: Option<Seq<(Seq<char>, Seq<char>)>>,
    registered: Option<Seq<(Seq<char>, Seq<char>)>>,
    windows_dir: Seq<char>,
    local_app_data: Seq<char>,
)
    ensures
        saved matches Some(pins) ==> spec_initial_pins(saved, registered, windows_dir, local_app_data) == pins,
        saved is None && registered is None ==> {
            let pins = spec_initial_pins(saved, registered, windows_dir, local_app_data);
            &&& pins.len() == 2
            &&& pins[0].1 == windows_dir + seq!['\\', 'e', 'x', 'p', 'l', 'o', 'r', 'e', 'r', '.', 'e', 'x', 'e']
            &&& pins[1].1 == seq!['m', 's', '-', 's', 'e', 't', 't', 'i', 'n', 'g', 's', ':']
        },
        (saved is None && registered is Some) ==> {
            let reg = registered->0;
            let pins = spec_initial_pins(saved, registered, windows_dir, local_app_data);
            &&& pins.len() >= 4
            &&& pins.subrange(0, 4) == former_builtin_pins(windows_dir, local_app_data)
            &&& forall|k: int| 0 <= k < reg.len() ==> has_command(pins, #[trigger] reg[k].1)
            &&& forall|k: int| 4 <= k < pins.len() ==> reg.contains(#[trigger] pins[k])
        },
{
    reveal_strlit("\\explorer.exe");
    reveal_strlit("ms-settings:");
    assert("\\explorer.exe"@ =~= seq!['\\', 'e', 'x', 'p', 'l', 'o', 'r', 'e', 'r', '.', 'e', 'x', 'e']);
    assert("ms-settings:"@ =~= seq!['m', 's', '-', 's', 'e', 't', 't', 'i', 'n', 'g', 's', ':']);
    if saved is None {
        if let Some(reg) = registered {
            lemma_merge_registered(former_builtin_pins(windows_dir, local_app_data), reg);
        }
    }
}

proof fn lemma_merge_registered(pins: Seq<(Seq<char>, Seq<char>)>, registered: Seq<(Seq<char>, Seq<char>)>)
    ensures
        merge_registered(pins, registered).len() >= pins.len(),
        merge_registered(pins, registered).subrange(0, pins.len() as int) == pins,
        forall|k: int| 0 <= k < registered.len() ==> has_command(merge_registered(pins, registered), #[trigger] registered[k].1),
        forall|k: int| pins.len() <= k < merge_registered(pins, registered).len() ==> registered.contains(
            #[trigger] merge_registered(pins, registered)[k],
        ),
    decreases registered.len(),
{
    if registered.len() > 0 {
        let rest = registered.drop_last();
        let last = registered.last();
        lemma_merge_registered(pins, rest);
        let merged = merge_registered(pins, rest);
        let result = merge_registered(pins, registered);
        assert forall|k: int| 0 <= k < registered.len() implies has_command(result, #[trigger] registered[k].1) by {
            if k < rest.len() {
                assert(rest[k] == registered[k]);
                assert(has_command(merged, rest[k].1));
                let q = choose|q: int| 0 <= q < merged.len() && (#[trigger] merged[q]).1 == rest[k].1;
                assert(result[q] == merged[q]);
            } else {
                if !has_command(merged, last.1) {
                    assert(result[merged.len() as int] == last);
                }
            }
        }
        assert forall|k: int| pins.len() <= k < result.len() implies registered.contains(#[trigger] result[k]) by {
            if k < merged.len() {
                assert(result[k] == merged[k]);
                let q = choose|q: int| 0 <= q < rest.len() && rest[q] == merged[k];
                assert(registered[q] == rest[q]);
            } else {
                assert(result[k] == last);
                assert(registered[registered.len() - 1] == last);
            }
        }
        assert(result.subrange(0, pins.len() as int) =~= merged.subrange(0, pins.len() as int));
    }
}

/// Dropping the same file twice pins it once: after it is added, a pin has its command, so a
/// second drop adds nothing.
pub proof fn law_add_pin_once(items: Seq<ItemView>, path: Seq<char>)
    ensures
        pinned_command(items.push(dropped_pin(path)), path),
{
    assert(items.push(dropped_pin(path))[items.len() as int].command == path);
}

/// Adding a dropped file keeps the commands of the pins distinct.
pub proof fn law_add_pin_keeps_commands_distinct(items: Seq<ItemView>, path: Seq<char>)
    requires
        distinct_commands(items),
        !pinned_command(items, path),
    ensures
        distinct_commands(items.push(dropped_pin(path))),
{
    let after = items.push(dropped_pin(path));
    assert forall|a: int, b: int| 0 <= a < b < after.len() implies (#[trigger] after[a]).command != (#[trigger] after[b]).command by {
        assert(after[a] == items[a]);
        if b < items.len() {
            assert(after[b] == items[b]);
        }
    }
}

/// Unpinning keeps the commands of the pins distinct.
pub proof fn law_unpin_keeps_commands_distinct(items: Seq<ItemView>, index: int)
    requires
        distinct_commands(items),
        0 <= index < items.len(),
    ensures
        distinct_commands(items.remove(index)),
{
    let after = items.remove(index);
    assert forall|a: int, b: int| 0 <= a < b < after.len() implies (#[trigger] after[a]).command != (#[trigger] after[b]).command by {
        let a0 = if a < index { a } else { a + 1 };
        let b0 = if b < index { b } else { b + 1 };
        assert(after[a] == items[a0]);
        assert(after[b] == items[b0]);
    }
}

/// Pinning a running program that matches no pin (as every program a refresh leaves
/// unpinned does) keeps the commands of the pins distinct.
pub proof fn law_pin_running_keeps_commands_distinct(items: Seq<ItemView>, running: ItemView)
    requires
        distinct_commands(items),
        !crate::model::matches_some_pin(items, running),
    ensures
        distinct_commands(items.push(pinned_from_running(running))),
{
    let after = items.push(pinned_from_running(running));
    assert forall|a: int, b: int| 0 <= a < b < after.len() implies (#[trigger] after[a]).command != (#[trigger] after[b]).command by {
        assert(after[a] == items[a]);
        if b < items.len() {
            assert(after[b] == items[b]);
        } else {
            if items[a].command == running.command {
                crate::model::law_same_command_matches(items[a], running);
            }
        }
    }
}

/// After unpinning, the selection is on an existing pin, or 0 when no pin is left.
pub proof fn law_unpin_selection_in_range(selected: int, remaining: int)
    requires
        0 <= selected,
        0 <= remaining,
    ensures
        (0 <= selection_after_unpin(selected, remaining) < remaining) || (remaining == 0
            && selection_after_unpin(selected, remaining) == 0),
{
}

/// Whether no two entries of a pin list have the same command.
pub open spec fn distinct_pin_commands(pins: Seq<(Seq<char>, Seq<char>)>) -> bool {
    forall|a: int, b: int| 0 <= a < b < pins.len() ==> (#[trigger] pins[a]).1 != (#[trigger] pins[b]).1
}

/// Merging the registered items adds no command twice.
pub proof fn law_merge_registered_distinct(pins: Seq<(Seq<char>, Seq<char>)>, registered: Seq<(Seq<char>, Seq<char>)>)
    requires
        distinct_pin_commands(pins),
    ensures
        distinct_pin_commands(merge_registered(pins, registered)),
    decreases registered.len(),
{
    if registered.len() > 0 {
        law_merge_registered_distinct(pins, registered.drop_last());
        let merged = merge_registered(pins, registered.drop_last());
        let c = registered.last().1;
        if !has_command(merged, c) {
            let after = merged.push(registered.last());
            assert forall|a: int, b: int| 0 <= a < b < after.len() implies (#[trigger] after[a]).1 != (#[trigger] after[b]).1 by {
                assert(after[a] == merged[a]);
                if b < merged.len() {
                    assert(after[b] == merged[b]);
                }
            }
        }
    }
}

/// The pins a dock starts with, when they do not come from a saved list, have distinct commands.
pub proof fn law_initial_pins_distinct(
    registered: Option<Seq<(Seq<char>, Seq<char>)>>,
    windows_dir: Seq<char>,
    local_app_data: Seq<char>,
)
    ensures
        distinct_pin_commands(spec_initial_pins(None, registered, windows_dir, local_app_data)),
{
    reveal_strlit("\\explorer.exe");
    reveal_strlit("\\Microsoft\\WindowsApps\\wt.exe");
    reveal_strlit("\\System32\\notepad.exe");
    reveal_strlit("ms-settings:");
    let explorer = windows_dir + "\\explorer.exe"@;
    let terminal = local_app_data + "\\Microsoft\\WindowsApps\\wt.exe"@;
    let notepad = windows_dir + "\\System32\\notepad.exe"@;
    let settings = "ms-settings:"@;
    // The commands differ in one of their last characters.
    assert(explorer[explorer.len() - 5] == 'r');
    assert(terminal[terminal.len() - 5] == 't');
    assert(notepad[notepad.len() - 5] == 'd');
    assert(settings[settings.len() - 1] == ':');
    assert(explorer[explorer.len() - 1] == 'e');
    assert(terminal[terminal.len() - 1] == 'e');
    assert(notepad[notepad.len() - 1] == 'e');
    let builtins = former_builtin_pins(windows_dir, local_app_data);
    assert(distinct_pin_commands(builtins)) by {
        assert forall|a: int, b: int| 0 <= a < b < builtins.len() implies (#[trigger] builtins[a]).1 != (#[trigger] builtins[b]).1 by {
            if builtins[a].1 == builtins[b].1 {
                let x = builtins[a].1;
                let y = builtins[b].1;
                assert(x.len() == y.len());
                assert(x[x.len() - 5] == y[y.len() - 5]);
                assert(x[x.len() - 1] == y[y.len() - 1]);
            }
        }
    }
    let first = first_run_pins(windows_dir);
    assert(distinct_pin_commands(first)) by {
        assert(first[0].1[first[0].1.len() - 1] != first[1].1[first[1].1.len() - 1]);
    }
    match registered {
        Some(reg) => law_merge_registered_distinct(builtins, reg),
        None => {},
    }
}
} // verus!
