//! The "Windows Side Dock" submenu that the shell extension adds to the desktop and folder
//! backgrounds: its entries, their titles, what choosing one runs, and the cursor of the
//! enumeration of its subentries.

use vstd::prelude::*;
use crate::command_line::{spec_split_command, split_command};
use crate::shell_menu::{quote, quoted};
use crate::text::append_str;

verus! {

#[derive(Clone, Copy, Debug, PartialEq, Eq)]
pub enum ExplorerItem {
    /// "Windows Side Dock", holding the two entries below.
    Root,
    OpenFolder,
    ProcessTool,
}

/// The subentries of `item`: the root holds "open the install folder" and the process tool.
pub fn sub_commands(item: ExplorerItem) -> (r: Option<Vec<ExplorerItem>>)
    ensures
        item == ExplorerItem::Root ==> (r matches Some(v) && v@ == seq![ExplorerItem::OpenFolder, ExplorerItem::ProcessTool]),
        item != ExplorerItem::Root ==> r is None,
{
    match item {
        ExplorerItem::Root => {
            let mut v: Vec<ExplorerItem> = Vec::new();
            v.push(ExplorerItem::OpenFolder);
            v.push(ExplorerItem::ProcessTool);
            assert(v@ =~= seq![ExplorerItem::OpenFolder, ExplorerItem::ProcessTool]);
            Some(v)
        },
        _ => None,
    }
}

/// The title of `item`; the process tool's title is the label registered for it.
pub open spec fn spec_item_title(item: ExplorerItem, process_tool_label: Seq<char>) -> Seq<char> {
    match item {
        ExplorerItem::Root => "Windows Side Dock"@,
        ExplorerItem::OpenFolder => "Windows Side Dockの場所を開く"@,
        ExplorerItem::ProcessTool => process_tool_label,
    }
}

pub fn item_title(item: ExplorerItem, process_tool_label: &str) -> (r: String)
    ensures
        r@ == spec_item_title(item, process_tool_label@),
{
    let mut r = String::new();
    match item {
        ExplorerItem::Root => append_str(&mut r, "Windows Side Dock"),
        ExplorerItem::OpenFolder => append_str(&mut r, "Windows Side Dockの場所を開く"),
        ExplorerItem::ProcessTool => append_str(&mut r, process_tool_label),
    }
    r
}

/// The process-tool entry as the dock registered it; Task Manager where a value is missing.
pub open spec fn spec_registered_process_tool(label: Option<Seq<char>>, command: Option<Seq<char>>) -> (Seq<char>, Seq<char>) {
    (
        match label {
            Some(l) => l,
            None => "タスク マネージャー"@,
        },
        match command {
            Some(c) => c,
            None => "taskmgr.exe"@,
        },
    )
}

pub fn registered_process_tool(label: Option<String>, command: Option<String>) -> (r: (String, String))
    ensures
        (r.0@, r.1@) == spec_registered_process_tool(
            match label {
                Some(l) => Some(l@),
                None => None,
            },
            match command {
                Some(c) => Some(c@),
                None => None,
            },
        ),
{
    let l = match label {
        Some(l) => l,
        None => {
            let mut s = String::new();
            append_str(&mut s, "タスク マネージャー");
            s
        },
    };
    let c = match command {
        Some(c) => c,
        None => {
            let mut s = String::new();
            append_str(&mut s, "taskmgr.exe");
            s
        },
    };
    (l, c)
}

/// What choosing an entry runs.
#[derive(Debug)]
pub enum ExplorerInvoke {
    Nothing,
    /// Run `file` with `parameters` through the shell.
    Run { file: String, parameters: String },
}

/// Choosing an entry: the root runs nothing; "open the install folder" opens the explorer on
/// the folder, quoted, when the folder is known; the process tool runs its registered command
/// split into program and arguments.
pub fn invoke_action(item: ExplorerItem, install_directory: Option<&str>, process_tool_command: &str) -> (r: ExplorerInvoke)
    ensures
        match item {
            ExplorerItem::Root => r is Nothing,
            ExplorerItem::OpenFolder => match install_directory {
                Some(dir) => (r matches ExplorerInvoke::Run { file, parameters } && file@ == "explorer.exe"@ && parameters@ == quoted(dir@)),
                None => r is Nothing,
            },
            ExplorerItem::ProcessTool => (r matches ExplorerInvoke::Run { file, parameters } && (file@, parameters@) == spec_split_command(process_tool_command@)),
        },
{
    match item {
        ExplorerItem::Root => ExplorerInvoke::Nothing,
        ExplorerItem::OpenFolder => match install_directory {
            Some(dir) => {
                let mut file = String::new();
                append_str(&mut file, "explorer.exe");
                ExplorerInvoke::Run { file, parameters: quote(dir) }
            },
            None => ExplorerInvoke::Nothing,
        },
        ExplorerItem::ProcessTool => {
            let (file, parameters) = split_command(process_tool_command);
            ExplorerInvoke::Run { file, parameters }
        },
    }
}

/// `IEnumExplorerCommand::Next` over `len` entries with the cursor at `next`: hands out up to
/// `count` entries and returns the new cursor and how many were handed out.
pub fn enumerate_next(len: usize, next: usize, count: u32) -> (r: (usize, u32))
    requires
        next <= len,
    ensures
        r.1 == if count as int <= len - next { count as int } else { len - next },
        r.0 == next + r.1,
{
    let left = len - next;
    if (count as usize) <= left {
        (next + count as usize, count)
    } else {
        (len, left as u32)
    }
}

/// `IEnumExplorerCommand::Skip`: moves the cursor on by `count`, not past the end.
pub fn enumerate_skip(len: usize, next: usize, count: u32) -> (r: usize)
    requires
        next + count <= usize::MAX,
    ensures
        r == if next + count <= len { next + count } else { len as int },
{
    let moved = next + count as usize;
    if moved < len {
        moved
    } else {
        len
    }
}

/// The registered process-tool entry keeps each value the dock registered, exactly; a missing
/// label falls back to Task Manager's and a missing command to `taskmgr.exe`, each on its own.
pub proof fn law_registered_process_tool(label: Option<Seq<char>>, command: Option<Seq<char>>)
    ensures
        label matches Some(l) ==> spec_registered_process_tool(label, command).0 == l,
        command matches Some(c) ==> spec_registered_process_tool(label, command).1 == c,
        command is None ==> spec_registered_process_tool(label, command).1 == seq!['t', 'a', 's', 'k', 'm', 'g', 'r', '.', 'e', 'x', 'e'],
        label is None ==> spec_registered_process_tool(label, command).0 == spec_registered_process_tool(None, Some(Seq::empty())).0,
{
    reveal_strlit("taskmgr.exe");
    assert("taskmgr.exe"@ =~= seq!['t', 'a', 's', 'k', 'm', 'g', 'r', '.', 'e', 'x', 'e']);
}

/// Only the process-tool entry is titled by its registered label; the other titles do not
/// depend on it, and the three titles differ.
pub proof fn law_item_titles(label: Seq<char>, other: Seq<char>)
    ensures
        spec_item_title(ExplorerItem::ProcessTool, label) == label,
        spec_item_title(ExplorerItem::Root, label) == spec_item_title(ExplorerItem::Root, other),
        spec_item_title(ExplorerItem::OpenFolder, label) == spec_item_title(ExplorerItem::OpenFolder, other),
        spec_item_title(ExplorerItem::Root, label) != spec_item_title(ExplorerItem::OpenFolder, label),
{
    reveal_strlit("Windows Side Dock");
    reveal_strlit("Windows Side Dockの場所を開く");
    assert("Windows Side Dock"@.len() != "Windows Side Dockの場所を開く"@.len());
}
} // verus!
