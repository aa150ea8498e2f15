//! The process-tool entry of the desktop and folder background menu: what it shows and
//! runs, and which registry values the dock writes to keep it in line with its settings.

use vstd::prelude::*;
use crate::config::ProcessTool;
use crate::text::{
    append_chars, append_str, chars_of, in_class, lemma_strip_shape, string_from, strip, strip_range, trim,
    CharClass,
};

verus! {

/// A path as typed or pasted: white space, then quotation marks, removed from both ends.
pub open spec fn spec_normalized_executable_path(value: Seq<char>) -> Seq<char> {
    strip(trim(value), CharClass::Quote)
}

pub fn normalized_executable_path(value: &str) -> (r: String)
    ensures
        r@ == spec_normalized_executable_path(value@),
{
    let v = chars_of(value);
    let (lo, hi) = strip_range(&v, 0, v.len(), CharClass::Whitespace);
    assert(v@.subrange(0, v@.len() as int) == value@);
    let (a, b) = strip_range(&v, lo, hi, CharClass::Quote);
    string_from(&v, a, b)
}

/// `s` in double quotation marks.
pub open spec fn quoted(s: Seq<char>) -> Seq<char> {
    seq!['"'] + s + seq!['"']
}

pub fn quote(s: &str) -> (r: String)
    ensures
        r@ == quoted(s@),
{
    let q = vec!['"'];
    let mut r = String::new();
    append_chars(&mut r, &q, 0, 1);
    append_str(&mut r, s);
    append_chars(&mut r, &q, 0, 1);
    assert(q@.subrange(0, 1) == seq!['"']);
    r
}

/// The label and command of the menu entry: Process Explorer, quoted, when it is chosen and
/// its path is set; Task Manager otherwise.
pub open spec fn spec_process_tool_entry(tool: ProcessTool, process_explorer_path: Seq<char>) -> (Seq<char>, Seq<char>) {
    let path = spec_normalized_executable_path(process_explorer_path);
    if tool == ProcessTool::ProcessExplorer && path.len() > 0 {
        ("Process Explorer"@, quoted(path))
    } else {
        ("タスク マネージャー"@, "taskmgr.exe"@)
    }
}

pub fn process_tool_entry(tool: ProcessTool, process_explorer_path: &str) -> (r: (&'static str, String))
    ensures
        (r.0@, r.1@) == spec_process_tool_entry(tool, process_explorer_path@),
{
    let path = normalized_executable_path(process_explorer_path);
    let path_chars = chars_of(path.as_str());
    match tool {
        ProcessTool::ProcessExplorer if path_chars.len() > 0 => ("Process Explorer", quote(path.as_str())),
        _ => {
            let mut command = String::new();
            append_str(&mut command, "taskmgr.exe");
            ("タスク マネージャー", command)
        },
    }
}

/// The background submenus (desktop, then folders) whose process-tool entry the dock keeps
/// up to date.
pub open spec fn spec_menu_roots() -> Seq<Seq<char>> {
    seq![
        "Software\\Classes\\DesktopBackground\\Shell\\WindowsSideDock\\shell\\02ProcessTool"@,
        "Software\\Classes\\Directory\\Background\\Shell\\WindowsSideDock\\shell\\02ProcessTool"@,
    ]
}

pub fn menu_roots() -> (r: Vec<&'static str>)
    ensures
        r@.len() == 2,
        r@[0]@ == spec_menu_roots()[0],
        r@[1]@ == spec_menu_roots()[1],
{
    let mut r: Vec<&'static str> = Vec::new();
    r.push("Software\\Classes\\DesktopBackground\\Shell\\WindowsSideDock\\shell\\02ProcessTool");
    r.push("Software\\Classes\\Directory\\Background\\Shell\\WindowsSideDock\\shell\\02ProcessTool");
    r
}

/// A string value to write under `HKEY_CURRENT_USER`: `key\subkey`, value `name`.
#[derive(Debug)]
pub struct RegistryWrite {
    pub key: String,
    pub subkey: String,
    pub name: String,
    pub value: String,
}

pub struct RegistryWriteView {
    pub key: Seq<char>,
    pub subkey: Seq<char>,
    pub name: Seq<char>,
    pub value: Seq<char>,
}

impl View for RegistryWrite {
    type V = RegistryWriteView;

    open spec fn view(&self) -> RegistryWriteView {
        RegistryWriteView { key: self.key@, subkey: self.subkey@, name: self.name@, value: self.value@ }
    }
}

pub open spec fn writes_view(ws: Seq<RegistryWrite>) -> Seq<RegistryWriteView> {
    ws.map_values(|w: RegistryWrite| w@)
}

/// The two writes for one installed menu root: the entry's label, then its command.
pub open spec fn root_writes(root: Seq<char>, entry: (Seq<char>, Seq<char>)) -> Seq<RegistryWriteView> {
    seq![
        RegistryWriteView { key: root, subkey: Seq::empty(), name: "MUIVerb"@, value: entry.0 },
        RegistryWriteView { key: root, subkey: "command"@, name: Seq::empty(), value: entry.1 },
    ]
}

/// The writes for the menu roots that exist (`installed[k]` for root `k`), in root order.
pub open spec fn spec_menu_writes(installed: Seq<bool>, entry: (Seq<char>, Seq<char>)) -> Seq<RegistryWriteView> {
    (if installed[0] { root_writes(spec_menu_roots()[0], entry) } else { Seq::empty() }) + (if installed[1] {
        root_writes(spec_menu_roots()[1], entry)
    } else {
        Seq::empty()
    })
}

fn copy_str(s: &str) -> (r: String)
    ensures
        r@ == s@,
{
    let mut r = String::new();
    append_str(&mut r, s);
    r
}

/// What the dock writes so that the background menus match its process-tool setting; menus
/// that are not installed are left alone.
pub fn process_tool_menu_writes(tool: ProcessTool, process_explorer_path: &str, installed: &Vec<bool>) -> (r: Vec<RegistryWrite>)
    requires
        installed@.len() == 2,
    ensures
        writes_view(r@) == spec_menu_writes(installed@, spec_process_tool_entry(tool, process_explorer_path@)),
{
    let (label, command) = process_tool_entry(tool, process_explorer_path);
    let ghost entry = (label@, command@);
    let roots = menu_roots();
    let mut r: Vec<RegistryWrite> = Vec::new();
    let mut k: usize = 0;
    while k < 2
        invariant
            roots@.len() == 2,
            roots@[0]@ == spec_menu_roots()[0],
            roots@[1]@ == spec_menu_roots()[1],
            installed@.len() == 2,
            entry == (label@, command@),
            k <= 2,
            writes_view(r@) == (if k > 0 && installed@[0] { root_writes(spec_menu_roots()[0], entry) } else { Seq::empty() }) + (if k > 1 && installed@[1] {
                root_writes(spec_menu_roots()[1], entry)
            } else {
                Seq::empty()
            }),
        decreases 2 - k,
    {
        if installed[k] {
            let ghost before = writes_view(r@);
            r.push(RegistryWrite {
                key: copy_str(roots[k]),
                subkey: String::new(),
                name: copy_str("MUIVerb"),
                value: copy_str(label),
            });
            r.push(RegistryWrite {
                key: copy_str(roots[k]),
                subkey: copy_str("command"),
                name: String::new(),
                value: command.clone(),
            });
            assert(writes_view(r@) =~= before + root_writes(spec_menu_roots()[k as int], entry));
        }
        k = k + 1;
    }
    r
}

/// The process-tool entry: Task Manager (`taskmgr.exe`) whatever the Process Explorer path
/// when Task Manager is chosen, and also when Process Explorer is chosen without a path; else
/// Process Explorer, its path (as normalized) in double quotes.
pub proof fn law_process_tool_entry(tool: ProcessTool, process_explorer_path: Seq<char>, other_path: Seq<char>)
    ensures
        tool == ProcessTool::TaskManager ==> spec_process_tool_entry(tool, process_explorer_path)
            == spec_process_tool_entry(tool, other_path),
        tool == ProcessTool::TaskManager ==> spec_process_tool_entry(tool, process_explorer_path).1
            == seq!['t', 'a', 's', 'k', 'm', 'g', 'r', '.', 'e', 'x', 'e'],
        tool == ProcessTool::ProcessExplorer && spec_normalized_executable_path(process_explorer_path).len() == 0
            ==> spec_process_tool_entry(tool, process_explorer_path) == spec_process_tool_entry(ProcessTool::TaskManager, process_explorer_path),
        tool == ProcessTool::ProcessExplorer && spec_normalized_executable_path(process_explorer_path).len() > 0 ==> {
            &&& spec_process_tool_entry(tool, process_explorer_path).1 == seq!['"'] + spec_normalized_executable_path(process_explorer_path) + seq!['"']
            &&& spec_process_tool_entry(tool, process_explorer_path).0
                == seq!['P', 'r', 'o', 'c', 'e', 's', 's', ' ', 'E', 'x', 'p', 'l', 'o', 'r', 'e', 'r']
        },
{
    reveal_strlit("taskmgr.exe");
    reveal_strlit("Process Explorer");
    assert("taskmgr.exe"@ =~= seq!['t', 'a', 's', 'k', 'm', 'g', 'r', '.', 'e', 'x', 'e']);
    assert("Process Explorer"@ =~= seq!['P', 'r', 'o', 'c', 'e', 's', 's', ' ', 'E', 'x', 'p', 'l', 'o', 'r', 'e', 'r']);
}

/// A normalized path is the trimmed text with only quotation marks cut from its ends: a piece
/// of it that does not start or end with a quotation mark, with nothing but quotation marks cut.
pub proof fn law_normalized_path_cuts_only_quotes(value: Seq<char>)
    ensures
        exists|lo: int, hi: int|
            0 <= lo <= hi <= trim(value).len() && spec_normalized_executable_path(value) == trim(value).subrange(lo, hi)
                && (forall|k: int| 0 <= k < lo ==> (#[trigger] trim(value)[k] == '"' || trim(value)[k] == '\''))
                && (forall|k: int| hi <= k < trim(value).len() ==> (#[trigger] trim(value)[k] == '"' || trim(value)[k] == '\''))
                && (lo < hi ==> trim(value)[lo] != '"' && trim(value)[lo] != '\'' && trim(value)[hi - 1] != '"'
                    && trim(value)[hi - 1] != '\''),
{
    let t = trim(value);
    lemma_strip_shape(t, CharClass::Quote);
    let (lo, hi) = choose|lo: int, hi: int|
        0 <= lo <= hi <= t.len() && strip(t, CharClass::Quote) == t.subrange(lo, hi) && (forall|k: int|
            0 <= k < lo ==> in_class(#[trigger] t[k], CharClass::Quote)) && (forall|k: int|
            hi <= k < t.len() ==> in_class(#[trigger] t[k], CharClass::Quote)) && (lo < hi ==> !in_class(
            t[lo],
            CharClass::Quote,
        ) && !in_class(t[hi - 1], CharClass::Quote));
    assert forall|k: int| 0 <= k < lo implies (#[trigger] t[k] == '"' || t[k] == '\'') by {
        assert(in_class(t[k], CharClass::Quote));
    }
    assert forall|k: int| hi <= k < t.len() implies (#[trigger] t[k] == '"' || t[k] == '\'') by {
        assert(in_class(t[k], CharClass::Quote));
    }
}

/// The menu writes: each installed background menu gets its label (`MUIVerb`) and its command
/// set to the process-tool entry, desktop first; a menu that is not installed gets no write.
pub proof fn law_menu_writes(installed: Seq<bool>, entry: (Seq<char>, Seq<char>))
    requires
        installed.len() == 2,
    ensures
        spec_menu_writes(installed, entry).len() == (if installed[0] { 2int } else { 0 }) + (if installed[1] { 2int } else { 0 }),
        forall|i: int| 0 <= i < spec_menu_writes(installed, entry).len() ==> {
            let w = #[trigger] spec_menu_writes(installed, entry)[i];
            &&& (w.key == spec_menu_roots()[0] && installed[0]) || (w.key == spec_menu_roots()[1] && installed[1])
            &&& (w.value == entry.0 && w.name == seq!['M', 'U', 'I', 'V', 'e', 'r', 'b'] && w.subkey.len() == 0)
                || (w.value == entry.1 && w.subkey == seq!['c', 'o', 'm', 'm', 'a', 'n', 'd'] && w.name.len() == 0)
        },
{
    reveal_strlit("MUIVerb");
    reveal_strlit("command");
    assert("MUIVerb"@ =~= seq!['M', 'U', 'I', 'V', 'e', 'r', 'b']);
    assert("command"@ =~= seq!['c', 'o', 'm', 'm', 'a', 'n', 'd']);
    let ws = spec_menu_writes(installed, entry);
    let a: Seq<RegistryWriteView> = if installed[0] { root_writes(spec_menu_roots()[0], entry) } else { Seq::empty() };
    assert forall|i: int| 0 <= i < ws.len() implies {
        let w = #[trigger] ws[i];
        &&& (w.key == spec_menu_roots()[0] && installed[0]) || (w.key == spec_menu_roots()[1] && installed[1])
        &&& (w.value == entry.0 && w.name == seq!['M', 'U', 'I', 'V', 'e', 'r', 'b'] && w.subkey.len() == 0)
            || (w.value == entry.1 && w.subkey == seq!['c', 'o', 'm', 'm', 'a', 'n', 'd'] && w.name.len() == 0)
    } by {
        if i < a.len() {
            assert(ws[i] == a[i]);
        } else {
            assert(ws[i] == root_writes(spec_menu_roots()[1], entry)[i - a.len()]);
        }
    }
}
} // verus!
