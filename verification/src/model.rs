//! Launcher items, running windows, and how running applications are matched to pins
//! and grouped by executable.

use vstd::prelude::*;
use crate::paths::{file_name, file_name_bounds, file_stem_bounds, spec_item_name_for_path};
use crate::text::{
    append_decimal, ascii_lower, ascii_lowercase, decimal, ends_with, lowercase_ends_with, lowercase_equals, append_str, chars_contains, chars_eq_ignore_ascii_case, chars_last_occurrence, chars_of,
    contains, eq_ignore_ascii_case, is_whitespace, last_occurrence, lemma_last_occurrence, lemma_trim_empty,
    occurs_at, string_from, strip_range, trim, CharClass,
};

verus! {

#[derive(Clone, Copy, Debug, PartialEq, Eq)]
pub enum IconKind {
    Folder,
    Terminal,
    Note,
    Settings,
    File,
}

/// A top-level window of a running program.
#[derive(Debug)]
pub struct RunningWindow {
    pub handle: isize,
    pub title: String,
}

impl View for RunningWindow {
    type V = (isize, Seq<char>);

    open spec fn view(&self) -> (isize, Seq<char>) {
        (self.handle, self.title@)
    }
}

impl RunningWindow {
    pub fn copy(&self) -> (r: RunningWindow)
        ensures
            r@ == self@,
    {
        RunningWindow { handle: self.handle, title: self.title.clone() }
    }
}

pub open spec fn windows_view(ws: Seq<RunningWindow>) -> Seq<(isize, Seq<char>)> {
    ws.map_values(|w: RunningWindow| w@)
}

pub fn copy_windows(ws: &Vec<RunningWindow>) -> (r: Vec<RunningWindow>)
    ensures
        windows_view(r@) == windows_view(ws@),
{
    let mut r: Vec<RunningWindow> = Vec::new();
    let mut i: usize = 0;
    while i < ws.len()
        invariant
            i <= ws.len(),
            r@.len() == i,
            forall|k: int| 0 <= k < i ==> #[trigger] r@[k]@ == ws@[k]@,
        decreases ws.len() - i,
    {
        r.push(ws[i].copy());
        i = i + 1;
    }
    assert(windows_view(r@) =~= windows_view(ws@));
    r
}

/// A pinned or running application shown in the dock. Its shell icon, when it has one,
/// is kept by the user interface next to it.
#[derive(Debug)]
pub struct LauncherItem {
    pub name: String,
    pub command: String,
    pub fallback_icon: IconKind,
    pub windows: Vec<RunningWindow>,
    pub active: bool,
}

pub struct ItemView {
    pub name: Seq<char>,
    pub command: Seq<char>,
    pub fallback_icon: IconKind,
    pub windows: Seq<(isize, Seq<char>)>,
    pub active: bool,
}

impl View for LauncherItem {
    type V = ItemView;

    open spec fn view(&self) -> ItemView {
        ItemView {
            name: self.name@,
            command: self.command@,
            fallback_icon: self.fallback_icon,
            windows: windows_view(self.windows@),
            active: self.active,
        }
    }
}

pub open spec fn items_view(items: Seq<LauncherItem>) -> Seq<ItemView> {
    items.map_values(|item: LauncherItem| item@)
}

impl LauncherItem {
    pub fn copy(&self) -> (r: LauncherItem)
        ensures
            r@ == self@,
    {
        LauncherItem {
            name: self.name.clone(),
            command: self.command.clone(),
            fallback_icon: self.fallback_icon,
            windows: copy_windows(&self.windows),
            active: self.active,
        }
    }
}

/// Whether `char::is_alphanumeric` holds of `c` (Unicode `Alphabetic` or `Numeric`).
pub uninterp spec fn unicode_is_alphanumeric(c: char) -> bool;

/// What `char::to_lowercase` yields for `c` (Unicode lowercase mapping).
pub uninterp spec fn unicode_lowercase(c: char) -> Seq<char>;

/// `char::is_alphanumeric`; the result is named, not stated, as it rests on Unicode tables.
#[verifier::external_body]
fn is_alphanumeric(c: char) -> (r: bool)
    ensures
        r == unicode_is_alphanumeric(c),
{
    c.is_alphanumeric()
}

/// `char::to_lowercase`, collected into a `String`; the characters are named, not stated,
/// as they rest on Unicode tables.
#[verifier::external_body]
fn lowercase(c: char) -> (r: String)
    ensures
        r@ == unicode_lowercase(c),
{
    c.to_lowercase().collect()
}

/// A name reduced for comparison: letters and digits only, in lower case.
pub open spec fn normalized_name(s: Seq<char>) -> Seq<char>
    decreases s.len(),
{
    if s.len() == 0 {
        Seq::empty()
    } else {
        let last = s.last();
        normalized_name(s.drop_last()) + if unicode_is_alphanumeric(last) {
            unicode_lowercase(last)
        } else {
            Seq::empty()
        }
    }
}

fn normalize(s: &String) -> (r: Vec<char>)
    ensures
        r@ == normalized_name(s@),
{
    let v = chars_of(s.as_str());
    let mut out = String::new();
    let mut i: usize = 0;
    while i < v.len()
        invariant
            v@ == s@,
            i <= v.len(),
            out@ == normalized_name(v@.take(i as int)),
        decreases v.len() - i,
    {
        let c = v[i];
        assert(v@.take(i + 1).drop_last() == v@.take(i as int));
        if is_alphanumeric(c) {
            let low = lowercase(c);
            append_str(&mut out, low.as_str());
        }
        i = i + 1;
    }
    assert(v@.take(v.len() as int) == v@);
    chars_of(out.as_str())
}

/// Whether a running program is the pinned application: same command ignoring ASCII case;
/// or the Windows settings URI against the settings app; or the running name, reduced to
/// letters and digits in lower case, has at least four characters and occurs in the pinned
/// name reduced the same way.
pub open spec fn spec_same_application(pinned: ItemView, running: ItemView) -> bool {
    ||| eq_ignore_ascii_case(pinned.command, running.command)
    ||| (eq_ignore_ascii_case(pinned.command, "ms-settings:"@) && match file_name(running.command) {
        Some(name) => eq_ignore_ascii_case(name, "SystemSettings.exe"@),
        None => false,
    })
    ||| (normalized_name(running.name).len() >= 4 && contains(
        normalized_name(pinned.name),
        normalized_name(running.name),
    ))
}

pub fn same_application(pinned: &LauncherItem, running: &LauncherItem) -> (r: bool)
    ensures
        r == spec_same_application(pinned@, running@),
{
    let pinned_command = chars_of(pinned.command.as_str());
    let running_command = chars_of(running.command.as_str());
    if chars_eq_ignore_ascii_case(&pinned_command, &running_command) {
        return true;
    }
    let settings = chars_of("ms-settings:");
    if chars_eq_ignore_ascii_case(&pinned_command, &settings) {
        if let Some((i, j)) = file_name_bounds(&running_command) {
            let name = slice_chars(&running_command, i, j);
            let app = chars_of("SystemSettings.exe");
            if chars_eq_ignore_ascii_case(&name, &app) {
                return true;
            }
        }
    }
    let pinned_name = normalize(&pinned.name);
    let running_name = normalize(&running.name);
    names_match(&pinned_name, &running_name)
}

/// The name rule of `same_application`, on names already reduced to lower-case letters and
/// digits: the running name has at least four characters and occurs in the pinned name.
pub fn names_match(pinned_name: &Vec<char>, running_name: &Vec<char>) -> (r: bool)
    ensures
        r == (running_name@.len() >= 4 && contains(pinned_name@, running_name@)),
{
    running_name.len() >= 4 && chars_contains(pinned_name, running_name)
}

/// The characters `v[lo..hi]`.
pub fn slice_chars(v: &Vec<char>, lo: usize, hi: usize) -> (r: Vec<char>)
    requires
        lo <= hi <= v.len(),
    ensures
        r@ == v@.subrange(lo as int, hi as int),
{
    let mut r: Vec<char> = Vec::new();
    let mut i = lo;
    while i < hi
        invariant
            lo <= i <= hi <= v.len(),
            r@ == v@.subrange(lo as int, i as int),
        decreases hi - i,
    {
        r.push(v[i]);
        assert(v@.subrange(lo as int, i + 1) == v@.subrange(lo as int, i as int).push(v@[i as int]));
        i = i + 1;
    }
    r
}

/// The application name shown for a window: what follows the last ` - ` in its title,
/// trimmed, when that is not empty; else the trimmed title; else `fallback`.
pub open spec fn spec_friendly_window_name(title: Seq<char>, fallback: Seq<char>) -> Seq<char> {
    let whole = if trim(title).len() == 0 {
        fallback
    } else {
        trim(title)
    };
    match last_occurrence(title, " - "@) {
        Some(i) => if trim(title.skip(i + 3)).len() > 0 {
            trim(title.skip(i + 3))
        } else {
            whole
        },
        None => whole,
    }
}

pub fn friendly_window_name(title: &str, fallback: &str) -> (r: String)
    ensures
        r@ == spec_friendly_window_name(title@, fallback@),
{
    let v = chars_of(title);
    let separator = chars_of(" - ");
    proof {
        reveal_strlit(" - ");
    }
    if let Some(i) = chars_last_occurrence(&v, &separator) {
        let (lo, hi) = strip_range(&v, i + 3, v.len(), CharClass::Whitespace);
        assert(v@.subrange(i + 3, v@.len() as int) == title@.skip(i + 3));
        if lo < hi {
            return string_from(&v, lo, hi);
        }
    }
    let (lo, hi) = strip_range(&v, 0, v.len(), CharClass::Whitespace);
    assert(v@.subrange(0, v@.len() as int) == title@);
    if lo < hi {
        string_from(&v, lo, hi)
    } else {
        let mut s = String::new();
        append_str(&mut s, fallback);
        s
    }
}


/// The stand-in icon for a command, and the file to take its shell icon from. The Windows
/// settings URI takes its icon from the settings app under `windows_dir`.
pub open spec fn spec_fallback_icon(command: Seq<char>, windows_dir: Seq<char>) -> (IconKind, Seq<char>) {
    let lower = ascii_lowercase(command);
    if lower == "ms-settings:"@ {
        (IconKind::Settings, windows_dir + "\\ImmersiveControlPanel\\SystemSettings.exe"@)
    } else {
        let kind = if ends_with(lower, "\\explorer.exe"@) {
            IconKind::Folder
        } else if ends_with(lower, "\\wt.exe"@) {
            IconKind::Terminal
        } else if ends_with(lower, "\\notepad.exe"@) {
            IconKind::Note
        } else {
            IconKind::File
        };
        (kind, command)
    }
}

pub fn fallback_icon(command: &str, windows_dir: &str) -> (r: (IconKind, String))
    ensures
        (r.0, r.1@) == spec_fallback_icon(command@, windows_dir@),
{
    let v = chars_of(command);
    if lowercase_equals(&v, "ms-settings:") {
        let mut source = String::new();
        append_str(&mut source, windows_dir);
        append_str(&mut source, "\\ImmersiveControlPanel\\SystemSettings.exe");
        return (IconKind::Settings, source);
    }
    let kind = if lowercase_ends_with(&v, "\\explorer.exe") {
        IconKind::Folder
    } else if lowercase_ends_with(&v, "\\wt.exe") {
        IconKind::Terminal
    } else if lowercase_ends_with(&v, "\\notepad.exe") {
        IconKind::Note
    } else {
        IconKind::File
    };
    let mut copy = String::new();
    append_str(&mut copy, command);
    (kind, copy)
}

/// The `(name, command)` of each pin, in order.
pub fn pinned_entries(items: &Vec<LauncherItem>) -> (r: Vec<(String, String)>)
    ensures
        r@.len() == items@.len(),
        forall|k: int| 0 <= k < items@.len() ==> (#[trigger] r@[k].0@, r@[k].1@) == (items@[k].name@, items@[k].command@),
{
    let mut r: Vec<(String, String)> = Vec::new();
    let mut i: usize = 0;
    while i < items.len()
        invariant
            i <= items.len(),
            r@.len() == i,
            forall|k: int| 0 <= k < i ==> (#[trigger] r@[k].0@, r@[k].1@) == (items@[k].name@, items@[k].command@),
        decreases items.len() - i,
    {
        r.push((items[i].name.clone(), items[i].command.clone()));
        i = i + 1;
    }
    r
}

/// The first program, at or after `i`, that is the pinned application.
pub open spec fn first_match_from(pinned: ItemView, discovered: Seq<ItemView>, i: int) -> Option<int>
    decreases discovered.len() - i,
{
    if i < 0 || i >= discovered.len() {
        None
    } else if spec_same_application(pinned, discovered[i]) {
        Some(i)
    } else {
        first_match_from(pinned, discovered, i + 1)
    }
}

/// A pin after a refresh: the windows and active state of the first running program that is
/// the same application, or none.
pub open spec fn assigned(pinned: ItemView, discovered: Seq<ItemView>) -> ItemView {
    match first_match_from(pinned, discovered, 0) {
        Some(k) => ItemView { windows: discovered[k].windows, active: discovered[k].active, ..pinned },
        None => ItemView { windows: Seq::empty(), active: false, ..pinned },
    }
}

/// Whether some pin is the same application as `running`.
pub open spec fn matches_some_pin(items: Seq<ItemView>, running: ItemView) -> bool {
    exists|k: int| 0 <= k < items.len() && spec_same_application(#[trigger] items[k], running)
}

/// The running programs that no pin stands for, in their order.
pub open spec fn unpinned(items: Seq<ItemView>, discovered: Seq<ItemView>) -> Seq<ItemView>
    decreases discovered.len(),
{
    if discovered.len() == 0 {
        Seq::empty()
    } else {
        unpinned(items, discovered.drop_last()) + if matches_some_pin(items, discovered.last()) {
            Seq::empty()
        } else {
            seq![discovered.last()]
        }
    }
}

/// Gives each pin the windows of the running program that is the same application, and
/// returns the running programs that match no pin.
pub fn assign_running(items: &mut Vec<LauncherItem>, discovered: Vec<LauncherItem>) -> (r: Vec<LauncherItem>)
    ensures
        final(items)@.len() == old(items)@.len(),
        forall|k: int| 0 <= k < old(items)@.len() ==> #[trigger] final(items)@[k]@ == assigned(old(items)@[k]@, items_view(discovered@)),
        items_view(r@) == unpinned(items_view(old(items)@), items_view(discovered@)),
{
    let ghost before = items_view(items@);
    let ghost found = items_view(discovered@);
    let mut k: usize = 0;
    while k < items.len()
        invariant
            items@.len() == before.len(),
            found == items_view(discovered@),
            before == items_view(old(items)@),
            k <= items.len(),
            forall|m: int| 0 <= m < k ==> #[trigger] items@[m]@ == assigned(before[m], found),
            forall|m: int| k <= m < items@.len() ==> #[trigger] items@[m]@ == before[m],
        decreases items.len() - k,
    {
        let mut j: usize = 0;
        let mut hit: Option<usize> = None;
        while j < discovered.len()
            invariant_except_break
                hit is None,
            invariant
                found == items_view(discovered@),
                k < items@.len(),
                items@.len() == before.len(),
                items@[k as int]@ == before[k as int],
                j <= discovered.len(),
                first_match_from(before[k as int], found, 0) == first_match_from(before[k as int], found, j as int),
            ensures
                match hit {
                    Some(h) => h < discovered.len() && first_match_from(before[k as int], found, 0) == Some(h as int),
                    None => first_match_from(before[k as int], found, 0) is None,
                },
            decreases discovered.len() - j,
        {
            if same_application(&items[k], &discovered[j]) {
                hit = Some(j);
                break;
            }
            j = j + 1;
        }
        let updated = match hit {
            Some(j) => LauncherItem {
                name: items[k].name.clone(),
                command: items[k].command.clone(),
                fallback_icon: items[k].fallback_icon,
                windows: copy_windows(&discovered[j].windows),
                active: discovered[j].active,
            },
            None => LauncherItem {
                name: items[k].name.clone(),
                command: items[k].command.clone(),
                fallback_icon: items[k].fallback_icon,
                windows: Vec::new(),
                active: false,
            },
        };
        assert(windows_view(Seq::<RunningWindow>::empty()) =~= Seq::empty());
        assert(updated@ == assigned(before[k as int], found));
        items[k] = updated;
        k = k + 1;
    }
    let mut r: Vec<LauncherItem> = Vec::new();
    let mut j: usize = 0;
    while j < discovered.len()
        invariant
            found == items_view(discovered@),
            items@.len() == before.len(),
            forall|m: int| 0 <= m < items@.len() ==> #[trigger] items@[m]@ == assigned(before[m], found),
            j <= discovered.len(),
            items_view(r@) == unpinned(before, found.take(j as int)),
        decreases discovered.len() - j,
    {
        let mut m: usize = 0;
        let mut any = false;
        while m < items.len()
            invariant
                found == items_view(discovered@),
                items@.len() == before.len(),
                forall|q: int| 0 <= q < items@.len() ==> #[trigger] items@[q]@ == assigned(before[q], found),
                j < discovered.len(),
                m <= items.len(),
                any == exists|q: int| 0 <= q < m && spec_same_application(#[trigger] before[q], found[j as int]),
            decreases items.len() - m,
        {
            let same = same_application(&items[m], &discovered[j]);
            assert(spec_same_application(items@[m as int]@, found[j as int]) == spec_same_application(before[m as int], found[j as int]));
            any = any || same;
            m = m + 1;
        }
        assert(found.take(j + 1).drop_last() == found.take(j as int));
        assert(found.take(j + 1).last() == found[j as int]);
        if !any {
            r.push(discovered[j].copy());
            assert(items_view(r@) =~= unpinned(before, found.take(j as int)) + seq![found[j as int]]);
        } else {
            assert(matches_some_pin(before, found[j as int]));
        }
        j = j + 1;
    }
    assert(found.take(discovered@.len() as int) == found);
    r
}

/// The tooltip of a running program: its window count when it has more than one window.
pub open spec fn spec_running_tooltip(item: ItemView) -> Seq<char> {
    if item.windows.len() > 1 {
        item.name + "（"@ + decimal(item.windows.len()) + "個のウィンドウ）"@
    } else {
        item.name + "（実行中）"@
    }
}

pub fn running_tooltip(item: &LauncherItem) -> (r: String)
    ensures
        r@ == spec_running_tooltip(item@),
{
    let mut s = item.name.clone();
    let count = item.windows.len();
    if count > 1 {
        append_str(&mut s, "（");
        append_decimal(&mut s, count);
        append_str(&mut s, "個のウィンドウ）");
    } else {
        append_str(&mut s, "（実行中）");
    }
    s
}

/// The windows of one executable.
#[derive(Debug)]
pub struct WindowGroup {
    pub name: String,
    pub command: String,
    pub windows: Vec<RunningWindow>,
    pub active: bool,
}

pub struct GroupView {
    pub name: Seq<char>,
    pub command: Seq<char>,
    pub windows: Seq<(isize, Seq<char>)>,
    pub active: bool,
}

impl View for WindowGroup {
    type V = GroupView;

    open spec fn view(&self) -> GroupView {
        GroupView {
            name: self.name@,
            command: self.command@,
            windows: windows_view(self.windows@),
            active: self.active,
        }
    }
}

pub open spec fn groups_view(groups: Seq<WindowGroup>) -> Seq<GroupView> {
    groups.map_values(|g: WindowGroup| g@)
}

/// A visible window as enumerated: its handle, the path of its executable, and its title.
pub open spec fn entries_view(windows: Seq<(isize, String, String)>) -> Seq<(isize, Seq<char>, Seq<char>)> {
    windows.map_values(|w: (isize, String, String)| (w.0, w.1@, w.2@))
}

/// The first group, at or after `i`, whose executable is `command` ignoring ASCII case.
pub open spec fn find_group(groups: Seq<GroupView>, command: Seq<char>, i: int) -> Option<int>
    decreases groups.len() - i,
{
    if i < 0 || i >= groups.len() {
        None
    } else if eq_ignore_ascii_case(groups[i].command, command) {
        Some(i)
    } else {
        find_group(groups, command, i + 1)
    }
}

/// The groups after one more window: it joins the group of its executable, which becomes
/// active when the window is the foreground window; or it starts a new group at the end,
/// named after the window's title or, failing that, after the executable.
pub open spec fn add_window(
    groups: Seq<GroupView>,
    window: (isize, Seq<char>, Seq<char>),
    foreground: isize,
) -> Seq<GroupView> {
    let (handle, command, title) = window;
    match find_group(groups, command, 0) {
        Some(k) => groups.update(
            k,
            GroupView {
                windows: groups[k].windows.push((handle, title)),
                active: groups[k].active || handle == foreground,
                ..groups[k]
            },
        ),
        None => groups.push(
            GroupView {
                name: spec_friendly_window_name(title, spec_item_name_for_path(command)),
                command: command,
                windows: seq![(handle, title)],
                active: handle == foreground,
            },
        ),
    }
}

/// The windows grouped by executable, in the order in which each executable first appears.
pub open spec fn grouped(windows: Seq<(isize, Seq<char>, Seq<char>)>, foreground: isize) -> Seq<GroupView>
    decreases windows.len(),
{
    if windows.len() == 0 {
        Seq::empty()
    } else {
        add_window(grouped(windows.drop_last(), foreground), windows.last(), foreground)
    }
}

/// Groups the windows by the path of their executable, keeping the enumeration order.
pub fn group_windows(windows: Vec<(isize, String, String)>, foreground: isize) -> (r: Vec<WindowGroup>)
    ensures
        groups_view(r@) == grouped(entries_view(windows@), foreground),
{
    let ghost ws = entries_view(windows@);
    let mut groups: Vec<WindowGroup> = Vec::new();
    let mut i: usize = 0;
    while i < windows.len()
        invariant
            ws == entries_view(windows@),
            i <= windows.len(),
            groups_view(groups@) == grouped(ws.take(i as int), foreground),
        decreases windows.len() - i,
    {
        let handle = windows[i].0;
        let command = chars_of(windows[i].1.as_str());
        let ghost gv = groups_view(groups@);
        assert(ws.take(i + 1).drop_last() == ws.take(i as int));
        assert(ws.take(i + 1).last() == ws[i as int]);
        let mut k: usize = 0;
        let mut hit: Option<usize> = None;
        while k < groups.len()
            invariant_except_break
                hit is None,
            invariant
                gv == groups_view(groups@),
                k <= groups.len(),
                command@ == ws[i as int].1,
                find_group(gv, command@, 0) == find_group(gv, command@, k as int),
            ensures
                match hit {
                    Some(h) => h < groups.len() && find_group(gv, command@, 0) == Some(h as int),
                    None => find_group(gv, command@, 0) is None,
                },
            decreases groups.len() - k,
        {
            let existing = chars_of(groups[k].command.as_str());
            if chars_eq_ignore_ascii_case(&existing, &command) {
                hit = Some(k);
                break;
            }
            k = k + 1;
        }
        let window = RunningWindow { handle, title: windows[i].2.clone() };
        match hit {
            Some(k) => {
                let mut group = groups.remove(k);
                let ghost before = group@;
                group.windows.push(window);
                group.active = group.active || handle == foreground;
                assert(windows_view(group.windows@) =~= before.windows.push((handle, ws[i as int].2)));
                groups.insert(k, group);
                assert(groups_view(groups@) =~= add_window(gv, ws[i as int], foreground));
            },
            None => {
                let executable = crate::paths::item_name_for_path(windows[i].1.as_str());
                let name = friendly_window_name(windows[i].2.as_str(), executable.as_str());
                let mut ws_new: Vec<RunningWindow> = Vec::new();
                ws_new.push(window);
                let group = WindowGroup {
                    name,
                    command: windows[i].1.clone(),
                    windows: ws_new,
                    active: handle == foreground,
                };
                assert(windows_view(group.windows@) =~= seq![(handle, ws[i as int].2)]);
                groups.push(group);
                assert(groups_view(groups@) =~= add_window(gv, ws[i as int], foreground));
            },
        }
        i = i + 1;
    }
    assert(ws.take(windows@.len() as int) == ws);
    groups
}

/// The dock item of a running program's window group: its name, executable, windows and
/// active state, with the plain file icon until its shell icon is loaded.
pub open spec fn group_item(g: GroupView) -> ItemView {
    ItemView {
        name: g.name,
        command: g.command,
        fallback_icon: IconKind::File,
        windows: g.windows,
        active: g.active,
    }
}

/// The running programs as dock items: the visible windows grouped by executable, in the
/// order their executables first appear, one item per group.
pub fn running_items(windows: Vec<(isize, String, String)>, foreground: isize) -> (r: Vec<LauncherItem>)
    ensures
        items_view(r@) == grouped(entries_view(windows@), foreground).map_values(|g: GroupView| group_item(g)),
{
    let ghost ws = entries_view(windows@);
    let groups = group_windows(windows, foreground);
    let mut items: Vec<LauncherItem> = Vec::new();
    let mut k: usize = 0;
    while k < groups.len()
        invariant
            k <= groups.len(),
            groups_view(groups@) == grouped(ws, foreground),
            items@.len() == k,
            forall|m: int| 0 <= m < k ==> #[trigger] items@[m]@ == group_item(groups@[m]@),
        decreases groups.len() - k,
    {
        let group = &groups[k];
        items.push(LauncherItem {
            name: group.name.clone(),
            command: group.command.clone(),
            fallback_icon: IconKind::File,
            windows: copy_windows(&group.windows),
            active: group.active,
        });
        k = k + 1;
    }
    assert(items_view(items@) =~= grouped(ws, foreground).map_values(|g: GroupView| group_item(g)));
    items
}

/// The windows, in enumeration order, whose executable is `command` ignoring ASCII case.
pub open spec fn windows_for(windows: Seq<(isize, Seq<char>, Seq<char>)>, command: Seq<char>) -> Seq<(isize, Seq<char>)>
    decreases windows.len(),
{
    if windows.len() == 0 {
        Seq::empty()
    } else {
        let last = windows.last();
        windows_for(windows.drop_last(), command) + if eq_ignore_ascii_case(last.1, command) {
            seq![(last.0, last.2)]
        } else {
            Seq::empty()
        }
    }
}

proof fn lemma_eq_ignore_case_symmetric(a: Seq<char>, b: Seq<char>)
    ensures
        eq_ignore_ascii_case(a, b) == eq_ignore_ascii_case(b, a),
{
    if eq_ignore_ascii_case(a, b) {
        assert forall|i: int| 0 <= i < b.len() implies ascii_lower(#[trigger] b[i]) == ascii_lower(a[i]) by {
            assert(ascii_lower(a[i]) == ascii_lower(b[i]));
        }
    }
    if eq_ignore_ascii_case(b, a) {
        assert forall|i: int| 0 <= i < a.len() implies ascii_lower(#[trigger] a[i]) == ascii_lower(b[i]) by {
            assert(ascii_lower(b[i]) == ascii_lower(a[i]));
        }
    }
}

proof fn lemma_eq_ignore_case_transitive(a: Seq<char>, b: Seq<char>, c: Seq<char>)
    requires
        eq_ignore_ascii_case(a, b),
        eq_ignore_ascii_case(b, c),
    ensures
        eq_ignore_ascii_case(a, c),
{
    assert forall|i: int| 0 <= i < a.len() implies ascii_lower(#[trigger] a[i]) == ascii_lower(c[i]) by {
        assert(ascii_lower(a[i]) == ascii_lower(b[i]));
        assert(ascii_lower(b[i]) == ascii_lower(c[i]));
    }
}

proof fn lemma_find_group(groups: Seq<GroupView>, command: Seq<char>, i: int)
    requires
        0 <= i,
    ensures
        match find_group(groups, command, i) {
            Some(k) => i <= k < groups.len() && eq_ignore_ascii_case(groups[k].command, command),
            None => forall|k: int| i <= k < groups.len() ==> !eq_ignore_ascii_case(#[trigger] groups[k].command, command),
        },
    decreases groups.len() - i,
{
    if i < groups.len() && !eq_ignore_ascii_case(groups[i].command, command) {
        lemma_find_group(groups, command, i + 1);
    }
}

proof fn lemma_windows_for_none(windows: Seq<(isize, Seq<char>, Seq<char>)>, command: Seq<char>)
    requires
        forall|i: int| 0 <= i < windows.len() ==> !eq_ignore_ascii_case(#[trigger] windows[i].1, command),
    ensures
        windows_for(windows, command) == Seq::<(isize, Seq<char>)>::empty(),
    decreases windows.len(),
{
    if windows.len() > 0 {
        let rest = windows.drop_last();
        assert forall|i: int| 0 <= i < rest.len() implies !eq_ignore_ascii_case(#[trigger] rest[i].1, command) by {
            assert(rest[i] == windows[i]);
        }
        lemma_windows_for_none(rest, command);
        assert(!eq_ignore_ascii_case(windows[windows.len() - 1].1, command));
        assert(windows_for(windows, command) =~= Seq::empty());
    }
}

/// Whether the group holds the foreground window.
pub open spec fn holds_window(windows: Seq<(isize, Seq<char>)>, handle: isize) -> bool {
    exists|j: int| 0 <= j < windows.len() && (#[trigger] windows[j]).0 == handle
}

/// Grouping windows by executable: no two groups have the same executable (ignoring ASCII
/// case); each group holds exactly the windows of its executable, in enumeration order;
/// a group is active exactly when it holds the foreground window; every window has its group.
pub proof fn law_group_windows(windows: Seq<(isize, Seq<char>, Seq<char>)>, foreground: isize)
    ensures
        forall|a: int, b: int| 0 <= a < b < grouped(windows, foreground).len() ==> !eq_ignore_ascii_case(
            (#[trigger] grouped(windows, foreground)[a]).command,
            (#[trigger] grouped(windows, foreground)[b]).command,
        ),
        forall|k: int| 0 <= k < grouped(windows, foreground).len() ==> (#[trigger] grouped(windows, foreground)[k]).windows
            == windows_for(windows, grouped(windows, foreground)[k].command),
        forall|k: int| 0 <= k < grouped(windows, foreground).len() ==> (#[trigger] grouped(windows, foreground)[k]).active
            == holds_window(grouped(windows, foreground)[k].windows, foreground),
        forall|i: int| 0 <= i < windows.len() ==> exists|k: int| 0 <= k < grouped(windows, foreground).len()
            && eq_ignore_ascii_case((#[trigger] grouped(windows, foreground)[k]).command, (#[trigger] windows[i]).1),
    decreases windows.len(),
{
    let gs = grouped(windows, foreground);
    if windows.len() == 0 {
        return;
    }
    let rest = windows.drop_last();
    let w = windows.last();
    law_group_windows(rest, foreground);
    let before = grouped(rest, foreground);
    assert(gs == add_window(before, w, foreground));
    lemma_find_group(before, w.1, 0);
    match find_group(before, w.1, 0) {
        Some(k) => {
            assert forall|m: int| 0 <= m < before.len() && m != k implies !eq_ignore_ascii_case(w.1, #[trigger] before[m].command) by {
                if eq_ignore_ascii_case(w.1, before[m].command) {
                    lemma_eq_ignore_case_transitive(before[k].command, w.1, before[m].command);
                    if m < k {
                        lemma_eq_ignore_case_symmetric(before[k].command, before[m].command);
                    }
                }
            }
            assert forall|m: int| 0 <= m < gs.len() implies (#[trigger] gs[m]).windows == windows_for(windows, gs[m].command) by {
                assert(windows_for(windows, gs[m].command) == windows_for(rest, gs[m].command) + if eq_ignore_ascii_case(w.1, gs[m].command) {
                    seq![(w.0, w.2)]
                } else {
                    Seq::empty()
                });
                if m == k {
                    lemma_eq_ignore_case_symmetric(before[k].command, w.1);
                } else {
                    assert(windows_for(rest, gs[m].command) + Seq::<(isize, Seq<char>)>::empty() == windows_for(rest, gs[m].command));
                }
            }
            assert forall|m: int| 0 <= m < gs.len() implies (#[trigger] gs[m]).active == holds_window(gs[m].windows, foreground) by {
                if m == k {
                    let old_ws = before[k].windows;
                    let new_ws = gs[k].windows;
                    assert(new_ws == old_ws.push((w.0, w.2)));
                    if holds_window(old_ws, foreground) {
                        let j = choose|j: int| 0 <= j < old_ws.len() && (#[trigger] old_ws[j]).0 == foreground;
                        assert(new_ws[j] == old_ws[j]);
                    }
                    if holds_window(new_ws, foreground) {
                        let j = choose|j: int| 0 <= j < new_ws.len() && (#[trigger] new_ws[j]).0 == foreground;
                        if j < old_ws.len() {
                            assert(new_ws[j] == old_ws[j]);
                        }
                    }
                    if w.0 == foreground {
                        assert(new_ws[old_ws.len() as int].0 == foreground);
                    }
                }
            }
            assert forall|i: int| 0 <= i < windows.len() implies exists|q: int| 0 <= q < gs.len()
                && eq_ignore_ascii_case((#[trigger] gs[q]).command, (#[trigger] windows[i]).1) by {
                if i < rest.len() {
                    assert(windows[i] == rest[i]);
                    let q = choose|q: int| 0 <= q < before.len() && eq_ignore_ascii_case((#[trigger] before[q]).command, rest[i].1);
                    assert(gs[q].command == before[q].command);
                } else {
                    assert(gs[k].command == before[k].command);
                }
            }
        },
        None => {
            assert forall|i: int| 0 <= i < rest.len() implies !eq_ignore_ascii_case(#[trigger] rest[i].1, w.1) by {
                let q = choose|q: int| 0 <= q < before.len() && eq_ignore_ascii_case((#[trigger] before[q]).command, rest[i].1);
                if eq_ignore_ascii_case(rest[i].1, w.1) {
                    lemma_eq_ignore_case_transitive(before[q].command, rest[i].1, w.1);
                }
            }
            lemma_windows_for_none(rest, w.1);
            let n = before.len() as int;
            assert(gs[n].command == w.1);
            assert(eq_ignore_ascii_case(w.1, w.1));
            assert(windows_for(windows, w.1) =~= seq![(w.0, w.2)]);
            assert forall|a: int, b: int| 0 <= a < b < gs.len() implies !eq_ignore_ascii_case(
                (#[trigger] gs[a]).command,
                (#[trigger] gs[b]).command,
            ) by {
                if b == n {
                    assert(gs[a] == before[a]);
                } else {
                    assert(gs[a] == before[a]);
                    assert(gs[b] == before[b]);
                }
            }
            assert forall|m: int| 0 <= m < gs.len() implies (#[trigger] gs[m]).windows == windows_for(windows, gs[m].command) by {
                if m < n {
                    assert(gs[m] == before[m]);
                    lemma_eq_ignore_case_symmetric(before[m].command, w.1);
                    assert(windows_for(windows, gs[m].command) =~= windows_for(rest, gs[m].command));
                }
            }
            assert forall|m: int| 0 <= m < gs.len() implies (#[trigger] gs[m]).active == holds_window(gs[m].windows, foreground) by {
                if m < n {
                    assert(gs[m] == before[m]);
                } else {
                    if w.0 == foreground {
                        assert(gs[m].windows[0].0 == foreground);
                    }
                }
            }
            assert forall|i: int| 0 <= i < windows.len() implies exists|q: int| 0 <= q < gs.len()
                && eq_ignore_ascii_case((#[trigger] gs[q]).command, (#[trigger] windows[i]).1) by {
                if i < rest.len() {
                    assert(windows[i] == rest[i]);
                    let q = choose|q: int| 0 <= q < before.len() && eq_ignore_ascii_case((#[trigger] before[q]).command, rest[i].1);
                    assert(gs[q] == before[q]);
                } else {
                    assert(gs[n].command == w.1);
                    assert(windows[i] == w);
                }
            }
        },
    }
}

/// The first window, in enumeration order, whose executable is `command` ignoring ASCII case.
pub open spec fn first_window(windows: Seq<(isize, Seq<char>, Seq<char>)>, command: Seq<char>) -> Option<int>
    decreases windows.len(),
{
    if windows.len() == 0 {
        None
    } else {
        match first_window(windows.drop_last(), command) {
            Some(i) => Some(i),
            None => if eq_ignore_ascii_case(windows.last().1, command) {
                Some(windows.len() - 1)
            } else {
                None
            },
        }
    }
}

proof fn lemma_first_window(windows: Seq<(isize, Seq<char>, Seq<char>)>, command: Seq<char>)
    ensures
        match first_window(windows, command) {
            Some(i) => 0 <= i < windows.len() && eq_ignore_ascii_case(windows[i].1, command),
            None => forall|j: int| 0 <= j < windows.len() ==> !eq_ignore_ascii_case(#[trigger] windows[j].1, command),
        },
    decreases windows.len(),
{
    if windows.len() > 0 {
        let rest = windows.drop_last();
        lemma_first_window(rest, command);
        match first_window(rest, command) {
            Some(i) => {
                assert(windows[i] == rest[i]);
            },
            None => {
                assert forall|j: int| 0 <= j < rest.len() implies windows[j] == rest[j] by {}
            },
        }
    }
}

/// Groups come in the order in which their executables first appear, and each group keeps
/// the executable path exactly as its first window gave it and is named from that window:
/// the application part of its title, or else the executable's name.
pub proof fn law_group_windows_first_occurrence(windows: Seq<(isize, Seq<char>, Seq<char>)>, foreground: isize)
    ensures
        forall|k: int| 0 <= k < grouped(windows, foreground).len() ==> match first_window(windows, (#[trigger] grouped(windows, foreground)[k]).command) {
            Some(i) => windows[i].1 == grouped(windows, foreground)[k].command
                && grouped(windows, foreground)[k].name == spec_friendly_window_name(windows[i].2, spec_item_name_for_path(windows[i].1)),
            None => false,
        },
        forall|a: int, b: int| 0 <= a < b < grouped(windows, foreground).len() ==>
            first_window(windows, (#[trigger] grouped(windows, foreground)[a]).command).unwrap()
            < first_window(windows, (#[trigger] grouped(windows, foreground)[b]).command).unwrap(),
    decreases windows.len(),
{
    if windows.len() == 0 {
        return;
    }
    let rest = windows.drop_last();
    let w = windows.last();
    let n = rest.len() as int;
    law_group_windows_first_occurrence(rest, foreground);
    law_group_windows(rest, foreground);
    let before = grouped(rest, foreground);
    let gs = grouped(windows, foreground);
    assert(gs == add_window(before, w, foreground));
    assert forall|m: int| 0 <= m < before.len() implies first_window(windows, (#[trigger] before[m]).command)
        == first_window(rest, before[m].command) && first_window(rest, before[m].command).unwrap() < n
        && windows[first_window(rest, before[m].command).unwrap()] == rest[first_window(rest, before[m].command).unwrap()] by {
        lemma_first_window(rest, before[m].command);
    }
    lemma_find_group(before, w.1, 0);
    match find_group(before, w.1, 0) {
        Some(k) => {
            assert forall|m: int| 0 <= m < gs.len() implies (#[trigger] gs[m]).command == before[m].command
                && gs[m].name == before[m].name by {}
        },
        None => {
            let nb = before.len() as int;
            assert forall|i: int| 0 <= i < rest.len() implies !eq_ignore_ascii_case(#[trigger] rest[i].1, w.1) by {
                let q = choose|q: int| 0 <= q < before.len() && eq_ignore_ascii_case((#[trigger] before[q]).command, rest[i].1);
                if eq_ignore_ascii_case(rest[i].1, w.1) {
                    lemma_eq_ignore_case_transitive(before[q].command, rest[i].1, w.1);
                }
            }
            lemma_first_window(rest, w.1);
            assert(eq_ignore_ascii_case(w.1, w.1));
            assert(first_window(windows, w.1) == Some(n));
            assert(windows[n] == w);
            assert(gs[nb].command == w.1);
            assert forall|m: int| 0 <= m < nb implies #[trigger] gs[m] == before[m] by {}
        },
    }
}

/// Two items whose commands are equal ignoring ASCII case (`str::eq_ignore_ascii_case`) are
/// the same application, whatever their names.
pub proof fn law_commands_equal_ignoring_case_match(pinned: ItemView, running: ItemView)
    requires
        pinned.command.len() == running.command.len(),
        forall|i: int| 0 <= i < pinned.command.len() ==> #[trigger] ascii_lower(pinned.command[i])
            == ascii_lower(running.command[i]),
    ensures
        spec_same_application(pinned, running),
{
}

/// A pin of the settings URI (`ms-settings:` in any ASCII case) is the running settings app,
/// whose executable is named `SystemSettings.exe` in any ASCII case, whatever the names.
pub proof fn law_settings_uri_matches_settings_app(pinned: ItemView, running: ItemView, name: Seq<char>)
    requires
        eq_ignore_ascii_case(pinned.command, seq!['m', 's', '-', 's', 'e', 't', 't', 'i', 'n', 'g', 's', ':']),
        file_name(running.command) == Some(name),
        eq_ignore_ascii_case(
            name,
            seq!['S', 'y', 's', 't', 'e', 'm', 'S', 'e', 't', 't', 'i', 'n', 'g', 's', '.', 'e', 'x', 'e'],
        ),
    ensures
        spec_same_application(pinned, running),
{
    reveal_strlit("ms-settings:");
    reveal_strlit("SystemSettings.exe");
    assert("ms-settings:"@ =~= seq!['m', 's', '-', 's', 'e', 't', 't', 'i', 'n', 'g', 's', ':']);
    assert("SystemSettings.exe"@ =~= seq!['S', 'y', 's', 't', 'e', 'm', 'S', 'e', 't', 't', 'i', 'n', 'g', 's', '.', 'e', 'x', 'e']);
}

/// Names decide only when commands do not: a running program whose reduced name has four or
/// more characters and occurs in the pin's reduced name is the pinned application; one whose
/// command differs from the pin's (ignoring ASCII case), whose pin is no settings URI, and whose
/// reduced name is shorter than four characters is not.
pub proof fn law_names_decide_when_commands_differ(pinned: ItemView, running: ItemView)
    ensures
        normalized_name(running.name).len() >= 4 && contains(normalized_name(pinned.name), normalized_name(running.name))
            ==> spec_same_application(pinned, running),
        !eq_ignore_ascii_case(pinned.command, running.command)
            && !eq_ignore_ascii_case(pinned.command, seq!['m', 's', '-', 's', 'e', 't', 't', 'i', 'n', 'g', 's', ':'])
            && normalized_name(running.name).len() < 4 ==> !spec_same_application(pinned, running),
{
    reveal_strlit("ms-settings:");
    assert("ms-settings:"@ =~= seq!['m', 's', '-', 's', 'e', 't', 't', 'i', 'n', 'g', 's', ':']);
}

proof fn lemma_first_match_from(pinned: ItemView, discovered: Seq<ItemView>, i: int)
    requires
        0 <= i,
    ensures
        match first_match_from(pinned, discovered, i) {
            Some(k) => i <= k < discovered.len() && spec_same_application(pinned, discovered[k])
                && forall|m: int| i <= m < k ==> !spec_same_application(pinned, #[trigger] discovered[m]),
            None => forall|m: int| i <= m < discovered.len() ==> !spec_same_application(pinned, #[trigger] discovered[m]),
        },
    decreases discovered.len() - i,
{
    if i < discovered.len() && !spec_same_application(pinned, discovered[i]) {
        lemma_first_match_from(pinned, discovered, i + 1);
    }
}

/// A refresh gives a pin exactly the windows and the active state of the first running program
/// that is the same application, whatever windows and active state the pin had before; its
/// name, command and icon stay.
pub proof fn law_refresh_takes_the_matching_program(pinned: ItemView, discovered: Seq<ItemView>, j: int)
    requires
        0 <= j < discovered.len(),
        spec_same_application(pinned, discovered[j]),
        forall|m: int| 0 <= m < j ==> !spec_same_application(pinned, #[trigger] discovered[m]),
    ensures
        assigned(pinned, discovered).windows == discovered[j].windows,
        assigned(pinned, discovered).active == discovered[j].active,
        assigned(pinned, discovered).name == pinned.name,
        assigned(pinned, discovered).command == pinned.command,
        assigned(pinned, discovered).fallback_icon == pinned.fallback_icon,
{
    lemma_first_match_from(pinned, discovered, 0);
    match first_match_from(pinned, discovered, 0) {
        Some(k) => {
            if k < j {
            } else if k > j {
                assert(!spec_same_application(pinned, discovered[j]));
            }
        },
        None => {
            assert(!spec_same_application(pinned, discovered[j]));
        },
    }
}

/// A refresh leaves a pin that no running program matches with no windows and not active,
/// whatever it had before; its name, command and icon stay.
pub proof fn law_refresh_clears_an_unmatched_pin(pinned: ItemView, discovered: Seq<ItemView>)
    requires
        forall|m: int| 0 <= m < discovered.len() ==> !spec_same_application(pinned, #[trigger] discovered[m]),
    ensures
        assigned(pinned, discovered).windows.len() == 0,
        !assigned(pinned, discovered).active,
        assigned(pinned, discovered).name == pinned.name,
        assigned(pinned, discovered).command == pinned.command,
        assigned(pinned, discovered).fallback_icon == pinned.fallback_icon,
{
    lemma_first_match_from(pinned, discovered, 0);
    if let Some(k) = first_match_from(pinned, discovered, 0) {
        assert(!spec_same_application(pinned, discovered[k]));
    }
}

/// A window title without ` - ` that is not blank names the application by itself, trimmed.
pub proof fn law_title_without_separator_is_the_name(title: Seq<char>, fallback: Seq<char>)
    requires
        forall|i: int| !occurs_at(title, seq![' ', '-', ' '], i),
        trim(title).len() > 0,
    ensures
        spec_friendly_window_name(title, fallback) == trim(title),
{
    reveal_strlit(" - ");
    assert(" - "@ =~= seq![' ', '-', ' ']);
    lemma_last_occurrence(title, " - "@);
    if let Some(i) = last_occurrence(title, " - "@) {
        assert(occurs_at(title, seq![' ', '-', ' '], i));
    }
}

/// A title with ` - ` names the application by what follows the last ` - `, trimmed, when that
/// is not blank; when it is blank, by the whole title trimmed.
pub proof fn law_title_names_what_follows_the_last_separator(title: Seq<char>, fallback: Seq<char>, i: int)
    requires
        occurs_at(title, seq![' ', '-', ' '], i),
        forall|j: int| i < j ==> !occurs_at(title, seq![' ', '-', ' '], j),
    ensures
        trim(title.skip(i + 3)).len() > 0 ==> spec_friendly_window_name(title, fallback) == trim(title.skip(i + 3)),
        trim(title.skip(i + 3)).len() == 0 ==> spec_friendly_window_name(title, fallback) == trim(title),
{
    reveal_strlit(" - ");
    assert(" - "@ =~= seq![' ', '-', ' ']);
    lemma_last_occurrence(title, " - "@);
    match last_occurrence(title, " - "@) {
        Some(k) => {
            if k < i {
                assert(!occurs_at(title, " - "@, i));
            } else if k > i {
                assert(!occurs_at(title, seq![' ', '-', ' '], k));
            }
        },
        None => {
            assert(!occurs_at(title, " - "@, i));
        },
    }
    if trim(title).len() == 0 {
        lemma_trim_empty(title);
        assert(title.subrange(i, i + 3)[1] == '-');
        assert(is_whitespace(title[i + 1]));
    }
}

/// A blank window title names the application by the fallback.
pub proof fn law_blank_title_uses_the_fallback(title: Seq<char>, fallback: Seq<char>)
    requires
        trim(title).len() == 0,
    ensures
        spec_friendly_window_name(title, fallback) == fallback,
{
    reveal_strlit(" - ");
    lemma_trim_empty(title);
    lemma_last_occurrence(title, " - "@);
    if let Some(i) = last_occurrence(title, " - "@) {
        assert(title.subrange(i, i + 3) == " - "@);
        assert(title.subrange(i, i + 3)[1] == '-');
        assert(is_whitespace(title[i + 1]));
    }
}

/// The stand-in icon: the settings URI (any ASCII case) takes the settings app's icon from
/// `<windows_dir>\ImmersiveControlPanel\SystemSettings.exe`; every other command takes its icon
/// from itself, and is a folder, terminal or note only when it ends, ignoring ASCII case, with
/// `\explorer.exe`, `\wt.exe` or `\notepad.exe`.
pub proof fn law_fallback_icon(command: Seq<char>, windows_dir: Seq<char>)
    ensures
        ascii_lowercase(command) == seq!['m', 's', '-', 's', 'e', 't', 't', 'i', 'n', 'g', 's', ':'] ==> {
            &&& spec_fallback_icon(command, windows_dir).0 == IconKind::Settings
            &&& spec_fallback_icon(command, windows_dir).1 == windows_dir + seq!['\\', 'I', 'm', 'm', 'e', 'r', 's', 'i', 'v', 'e', 'C', 'o', 'n', 't', 'r', 'o', 'l', 'P', 'a', 'n', 'e', 'l', '\\', 'S', 'y', 's', 't', 'e', 'm', 'S', 'e', 't', 't', 'i', 'n', 'g', 's', '.', 'e', 'x', 'e']
        },
        ascii_lowercase(command) != seq!['m', 's', '-', 's', 'e', 't', 't', 'i', 'n', 'g', 's', ':'] ==> {
            &&& spec_fallback_icon(command, windows_dir).1 == command
            &&& (spec_fallback_icon(command, windows_dir).0 == IconKind::Folder
                <==> ends_with(ascii_lowercase(command), seq!['\\', 'e', 'x', 'p', 'l', 'o', 'r', 'e', 'r', '.', 'e', 'x', 'e']))
            &&& (spec_fallback_icon(command, windows_dir).0 == IconKind::Terminal
                <==> !ends_with(ascii_lowercase(command), seq!['\\', 'e', 'x', 'p', 'l', 'o', 'r', 'e', 'r', '.', 'e', 'x', 'e'])
                && ends_with(ascii_lowercase(command), seq!['\\', 'w', 't', '.', 'e', 'x', 'e']))
            &&& (spec_fallback_icon(command, windows_dir).0 == IconKind::Note
                <==> !ends_with(ascii_lowercase(command), seq!['\\', 'e', 'x', 'p', 'l', 'o', 'r', 'e', 'r', '.', 'e', 'x', 'e'])
                && !ends_with(ascii_lowercase(command), seq!['\\', 'w', 't', '.', 'e', 'x', 'e'])
                && ends_with(ascii_lowercase(command), seq!['\\', 'n', 'o', 't', 'e', 'p', 'a', 'd', '.', 'e', 'x', 'e']))
            &&& spec_fallback_icon(command, windows_dir).0 != IconKind::Settings
        },
{
    reveal_strlit("ms-settings:");
    reveal_strlit("\\ImmersiveControlPanel\\SystemSettings.exe");
    reveal_strlit("\\explorer.exe");
    reveal_strlit("\\wt.exe");
    reveal_strlit("\\notepad.exe");
    assert("ms-settings:"@ =~= seq!['m', 's', '-', 's', 'e', 't', 't', 'i', 'n', 'g', 's', ':']);
    assert("\\ImmersiveControlPanel\\SystemSettings.exe"@ =~= seq!['\\', 'I', 'm', 'm', 'e', 'r', 's', 'i', 'v', 'e', 'C', 'o', 'n', 't', 'r', 'o', 'l', 'P', 'a', 'n', 'e', 'l', '\\', 'S', 'y', 's', 't', 'e', 'm', 'S', 'e', 't', 't', 'i', 'n', 'g', 's', '.', 'e', 'x', 'e']);
    assert("\\explorer.exe"@ =~= seq!['\\', 'e', 'x', 'p', 'l', 'o', 'r', 'e', 'r', '.', 'e', 'x', 'e']);
    assert("\\wt.exe"@ =~= seq!['\\', 'w', 't', '.', 'e', 'x', 'e']);
    assert("\\notepad.exe"@ =~= seq!['\\', 'n', 'o', 't', 'e', 'p', 'a', 'd', '.', 'e', 'x', 'e']);
}

/// The tooltip of a running program is its name followed, in full-width brackets, by
/// "running" when it has one window or none, or by its window count when it has several.
pub proof fn law_running_tooltip(item: ItemView)
    ensures
        item.windows.len() <= 1 ==> spec_running_tooltip(item) == item.name + seq!['（', '実', '行', '中', '）'],
        item.windows.len() > 1 ==> spec_running_tooltip(item) == item.name + seq!['（'] + decimal(item.windows.len())
            + seq!['個', 'の', 'ウ', 'ィ', 'ン', 'ド', 'ウ', '）'],
{
    reveal_strlit("（");
    reveal_strlit("（実行中）");
    reveal_strlit("個のウィンドウ）");
    assert("（実行中）"@ =~= seq!['（', '実', '行', '中', '）']);
    assert("（"@ =~= seq!['（']);
    assert("個のウィンドウ）"@ =~= seq!['個', 'の', 'ウ', 'ィ', 'ン', 'ド', 'ウ', '）']);
}

/// A program matches itself: a running program always matches a pin with its command.
pub proof fn law_same_command_matches(pinned: ItemView, running: ItemView)
    requires
        pinned.command == running.command,
    ensures
        spec_same_application(pinned, running),
{
}

/// After a refresh, the programs returned are exactly the running programs that match no pin,
/// in their order: each one returned was found running and matches no pin, and each running
/// program that matches no pin is returned.
pub proof fn law_unpinned_are_the_unmatched(items: Seq<ItemView>, discovered: Seq<ItemView>)
    ensures
        forall|j: int| 0 <= j < unpinned(items, discovered).len() ==> !matches_some_pin(items, #[trigger] unpinned(items, discovered)[j])
            && discovered.contains(unpinned(items, discovered)[j]),
        forall|i: int| 0 <= i < discovered.len() && !matches_some_pin(items, #[trigger] discovered[i]) ==> unpinned(items, discovered).contains(discovered[i]),
    decreases discovered.len(),
{
    if discovered.len() == 0 {
        return;
    }
    let rest = discovered.drop_last();
    let last = discovered.last();
    law_unpinned_are_the_unmatched(items, rest);
    let before = unpinned(items, rest);
    let after = unpinned(items, discovered);
    let tail: Seq<ItemView> = if matches_some_pin(items, last) { Seq::empty() } else { seq![last] };
    assert(after == before + tail);
    assert forall|j: int| 0 <= j < after.len() implies !matches_some_pin(items, #[trigger] after[j]) && discovered.contains(after[j]) by {
        if j < before.len() {
            assert(after[j] == before[j]);
            let q = choose|q: int| 0 <= q < rest.len() && rest[q] == before[j];
            assert(discovered[q] == rest[q]);
        } else {
            assert(after[j] == last);
            assert(discovered[discovered.len() - 1] == last);
        }
    }
    assert forall|i: int| 0 <= i < discovered.len() && !matches_some_pin(items, #[trigger] discovered[i]) implies after.contains(discovered[i]) by {
        if i < rest.len() {
            assert(rest[i] == discovered[i]);
            let q = choose|q: int| 0 <= q < before.len() && before[q] == rest[i];
            assert(after[q] == before[q]);
        } else {
            assert(after[before.len() as int] == last);
        }
    }
}

/// Whether a command is the Windows settings URI (`ms-settings:`, ignoring ASCII case), which
/// is no file: it has a single window and no file actions.
pub fn is_settings_uri(command: &str) -> (r: bool)
    ensures
        r == eq_ignore_ascii_case(command@, "ms-settings:"@),
{
    let v = chars_of(command);
    let settings = chars_of("ms-settings:");
    chars_eq_ignore_ascii_case(&v, &settings)
}
} // verus!
