//! The settings that the dock stores, each in a small text file: how their contents are
//! read back and what is written.

use vstd::prelude::*;
use crate::layout::{center_in_right_half, spec_center_in_right_half};
use crate::text::{
    append_chars, chars_of, find, find_char, lemma_find_from, lemma_strip_idempotent, string_from,
    trim, trimmed, trimmed_equals, CharClass,
};

verus! {

/// The screen edge the dock sits on.
#[derive(Clone, Copy, Debug, PartialEq, Eq)]
pub enum DockSide {
    Left,
    Right,
}

/// The program the clock's menu starts.
#[derive(Clone, Copy, Debug, PartialEq, Eq)]
pub enum ProcessTool {
    TaskManager,
    ProcessExplorer,
}

/// The side on which the dock's popups open.
#[derive(Clone, Copy, Debug, PartialEq, Eq)]
pub enum PopupDirection {
    /// Toward the middle of the screen, as the dock window stands.
    Auto,
    Left,
    Right,
}

/// Whether popups open to the left of the dock. `Auto` opens them to the left when the dock
/// window is not found (`dock` is `None`), or when the middle of its span `left..right` lies
/// in the right half of a screen `screen_width` wide.
pub open spec fn spec_popup_opens_left(direction: PopupDirection, dock: Option<(i32, i32)>, screen_width: i32) -> bool {
    match direction {
        PopupDirection::Auto => match dock {
            Some((left, right)) => spec_center_in_right_half(left as int, right as int, screen_width as int),
            None => true,
        },
        PopupDirection::Left => true,
        PopupDirection::Right => false,
    }
}

pub fn popup_opens_left(direction: PopupDirection, dock: Option<(i32, i32)>, screen_width: i32) -> (r: bool)
    requires
        match dock {
            Some((left, right)) => i32::MIN <= left + right <= i32::MAX,
            None => true,
        },
    ensures
        r == spec_popup_opens_left(direction, dock, screen_width),
{
    match direction {
        PopupDirection::Auto => match dock {
            Some((left, right)) => center_in_right_half(left, right, screen_width),
            None => true,
        },
        PopupDirection::Left => true,
        PopupDirection::Right => false,
    }
}

/// The stored popup direction: `left` or `right` (around white space), else `Auto`.
pub open spec fn spec_parse_popup_direction(value: Seq<char>) -> PopupDirection {
    if trim(value) == "left"@ {
        PopupDirection::Left
    } else if trim(value) == "right"@ {
        PopupDirection::Right
    } else {
        PopupDirection::Auto
    }
}

pub fn parse_popup_direction(value: &str) -> (r: PopupDirection)
    ensures
        r == spec_parse_popup_direction(value@),
{
    if trimmed_equals(value, "left") {
        PopupDirection::Left
    } else if trimmed_equals(value, "right") {
        PopupDirection::Right
    } else {
        PopupDirection::Auto
    }
}

pub open spec fn spec_popup_direction_value(direction: PopupDirection) -> Seq<char> {
    match direction {
        PopupDirection::Auto => "auto"@,
        PopupDirection::Left => "left"@,
        PopupDirection::Right => "right"@,
    }
}

/// What is stored for a popup direction.
pub fn popup_direction_value(direction: PopupDirection) -> (r: &'static str)
    ensures
        r@ == spec_popup_direction_value(direction),
{
    match direction {
        PopupDirection::Auto => "auto",
        PopupDirection::Left => "left",
        PopupDirection::Right => "right",
    }
}

/// A line of the pin list without its carriage return, if it had one before the line feed.
pub open spec fn strip_cr(line: Seq<char>) -> Seq<char> {
    if line.len() > 0 && line.last() == '\r' {
        line.drop_last()
    } else {
        line
    }
}

/// The entry of one line: name and command around the first `|`; none without a `|`.
pub open spec fn entry_of(line: Seq<char>) -> Seq<(Seq<char>, Seq<char>)> {
    match find(line, '|') {
        Some(p) => seq![(line.take(p), line.skip(p + 1))],
        None => Seq::empty(),
    }
}

/// The entries of a pin list, line by line as `str::lines` splits it: lines end at `\n`
/// (a `\r` right before it is dropped), and an empty last line does not count.
pub open spec fn spec_parse_registered_items(s: Seq<char>) -> Seq<(Seq<char>, Seq<char>)>
    decreases s.len(),
{
    if s.len() == 0 {
        Seq::empty()
    } else {
        match find(s, '\n') {
            Some(e) => {
                proof {
                    lemma_find_from(s, '\n', 0);
                }
                entry_of(strip_cr(s.take(e))) + spec_parse_registered_items(s.skip(e + 1))
            },
            None => entry_of(s),
        }
    }
}

/// `s` with every `|` replaced by a space.
pub open spec fn without_bars(s: Seq<char>) -> Seq<char> {
    s.map_values(|c: char| if c == '|' { ' ' } else { c })
}

/// One line of the pin list.
pub open spec fn item_line(item: (Seq<char>, Seq<char>)) -> Seq<char> {
    without_bars(item.0) + seq!['|'] + without_bars(item.1)
}

/// The pin list: one `name|command` line per entry, joined by `\n`.
pub open spec fn spec_format_registered_items(items: Seq<(Seq<char>, Seq<char>)>) -> Seq<char>
    decreases items.len(),
{
    if items.len() == 0 {
        Seq::empty()
    } else if items.len() == 1 {
        item_line(items[0])
    } else {
        item_line(items[0]) + seq!['\n'] + spec_format_registered_items(items.drop_first())
    }
}

pub open spec fn pairs_view(items: Seq<(String, String)>) -> Seq<(Seq<char>, Seq<char>)> {
    items.map_values(|p: (String, String)| (p.0@, p.1@))
}

/// Reads the pin list: each line `name|command`; lines without `|` are skipped.
pub fn parse_registered_items(contents: &str) -> (r: Vec<(String, String)>)
    ensures
        pairs_view(r@) == spec_parse_registered_items(contents@),
{
    let v = chars_of(contents);
    let ghost s = v@;
    let mut out: Vec<(String, String)> = Vec::new();
    let mut i: usize = 0;
    assert(s.skip(0) == s);
    while i < v.len()
        invariant
            s == v@,
            s == contents@,
            i <= v.len(),
            spec_parse_registered_items(s) == pairs_view(out@) + spec_parse_registered_items(s.skip(i as int)),
        decreases v.len() - i,
    {
        let ghost rest = s.skip(i as int);
        assert(v@.subrange(i as int, v.len() as int) == rest);
        let (end, next) = match find_char(&v, i, v.len(), '\n') {
            Some(e) => {
                assert(rest.take(e - i) == v@.subrange(i as int, e as int));
                assert(rest.skip(e - i + 1) == s.skip(e + 1));
                if e > i && v[e - 1] == '\r' {
                    assert(strip_cr(rest.take(e - i)) == v@.subrange(i as int, e - 1));
                    (e - 1, e + 1)
                } else {
                    assert(strip_cr(rest.take(e - i)) == v@.subrange(i as int, e as int));
                    (e, e + 1)
                }
            },
            None => {
                assert(rest.skip(rest.len() as int) =~= Seq::<char>::empty());
                (v.len(), v.len())
            },
        };
        let ghost line = v@.subrange(i as int, end as int);
        assert(spec_parse_registered_items(rest) == entry_of(line) + spec_parse_registered_items(s.skip(next as int)));
        match find_char(&v, i, end, '|') {
            Some(p) => {
                let name = string_from(&v, i, p);
                let command = string_from(&v, p + 1, end);
                assert(line.take(p - i) == name@);
                assert(line.skip(p - i + 1) == command@);
                out.push((name, command));
                assert(pairs_view(out@) =~= pairs_view(out@.drop_last()) + entry_of(line));
            },
            None => {
                assert(entry_of(line) =~= Seq::empty());
            },
        }
        assert(spec_parse_registered_items(s) == pairs_view(out@) + spec_parse_registered_items(s.skip(next as int)));
        i = next;
    }
    assert(s.skip(v.len() as int) =~= Seq::<char>::empty());
    assert(pairs_view(out@) + Seq::<(Seq<char>, Seq<char>)>::empty() == pairs_view(out@));
    out
}

/// Appends `s` with every `|` replaced by a space.
fn append_without_bars(out: &mut String, s: &String)
    ensures
        final(out)@ == old(out)@ + without_bars(s@),
{
    let v = chars_of(s.as_str());
    let mut i: usize = 0;
    let mut plain: Vec<char> = Vec::new();
    while i < v.len()
        invariant
            v@ == s@,
            i <= v.len(),
            plain@ == without_bars(v@.take(i as int)),
        decreases v.len() - i,
    {
        let c = v[i];
        plain.push(if c == '|' { ' ' } else { c });
        assert(without_bars(v@.take(i + 1)) =~= without_bars(v@.take(i as int)).push(if c == '|' { ' ' } else { c }));
        i = i + 1;
    }
    assert(v@.take(v.len() as int) == v@);
    append_chars(out, &plain, 0, plain.len());
    assert(plain@.subrange(0, plain@.len() as int) == plain@);
}

/// Writes the pin list: `name|command` lines joined by `\n`, with any `|` inside a name
/// or command replaced by a space.
pub fn format_registered_items(items: &Vec<(String, String)>) -> (r: String)
    ensures
        r@ == spec_format_registered_items(pairs_view(items@)),
{
    let ghost all = pairs_view(items@);
    let mut out = String::new();
    let mut i: usize = items.len();
    // Built from the back: `out` is the list of the last `len - i` entries.
    while i > 0
        invariant
            all == pairs_view(items@),
            i <= items.len(),
            out@ == spec_format_registered_items(all.skip(i as int)),
        decreases i,
    {
        let mut line = String::new();
        append_without_bars(&mut line, &items[i - 1].0);
        let bar = vec!['|'];
        append_chars(&mut line, &bar, 0, 1);
        append_without_bars(&mut line, &items[i - 1].1);
        assert(bar@.subrange(0, 1) == seq!['|']);
        assert(line@ == item_line(all[i - 1]));
        let ghost tail = all.skip(i as int);
        assert(all.skip(i - 1).drop_first() == tail);
        assert(all.skip(i - 1)[0] == all[i - 1]);
        if i == items.len() {
            out = line;
            assert(all.skip(i - 1).len() == 1);
        } else {
            let nl = vec!['\n'];
            append_chars(&mut line, &nl, 0, 1);
            assert(nl@.subrange(0, 1) == seq!['\n']);
            let rest = chars_of(out.as_str());
            append_chars(&mut line, &rest, 0, rest.len());
            assert(rest@.subrange(0, rest@.len() as int) == out@);
            out = line;
        }
        i = i - 1;
    }
    assert(all.skip(0) == all);
    out
}

/// Reads the stored process tool: Process Explorer only when the file says so.
pub open spec fn spec_parse_process_tool(value: Seq<char>) -> ProcessTool {
    if trim(value) == "process_explorer"@ {
        ProcessTool::ProcessExplorer
    } else {
        ProcessTool::TaskManager
    }
}

pub fn parse_process_tool(value: &str) -> (r: ProcessTool)
    ensures
        r == spec_parse_process_tool(value@),
{
    if trimmed_equals(value, "process_explorer") {
        ProcessTool::ProcessExplorer
    } else {
        ProcessTool::TaskManager
    }
}

pub open spec fn spec_process_tool_value(tool: ProcessTool) -> Seq<char> {
    match tool {
        ProcessTool::TaskManager => "task_manager"@,
        ProcessTool::ProcessExplorer => "process_explorer"@,
    }
}

/// What is stored for the process tool.
pub fn process_tool_value(tool: ProcessTool) -> (r: &'static str)
    ensures
        r@ == spec_process_tool_value(tool),
{
    match tool {
        ProcessTool::TaskManager => "task_manager",
        ProcessTool::ProcessExplorer => "process_explorer",
    }
}

/// Reads the stored "always on top" setting: on only when the file says `on`.
pub fn parse_always_on_top(value: &str) -> (r: bool)
    ensures
        r == (trim(value@) == "on"@),
{
    trimmed_equals(value, "on")
}

pub open spec fn spec_always_on_top_value(enabled: bool) -> Seq<char> {
    if enabled {
        "on"@
    } else {
        "off"@
    }
}

pub fn always_on_top_value(enabled: bool) -> (r: &'static str)
    ensures
        r@ == spec_always_on_top_value(enabled),
{
    if enabled {
        "on"
    } else {
        "off"
    }
}

/// Reads the stored dock side: left only when the file says `left`; right otherwise.
pub open spec fn spec_parse_dock_side(value: Seq<char>) -> DockSide {
    if trim(value) == "left"@ {
        DockSide::Left
    } else {
        DockSide::Right
    }
}

pub fn parse_dock_side(value: &str) -> (r: DockSide)
    ensures
        r == spec_parse_dock_side(value@),
{
    if trimmed_equals(value, "left") {
        DockSide::Left
    } else {
        DockSide::Right
    }
}

pub open spec fn spec_dock_side_value(side: DockSide) -> Seq<char> {
    match side {
        DockSide::Left => "left"@,
        DockSide::Right => "right"@,
    }
}

pub fn dock_side_value(side: DockSide) -> (r: &'static str)
    ensures
        r@ == spec_dock_side_value(side),
{
    match side {
        DockSide::Left => "left",
        DockSide::Right => "right",
    }
}

/// The Process Explorer path as it is stored and as it is read back: trimmed.
pub fn process_explorer_path_value(value: &str) -> (r: String)
    ensures
        r@ == trim(value@),
{
    trimmed(value)
}


/// What reading back the stored process tool gives: the tool that was stored.
pub proof fn law_process_tool_round_trip(tool: ProcessTool)
    ensures
        spec_parse_process_tool(spec_process_tool_value(tool)) == tool,
{
    reveal_strlit("task_manager");
    reveal_strlit("process_explorer");
    let v = spec_process_tool_value(tool);
    assert(v.subrange(0, v.len() as int) =~= v);
    assert(trim(v) == v);
}

/// What reading back the stored "always on top" setting gives: the setting that was stored.
pub proof fn law_always_on_top_round_trip(enabled: bool)
    ensures
        (trim(spec_always_on_top_value(enabled)) == "on"@) == enabled,
{
    reveal_strlit("on");
    reveal_strlit("off");
    let v = spec_always_on_top_value(enabled);
    assert(v.subrange(0, v.len() as int) =~= v);
    assert(trim(v) == v);
    if !enabled {
        assert(v.len() != "on"@.len());
    }
}

/// What reading back the stored dock side gives: the side that was stored.
pub proof fn law_dock_side_round_trip(side: DockSide)
    ensures
        spec_parse_dock_side(spec_dock_side_value(side)) == side,
{
    reveal_strlit("left");
    reveal_strlit("right");
    let v = spec_dock_side_value(side);
    assert(v.subrange(0, v.len() as int) =~= v);
    assert(trim(v) == v);
    if side == DockSide::Right {
        assert(v.len() != "left"@.len());
    }
}

/// The settings files that the former settings folder held, which are copied from it.
pub fn legacy_config_files() -> (r: Vec<&'static str>)
    ensures
        r@.len() == 3,
        r@[0]@ == "items.txt"@,
        r@[1]@ == "process_tool.txt"@,
        r@[2]@ == "process_explorer_path.txt"@,
{
    let mut r: Vec<&'static str> = Vec::new();
    r.push("items.txt");
    r.push("process_tool.txt");
    r.push("process_explorer_path.txt");
    r
}

/// Whether a settings file is copied from the former folder: only when the new folder does
/// not have it yet and the former folder has it as a file, so that nothing is overwritten.
pub fn migrates(target_exists: bool, source_is_file: bool) -> (r: bool)
    ensures
        r == (!target_exists && source_is_file),
{
    !target_exists && source_is_file
}

/// For each file of the former folder, whether it is copied: see `migrates`.
pub open spec fn spec_migration_plan(target_exists: Seq<bool>, source_is_file: Seq<bool>) -> Seq<bool> {
    Seq::new(target_exists.len(), |i: int| !target_exists[i] && source_is_file[i])
}

/// Which of the files of `legacy_config_files` are copied, given for each whether the new
/// folder has it already and whether the former folder has it as a file.
pub fn migration_plan(target_exists: &Vec<bool>, source_is_file: &Vec<bool>) -> (r: Vec<bool>)
    requires
        target_exists.len() == source_is_file.len(),
    ensures
        r@ == spec_migration_plan(target_exists@, source_is_file@),
{
    let mut r: Vec<bool> = Vec::new();
    let mut i: usize = 0;
    while i < target_exists.len()
        invariant
            target_exists.len() == source_is_file.len(),
            i <= target_exists.len(),
            r@.len() == i,
            forall|k: int| 0 <= k < i ==> #[trigger] r@[k] == (!target_exists@[k] && source_is_file@[k]),
        decreases target_exists.len() - i,
    {
        r.push(migrates(target_exists[i], source_is_file[i]));
        i = i + 1;
    }
    assert(r@ =~= spec_migration_plan(target_exists@, source_is_file@));
    r
}

/// What the new folder has once the planned copies are made (a copy that fails leaves the file
/// missing, and it is planned again next time).
pub open spec fn after_migration(target_exists: Seq<bool>, source_is_file: Seq<bool>) -> Seq<bool> {
    Seq::new(target_exists.len(), |i: int| target_exists[i] || spec_migration_plan(target_exists, source_is_file)[i])
}

/// Migration never overwrites: a file is copied only where the new folder lacks it. Once the
/// planned copies are made, running the migration again copies nothing; and when the new folder
/// already has every file, nothing is copied at all.
pub proof fn law_migration_copies_once(target_exists: Seq<bool>, source_is_file: Seq<bool>)
    requires
        target_exists.len() == source_is_file.len(),
    ensures
        forall|i: int| 0 <= i < target_exists.len() && #[trigger] spec_migration_plan(target_exists, source_is_file)[i]
            ==> !target_exists[i] && source_is_file[i],
        forall|i: int| 0 <= i < target_exists.len() ==> !(#[trigger] spec_migration_plan(
            after_migration(target_exists, source_is_file),
            source_is_file,
        )[i]),
        (forall|i: int| 0 <= i < target_exists.len() ==> #[trigger] target_exists[i]) ==> forall|i: int|
            0 <= i < target_exists.len() ==> !(#[trigger] spec_migration_plan(target_exists, source_is_file)[i]),
{
}

/// What reading back the stored popup direction gives: the direction that was stored.
pub proof fn law_popup_direction_round_trip(direction: PopupDirection)
    ensures
        spec_parse_popup_direction(spec_popup_direction_value(direction)) == direction,
{
    reveal_strlit("auto");
    reveal_strlit("left");
    reveal_strlit("right");
    let v = spec_popup_direction_value(direction);
    assert(v.subrange(0, v.len() as int) =~= v);
    assert(trim(v) == v);
    if direction == PopupDirection::Right {
        assert(v.len() != "left"@.len());
    }
    if direction == PopupDirection::Auto {
        assert(v.len() != "right"@.len());
        assert(v[0] != "left"@[0]);
    }
}

/// Reading back a stored Process Explorer path gives the path as it was stored (trimmed).
pub proof fn law_process_explorer_path_round_trip(value: Seq<char>)
    ensures
        trim(trim(value)) == trim(value),
{
    lemma_strip_idempotent(value, CharClass::Whitespace);
}

proof fn lemma_find_after_absent(a: Seq<char>, b: Seq<char>, c: char)
    requires
        forall|k: int| 0 <= k < a.len() ==> a[k] != c,
    ensures
        find(a + b, c) == match find(b, c) {
            Some(k) => Some(k + a.len()),
            None => None::<int>,
        },
{
    lemma_find_from(a + b, c, 0);
    lemma_find_from(b, c, 0);
    match find(b, c) {
        Some(k) => {
            assert((a + b)[k + a.len()] == c);
            match find(a + b, c) {
                Some(m) => {
                    if m < k + a.len() {
                        if m >= a.len() {
                            assert(b[m - a.len()] == c);
                        }
                    }
                },
                None => {},
            }
        },
        None => {
            match find(a + b, c) {
                Some(m) => {
                    if m >= a.len() {
                        assert(b[m - a.len()] == c);
                    }
                },
                None => {},
            }
        },
    }
}

proof fn lemma_item_line(item: (Seq<char>, Seq<char>))
    requires
        forall|k: int| 0 <= k < item.0.len() ==> item.0[k] != '\n',
        forall|k: int| 0 <= k < item.1.len() ==> item.1[k] != '\n',
    ensures
        forall|k: int| 0 <= k < item_line(item).len() ==> item_line(item)[k] != '\n',
        item_line(item).len() > 0,
        entry_of(item_line(item)) == seq![(without_bars(item.0), without_bars(item.1))],
{
    let n = without_bars(item.0);
    let c = without_bars(item.1);
    let line = item_line(item);
    assert(forall|k: int| 0 <= k < n.len() ==> n[k] != '|');
    lemma_find_after_absent(n, seq!['|'] + c, '|');
    assert(line == n + (seq!['|'] + c));
    assert(find(seq!['|'] + c, '|') == Some(0int));
    assert(line.take(n.len() as int) =~= n);
    assert(line.skip(n.len() as int + 1) =~= c);
}

/// The entries of a pin list that is written and read back: the entries written, with any `|`
/// in them turned into a space. This holds unless a name or command holds a line feed, or a
/// command other than the last ends with a carriage return (which reading drops).
pub proof fn law_registered_items_round_trip(items: Seq<(Seq<char>, Seq<char>)>)
    requires
        forall|k: int| 0 <= k < items.len() ==> forall|m: int| 0 <= m < (#[trigger] items[k]).0.len() ==> items[k].0[m] != '\n',
        forall|k: int| 0 <= k < items.len() ==> forall|m: int| 0 <= m < (#[trigger] items[k]).1.len() ==> items[k].1[m] != '\n',
        forall|k: int| 0 <= k < items.len() - 1 ==> !((#[trigger] items[k]).1.len() > 0 && items[k].1.last() == '\r'),
    ensures
        spec_parse_registered_items(spec_format_registered_items(items)) == items.map_values(
            |p: (Seq<char>, Seq<char>)| (without_bars(p.0), without_bars(p.1)),
        ),
    decreases items.len(),
{
    let expected = items.map_values(|p: (Seq<char>, Seq<char>)| (without_bars(p.0), without_bars(p.1)));
    if items.len() == 0 {
        assert(expected =~= Seq::empty());
    } else {
        let line = item_line(items[0]);
        lemma_item_line(items[0]);
        if items.len() == 1 {
            let s = spec_format_registered_items(items);
            lemma_find_from(s, '\n', 0);
            assert(find(s, '\n') is None);
            assert(expected =~= seq![(without_bars(items[0].0), without_bars(items[0].1))]);
        } else {
            let rest = items.drop_first();
            assert forall|k: int| 0 <= k < rest.len() implies forall|m: int| 0 <= m < (#[trigger] rest[k]).0.len() ==> rest[k].0[m] != '\n' by {
                assert(rest[k] == items[k + 1]);
            }
            assert forall|k: int| 0 <= k < rest.len() implies forall|m: int| 0 <= m < (#[trigger] rest[k]).1.len() ==> rest[k].1[m] != '\n' by {
                assert(rest[k] == items[k + 1]);
            }
            assert forall|k: int| 0 <= k < rest.len() - 1 implies !((#[trigger] rest[k]).1.len() > 0 && rest[k].1.last() == '\r') by {
                assert(rest[k] == items[k + 1]);
            }
            law_registered_items_round_trip(rest);
            let tail = spec_format_registered_items(rest);
            let s = spec_format_registered_items(items);
            assert(s == line + (seq!['\n'] + tail));
            lemma_find_after_absent(line, seq!['\n'] + tail, '\n');
            assert(find(seq!['\n'] + tail, '\n') == Some(0int));
            assert(find(s, '\n') == Some(line.len() as int));
            assert(s.take(line.len() as int) =~= line);
            assert(s.skip(line.len() as int + 1) =~= tail);
            let c = without_bars(items[0].1);
            if c.len() > 0 {
                assert(c.last() != '\r');
            }
            assert(line.last() != '\r');
            assert(strip_cr(line) == line);
            let rest_expected = rest.map_values(|p: (Seq<char>, Seq<char>)| (without_bars(p.0), without_bars(p.1)));
            assert(expected =~= seq![(without_bars(items[0].0), without_bars(items[0].1))] + rest_expected);
        }
    }
}
} // verus!
