//! Integer geometry and the clock text: which half of the screen holds the dock, the screen
//! edge the dock reserves, the pixels of the tray icon, and the date and time shown.

use vstd::prelude::*;
use crate::config::DockSide;
use crate::text::{append_decimal, append_str, decimal};

verus! {

/// Integer division rounding toward zero, as Rust's `/` on signed integers.
pub open spec fn div_toward_zero(x: int, d: int) -> int {
    if x >= 0 {
        x / d
    } else {
        -((-x) / d)
    }
}

/// Whether the middle of `left..right` lies in the right half of a screen `screen_width` wide.
pub open spec fn spec_center_in_right_half(left: int, right: int, screen_width: int) -> bool {
    div_toward_zero(left + right, 2) > div_toward_zero(screen_width, 2)
}

pub fn center_in_right_half(left: i32, right: i32, screen_width: i32) -> (r: bool)
    requires
        i32::MIN <= left + right <= i32::MAX,
    ensures
        r == spec_center_in_right_half(left as int, right as int, screen_width as int),
{
    (left + right) / 2 > screen_width / 2
}


/// What a context menu is opened on.
#[derive(Clone, Copy, Debug, PartialEq, Eq)]
pub enum ContextMenuTarget {
    /// The move handle or the empty background of the dock.
    Handle,
    /// The clock.
    Clock,
    /// The pin at this index.
    Pinned(usize),
    /// The running program at this index.
    Running(usize),
}

/// The width and height of a context menu, given how many windows its item has (`None` when
/// it has none to list). A menu that lists windows is wide; its height grows by a row per
/// window, by the "close all" button when there is more than one, and stops at 500.
pub open spec fn spec_menu_size(target: ContextMenuTarget, window_count: Option<usize>) -> (int, int) {
    let count: int = match window_count {
        Some(n) => n as int,
        None => 0,
    };
    let width: int = if count > 0 { 430 } else { 210 };
    let close_all: int = if count > 1 { 30 } else { 0 };
    let height: int = match target {
        ContextMenuTarget::Handle => 156,
        ContextMenuTarget::Clock => 54,
        ContextMenuTarget::Pinned(_) => if count > 0 {
            capped(222 + 34 * count + close_all, 500)
        } else {
            208
        },
        ContextMenuTarget::Running(_) => if count > 0 {
            capped(188 + 34 * count + close_all, 500)
        } else {
            208
        },
    };
    (width, height)
}

/// `value`, but no more than `cap`.
pub open spec fn capped(value: int, cap: int) -> int {
    if value < cap {
        value
    } else {
        cap
    }
}

pub fn menu_size(target: ContextMenuTarget, window_count: Option<usize>) -> (r: (u32, u32))
    ensures
        (r.0 as int, r.1 as int) == spec_menu_size(target, window_count),
{
    let count: usize = match window_count {
        Some(n) => n,
        None => 0,
    };
    let width: u32 = if count > 0 { 430 } else { 210 };
    let close_all: u32 = if count > 1 { 30 } else { 0 };
    let rows: u32 = if count > 20 { 20 } else { count as u32 };
    let height: u32 = match target {
        ContextMenuTarget::Handle => 156,
        ContextMenuTarget::Clock => 54,
        ContextMenuTarget::Pinned(_) => if count > 0 {
            let h = 222 + 34 * rows + close_all;
            if h < 500 { h } else { 500 }
        } else {
            208
        },
        ContextMenuTarget::Running(_) => if count > 0 {
            let h = 188 + 34 * rows + close_all;
            if h < 500 { h } else { 500 }
        } else {
            208
        },
    };
    (width, height)
}

/// A rectangle in screen pixels.
#[derive(Clone, Copy, Debug, PartialEq, Eq)]
pub struct EdgeRect {
    pub left: i32,
    pub top: i32,
    pub right: i32,
    pub bottom: i32,
}

/// The strip of the monitor `screen` that the dock asks to reserve: `width` pixels at `side`.
pub open spec fn spec_edge_request(screen: EdgeRect, side: DockSide, width: int) -> EdgeRect {
    match side {
        DockSide::Left => EdgeRect { right: (screen.left + width) as i32, ..screen },
        DockSide::Right => EdgeRect { left: (screen.right - width) as i32, ..screen },
    }
}

pub fn edge_request(screen: EdgeRect, side: DockSide, width: i32) -> (r: EdgeRect)
    requires
        side == DockSide::Left ==> i32::MIN <= screen.left + width <= i32::MAX,
        side == DockSide::Right ==> i32::MIN <= screen.right - width <= i32::MAX,
    ensures
        r == spec_edge_request(screen, side, width as int),
{
    match side {
        DockSide::Left => EdgeRect { right: screen.left + width, ..screen },
        DockSide::Right => EdgeRect { left: screen.right - width, ..screen },
    }
}

/// The granted strip `granted`, made `width` wide again from its outer side.
pub open spec fn spec_keep_width(granted: EdgeRect, side: DockSide, width: int) -> EdgeRect {
    match side {
        DockSide::Left => EdgeRect { right: (granted.left + width) as i32, ..granted },
        DockSide::Right => EdgeRect { left: (granted.right - width) as i32, ..granted },
    }
}

pub fn keep_width(granted: EdgeRect, side: DockSide, width: i32) -> (r: EdgeRect)
    requires
        side == DockSide::Left ==> i32::MIN <= granted.left + width <= i32::MAX,
        side == DockSide::Right ==> i32::MIN <= granted.right - width <= i32::MAX,
    ensures
        r == spec_keep_width(granted, side, width as int),
{
    match side {
        DockSide::Left => EdgeRect { right: granted.left + width, ..granted },
        DockSide::Right => EdgeRect { left: granted.right - width, ..granted },
    }
}

/// Where the dock may stand: the granted strip across, the work area down.
pub fn dock_area(granted: EdgeRect, work: EdgeRect) -> (r: EdgeRect)
    ensures
        r == (EdgeRect { left: granted.left, right: granted.right, top: work.top, bottom: work.bottom }),
{
    EdgeRect { left: granted.left, right: granted.right, top: work.top, bottom: work.bottom }
}

/// The side length of the square tray icon, in pixels.
pub const TRAY_ICON_SIZE: usize = 32;

/// The colour of the tray icon at `(x, y)`: a dark rounded bar with three light dots.
pub open spec fn tray_icon_color(x: int, y: int) -> Seq<u8> {
    let inside_bar = 9 <= x < 23 && 2 <= y < 30;
    let dot = 13 <= x < 19 && ((6 <= y < 11) || (13 <= y < 18) || (20 <= y < 25));
    if dot {
        seq![104u8, 220u8, 132u8, 255u8]
    } else if inside_bar {
        seq![36u8, 40u8, 48u8, 255u8]
    } else {
        seq![0u8, 0u8, 0u8, 0u8]
    }
}

fn tray_icon_pixel(x: usize, y: usize) -> (r: [u8; 4])
    ensures
        r@ == tray_icon_color(x as int, y as int),
{
    let inside_bar = 9 <= x && x < 23 && 2 <= y && y < 30;
    let dot = 13 <= x && x < 19 && ((6 <= y && y < 11) || (13 <= y && y < 18) || (20 <= y && y < 25));
    let r = if dot {
        [104u8, 220u8, 132u8, 255u8]
    } else if inside_bar {
        [36u8, 40u8, 48u8, 255u8]
    } else {
        [0u8, 0u8, 0u8, 0u8]
    };
    assert(r@ =~= tray_icon_color(x as int, y as int));
    r
}

/// The tray icon as RGBA bytes, row by row.
pub fn tray_icon_pixels() -> (r: Vec<u8>)
    ensures
        r@.len() == 4 * 32 * 32,
        forall|p: int, c: int|
            0 <= p < 32 * 32 && 0 <= c < 4 ==> #[trigger] r@[4 * p + c] == tray_icon_color(p % 32, p / 32)[c],
{
    let mut r: Vec<u8> = Vec::new();
    let mut p: usize = 0;
    while p < 1024
        invariant
            p <= 1024,
            r@.len() == 4 * p,
            forall|q: int, c: int|
                0 <= q < p && 0 <= c < 4 ==> #[trigger] r@[4 * q + c] == tray_icon_color(q % 32, q / 32)[c],
        decreases 1024 - p,
    {
        let color = tray_icon_pixel(p % 32, p / 32);
        let ghost before = r@;
        r.push(color[0]);
        r.push(color[1]);
        r.push(color[2]);
        r.push(color[3]);
        assert forall|q: int, c: int| 0 <= q < p + 1 && 0 <= c < 4 implies #[trigger] r@[4 * q + c] == tray_icon_color(q % 32, q / 32)[c] by {
            if q < p {
                assert(r@[4 * q + c] == before[4 * q + c]);
            } else {
                assert(q == p);
                assert(r@[4 * q + c] == color@[c]);
            }
        }
        p = p + 1;
    }
    r
}

/// The local time as the system clock reports it.
#[derive(Clone, Copy, Debug, PartialEq, Eq)]
pub struct LocalTime {
    pub month: u16,
    pub day: u16,
    /// 0 for Sunday through 6 for Saturday.
    pub weekday: u16,
    pub hour: u16,
    pub minute: u16,
    pub second: u16,
}

/// `n` in decimal with at least two digits (`{:02}`).
pub open spec fn two_digits(n: nat) -> Seq<char> {
    if n < 10 {
        seq!['0'] + decimal(n)
    } else {
        decimal(n)
    }
}

fn append_two_digits(s: &mut String, n: u16)
    ensures
        final(s)@ == old(s)@ + two_digits(n as nat),
{
    if n < 10 {
        append_str(s, "0");
        proof {
            reveal_strlit("0");
        }
    }
    append_decimal(s, n as usize);
}

/// The Japanese short name of weekday `w` (0 for Sunday).
pub open spec fn weekday_name(w: int) -> Seq<char> {
    if w == 0 {
        "日"@
    } else if w == 1 {
        "月"@
    } else if w == 2 {
        "火"@
    } else if w == 3 {
        "水"@
    } else if w == 4 {
        "木"@
    } else if w == 5 {
        "金"@
    } else {
        "土"@
    }
}

/// The three lines of the clock: `MM/DD`, the weekday in full-width brackets, and `HH:MM`.
pub open spec fn spec_format_date_time(time: LocalTime) -> (Seq<char>, Seq<char>, Seq<char>) {
    (
        two_digits(time.month as nat) + "/"@ + two_digits(time.day as nat),
        "（"@ + weekday_name(time.weekday as int) + "）"@,
        two_digits(time.hour as nat) + ":"@ + two_digits(time.minute as nat),
    )
}

pub fn format_date_time(time: LocalTime) -> (r: (String, String, String))
    requires
        time.weekday < 7,
    ensures
        (r.0@, r.1@, r.2@) == spec_format_date_time(time),
{
    let mut date = String::new();
    append_two_digits(&mut date, time.month);
    append_str(&mut date, "/");
    append_two_digits(&mut date, time.day);
    let name = match time.weekday {
        0 => "日",
        1 => "月",
        2 => "火",
        3 => "水",
        4 => "木",
        5 => "金",
        _ => "土",
    };
    let mut weekday = String::new();
    append_str(&mut weekday, "（");
    append_str(&mut weekday, name);
    append_str(&mut weekday, "）");
    let mut clock = String::new();
    append_two_digits(&mut clock, time.hour);
    append_str(&mut clock, ":");
    append_two_digits(&mut clock, time.minute);
    (date, weekday, clock)
}
/// The decimal digit of `d` (0 to 9).
pub open spec fn digit(d: int) -> char {
    (('0' as int) + d) as char
}

/// The clock's weekday line names weekday `w` (0 for Sunday) by the `w`-th day of the Japanese
/// week 日月火水木金土, in full-width brackets.
pub proof fn law_weekday_line(time: LocalTime)
    requires
        time.weekday < 7,
    ensures
        time.weekday == 0 ==> spec_format_date_time(time).1 == seq!['（', '日', '）'],
        time.weekday == 1 ==> spec_format_date_time(time).1 == seq!['（', '月', '）'],
        time.weekday == 2 ==> spec_format_date_time(time).1 == seq!['（', '火', '）'],
        time.weekday == 3 ==> spec_format_date_time(time).1 == seq!['（', '水', '）'],
        time.weekday == 4 ==> spec_format_date_time(time).1 == seq!['（', '木', '）'],
        time.weekday == 5 ==> spec_format_date_time(time).1 == seq!['（', '金', '）'],
        time.weekday == 6 ==> spec_format_date_time(time).1 == seq!['（', '土', '）'],
{
    reveal_strlit("（");
    reveal_strlit("）");
    reveal_strlit("日");
    reveal_strlit("月");
    reveal_strlit("火");
    reveal_strlit("水");
    reveal_strlit("木");
    reveal_strlit("金");
    reveal_strlit("土");
    let w = time.weekday;
    if w == 0 {
        assert(spec_format_date_time(time).1 =~= seq!['（', '日', '）']);
    } else if w == 1 {
        assert(spec_format_date_time(time).1 =~= seq!['（', '月', '）']);
    } else if w == 2 {
        assert(spec_format_date_time(time).1 =~= seq!['（', '火', '）']);
    } else if w == 3 {
        assert(spec_format_date_time(time).1 =~= seq!['（', '水', '）']);
    } else if w == 4 {
        assert(spec_format_date_time(time).1 =~= seq!['（', '木', '）']);
    } else if w == 5 {
        assert(spec_format_date_time(time).1 =~= seq!['（', '金', '）']);
    } else {
        assert(spec_format_date_time(time).1 =~= seq!['（', '土', '）']);
    }
}

/// Different weekdays are named differently on the clock.
pub proof fn law_weekdays_differ(a: LocalTime, b: LocalTime)
    requires
        a.weekday < 7,
        b.weekday < 7,
        a.weekday != b.weekday,
    ensures
        spec_format_date_time(a).1 != spec_format_date_time(b).1,
{
    law_weekday_line(a);
    law_weekday_line(b);
    assert(spec_format_date_time(a).1[1] != spec_format_date_time(b).1[1]);
}

/// For a day and time of two digits each, the clock shows `MM/DD` and `HH:MM`, each number
/// with two decimal digits.
pub proof fn law_date_and_time_lines(time: LocalTime)
    requires
        time.month < 100,
        time.day < 100,
        time.hour < 100,
        time.minute < 100,
    ensures
        spec_format_date_time(time).0 == seq![
            digit((time.month / 10) as int),
            digit((time.month % 10) as int),
            '/',
            digit((time.day / 10) as int),
            digit((time.day % 10) as int),
        ],
        spec_format_date_time(time).2 == seq![
            digit((time.hour / 10) as int),
            digit((time.hour % 10) as int),
            ':',
            digit((time.minute / 10) as int),
            digit((time.minute % 10) as int),
        ],
{
    reveal_strlit("/");
    reveal_strlit(":");
    lemma_two_digits(time.month as nat);
    lemma_two_digits(time.day as nat);
    lemma_two_digits(time.hour as nat);
    lemma_two_digits(time.minute as nat);
    assert(spec_format_date_time(time).0 =~= seq![
        digit((time.month / 10) as int),
        digit((time.month % 10) as int),
        '/',
        digit((time.day / 10) as int),
        digit((time.day % 10) as int),
    ]);
    assert(spec_format_date_time(time).2 =~= seq![
        digit((time.hour / 10) as int),
        digit((time.hour % 10) as int),
        ':',
        digit((time.minute / 10) as int),
        digit((time.minute % 10) as int),
    ]);
}

proof fn lemma_two_digits(n: nat)
    requires
        n < 100,
    ensures
        two_digits(n) == seq![digit((n / 10) as int), digit((n % 10) as int)],
{
    if n < 10 {
        assert(decimal(n) == seq![digit(n as int)]);
        assert(two_digits(n) =~= seq![digit((n / 10) as int), digit((n % 10) as int)]);
    } else {
        assert(decimal(n / 10) == seq![digit((n / 10) as int)]);
        assert(two_digits(n) =~= seq![digit((n / 10) as int), digit((n % 10) as int)]);
    }
}
/// The strip the dock asks for lies at the screen edge of its side, is `width` pixels wide,
/// and spans the screen from top to bottom; keeping the width of a granted strip keeps its
/// outer edge, top and bottom.
pub proof fn law_edge_strips(screen: EdgeRect, side: DockSide, width: i32)
    requires
        side == DockSide::Left ==> i32::MIN <= screen.left + width <= i32::MAX,
        side == DockSide::Right ==> i32::MIN <= screen.right - width <= i32::MAX,
    ensures
        spec_edge_request(screen, side, width as int).right - spec_edge_request(screen, side, width as int).left == width,
        spec_edge_request(screen, side, width as int).top == screen.top,
        spec_edge_request(screen, side, width as int).bottom == screen.bottom,
        side == DockSide::Left ==> spec_edge_request(screen, side, width as int).left == screen.left,
        side == DockSide::Right ==> spec_edge_request(screen, side, width as int).right == screen.right,
        spec_keep_width(screen, side, width as int).right - spec_keep_width(screen, side, width as int).left == width,
        spec_keep_width(screen, side, width as int).top == screen.top,
        spec_keep_width(screen, side, width as int).bottom == screen.bottom,
        side == DockSide::Left ==> spec_keep_width(screen, side, width as int).left == screen.left,
        side == DockSide::Right ==> spec_keep_width(screen, side, width as int).right == screen.right,
{
}

/// Context menus: wide exactly when they list windows; never taller than 500; a menu listing
/// more windows is never shorter; a pin's menu has a launch row more than a running program's.
pub proof fn law_menu_size(target: ContextMenuTarget, a: usize, b: usize, i: usize)
    ensures
        spec_menu_size(target, Some(a)).0 == (if a > 0 { 430int } else { 210int }),
        spec_menu_size(target, None) == spec_menu_size(target, Some(0)),
        spec_menu_size(target, Some(a)).1 <= 500,
        (target is Pinned || target is Running) && 0 < a <= b ==> spec_menu_size(target, Some(a)).1 <= spec_menu_size(target, Some(b)).1,
        spec_menu_size(ContextMenuTarget::Pinned(i), Some(a)).1 >= spec_menu_size(ContextMenuTarget::Running(i), Some(a)).1,
        a > 0 && spec_menu_size(ContextMenuTarget::Pinned(i), Some(a)).1 < 500 ==> spec_menu_size(ContextMenuTarget::Pinned(i), Some(a)).1
            == spec_menu_size(ContextMenuTarget::Running(i), Some(a)).1 + 34,
{
}
} // verus!
