use std::collections::HashSet;
use vstd::prelude::*;

use crate::text::{contains, spec_lowercase, str_contains, to_lowercase};

verus! {

broadcast use vstd::std_specs::hash::group_hash_axioms;

/// `WS_CHILD`.
pub const WS_CHILD: i32 = 0x4000_0000;

/// `WS_VISIBLE`.
pub const WS_VISIBLE: i32 = 0x1000_0000;

/// `WS_MINIMIZE`.
pub const WS_MINIMIZE: i32 = 0x2000_0000;

/// `WS_MAXIMIZE`.
pub const WS_MAXIMIZE: i32 = 0x0100_0000;

/// `WS_OVERLAPPEDWINDOW`.
pub const WS_OVERLAPPEDWINDOW: i32 = 0x00CF_0000;

/// `WS_EX_LAYERED`.
pub const WS_EX_LAYERED: i32 = 0x0008_0000;

/// `WS_EX_TOOLWINDOW`.
pub const WS_EX_TOOLWINDOW: i32 = 0x0000_0080;

/// What one enumeration of a desktop saw of one top-level window.
pub struct WinInfo {
    pub hwnd: isize,
    /// The process that created the window.
    pub pid: u32,
    /// `GWL_STYLE`.
    pub style: i32,
    /// `GWL_EXSTYLE`.
    pub ex_style: i32,
    /// `IsWindowVisible`.
    pub visible: bool,
    /// The window class name.
    pub class: String,
    /// The title, read without sending a message to the window.
    pub title: String,
    /// The number of UTF-16 units of the title that were read.
    pub title_len: i32,
    pub client_w: i32,
    pub client_h: i32,
    /// `GW_OWNER`, 0 when the window has no owner.
    pub owner: isize,
}

pub open spec fn is_child_style(style: i32) -> bool {
    style & WS_CHILD != 0
}

pub open spec fn has_visible_style(style: i32) -> bool {
    style & WS_VISIBLE != 0
}

pub open spec fn is_popup_style(style: i32) -> bool {
    (style as u32) & 0x8000_0000u32 != 0
}

/// A client area of at least `min`×`min`.
pub open spec fn at_least(w: WinInfo, min: i32) -> bool {
    w.client_w >= min && w.client_h >= min
}

pub fn is_child(style: i32) -> (r: bool)
    ensures
        r == is_child_style(style),
{
    style & WS_CHILD != 0
}

pub fn visible_style(style: i32) -> (r: bool)
    ensures
        r == has_visible_style(style),
{
    style & WS_VISIBLE != 0
}

pub fn popup_style(style: i32) -> (r: bool)
    ensures
        r == is_popup_style(style),
{
    (style as u32) & 0x8000_0000u32 != 0
}

/// How a launched app's window is looked for among the windows of a desktop.
pub enum WindowQuery<'a> {
    /// A window of one of `pids`, not a child, at least 10×10; with
    /// `need_visible` it must also be visible.
    Tree { pids: &'a HashSet<u32>, need_visible: bool },
    /// A window of `pid`, not a child, at least 10×10.
    PidSized { pid: u32 },
    /// Any window of `pid` that is not a child.
    PidAny { pid: u32 },
    /// A window that is not a child, whose lowercased title is not empty and
    /// holds `needle`, at least 10×10.
    TitledSized { needle: &'a str },
    /// A window that is neither layered nor a tool window, whose lowercased
    /// title is not empty and holds `needle`.
    TitledPlain { needle: &'a str },
    /// A window absent from `before`, not a child, titled, at least 10×10.
    NewTitled { before: &'a HashSet<isize> },
    /// A window absent from `before`, not of `own_pid`, not a child.
    NewForeign { before: &'a HashSet<isize>, own_pid: u32 },
}

/// A window query over mathematical values.
pub enum Query {
    Tree { pids: Set<u32>, need_visible: bool },
    PidSized { pid: u32 },
    PidAny { pid: u32 },
    TitledSized { needle: Seq<char> },
    TitledPlain { needle: Seq<char> },
    NewTitled { before: Set<isize> },
    NewForeign { before: Set<isize>, own_pid: u32 },
}

pub open spec fn query_view(q: WindowQuery) -> Query {
    match q {
        WindowQuery::Tree { pids, need_visible } => Query::Tree { pids: pids@, need_visible },
        WindowQuery::PidSized { pid } => Query::PidSized { pid },
        WindowQuery::PidAny { pid } => Query::PidAny { pid },
        WindowQuery::TitledSized { needle } => Query::TitledSized { needle: needle@ },
        WindowQuery::TitledPlain { needle } => Query::TitledPlain { needle: needle@ },
        WindowQuery::NewTitled { before } => Query::NewTitled { before: before@ },
        WindowQuery::NewForeign { before, own_pid } => Query::NewForeign { before: before@, own_pid },
    }
}

pub open spec fn query_holds(q: Query, w: WinInfo) -> bool {
    match q {
        Query::Tree { pids, need_visible } => pids.contains(w.pid) && !is_child_style(w.style) && (
        need_visible ==> w.visible) && at_least(w, 10),
        Query::PidSized { pid } => w.pid == pid && !is_child_style(w.style) && at_least(w, 10),
        Query::PidAny { pid } => w.pid == pid && !is_child_style(w.style),
        Query::TitledSized { needle } => !is_child_style(w.style) && spec_lowercase(w.title@).len() > 0
            && contains(spec_lowercase(w.title@), needle) && at_least(w, 10),
        Query::TitledPlain { needle } => w.ex_style & WS_EX_LAYERED == 0 && w.ex_style & WS_EX_TOOLWINDOW
            == 0 && spec_lowercase(w.title@).len() > 0 && contains(spec_lowercase(w.title@), needle),
        Query::NewTitled { before } => !before.contains(w.hwnd) && !is_child_style(w.style) && w.title_len
            > 0 && at_least(w, 10),
        Query::NewForeign { before, own_pid } => w.pid != own_pid && !is_child_style(w.style)
            && !before.contains(w.hwnd),
    }
}

/// The first window of `s`, in enumeration order, that `q` accepts.
pub open spec fn first_match(s: Seq<WinInfo>, q: Query) -> Option<isize>
    decreases s.len(),
{
    if s.len() == 0 {
        None
    } else if query_holds(q, s[0]) {
        Some(s[0].hwnd)
    } else {
        first_match(s.drop_first(), q)
    }
}

pub fn query_matches(q: &WindowQuery, w: &WinInfo) -> (r: bool)
    ensures
        r == query_holds(query_view(*q), *w),
{
    match q {
        WindowQuery::Tree { pids, need_visible } => pids.contains(&w.pid) && !is_child(w.style) && (
        !*need_visible || w.visible) && w.client_w >= 10 && w.client_h >= 10,
        WindowQuery::PidSized { pid } => w.pid == *pid && !is_child(w.style) && w.client_w >= 10
            && w.client_h >= 10,
        WindowQuery::PidAny { pid } => w.pid == *pid && !is_child(w.style),
        WindowQuery::TitledSized { needle } => {
            if is_child(w.style) {
                return false;
            }
            let title = to_lowercase(&w.title);
            !title.as_str().is_empty() && str_contains(&title, needle) && w.client_w >= 10 && w.client_h
                >= 10
        },
        WindowQuery::TitledPlain { needle } => {
            if w.ex_style & WS_EX_LAYERED != 0 || w.ex_style & WS_EX_TOOLWINDOW != 0 {
                return false;
            }
            let title = to_lowercase(&w.title);
            !title.as_str().is_empty() && str_contains(&title, needle)
        },
        WindowQuery::NewTitled { before } => !before.contains(&w.hwnd) && !is_child(w.style)
            && w.title_len > 0 && w.client_w >= 10 && w.client_h >= 10,
        WindowQuery::NewForeign { before, own_pid } => w.pid != *own_pid && !is_child(w.style)
            && !before.contains(&w.hwnd),
    }
}

/// The first window of `wins` that `q` accepts (enumeration stops there).
pub fn first_window(wins: &Vec<WinInfo>, q: &WindowQuery) -> (r: Option<isize>)
    ensures
        r == first_match(wins@, query_view(*q)),
{
    let mut i: usize = 0;
    assert(wins@.skip(0) =~= wins@);
    while i < wins.len()
        invariant
            i <= wins@.len(),
            first_match(wins@.skip(i as int), query_view(*q)) == first_match(wins@, query_view(*q)),
        decreases wins.len() - i,
    {
        let ghost rest = wins@.skip(i as int);
        assert(rest[0] == wins@[i as int]);
        if query_matches(q, &wins[i]) {
            return Some(wins[i].hwnd);
        }
        assert(rest.drop_first() =~= wins@.skip(i + 1));
        i += 1;
    }
    assert(wins@.skip(i as int).len() == 0);
    None
}

/// The style that makes a game an ordinary framed window: the popup,
/// minimized and maximized bits cleared, the overlapped-window frame set.
pub open spec fn game_style(style: i32) -> i32 {
    ((style & !(0x8000_0000u32 as i32)) & !(WS_MINIMIZE | WS_MAXIMIZE)) | WS_OVERLAPPEDWINDOW
}

pub fn game_window_style(style: i32) -> (r: i32)
    ensures
        r == game_style(style),
{
    let popup: i32 = 0x8000_0000u32 as i32;
    ((style & !popup) & !(WS_MINIMIZE | WS_MAXIMIZE)) | WS_OVERLAPPEDWINDOW
}

/// The style of a window prepared for capture: not minimized, not maximized.
pub fn restored_style(style: i32) -> (r: i32)
    ensures
        r == style & !(WS_MINIMIZE | WS_MAXIMIZE),
{
    style & !(WS_MINIMIZE | WS_MAXIMIZE)
}

} // verus!
