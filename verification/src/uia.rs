use std::collections::HashSet;
use vstd::prelude::*;

verus! {

broadcast use vstd::std_specs::hash::group_hash_axioms;

/// One UI Automation action for the automation worker.
pub enum UiaCmd {
    /// Invoke the default action of the element of window `hwnd` at the screen
    /// point (`sx`, `sy`), focusing it as a last resort only when
    /// `allow_focus`.
    InvokeAt { hwnd: isize, sx: i32, sy: i32, allow_focus: bool },
    /// Append `text` to the focused value element of window `hwnd`.
    AppendFocusedText { hwnd: isize, text: String, allow_focus: bool },
    /// Scroll the element of window `hwnd` at the screen point; `up` scrolls up.
    ScrollAt { hwnd: isize, sx: i32, sy: i32, up: bool },
}

pub open spec fn is_text_cmd(c: UiaCmd) -> bool {
    c is AppendFocusedText
}

/// The commands queued for the automation worker, oldest first.
pub struct UiaQueue {
    pub pending: Vec<UiaCmd>,
}

impl UiaQueue {
    pub fn new() -> (r: Self)
        ensures
            r.pending@.len() == 0,
    {
        UiaQueue { pending: Vec::new() }
    }

    /// Queues an invoke of the element of `hwnd` at a screen point.
    pub fn invoke_at_screen(&mut self, hwnd: isize, sx: i32, sy: i32, allow_focus: bool) -> (queued: bool)
        ensures
            queued,
            final(self).pending@ == old(self).pending@.push(UiaCmd::InvokeAt { hwnd, sx, sy, allow_focus }),
    {
        self.pending.push(UiaCmd::InvokeAt { hwnd, sx, sy, allow_focus });
        true
    }

    /// Queues text for the focused value element of `hwnd`.
    pub fn append_focused_text(&mut self, hwnd: isize, text: String, allow_focus: bool) -> (queued: bool)
        ensures
            queued,
            final(self).pending@ == old(self).pending@.push(UiaCmd::AppendFocusedText { hwnd, text, allow_focus }),
    {
        self.pending.push(UiaCmd::AppendFocusedText { hwnd, text, allow_focus });
        true
    }

    /// Queues a scroll of the element of `hwnd` at a screen point.
    pub fn scroll_at(&mut self, hwnd: isize, sx: i32, sy: i32, up: bool) -> (queued: bool)
        ensures
            queued,
            final(self).pending@ == old(self).pending@.push(UiaCmd::ScrollAt { hwnd, sx, sy, up }),
    {
        self.pending.push(UiaCmd::ScrollAt { hwnd, sx, sy, up });
        true
    }

    /// Takes every queued command, oldest first.
    pub fn drain(&mut self) -> (r: Vec<UiaCmd>)
        ensures
            r@ == old(self).pending@,
            final(self).pending@.len() == 0,
    {
        let mut r: Vec<UiaCmd> = Vec::new();
        std::mem::swap(&mut r, &mut self.pending);
        r
    }
}

/// The commands the worker performs for the queued `s`: every text command,
/// and of each run of consecutive clicks and scrolls only the last one, since
/// older pointer actions are stale by the time the worker gets to them.
pub open spec fn coalesce_spec(s: Seq<UiaCmd>) -> Seq<UiaCmd>
    decreases s.len(),
{
    if s.len() == 0 {
        Seq::empty()
    } else {
        let c = coalesce_spec(s.drop_last());
        if !is_text_cmd(s.last()) && s.len() >= 2 && !is_text_cmd(s.drop_last().last()) {
            c.drop_last().push(s.last())
        } else {
            c.push(s.last())
        }
    }
}

proof fn lemma_coalesce_last(s: Seq<UiaCmd>)
    ensures
        s.len() > 0 ==> coalesce_spec(s).len() > 0 && coalesce_spec(s).last() == s.last(),
    decreases s.len(),
{
    if s.len() > 1 {
        lemma_coalesce_last(s.drop_last());
    }
}

/// Coalesces the queued commands `cmds` (see `coalesce_spec`).
pub fn coalesce(cmds: Vec<UiaCmd>) -> (r: Vec<UiaCmd>)
    ensures
        r@ == coalesce_spec(cmds@),
{
    let ghost all = cmds@;
    let mut out: Vec<UiaCmd> = Vec::new();
    let mut last_was_pointer = false;
    for c in it: cmds
        invariant
            it.seq() == all,
            out@ == coalesce_spec(all.take(it.index() as int)),
            last_was_pointer == (it.index() > 0 && !is_text_cmd(all[it.index() - 1])),
    {
        let ghost k = it.index();
        proof {
            assert(all.take(k + 1).drop_last() =~= all.take(k as int));
            assert(all.take(k + 1).last() == all[k as int]);
            if k > 0 {
                assert(all.take(k as int).last() == all[k - 1]);
                lemma_coalesce_last(all.take(k as int));
            }
        }
        let is_text = match &c {
            UiaCmd::AppendFocusedText { .. } => true,
            _ => false,
        };
        if !is_text && last_was_pointer {
            out.pop();
        }
        out.push(c);
        last_was_pointer = !is_text;
    }
    proof {
        assert(all.take(all.len() as int) =~= all);
    }
    out
}

/// Whether the point (`sx`, `sy`) lies inside the non-empty bounding
/// rectangle `rect` (left, top, right, bottom); `None` when the rectangle
/// could not be read.
pub open spec fn rect_contains(rect: Option<[i32; 4]>, sx: i32, sy: i32) -> bool {
    match rect {
        Some(rc) => rc[2] > rc[0] && rc[3] > rc[1] && sx >= rc[0] && sx < rc[2] && sy >= rc[1] && sy < rc[3],
        None => false,
    }
}

pub fn element_contains(rect: Option<[i32; 4]>, sx: i32, sy: i32) -> (r: bool)
    ensures
        r == rect_contains(rect, sx, sy),
{
    match rect {
        Some(rc) => rc[2] > rc[0] && rc[3] > rc[1] && sx >= rc[0] && sx < rc[2] && sy >= rc[1] && sy < rc[3],
        None => false,
    }
}

/// The child to descend into at a point: the topmost one containing it, that
/// is the last in automation order, `rects` holding each child's rectangle.
pub fn topmost_containing(rects: &Vec<Option<[i32; 4]>>, sx: i32, sy: i32) -> (r: Option<usize>)
    ensures
        match r {
            Some(k) => k < rects@.len() && rect_contains(rects@[k as int], sx, sy) && forall|j: int|
                k < j < rects@.len() ==> !rect_contains(#[trigger] rects@[j], sx, sy),
            None => forall|j: int| 0 <= j < rects@.len() ==> !rect_contains(#[trigger] rects@[j], sx, sy),
        },
{
    let mut i: usize = rects.len();
    while i > 0
        invariant
            i <= rects@.len(),
            forall|j: int| i <= j < rects@.len() ==> !rect_contains(#[trigger] rects@[j], sx, sy),
        decreases i,
    {
        i -= 1;
        if element_contains(rects[i], sx, sy) {
            return Some(i);
        }
    }
    None
}

/// The area of an element's rectangle, as large as possible when it could
/// not be read.
pub open spec fn area_of(rect: Option<[i32; 4]>) -> i64 {
    match rect {
        Some(rc) => ((rc[2] - rc[0]) * (rc[3] - rc[1])) as i64,
        None => i64::MAX,
    }
}

pub fn element_area(rect: Option<[i32; 4]>) -> (r: i64)
    ensures
        r == area_of(rect),
{
    match rect {
        Some(rc) => {
            let w = rc[2] as i64 - rc[0] as i64;
            let h = rc[3] as i64 - rc[1] as i64;
            assert(-0x1_0000_0000i64 < w < 0x1_0000_0000i64);
            assert(-0x1_0000_0000i64 < h < 0x1_0000_0000i64);
            assert(-0x1_0000_0000_0000_0000int < w * h < 0x1_0000_0000_0000_0000int) by (nonlinear_arith)
                requires
                    -0x1_0000_0000i64 < w < 0x1_0000_0000i64,
                    -0x1_0000_0000i64 < h < 0x1_0000_0000i64,
            ;
            let wrapped: i64 = ((w as i128) * (h as i128)) as i64;
            wrapped
        },
        None => i64::MAX,
    }
}

/// Which actionable element under the click is acted on: the one with the
/// smallest area, the first found on a tie, `areas` holding their areas in
/// the order they were found.
pub fn smallest_area(areas: &Vec<i64>) -> (r: Option<usize>)
    ensures
        match r {
            Some(k) => k < areas@.len() && (forall|j: int| 0 <= j < areas@.len() ==> areas@[k as int] <= #[trigger] areas@[j])
                && (forall|j: int| 0 <= j < k ==> areas@[k as int] < #[trigger] areas@[j]),
            None => areas@.len() == 0,
        },
{
    if areas.len() == 0 {
        return None;
    }
    let mut best: usize = 0;
    let mut i: usize = 1;
    while i < areas.len()
        invariant
            1 <= i <= areas@.len(),
            best < i,
            forall|j: int| 0 <= j < i ==> areas@[best as int] <= #[trigger] areas@[j],
            forall|j: int| 0 <= j < best ==> areas@[best as int] < #[trigger] areas@[j],
        decreases areas.len() - i,
    {
        if areas[i] < areas[best] {
            best = i;
        }
        i += 1;
    }
    Some(best)
}

/// The windows whose accessibility tree is known to be built, so they need no
/// more waking messages.
pub struct WokenWindows {
    pub set: HashSet<isize>,
}

impl WokenWindows {
    pub fn woken_windows() -> (r: Self)
        ensures
            r.set@ == Set::<isize>::empty(),
    {
        WokenWindows { set: HashSet::new() }
    }

    /// Whether `hwnd` still needs the messages that build its tree.
    pub fn needs_wake(&self, hwnd: isize) -> (r: bool)
        ensures
            r == !self.set@.contains(hwnd),
    {
        !self.set.contains(&hwnd)
    }

    /// Records that the tree of `hwnd` is built.
    pub fn mark_woken(&mut self, hwnd: isize)
        ensures
            final(self).set@ == old(self).set@.insert(hwnd),
    {
        self.set.insert(hwnd);
    }
}

/// What an invoke does with the element under the click.
pub enum InvokeAction {
    Expand,
    Invoke,
    Toggle,
    Select,
    /// No pattern: act on the smallest actionable element under the point.
    Descendant,
}

/// The action for an element: expand it when it is collapsed, else invoke,
/// toggle or select it, in that order of preference.
pub fn choose_invoke_action(collapsed: bool, has_invoke: bool, has_toggle: bool, has_select: bool) -> (r: InvokeAction)
    ensures
        r == (if collapsed {
            InvokeAction::Expand
        } else if has_invoke {
            InvokeAction::Invoke
        } else if has_toggle {
            InvokeAction::Toggle
        } else if has_select {
            InvokeAction::Select
        } else {
            InvokeAction::Descendant
        }),
{
    if collapsed {
        InvokeAction::Expand
    } else if has_invoke {
        InvokeAction::Invoke
    } else if has_toggle {
        InvokeAction::Toggle
    } else if has_select {
        InvokeAction::Select
    } else {
        InvokeAction::Descendant
    }
}

/// What follows the search for an actionable element under the point, when
/// the element there has no pattern (`InvokeAction::Descendant`).
pub enum DescendantFollowUp {
    /// A descendant was acted on: the window's accessibility tree is awake.
    MarkWoken,
    /// None was: focus the element itself, as a last resort.
    Focus,
    /// None was, and focusing is not allowed: nothing is done.
    Nothing,
}

/// The follow-up of the descendant search: `acted` tells whether a
/// descendant was acted on, `allow_focus` whether focusing is allowed.
pub fn descendant_follow_up(acted: bool, allow_focus: bool) -> (r: DescendantFollowUp)
    ensures
        r == (if acted {
            DescendantFollowUp::MarkWoken
        } else if allow_focus {
            DescendantFollowUp::Focus
        } else {
            DescendantFollowUp::Nothing
        }),
{
    if acted {
        DescendantFollowUp::MarkWoken
    } else if allow_focus {
        DescendantFollowUp::Focus
    } else {
        DescendantFollowUp::Nothing
    }
}

/// Which focused element takes typed text, `nodes` holding, in the order
/// they were visited, whether each has keyboard focus and a value pattern:
/// the first focused one with a value (`Ok`), else the first focused one,
/// whose descendants are searched next (`Err`), else none.
pub fn pick_focused(nodes: &Vec<(bool, bool)>) -> (r: Option<Result<usize, usize>>)
    ensures
        match r {
            Some(Ok(k)) => k < nodes@.len() && nodes@[k as int].0 && nodes@[k as int].1 && forall|j: int|
                0 <= j < k ==> !(#[trigger] nodes@[j].0 && nodes@[j].1),
            Some(Err(k)) => k < nodes@.len() && nodes@[k as int].0 && (forall|j: int|
                0 <= j < nodes@.len() ==> !(#[trigger] nodes@[j].0 && nodes@[j].1)) && forall|j: int|
                0 <= j < k ==> !#[trigger] nodes@[j].0,
            None => forall|j: int| 0 <= j < nodes@.len() ==> !#[trigger] nodes@[j].0,
        },
{
    let mut first_focused: Option<usize> = None;
    let mut i: usize = 0;
    while i < nodes.len()
        invariant
            i <= nodes@.len(),
            forall|j: int| 0 <= j < i ==> !(#[trigger] nodes@[j].0 && nodes@[j].1),
            match first_focused {
                Some(k) => k < i && nodes@[k as int].0 && forall|j: int| 0 <= j < k ==> !#[trigger] nodes@[j].0,
                None => forall|j: int| 0 <= j < i ==> !#[trigger] nodes@[j].0,
            },
        decreases nodes.len() - i,
    {
        let (focus, value) = nodes[i];
        if focus && value {
            return Some(Ok(i));
        }
        if focus && first_focused.is_none() {
            first_focused = Some(i);
        }
        i += 1;
    }
    match first_focused {
        Some(k) => Some(Err(k)),
        None => None,
    }
}

} // verus!
