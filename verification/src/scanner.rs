use std::collections::HashSet;
use vstd::prelude::*;

use crate::desktop::{
    at_least, has_visible_style, is_child, is_child_style, is_popup_style, popup_style,
    visible_style, WinInfo,
};
use crate::process::{descendant_list, descendants, in_prefix, lemma_in_prefix_step};
use crate::text::str_eq;

verus! {

broadcast use vstd::std_specs::hash::group_hash_axioms;

/// Longest a result queue of the scanner may grow.
pub const SCAN_QUEUE_BOUND: usize = 64;

/// One tracked window as seen by the render thread, handed to the scanner.
#[derive(Clone, Copy)]
pub struct TrackedWin {
    pub hwnd: isize,
    pub pid: u32,
    pub is_popup: bool,
}

/// Snapshot the render thread publishes for the scanner to work against.
pub struct ScanInput {
    /// Every tracked toplevel and popup.
    pub windows: Vec<TrackedWin>,
    /// True if a game launcher is among the tracked windows; gates the
    /// launcher-children scan.
    pub has_launcher: bool,
    /// Raw handle of the hidden desktop, 0 if there is none.
    pub hidden_hdesk_raw: isize,
}

/// A popup the scanner found, with the tracked window that owns it.
#[derive(Clone, Copy)]
pub struct PopupCandidate {
    pub hwnd: isize,
    pub owner: isize,
}

/// Results the scanner publishes for the render thread to apply.
pub struct ScanOutput {
    /// New launcher-child windows on the hidden desktop.
    pub new_hidden_children: Vec<isize>,
    /// New launcher-child windows on the visible desktop.
    pub new_visible_children: Vec<isize>,
    /// New popup windows with their owners.
    pub new_popups: Vec<PopupCandidate>,
    /// Visible-desktop windows that drifted back on screen.
    pub redrift_visible: Vec<isize>,
}

impl ScanInput {
    /// An empty snapshot.
    pub fn new() -> (r: Self)
        ensures
            r.windows@.len() == 0,
            !r.has_launcher,
            r.hidden_hdesk_raw == 0,
    {
        ScanInput { windows: Vec::new(), has_launcher: false, hidden_hdesk_raw: 0 }
    }

    /// A copy of this snapshot.
    pub fn snapshot(&self) -> (r: Self)
        ensures
            r.windows@ == self.windows@,
            r.has_launcher == self.has_launcher,
            r.hidden_hdesk_raw == self.hidden_hdesk_raw,
    {
        let mut windows: Vec<TrackedWin> = Vec::new();
        let mut i: usize = 0;
        while i < self.windows.len()
            invariant
                i <= self.windows@.len(),
                windows@ == self.windows@.take(i as int),
            decreases self.windows.len() - i,
        {
            windows.push(self.windows[i]);
            assert(self.windows@.take(i as int).push(self.windows@[i as int]) =~= self.windows@.take(i + 1));
            i += 1;
        }
        assert(self.windows@.take(self.windows@.len() as int) =~= self.windows@);
        ScanInput { windows, has_launcher: self.has_launcher, hidden_hdesk_raw: self.hidden_hdesk_raw }
    }
}

impl ScanOutput {
    /// No results.
    pub fn new() -> (r: Self)
        ensures
            r.is_empty(),
    {
        ScanOutput {
            new_hidden_children: Vec::new(),
            new_visible_children: Vec::new(),
            new_popups: Vec::new(),
            redrift_visible: Vec::new(),
        }
    }

    pub open spec fn is_empty(&self) -> bool {
        &&& self.new_hidden_children@.len() == 0
        &&& self.new_visible_children@.len() == 0
        &&& self.new_popups@.len() == 0
        &&& self.redrift_visible@.len() == 0
    }
}

/// `s` with every repeated value after its first occurrence removed.
pub open spec fn dedup_spec(s: Seq<isize>) -> Seq<isize>
    decreases s.len(),
{
    if s.len() == 0 {
        s
    } else {
        let d = dedup_spec(s.drop_last());
        if d.contains(s.last()) {
            d
        } else {
            d.push(s.last())
        }
    }
}

/// The first `SCAN_QUEUE_BOUND` of a sequence.
pub open spec fn bounded<A>(s: Seq<A>) -> Seq<A> {
    if s.len() > SCAN_QUEUE_BOUND {
        s.take(SCAN_QUEUE_BOUND as int)
    } else {
        s
    }
}

proof fn lemma_dedup_no_duplicates(s: Seq<isize>)
    ensures
        dedup_spec(s).no_duplicates(),
        forall|x: isize| dedup_spec(s).contains(x) <==> s.contains(x),
    decreases s.len(),
{
    if s.len() > 0 {
        lemma_dedup_no_duplicates(s.drop_last());
        let d = dedup_spec(s.drop_last());
        let t = s.drop_last();
        assert forall|x: isize| s.contains(x) <==> (t.contains(x) || s.last() == x) by {
            if s.contains(x) && x != s.last() {
                let k = choose|k: int| 0 <= k < s.len() && s[k] == x;
                assert(k < t.len());
                assert(t[k] == x);
            }
            if t.contains(x) {
                let k = choose|k: int| 0 <= k < t.len() && t[k] == x;
                assert(s[k] == x);
            }
            if s.last() == x {
                assert(s[s.len() - 1] == x);
            }
        }
        assert forall|x: isize| d.push(s.last()).contains(x) <==> (d.contains(x) || s.last() == x) by {
            let e = d.push(s.last());
            if e.contains(x) && x != s.last() {
                let k = choose|k: int| 0 <= k < e.len() && e[k] == x;
                assert(k < d.len());
                assert(d[k] == x);
            }
            if d.contains(x) {
                let k = choose|k: int| 0 <= k < d.len() && d[k] == x;
                assert(e[k] == x);
            }
            if s.last() == x {
                assert(e[d.len() as int] == x);
            }
        }
    }
}

/// Keeps the first occurrence of each value, then at most
/// `SCAN_QUEUE_BOUND` values.
pub fn dedup_bound(v: &mut Vec<isize>)
    ensures
        final(v)@ == bounded(dedup_spec(old(v)@)),
{
    let mut seen: HashSet<isize> = HashSet::new();
    let mut out: Vec<isize> = Vec::new();
    let mut i: usize = 0;
    while i < v.len()
        invariant
            i <= v@.len(),
            out@ == dedup_spec(v@.take(i as int)),
            forall|x: isize| seen@.contains(x) <==> out@.contains(x),
        decreases v.len() - i,
    {
        let x = v[i];
        proof {
            assert(v@.take(i + 1).drop_last() =~= v@.take(i as int));
            assert(v@.take(i + 1).last() == x);
        }
        if !seen.contains(&x) {
            let ghost before = out@;
            seen.insert(x);
            out.push(x);
            proof {
                assert forall|y: isize| seen@.contains(y) <==> out@.contains(y) by {
                    if before.contains(y) {
                        let k = choose|k: int| 0 <= k < before.len() && before[k] == y;
                        assert(out@[k] == y);
                    }
                    if out@.contains(y) && y != x {
                        let k = choose|k: int| 0 <= k < out@.len() && out@[k] == y;
                        assert(before[k] == y);
                    }
                    assert(out@[before.len() as int] == x);
                }
            }
        }
        i += 1;
    }
    assert(v@.take(v@.len() as int) =~= v@);
    if out.len() > SCAN_QUEUE_BOUND {
        out.truncate(SCAN_QUEUE_BOUND);
    }
    *v = out;
}

/// After `dedup_bound` a queue holds each window at most once and never more
/// than `SCAN_QUEUE_BOUND` of them.
pub proof fn lemma_dedup_bound_is_bounded(s: Seq<isize>)
    ensures
        bounded(dedup_spec(s)).no_duplicates(),
        bounded(dedup_spec(s)).len() <= SCAN_QUEUE_BOUND,
{
    lemma_dedup_no_duplicates(s);
}

fn append_isize(dst: &mut Vec<isize>, src: &Vec<isize>)
    ensures
        final(dst)@ == old(dst)@ + src@,
{
    let mut i: usize = 0;
    while i < src.len()
        invariant
            i <= src@.len(),
            dst@ == old(dst)@ + src@.take(i as int),
        decreases src.len() - i,
    {
        dst.push(src[i]);
        assert(old(dst)@ + src@.take(i as int) + seq![src@[i as int]] =~= old(dst)@ + src@.take(i + 1));
        i += 1;
    }
    assert(src@.take(src@.len() as int) =~= src@);
}

fn append_popups(dst: &mut Vec<PopupCandidate>, src: &Vec<PopupCandidate>)
    ensures
        final(dst)@ == old(dst)@ + src@,
{
    let mut i: usize = 0;
    while i < src.len()
        invariant
            i <= src@.len(),
            dst@ == old(dst)@ + src@.take(i as int),
        decreases src.len() - i,
    {
        dst.push(src[i]);
        assert(old(dst)@ + src@.take(i as int) + seq![src@[i as int]] =~= old(dst)@ + src@.take(i + 1));
        i += 1;
    }
    assert(src@.take(src@.len() as int) =~= src@);
}

/// The shared mailbox between the render thread and the scanner: the latest
/// snapshot published for the scanner, and the results not yet applied.
pub struct ScanMailbox {
    pub input: ScanInput,
    pub output: ScanOutput,
}

impl ScanMailbox {
    pub fn new() -> (r: Self)
        ensures
            r.input.windows@.len() == 0,
            r.output.is_empty(),
    {
        ScanMailbox { input: ScanInput::new(), output: ScanOutput::new() }
    }

    /// Publishes the render thread's snapshot for the scanner, replacing the
    /// previous one.
    pub fn publish_input(&mut self, inp: ScanInput)
        ensures
            final(self).input == inp,
            final(self).output == old(self).output,
    {
        self.input = inp;
    }

    /// The latest snapshot, for one pass of the scanner.
    pub fn latest_input(&self) -> (r: ScanInput)
        ensures
            r.windows@ == self.input.windows@,
            r.has_launcher == self.input.has_launcher,
            r.hidden_hdesk_raw == self.input.hidden_hdesk_raw,
    {
        self.input.snapshot()
    }

    /// Takes the scanner's results, leaving none behind.
    pub fn take_output(&mut self) -> (r: ScanOutput)
        ensures
            r == old(self).output,
            final(self).output.is_empty(),
            final(self).input == old(self).input,
    {
        let mut r = ScanOutput::new();
        std::mem::swap(&mut r, &mut self.output);
        r
    }

    /// Adds the results of one scan to those not yet taken: each queue keeps
    /// the first occurrence of a window and at most `SCAN_QUEUE_BOUND`
    /// entries; the popups are cut to that bound.
    pub fn merge(&mut self, out: ScanOutput)
        ensures
            final(self).input == old(self).input,
            final(self).output.new_hidden_children@ == bounded(
                dedup_spec(old(self).output.new_hidden_children@ + out.new_hidden_children@),
            ),
            final(self).output.new_visible_children@ == bounded(
                dedup_spec(old(self).output.new_visible_children@ + out.new_visible_children@),
            ),
            final(self).output.new_popups@ == bounded(old(self).output.new_popups@ + out.new_popups@),
            final(self).output.redrift_visible@ == bounded(
                dedup_spec(old(self).output.redrift_visible@ + out.redrift_visible@),
            ),
    {
        append_isize(&mut self.output.new_hidden_children, &out.new_hidden_children);
        append_isize(&mut self.output.new_visible_children, &out.new_visible_children);
        append_popups(&mut self.output.new_popups, &out.new_popups);
        append_isize(&mut self.output.redrift_visible, &out.redrift_visible);
        dedup_bound(&mut self.output.new_hidden_children);
        dedup_bound(&mut self.output.new_visible_children);
        self.output.new_popups.truncate(SCAN_QUEUE_BOUND);
        dedup_bound(&mut self.output.redrift_visible);
    }
}

/// Whether `cls` is the class of a Chromium widget window.
pub fn is_chromium_class(cls: &str) -> (r: bool)
    ensures
        r == (cls@ == "Chrome_WidgetWin_1"@ || cls@ == "Chrome_WidgetWin_0"@),
{
    str_eq(cls, "Chrome_WidgetWin_1") || str_eq(cls, "Chrome_WidgetWin_0")
}

/// The windows of `ws`; with `owners_only`, of its non-popup entries only.
pub open spec fn hwnds_of(ws: Seq<TrackedWin>, owners_only: bool) -> Set<isize> {
    Set::new(|h: isize| exists|i: int| 0 <= i < ws.len() && #[trigger] ws[i].hwnd == h && (owners_only ==> !ws[i].is_popup))
}

/// The known process ids of the non-popup entries of `ws`.
pub open spec fn owner_pids(ws: Seq<TrackedWin>) -> Set<u32> {
    Set::new(|p: u32| p != 0 && exists|i: int| 0 <= i < ws.len() && #[trigger] ws[i].pid == p && !ws[i].is_popup)
}

/// The process trees of the non-popup entries of `ws` with a known pid.
pub open spec fn launcher_tree(ws: Seq<TrackedWin>, edges: Seq<(u32, u32)>) -> Set<u32> {
    Set::new(|p: u32| exists|i: int| 0 <= i < ws.len() && !ws[i].is_popup && ws[i].pid != 0 && #[trigger] descendants(ws[i].pid, edges).contains(p))
}

/// The window of the first non-popup entry of `ws` with process `pid`.
pub open spec fn first_owner_with_pid(ws: Seq<TrackedWin>, pid: u32) -> Option<isize>
    decreases ws.len(),
{
    if ws.len() == 0 {
        None
    } else if !ws[0].is_popup && ws[0].pid == pid {
        Some(ws[0].hwnd)
    } else {
        first_owner_with_pid(ws.drop_first(), pid)
    }
}

/// The windows of `wins` that `p` accepts, in order.
pub open spec fn pick(wins: Seq<WinInfo>, p: spec_fn(WinInfo) -> bool) -> Seq<isize>
    decreases wins.len(),
{
    if wins.len() == 0 {
        Seq::empty()
    } else {
        let r = pick(wins.drop_last(), p);
        if p(wins.last()) {
            r.push(wins.last().hwnd)
        } else {
            r
        }
    }
}

/// The window handles of `wins`.
pub open spec fn hwnd_set(wins: Seq<WinInfo>) -> Set<isize> {
    Set::new(|h: isize| exists|i: int| 0 <= i < wins.len() && #[trigger] wins[i].hwnd == h)
}

pub open spec fn is_menu_class(c: Seq<char>) -> bool {
    c == "#32768"@
}

pub open spec fn is_chromium_class_name(c: Seq<char>) -> bool {
    c == "Chrome_WidgetWin_1"@ || c == "Chrome_WidgetWin_0"@
}

/// Which windows of a launcher's process tree count as a new game window.
pub enum ChildRule {
    /// On the hidden desktop: visible, neither a menu nor a Chromium widget,
    /// at least 100×100.
    Hidden,
    /// As `Hidden`, and titled.
    HiddenTitled,
    /// On the visible desktop: visible, not a Chromium widget, at least
    /// 200×200.
    Visible,
    /// On the visible desktop: visible, not a Chromium widget, at least
    /// 100×100 when titled and 200×200 when not.
    VisibleAnyTitle,
}

/// Whether `w` is a new window of the process tree `tree` under `rule`,
/// `known` holding the windows already tracked.
pub open spec fn child_rule_holds(rule: ChildRule, known: Set<isize>, tree: Set<u32>, w: WinInfo) -> bool {
    &&& !known.contains(w.hwnd)
    &&& tree.contains(w.pid)
    &&& !is_child_style(w.style)
    &&& !is_chromium_class_name(w.class@)
    &&& match rule {
        ChildRule::Hidden => (has_visible_style(w.style) || w.visible) && !is_menu_class(w.class@)
            && at_least(w, 100),
        ChildRule::HiddenTitled => (has_visible_style(w.style) || w.visible) && !is_menu_class(w.class@)
            && w.title_len > 0 && at_least(w, 100),
        ChildRule::Visible => w.visible && at_least(w, 200),
        ChildRule::VisibleAnyTitle => w.visible && (if w.title_len > 0 {
            at_least(w, 100)
        } else {
            at_least(w, 200)
        }),
    }
}

pub open spec fn child_pred(rule: ChildRule, known: Set<isize>, tree: Set<u32>) -> spec_fn(WinInfo) -> bool {
    |w: WinInfo| child_rule_holds(rule, known, tree, w)
}

/// The tracked window a popup `w` belongs to: its owner when that is a
/// tracked non-popup window, else, for a classic menu, the first tracked
/// non-popup window of its process.
pub open spec fn popup_owner(w: WinInfo, ws: Seq<TrackedWin>) -> Option<isize> {
    if w.owner != 0 && hwnds_of(ws, true).contains(w.owner) {
        Some(w.owner)
    } else if is_menu_class(w.class@) && owner_pids(ws).contains(w.pid) {
        first_owner_with_pid(ws, w.pid)
    } else {
        None
    }
}

/// Whether `w` looks like a popup: new, visible, not a child, a menu or of
/// popup style, at least 4×4.
pub open spec fn popup_like(w: WinInfo, known: Set<isize>) -> bool {
    &&& !known.contains(w.hwnd)
    &&& has_visible_style(w.style)
    &&& !is_child_style(w.style)
    &&& (is_menu_class(w.class@) || is_popup_style(w.style))
    &&& at_least(w, 4)
}

/// The popups among `wins` that belong to a tracked window, in order.
pub open spec fn popups_in(wins: Seq<WinInfo>, ws: Seq<TrackedWin>, known: Set<isize>) -> Seq<PopupCandidate>
    decreases wins.len(),
{
    if wins.len() == 0 {
        Seq::empty()
    } else {
        let r = popups_in(wins.drop_last(), ws, known);
        let w = wins.last();
        if popup_like(w, known) && popup_owner(w, ws) is Some {
            r.push(PopupCandidate { hwnd: w.hwnd, owner: popup_owner(w, ws)->0 })
        } else {
            r
        }
    }
}

/// Whether a window whose top-left corner is `rect` has come back on screen
/// (it is parked at -32000).
pub open spec fn is_drifted(rect: Option<(i32, i32)>) -> bool {
    match rect {
        Some((left, top)) => left > -20000 || top > -20000,
        None => false,
    }
}

/// The non-popup windows among the first `n` of `ws` that are not on the
/// hidden desktop and drifted on screen, `rects` holding their corners.
pub open spec fn drifted(ws: Seq<TrackedWin>, rects: Seq<Option<(i32, i32)>>, hidden: Set<isize>, n: int) -> Seq<isize>
    decreases n,
{
    if n <= 0 {
        Seq::empty()
    } else {
        let r = drifted(ws, rects, hidden, n - 1);
        let t = ws[n - 1];
        if !t.is_popup && !hidden.contains(t.hwnd) && is_drifted(rects[n - 1]) {
            r.push(t.hwnd)
        } else {
            r
        }
    }
}

/// The windows of `ws` (of its non-popup entries with `owners_only`).
pub fn hwnd_set_of(ws: &Vec<TrackedWin>, owners_only: bool) -> (r: HashSet<isize>)
    ensures
        r@ == hwnds_of(ws@, owners_only),
{
    let mut r: HashSet<isize> = HashSet::new();
    let mut i: usize = 0;
    while i < ws.len()
        invariant
            i <= ws@.len(),
            forall|h: isize| r@.contains(h) <==> exists|j: int| 0 <= j < i && #[trigger] ws@[j].hwnd == h && (owners_only ==> !ws@[j].is_popup),
        decreases ws.len() - i,
    {
        let t = ws[i];
        if !owners_only || !t.is_popup {
            r.insert(t.hwnd);
        }
        proof {
            assert forall|h: isize| r@.contains(h) <==> exists|j: int| 0 <= j < i + 1 && #[trigger] ws@[j].hwnd == h && (owners_only ==> !ws@[j].is_popup) by {
                if exists|j: int| 0 <= j < i + 1 && #[trigger] ws@[j].hwnd == h && (owners_only ==> !ws@[j].is_popup) {
                    let j = choose|j: int| 0 <= j < i + 1 && #[trigger] ws@[j].hwnd == h && (owners_only ==> !ws@[j].is_popup);
                    if j < i {
                        assert(exists|j: int| 0 <= j < i && #[trigger] ws@[j].hwnd == h && (owners_only ==> !ws@[j].is_popup));
                    }
                }
                if r@.contains(h) && h != t.hwnd {
                    assert(exists|j: int| 0 <= j < i && #[trigger] ws@[j].hwnd == h && (owners_only ==> !ws@[j].is_popup));
                }
            }
        }
        i += 1;
    }
    assert(r@ =~= hwnds_of(ws@, owners_only));
    r
}

/// The known process ids of the non-popup entries of `ws`.
pub fn owner_pid_set(ws: &Vec<TrackedWin>) -> (r: HashSet<u32>)
    ensures
        r@ == owner_pids(ws@),
{
    let mut r: HashSet<u32> = HashSet::new();
    let mut i: usize = 0;
    while i < ws.len()
        invariant
            i <= ws@.len(),
            forall|p: u32| r@.contains(p) <==> (p != 0 && exists|j: int| 0 <= j < i && #[trigger] ws@[j].pid == p && !ws@[j].is_popup),
        decreases ws.len() - i,
    {
        let t = ws[i];
        if !t.is_popup && t.pid != 0 {
            r.insert(t.pid);
        }
        proof {
            assert forall|p: u32| r@.contains(p) <==> (p != 0 && exists|j: int| 0 <= j < i + 1 && #[trigger] ws@[j].pid == p && !ws@[j].is_popup) by {
                if p != 0 && exists|j: int| 0 <= j < i + 1 && #[trigger] ws@[j].pid == p && !ws@[j].is_popup {
                    let j = choose|j: int| 0 <= j < i + 1 && #[trigger] ws@[j].pid == p && !ws@[j].is_popup;
                    if j < i {
                        assert(exists|j: int| 0 <= j < i && #[trigger] ws@[j].pid == p && !ws@[j].is_popup);
                    }
                }
                if r@.contains(p) && p != t.pid {
                    assert(exists|j: int| 0 <= j < i && #[trigger] ws@[j].pid == p && !ws@[j].is_popup);
                }
            }
        }
        i += 1;
    }
    assert(r@ =~= owner_pids(ws@));
    r
}

/// The process trees of the non-popup entries of `ws` with a known pid, in
/// the process snapshot `edges`.
pub fn launcher_tree_set(ws: &Vec<TrackedWin>, edges: &Vec<(u32, u32)>) -> (r: HashSet<u32>)
    ensures
        r@ == launcher_tree(ws@, edges@),
{
    let mut r: HashSet<u32> = HashSet::new();
    let mut i: usize = 0;
    while i < ws.len()
        invariant
            i <= ws@.len(),
            forall|p: u32| #[trigger] r@.contains(p) <==> exists|j: int| 0 <= j < i && !ws@[j].is_popup && ws@[j].pid != 0 && #[trigger] descendants(ws@[j].pid, edges@).contains(p),
        decreases ws.len() - i,
    {
        let t = ws[i];
        let ghost r0 = r@;
        if !t.is_popup && t.pid != 0 {
            let (tree, list) = descendant_list(t.pid, edges);
            let mut k: usize = 0;
            while k < list.len()
                invariant
                    k <= list@.len(),
                    forall|p: u32| #[trigger] r@.contains(p) <==> (r0.contains(p) || in_prefix(list@, k as int, p)),
                decreases list.len() - k,
            {
                let ghost rb = r@;
                r.insert(list[k]);
                proof {
                    assert forall|p: u32| #[trigger] r@.contains(p) <==> (r0.contains(p) || in_prefix(list@, k + 1, p)) by {
                        lemma_in_prefix_step(list@, k as int, p);
                        if rb.contains(p) {
                            assert(r@.contains(p));
                        }
                    }
                }
                k += 1;
            }
            proof {
                assert forall|p: u32| #[trigger] r@.contains(p) <==> (r0.contains(p) || descendants(t.pid, edges@).contains(p)) by {
                    if descendants(t.pid, edges@).contains(p) {
                        assert(tree@.contains(p));
                        assert(list@.contains(p));
                        let m = choose|m: int| 0 <= m < list@.len() && list@[m] == p;
                        assert(in_prefix(list@, k as int, p));
                    }
                    if r@.contains(p) && !r0.contains(p) {
                        let m = choose|m: int| 0 <= m < k && #[trigger] list@[m] == p;
                        assert(list@.contains(p));
                        assert(tree@.contains(p));
                    }
                }
            }
        }
        proof {
            assert forall|p: u32| #[trigger] r@.contains(p) <==> exists|j: int| 0 <= j < i + 1 && !ws@[j].is_popup && ws@[j].pid != 0 && #[trigger] descendants(ws@[j].pid, edges@).contains(p) by {
                if exists|j: int| 0 <= j < i + 1 && !ws@[j].is_popup && ws@[j].pid != 0 && #[trigger] descendants(ws@[j].pid, edges@).contains(p) {
                    let j = choose|j: int| 0 <= j < i + 1 && !ws@[j].is_popup && ws@[j].pid != 0 && #[trigger] descendants(ws@[j].pid, edges@).contains(p);
                    if j < i {
                        assert(r0.contains(p));
                    }
                }
                if r@.contains(p) && !r0.contains(p) {
                    assert(ws@[i as int] == t);
                    assert(descendants(ws@[i as int].pid, edges@).contains(p));
                }
            }
        }
        i += 1;
    }
    assert(r@ =~= launcher_tree(ws@, edges@));
    r
}

fn child_rule_matches(rule: &ChildRule, known: &HashSet<isize>, tree: &HashSet<u32>, w: &WinInfo) -> (r: bool)
    ensures
        r == child_rule_holds(*rule, known@, tree@, *w),
{
    if known.contains(&w.hwnd) || !tree.contains(&w.pid) || is_child(w.style) || is_chromium_class(
        w.class.as_str(),
    ) {
        return false;
    }
    match rule {
        ChildRule::Hidden => (visible_style(w.style) || w.visible) && !str_eq(w.class.as_str(), "#32768")
            && w.client_w >= 100 && w.client_h >= 100,
        ChildRule::HiddenTitled => (visible_style(w.style) || w.visible) && !str_eq(
            w.class.as_str(),
            "#32768",
        ) && w.title_len > 0 && w.client_w >= 100 && w.client_h >= 100,
        ChildRule::Visible => w.visible && w.client_w >= 200 && w.client_h >= 200,
        ChildRule::VisibleAnyTitle => w.visible && if w.title_len > 0 {
            w.client_w >= 100 && w.client_h >= 100
        } else {
            w.client_w >= 200 && w.client_h >= 200
        },
    }
}

/// The windows of `wins` that `rule` takes as new game windows of the
/// process tree `tree`, in enumeration order.
pub fn pick_children(wins: &Vec<WinInfo>, rule: ChildRule, known: &HashSet<isize>, tree: &HashSet<u32>) -> (r: Vec<
    isize,
>)
    ensures
        r@ == pick(wins@, child_pred(rule, known@, tree@)),
{
    let ghost p = child_pred(rule, known@, tree@);
    let mut r: Vec<isize> = Vec::new();
    let mut i: usize = 0;
    while i < wins.len()
        invariant
            i <= wins@.len(),
            p == child_pred(rule, known@, tree@),
            r@ == pick(wins@.take(i as int), p),
        decreases wins.len() - i,
    {
        proof {
            assert(wins@.take(i + 1).drop_last() =~= wins@.take(i as int));
            assert(wins@.take(i + 1).last() == wins@[i as int]);
        }
        if child_rule_matches(&rule, known, tree, &wins[i]) {
            r.push(wins[i].hwnd);
        }
        i += 1;
    }
    assert(wins@.take(wins@.len() as int) =~= wins@);
    r
}

/// The window of the first non-popup entry of `ws` with process `pid`.
pub fn first_owner_of_pid(ws: &Vec<TrackedWin>, pid: u32) -> (r: Option<isize>)
    ensures
        r == first_owner_with_pid(ws@, pid),
{
    let mut i: usize = 0;
    assert(ws@.skip(0) =~= ws@);
    while i < ws.len()
        invariant
            i <= ws@.len(),
            first_owner_with_pid(ws@.skip(i as int), pid) == first_owner_with_pid(ws@, pid),
        decreases ws.len() - i,
    {
        let ghost rest = ws@.skip(i as int);
        assert(rest[0] == ws@[i as int]);
        if !ws[i].is_popup && ws[i].pid == pid {
            return Some(ws[i].hwnd);
        }
        assert(rest.drop_first() =~= ws@.skip(i + 1));
        i += 1;
    }
    assert(ws@.skip(i as int).len() == 0);
    None
}

/// The popups among `wins` that belong to a window of `ws`, with their
/// owners, in enumeration order; `known` holds the windows already tracked.
pub fn pick_popups(wins: &Vec<WinInfo>, ws: &Vec<TrackedWin>, known: &HashSet<isize>) -> (r: Vec<PopupCandidate>)
    ensures
        r@ == popups_in(wins@, ws@, known@),
{
    let owners = hwnd_set_of(ws, true);
    let pids = owner_pid_set(ws);
    let mut r: Vec<PopupCandidate> = Vec::new();
    let mut i: usize = 0;
    while i < wins.len()
        invariant
            i <= wins@.len(),
            owners@ == hwnds_of(ws@, true),
            pids@ == owner_pids(ws@),
            r@ == popups_in(wins@.take(i as int), ws@, known@),
        decreases wins.len() - i,
    {
        let w = &wins[i];
        proof {
            assert(wins@.take(i + 1).drop_last() =~= wins@.take(i as int));
            assert(wins@.take(i + 1).last() == wins@[i as int]);
        }
        let is_menu = str_eq(w.class.as_str(), "#32768");
        let like = !known.contains(&w.hwnd) && visible_style(w.style) && !is_child(w.style) && (is_menu
            || popup_style(w.style)) && w.client_w >= 4 && w.client_h >= 4;
        if like {
            let owner = if w.owner != 0 && owners.contains(&w.owner) {
                Some(w.owner)
            } else if is_menu && pids.contains(&w.pid) {
                first_owner_of_pid(ws, w.pid)
            } else {
                None
            };
            if let Some(o) = owner {
                r.push(PopupCandidate { hwnd: w.hwnd, owner: o });
            }
        }
        i += 1;
    }
    assert(wins@.take(wins@.len() as int) =~= wins@);
    r
}

/// The window handles of `wins`.
pub fn hwnd_set_of_windows(wins: &Vec<WinInfo>) -> (r: HashSet<isize>)
    ensures
        r@ == hwnd_set(wins@),
{
    let mut r: HashSet<isize> = HashSet::new();
    let mut i: usize = 0;
    while i < wins.len()
        invariant
            i <= wins@.len(),
            forall|h: isize| #[trigger] r@.contains(h) <==> exists|j: int| 0 <= j < i && #[trigger] wins@[j].hwnd == h,
        decreases wins.len() - i,
    {
        let h = wins[i].hwnd;
        r.insert(h);
        proof {
            assert forall|x: isize| #[trigger] r@.contains(x) <==> exists|j: int| 0 <= j < i + 1 && #[trigger] wins@[j].hwnd == x by {
                if exists|j: int| 0 <= j < i + 1 && #[trigger] wins@[j].hwnd == x {
                    let j = choose|j: int| 0 <= j < i + 1 && #[trigger] wins@[j].hwnd == x;
                    if j < i {
                        assert(exists|j: int| 0 <= j < i && #[trigger] wins@[j].hwnd == x);
                    }
                }
                if r@.contains(x) && x != h {
                    assert(exists|j: int| 0 <= j < i && #[trigger] wins@[j].hwnd == x);
                }
                if x == h {
                    assert(wins@[i as int].hwnd == x);
                }
            }
        }
        i += 1;
    }
    assert(r@ =~= hwnd_set(wins@));
    r
}

/// The non-popup windows of `ws` that are not on the hidden desktop
/// (`hidden`) and came back on screen, `rects` holding each one's top-left
/// corner (`None` when it could not be read).
pub fn drifted_windows(ws: &Vec<TrackedWin>, rects: &Vec<Option<(i32, i32)>>, hidden: &HashSet<isize>) -> (r: Vec<
    isize,
>)
    requires
        rects@.len() == ws@.len(),
    ensures
        r@ == drifted(ws@, rects@, hidden@, ws@.len() as int),
{
    let mut r: Vec<isize> = Vec::new();
    let mut i: usize = 0;
    while i < ws.len()
        invariant
            i <= ws@.len(),
            rects@.len() == ws@.len(),
            r@ == drifted(ws@, rects@, hidden@, i as int),
        decreases ws.len() - i,
    {
        let t = ws[i];
        if !t.is_popup && !hidden.contains(&t.hwnd) {
            let moved = match rects[i] {
                Some((left, top)) => left > -20000 || top > -20000,
                None => false,
            };
            if moved {
                r.push(t.hwnd);
            }
        }
        i += 1;
    }
    r
}

/// What one pass of the scanner finds, from the snapshot `inp`, the process
/// snapshot `edges`, the windows of the hidden desktop (`hidden`) and of the
/// visible one (`visible`), and the top-left corner of each snapshot window
/// (`rects`): the launcher children (only when a launcher is open), the
/// popups of tracked windows, and the visible-desktop windows that drifted.
pub fn scan(
    inp: &ScanInput,
    edges: &Vec<(u32, u32)>,
    hidden: &Vec<WinInfo>,
    visible: &Vec<WinInfo>,
    rects: &Vec<Option<(i32, i32)>>,
) -> (r: ScanOutput)
    requires
        rects@.len() == inp.windows@.len(),
    ensures
        ({
            let ws = inp.windows@;
            let known = hwnds_of(ws, false);
            let tree = launcher_tree(ws, edges@);
            &&& r.new_hidden_children@ == (if inp.has_launcher && ws.len() > 0 {
                pick(hidden@, child_pred(ChildRule::Hidden, known, tree))
            } else {
                Seq::empty()
            })
            &&& r.new_visible_children@ == (if inp.has_launcher && ws.len() > 0 {
                pick(visible@, child_pred(ChildRule::Visible, known, tree))
            } else {
                Seq::empty()
            })
            &&& r.new_popups@ == (if ws.len() > 0 {
                popups_in(hidden@, ws, known)
            } else {
                Seq::empty()
            })
            &&& r.redrift_visible@ == drifted(ws, rects@, hwnd_set(hidden@), ws.len() as int)
        }),
{
    let mut out = ScanOutput::new();
    let known = hwnd_set_of(&inp.windows, false);
    if inp.has_launcher && inp.windows.len() > 0 {
        let tree = launcher_tree_set(&inp.windows, edges);
        out.new_hidden_children = pick_children(hidden, ChildRule::Hidden, &known, &tree);
        out.new_visible_children = pick_children(visible, ChildRule::Visible, &known, &tree);
    }
    if inp.windows.len() > 0 {
        out.new_popups = pick_popups(hidden, &inp.windows, &known);
    }
    let on_hidden = hwnd_set_of_windows(hidden);
    out.redrift_visible = drifted_windows(&inp.windows, rects, &on_hidden);
    out
}

/// The new game windows a launcher spawned, on the hidden desktop and on the
/// visible one, found by the process trees of the tracked windows `ws`: none
/// while no non-popup window has a known process.
pub fn launcher_children(ws: &Vec<TrackedWin>, edges: &Vec<(u32, u32)>, hidden: &Vec<WinInfo>, visible: &Vec<WinInfo>) -> (r: (
    Vec<isize>,
    Vec<isize>,
))
    ensures
        owner_pids(ws@) == Set::<u32>::empty() ==> r.0@.len() == 0 && r.1@.len() == 0,
        owner_pids(ws@) != Set::<u32>::empty() ==> {
            let known = hwnds_of(ws@, false);
            let tree = launcher_tree(ws@, edges@);
            &&& r.0@ == pick(hidden@, child_pred(ChildRule::HiddenTitled, known, tree))
            &&& r.1@ == pick(visible@, child_pred(ChildRule::VisibleAnyTitle, known, tree))
        },
{
    let pids = owner_pid_set(ws);
    if pids.is_empty() {
        proof {
            assert(pids@ =~= Set::<u32>::empty());
        }
        return (Vec::new(), Vec::new());
    }
    let known = hwnd_set_of(ws, false);
    let tree = launcher_tree_set(ws, edges);
    (
        pick_children(hidden, ChildRule::HiddenTitled, &known, &tree),
        pick_children(visible, ChildRule::VisibleAnyTitle, &known, &tree),
    )
}

} // verus!
