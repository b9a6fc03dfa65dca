use vstd::prelude::*;

use crate::capture::{frame_index, frame_published, last_repaint, tight_rows, FrameStore, REPAINT_INTERVAL_US};
use crate::cmdline::{split_args_spec, split_fold};
use crate::apps::{words, words_fold};
use crate::input::{click_plan_spec, is_chromium_click, key_plan_ok, KeyPlan};
use crate::state::{
    external_registered, has_request, ids_of, surface_not_of, toplevel_not, toplevel_reassigned, without_request,
    WinToplevel, WindowMod,
};
use crate::desktop::WinInfo;
use crate::scanner::{
    child_pred, hwnds_of, launcher_tree, pick, popup_like, popup_owner, popups_in, ChildRule, PopupCandidate,
    TrackedWin,
};
use crate::text::is_ws;
use crate::uia::{coalesce_spec, is_text_cmd, UiaCmd};

verus! {

/// A window registered by `register_external_hwnd` reads back: its handle
/// names a toplevel showing the window, and `surface_for_toplevel` finds the
/// root surface made with it (every surface belonging to a registered
/// toplevel, as `retain_toplevels` leaves them).
pub proof fn law_register_reads_back(
    s: WindowMod,
    old: WindowMod,
    h: i64,
    hwnd: isize,
    title: Seq<char>,
    app_id: Seq<char>,
    w: i32,
    ht: i32,
)
    requires
        old.wf(),
        old.surfaces_anchored(),
        external_registered(s, old, h, hwnd, title, app_id, w, ht),
    ensures
        s.hwnd_of(h) == Some(hwnd),
        s.root_surface(h) == Some((h + 1) as i64),
{
    let n = old.toplevels@.len() as int;
    assert(s.toplevels@[n] == s.toplevels@.last());
    assert(s.toplevels@[n].id == h);
    assert forall|k: int| 0 <= k < s.toplevels@.len() && s.toplevels@[k].id == h implies k == n by {
        if k < n {
            assert(s.toplevels@.drop_last()[k] == s.toplevels@[k]);
            assert(s.toplevels@[k] == old.toplevels@[k]);
            assert(old.toplevels@[k].id < old.next_handle);
        }
    }
    let m = old.surfaces@.len() as int;
    assert(s.surfaces@[m] == s.surfaces@.last());
    assert forall|j: int| 0 <= j < m implies s.surfaces@[j].toplevel_ptr != h by {
        assert(s.surfaces@.drop_last()[j] == s.surfaces@[j]);
        assert(s.surfaces@[j] == old.surfaces@[j]);
        assert(old.has_toplevel(old.surfaces@[j].toplevel_ptr));
        let t = choose|t: int| 0 <= t < old.toplevels@.len() && #[trigger] old.toplevels@[t].id == old.surfaces@[j].toplevel_ptr;
        assert(old.toplevels@[t].id < old.next_handle);
    }
    lemma_root_at(s.surfaces@, h, 0, m);
}

/// The handle `register_external_hwnd` returns names a toplevel showing the
/// window it registered.
pub proof fn law_registered_handle_shows_window(
    s: WindowMod,
    old: WindowMod,
    h: i64,
    hwnd: isize,
    title: Seq<char>,
    app_id: Seq<char>,
    w: i32,
    ht: i32,
)
    requires
        old.wf(),
        external_registered(s, old, h, hwnd, title, app_id, w, ht),
    ensures
        s.hwnd_of(h) == Some(hwnd),
{
    let n = old.toplevels@.len() as int;
    assert(s.toplevels@[n] == s.toplevels@.last());
    assert forall|k: int| 0 <= k < s.toplevels@.len() && s.toplevels@[k].id == h implies k == n by {
        if k < n {
            assert(s.toplevels@.drop_last()[k] == s.toplevels@[k]);
            assert(old.toplevels@[k].id < old.next_handle);
        }
    }
}

proof fn lemma_root_at(sf: Seq<crate::state::WinSurface>, tp: i64, i: int, m: int)
    requires
        0 <= i <= m < sf.len(),
        forall|j: int| 0 <= j < m ==> sf[j].toplevel_ptr != tp,
        sf[m].toplevel_ptr == tp && sf[m].parent_ptr == 0,
    ensures
        crate::state::first_root_from(sf, tp, i) == Some(m),
    decreases m - i,
{
    if i < m {
        lemma_root_at(sf, tp, i + 1, m);
    }
}

/// A toplevel pointed at a new window by `reassign_toplevel_hwnd` keeps its
/// handle and reads back the new window.
pub proof fn law_reassign_reads_back(
    s: WindowMod,
    old: WindowMod,
    ptr: i64,
    hwnd: isize,
    app_id: String,
    title: String,
    w: i32,
    h: i32,
)
    requires
        old.wf(),
        old.has_toplevel(ptr),
        toplevel_reassigned(s, old, ptr, hwnd, app_id, title, w, h),
    ensures
        s.has_toplevel(ptr),
        s.hwnd_of(ptr) == Some(hwnd),
{
    let k = choose|k: int| 0 <= k < old.toplevels@.len() && #[trigger] old.toplevels@[k].id == ptr;
    assert(s.toplevels@[k].id == ptr);
    assert forall|j: int| 0 <= j < s.toplevels@.len() && s.toplevels@[j].id == ptr implies s.toplevels@[j].hwnd == hwnd by {
        assert(old.toplevels@[j].id == ptr || s.toplevels@[j] == old.toplevels@[j]);
    }
}

/// A frame a capture thread publishes is the one the render thread takes
/// next: afterwards the store's entry for the window holds the published
/// size and pixels, under a version other than the one the render thread
/// last took of it (0 when it never took one, as `latest` is asked).
pub proof fn law_published_frame_is_taken(
    s: FrameStore,
    old: FrameStore,
    hwnd: isize,
    w: i32,
    h: i32,
    pixels: Seq<u8>,
    checksum: u64,
    seen: u64,
)
    requires
        s.wf(),
        frame_published(s, old, hwnd, w, h, pixels, checksum),
        match frame_index(old.frames@, hwnd) {
            None => seen == 0,
            Some(k) => seen == old.frames@[k].version,
        },
    ensures
        frame_index(s.frames@, hwnd) matches Some(k) && {
            let f = s.frames@[k];
            f.width == w && f.height == h && f.data@ == pixels && f.version != seen
        },
{
    let at = match frame_index(old.frames@, hwnd) {
        None => s.frames@.len() - 1,
        Some(k) => k,
    };
    if frame_index(old.frames@, hwnd) is None {
        assert(s.frames@[at] == s.frames@.last());
    }
    assert(s.frames@[at].hwnd == hwnd);
    let c = choose|k: int| 0 <= k < s.frames@.len() && s.frames@[k].hwnd == hwnd;
    assert(c == at) by {
        if c < at {
            assert(s.frames@[c].hwnd != s.frames@[at].hwnd);
        } else if at < c {
            assert(s.frames@[at].hwnd != s.frames@[c].hwnd);
        }
    }
}

proof fn lemma_pick_skips_known(wins: Seq<WinInfo>, rule: ChildRule, known: Set<isize>, tree: Set<u32>)
    ensures
        forall|k: int|
            0 <= k < pick(wins, child_pred(rule, known, tree)).len() ==> !known.contains(
                #[trigger] pick(wins, child_pred(rule, known, tree))[k],
            ),
    decreases wins.len(),
{
    if wins.len() > 0 {
        lemma_pick_skips_known(wins.drop_last(), rule, known, tree);
        let r = pick(wins.drop_last(), child_pred(rule, known, tree));
        assert forall|k: int| 0 <= k < r.len() implies r.push(wins.last().hwnd)[k] == r[k] by {}
    }
}

proof fn lemma_popups_skip_known(wins: Seq<WinInfo>, ws: Seq<TrackedWin>, known: Set<isize>)
    ensures
        forall|k: int| 0 <= k < popups_in(wins, ws, known).len() ==> !known.contains(#[trigger] popups_in(wins, ws, known)[k].hwnd),
    decreases wins.len(),
{
    if wins.len() > 0 {
        lemma_popups_skip_known(wins.drop_last(), ws, known);
        let r = popups_in(wins.drop_last(), ws, known);
        let w = wins.last();
        if popup_like(w, known) && popup_owner(w, ws) is Some {
            let c = PopupCandidate { hwnd: w.hwnd, owner: popup_owner(w, ws)->0 };
            assert forall|k: int| 0 <= k < r.len() implies r.push(c)[k] == r[k] by {}
            assert(r.push(c)[r.len() as int] == c);
        }
    }
}

/// The scanner never proposes a window that the snapshot it worked from
/// already tracks: not as a window a launcher spawned, nor as a popup.
pub proof fn law_scan_skips_tracked(ws: Seq<TrackedWin>, edges: Seq<(u32, u32)>, wins: Seq<WinInfo>, rule: ChildRule)
    ensures
        ({
            let known = hwnds_of(ws, false);
            let found = pick(wins, child_pred(rule, known, launcher_tree(ws, edges)));
            forall|k: int| 0 <= k < found.len() ==> !known.contains(#[trigger] found[k])
        }),
        ({
            let known = hwnds_of(ws, false);
            let found = popups_in(wins, ws, known);
            forall|k: int| 0 <= k < found.len() ==> !known.contains(#[trigger] found[k].hwnd)
        }),
{
    lemma_pick_skips_known(wins, rule, hwnds_of(ws, false), launcher_tree(ws, edges));
    lemma_popups_skip_known(wins, ws, hwnds_of(ws, false));
}

/// A freed toplevel is gone for good: after `free_toplevel(h)` no toplevel
/// has the handle any more and no surface belongs to it, so every later
/// request naming the handle finds nothing.
pub proof fn law_freed_toplevel_is_gone(s: WindowMod, old: WindowMod, h: i64)
    requires
        s.toplevels@ == old.toplevels@.filter(toplevel_not(h)),
        s.surfaces@ == old.surfaces@.filter(surface_not_of(h)),
    ensures
        !s.has_toplevel(h),
        forall|j: int| 0 <= j < s.surfaces@.len() ==> #[trigger] s.surfaces@[j].toplevel_ptr != h,
{
    let it = crate::seqs::lemma_filter_origin(old.toplevels@, toplevel_not(h));
    let is = crate::seqs::lemma_filter_origin(old.surfaces@, surface_not_of(h));
    assert forall|i: int| 0 <= i < s.toplevels@.len() implies #[trigger] s.toplevels@[i].id != h by {
        assert(toplevel_not(h)(old.toplevels@[it[i]]));
    }
    assert forall|j: int| 0 <= j < s.surfaces@.len() implies #[trigger] s.surfaces@[j].toplevel_ptr != h by {
        assert(surface_not_of(h)(old.surfaces@[is[j]]));
    }
}

/// A request is taken once: after `take_requests`, no toplevel still holds
/// one of that kind, so taking again yields nothing.
pub proof fn law_requests_taken_once(tls: Seq<WinToplevel>, kind: crate::state::RequestKind)
    ensures
        ids_of(tls.map_values(|t: WinToplevel| without_request(t, kind)).filter(has_request(kind))) == Seq::<
            i64,
        >::empty(),
{
    let cleared = tls.map_values(|t: WinToplevel| without_request(t, kind));
    let f = cleared.filter(has_request(kind));
    if f.len() > 0 {
        let idx = crate::seqs::lemma_filter_origin(cleared, has_request(kind));
        assert(has_request(kind)(cleared[idx[0]]));
    }
    assert(f.len() == 0);
    assert(ids_of(f) =~= Seq::<i64>::empty());
}

/// Repaint requests to one window are throttled: once one was recorded at
/// `t1`, a request at a `t2` less than `REPAINT_INTERVAL_US` later is not due.
pub proof fn law_repaint_throttled(log: Seq<(isize, u64)>, hwnd: isize, t1: u64, t2: u64)
    requires
        last_repaint(log, hwnd) == Some(t1),
        t2 < t1 + REPAINT_INTERVAL_US,
    ensures
        !(match last_repaint(log, hwnd) {
            None => true,
            Some(t) => t2 >= t && t2 - t >= REPAINT_INTERVAL_US,
        }),
{
}

/// A click on a Chromium window of the visible desktop neither activates it,
/// nor posts to it, nor drives UI Automation, any of which would pull the
/// foreground away from the game.
pub proof fn law_visible_chromium_click_is_inert(
    top: isize,
    target: isize,
    target_class: Seq<char>,
    top_class: Seq<char>,
    button: u32,
    pressed: bool,
    mk_flag: u32,
    lx: i32,
    ly: i32,
)
    requires
        is_chromium_click(target_class, top_class),
    ensures
        ({
            let p = click_plan_spec(top, target, target_class, top_class, false, button, pressed, mk_flag, lx, ly);
            !p.activate && p.post_to is None && p.uia is None
        }),
{
}

/// A key takes one route only: a printable key press is posted as its
/// characters (or typed through UI Automation) and never also as a key
/// message, which the window would turn into a second character; any other
/// key (Enter, Backspace, Tab, arrows) is posted as a key message and no
/// character; and text never goes both as characters and through UI
/// Automation.
pub proof fn law_key_one_text_route(p: KeyPlan, top_class: Seq<char>, chars: Seq<u16>, pressed: bool, on_hidden: bool)
    requires
        key_plan_ok(p, top_class, chars, pressed, on_hidden),
    ensures
        !(p.chars@.len() > 0 && p.uia_text is Some),
        pressed && crate::input::produces_text(chars) ==> !p.post_key,
        p.post_key ==> p.chars@.len() == 0 && p.uia_text is None,
        !crate::input::produces_text(chars) ==> p.chars@.len() == 0,
{
    crate::input::lemma_typed_text_printable(chars);
}

pub open spec fn text_cmds(s: Seq<UiaCmd>) -> Seq<UiaCmd> {
    s.filter(|c: UiaCmd| is_text_cmd(c))
}

/// Coalescing the automation worker's queue never drops or reorders typed
/// text, and keeps the newest command.
pub proof fn law_coalesce_keeps_text(s: Seq<UiaCmd>)
    ensures
        text_cmds(coalesce_spec(s)) == text_cmds(s),
        s.len() > 0 ==> coalesce_spec(s).len() > 0 && coalesce_spec(s).last() == s.last(),
    decreases s.len(),
{
    reveal(Seq::filter);
    if s.len() > 0 {
        let t = s.drop_last();
        law_coalesce_keeps_text(t);
        let c = coalesce_spec(t);
        let p = |c: UiaCmd| is_text_cmd(c);
        if !is_text_cmd(s.last()) && s.len() >= 2 && !is_text_cmd(t.last()) {
            assert(c.len() > 0 && c.last() == t.last());
            assert(c.drop_last().push(s.last()).drop_last() =~= c.drop_last());
            assert(c =~= c.drop_last().push(c.last()));
            assert(text_cmds(c) == text_cmds(c.drop_last()));
            assert(text_cmds(c.drop_last().push(s.last())) == text_cmds(c.drop_last()));
        } else {
            assert(c.push(s.last()).drop_last() =~= c);
        }
        assert(s.drop_last() =~= t);
    }
}

/// The commands of `s` that the automation worker performs, in the order they
/// were sent: a text command always, a click or scroll only when it is the
/// newest command or the next one is text.
pub open spec fn worker_survivors(s: Seq<UiaCmd>) -> Seq<UiaCmd>
    decreases s.len(),
{
    if s.len() == 0 {
        Seq::empty()
    } else {
        let rest = worker_survivors(s.drop_first());
        if is_text_cmd(s[0]) || s.len() == 1 || is_text_cmd(s[1]) {
            seq![s[0]] + rest
        } else {
            rest
        }
    }
}

proof fn lemma_survivors_one(x: UiaCmd)
    ensures
        worker_survivors(seq![x]) == seq![x],
{
    let e = Seq::<UiaCmd>::empty();
    assert(seq![x].drop_first() =~= e);
    assert(worker_survivors(e) == e);
    assert(seq![x] + e =~= seq![x]);
}

proof fn lemma_survivors_last(s: Seq<UiaCmd>)
    ensures
        s.len() > 0 ==> worker_survivors(s).len() > 0 && worker_survivors(s).last() == s.last(),
    decreases s.len(),
{
    if s.len() == 1 {
        lemma_survivors_one(s[0]);
        assert(s =~= seq![s[0]]);
    } else if s.len() > 1 {
        lemma_survivors_last(s.drop_first());
        assert(s.drop_first().last() == s.last());
    }
}

proof fn lemma_survivors_push(s: Seq<UiaCmd>, x: UiaCmd)
    ensures
        worker_survivors(s.push(x)) == (if !is_text_cmd(x) && s.len() > 0 && !is_text_cmd(s.last()) {
            worker_survivors(s).drop_last().push(x)
        } else {
            worker_survivors(s).push(x)
        }),
    decreases s.len(),
{
    let u = s.push(x);
    if s.len() == 0 {
        lemma_survivors_one(x);
        assert(u =~= seq![x]);
        assert(worker_survivors(s) =~= Seq::<UiaCmd>::empty());
        assert(worker_survivors(s).push(x) =~= seq![x]);
    } else if s.len() == 1 {
        assert(u.drop_first() =~= seq![x]);
        lemma_survivors_one(x);
        lemma_survivors_one(s[0]);
        assert(s =~= seq![s[0]]);
        assert(s.last() == s[0]);
        if is_text_cmd(s[0]) || is_text_cmd(x) {
            assert(worker_survivors(u) =~= seq![s[0]] + seq![x]);
            assert(worker_survivors(u) =~= worker_survivors(s).push(x));
        } else {
            assert(worker_survivors(u) =~= seq![x]);
            assert(worker_survivors(s).drop_last().push(x) =~= seq![x]);
        }
    } else {
        let t = s.drop_first();
        assert(u.drop_first() =~= t.push(x));
        assert(u[0] == s[0] && u[1] == s[1]);
        assert(t.last() == s.last());
        lemma_survivors_push(t, x);
        lemma_survivors_last(t);
        let r = worker_survivors(t);
        let keep = is_text_cmd(s[0]) || is_text_cmd(s[1]);
        if !is_text_cmd(x) && !is_text_cmd(s.last()) {
            if keep {
                assert((seq![s[0]] + r).drop_last().push(x) =~= seq![s[0]] + r.drop_last().push(x));
            }
        } else {
            if keep {
                assert((seq![s[0]] + r).push(x) =~= seq![s[0]] + r.push(x));
            }
        }
    }
}

/// The automation worker performs every typed text command exactly once and
/// in the order it was sent, and skips a click or scroll only when the very
/// next queued command is another click or scroll: what `coalesce` keeps of
/// the queue is exactly `worker_survivors`.
pub proof fn law_worker_performs_survivors(s: Seq<UiaCmd>)
    ensures
        coalesce_spec(s) == worker_survivors(s),
    decreases s.len(),
{
    if s.len() > 0 {
        let t = s.drop_last();
        law_worker_performs_survivors(t);
        assert(t.push(s.last()) =~= s);
        lemma_survivors_push(t, s.last());
        if s.len() >= 2 {
            assert(t.last() == s.drop_last().last());
        }
    }
}

/// A frame copied by `copy_rows_tight` has `stride` bytes per row and no
/// padding: `stride * h` bytes.
pub proof fn law_tight_rows_len(src: Seq<u8>, pitch: int, stride: int, h: int)
    requires
        0 <= stride <= pitch,
        h > 0 ==> (h - 1) * pitch + stride <= src.len(),
    ensures
        tight_rows(src, pitch, stride, h).len() == (if h > 0 { stride * h } else { 0 }),
    decreases h,
{
    if h > 0 {
        if h > 1 {
            assert((h - 2) * pitch + stride <= (h - 1) * pitch + stride) by (nonlinear_arith)
                requires
                    pitch >= 0,
                    h >= 2,
            ;
        }
        law_tight_rows_len(src, pitch, stride, h - 1);
        assert(0 <= (h - 1) * pitch) by (nonlinear_arith)
            requires
                pitch >= 0,
                h >= 1,
        ;
        assert(stride * (h - 1) + stride == stride * h) by (nonlinear_arith);
    }
}

proof fn lemma_split_words_fold(s: Seq<char>)
    requires
        !s.contains('"'),
    ensures
        ({
            let (out, cur, quoted, have) = split_fold(s);
            &&& !quoted
            &&& have == (cur.len() > 0)
            &&& (out, cur) == words_fold(s)
        }),
    decreases s.len(),
{
    if s.len() > 0 {
        assert(!s.drop_last().contains('"')) by {
            if s.drop_last().contains('"') {
                let k = choose|k: int| 0 <= k < s.drop_last().len() && s.drop_last()[k] == '"';
                assert(s[k] == '"');
            }
        }
        assert(s.last() != '"') by {
            assert(s[s.len() - 1] == s.last());
        }
        lemma_split_words_fold(s.drop_last());
    }
}

/// Without double quotes, a shortcut's arguments split as its
/// whitespace-separated words.
pub proof fn law_split_args_unquoted(s: Seq<char>)
    requires
        !s.contains('"'),
    ensures
        split_args_spec(s) == words(s),
{
    lemma_split_words_fold(s);
}

proof fn lemma_args_tail_append(a: Seq<Seq<char>>, b: Seq<Seq<char>>)
    ensures
        crate::cmdline::args_tail(a + b) == crate::cmdline::args_tail(a) + crate::cmdline::args_tail(b),
    decreases b.len(),
{
    if b.len() == 0 {
        assert(a + b =~= a);
        assert(crate::cmdline::args_tail(a) + crate::cmdline::args_tail(b) =~= crate::cmdline::args_tail(a));
    } else {
        lemma_args_tail_append(a, b.drop_last());
        assert((a + b).drop_last() =~= a + b.drop_last());
        assert((a + b).last() == b.last());
        let x = crate::cmdline::quoted_arg(b.last());
        assert(crate::cmdline::args_tail(a) + crate::cmdline::args_tail(b.drop_last()) + seq![' '] + x
            =~= crate::cmdline::args_tail(a) + (crate::cmdline::args_tail(b.drop_last()) + seq![' '] + x));
    }
}

/// A command line starts with the program in double quotes, and each
/// argument follows it after a space: in double quotes when it holds a space
/// (so the program receives it as one argument), as it is otherwise.
pub proof fn law_command_line_keeps_each_argument(program: Seq<char>, args: Seq<Seq<char>>, i: int)
    requires
        0 <= i < args.len(),
    ensures
        crate::cmdline::command_line_spec(program, args) matches Some(c) && {
            let a = args[i];
            let piece = if a.contains(' ') {
                seq![' ', '"'] + a + seq!['"']
            } else {
                seq![' '] + a
            };
            &&& c.len() >= program.len() + 2
            &&& c.subrange(0, program.len() + 2int) == seq!['"'] + program + seq!['"']
            &&& exists|k: int|
                program.len() + 2 <= k && k + piece.len() <= c.len() && (#[trigger] c.skip(k)).take(piece.len() as int) == piece
        },
{
    let a = args[i];
    let pre = args.take(i);
    let post = args.skip(i + 1);
    assert(args =~= pre.push(a) + post);
    lemma_args_tail_append(pre.push(a), post);
    assert(pre.push(a).drop_last() =~= pre);
    let head = seq!['"'] + program + seq!['"'];
    let piece = if a.contains(' ') {
        seq![' ', '"'] + a + seq!['"']
    } else {
        seq![' '] + a
    };
    assert(seq![' '] + crate::cmdline::quoted_arg(a) =~= piece);
    let t1 = crate::cmdline::args_tail(pre);
    let t2 = crate::cmdline::args_tail(post);
    let c = head + crate::cmdline::args_tail(args);
    assert(c =~= head + t1 + piece + t2);
    let k: int = (head.len() + t1.len()) as int;
    assert(c.subrange(0, program.len() + 2int) =~= head);
    assert(c.skip(k).take(piece.len() as int) =~= piece);
}

proof fn lemma_first_owner_tracked(ws: Seq<TrackedWin>, pid: u32)
    ensures
        crate::scanner::first_owner_with_pid(ws, pid) matches Some(h) ==> exists|t: int|
            0 <= t < ws.len() && ws[t].hwnd == h && !ws[t].is_popup && ws[t].pid == pid,
    decreases ws.len(),
{
    if ws.len() > 0 && !(!ws[0].is_popup && ws[0].pid == pid) {
        lemma_first_owner_tracked(ws.drop_first(), pid);
        if let Some(h) = crate::scanner::first_owner_with_pid(ws, pid) {
            let t = choose|t: int|
                0 <= t < ws.drop_first().len() && ws.drop_first()[t].hwnd == h && !ws.drop_first()[t].is_popup
                    && ws.drop_first()[t].pid == pid;
            assert(ws[t + 1] == ws.drop_first()[t]);
        }
    }
}

/// Every popup the scanner proposes is one of the windows it was shown and is
/// drawn inside a tracked window that is no popup itself. That owner is the
/// window's own owner, unless the window is a classic menu (class `#32768`)
/// of the owner's process: a window without an owner that is no menu, such
/// as an app's borderless main window, is never taken for a popup.
pub proof fn law_popups_are_owned(wins: Seq<WinInfo>, ws: Seq<TrackedWin>, known: Set<isize>, n: int)
    requires
        0 <= n < popups_in(wins, ws, known).len(),
    ensures
        ({
            let c = popups_in(wins, ws, known)[n];
            exists|j: int, t: int| {
                &&& 0 <= j < wins.len() && wins[j].hwnd == c.hwnd
                &&& 0 <= t < ws.len() && ws[t].hwnd == c.owner && !ws[t].is_popup
                &&& (wins[j].class@ != "#32768"@ ==> wins[j].owner != 0 && c.owner == wins[j].owner)
                &&& (c.owner != wins[j].owner ==> wins[j].class@ == "#32768"@ && wins[j].pid == ws[t].pid
                    && ws[t].pid != 0)
            }
        }),
    decreases wins.len(),
{
    let init = wins.drop_last();
    let r = popups_in(init, ws, known);
    let w = wins.last();
    if n < r.len() {
        law_popups_are_owned(init, ws, known, n);
        let c = r[n];
        let (j, t) = choose|j: int, t: int| {
            &&& 0 <= j < init.len() && init[j].hwnd == c.hwnd
            &&& 0 <= t < ws.len() && ws[t].hwnd == c.owner && !ws[t].is_popup
            &&& (init[j].class@ != "#32768"@ ==> init[j].owner != 0 && c.owner == init[j].owner)
            &&& (c.owner != init[j].owner ==> init[j].class@ == "#32768"@ && init[j].pid == ws[t].pid
                && ws[t].pid != 0)
        };
        assert(wins[j] == init[j]);
        if popup_like(w, known) && popup_owner(w, ws) is Some {
            assert(popups_in(wins, ws, known)[n] == c);
        }
    } else {
        let j = wins.len() - 1;
        assert(wins[j] == w);
        if w.owner != 0 && hwnds_of(ws, true).contains(w.owner) {
            let t = choose|t: int| 0 <= t < ws.len() && #[trigger] ws[t].hwnd == w.owner && (true ==> !ws[t].is_popup);
            assert(popups_in(wins, ws, known)[n].owner == w.owner);
        } else {
            lemma_first_owner_tracked(ws, w.pid);
            let h = crate::scanner::first_owner_with_pid(ws, w.pid)->0;
            let t = choose|t: int| 0 <= t < ws.len() && ws[t].hwnd == h && !ws[t].is_popup && ws[t].pid == w.pid;
            let q = choose|q: int| 0 <= q < ws.len() && #[trigger] ws[q].pid == w.pid && !ws[q].is_popup;
            assert(w.pid != 0);
            assert(popups_in(wins, ws, known)[n].owner == h);
        }
    }
}

/// A window that is still alive and whose stored frame has pixels it has
/// not shown yet takes that frame, whatever its size: its pixels, width,
/// height and version.
pub proof fn law_refresh_takes_new_frame(
    t: WinToplevel,
    o: WinToplevel,
    live: Set<isize>,
    store: FrameStore,
    k: int,
)
    requires
        store.wf(),
        0 <= k < store.frames@.len(),
        store.frames@[k].hwnd == o.hwnd,
        live.contains(o.hwnd),
        store.frames@[k].data@.len() > 0,
        store.frames@[k].version != o.last_frame_version,
        crate::capture::is_refreshed(t, o, live, store.frames@),
    ensures
        t.mapped,
        t.buffer@ == store.frames@[k].data@,
        t.width == store.frames@[k].width,
        t.height == store.frames@[k].height,
        t.last_frame_version == store.frames@[k].version,
{
    let frames = store.frames@;
    assert(exists|q: int| 0 <= q < frames.len() && frames[q].hwnd == o.hwnd);
    let q = frame_index(frames, o.hwnd)->0;
    if q != k {
        if q < k {
            assert(frames[q].hwnd != frames[k].hwnd);
        } else {
            assert(frames[k].hwnd != frames[q].hwnd);
        }
    }
}

/// Only a press of the left button invokes the element under the pointer
/// through UI Automation: a release, or any other button, never does.
pub proof fn law_only_left_press_invokes(
    top: isize,
    target: isize,
    target_class: Seq<char>,
    top_class: Seq<char>,
    on_hidden: bool,
    button: u32,
    pressed: bool,
    mk_flag: u32,
    lx: i32,
    ly: i32,
)
    requires
        button != 0x110 || !pressed,
    ensures
        click_plan_spec(top, target, target_class, top_class, on_hidden, button, pressed, mk_flag, lx, ly).uia is None,
{
}

/// A key press that types text in a window that takes posted characters
/// posts every printable character of the key's output, once each and in
/// order, and nothing else: with a dead key, both the accent and the letter.
pub proof fn law_key_posts_all_printable(p: KeyPlan, top_class: Seq<char>, chars: Seq<u16>, on_hidden: bool)
    requires
        key_plan_ok(p, top_class, chars, true, on_hidden),
        !crate::input::is_uwp_class(top_class),
        crate::input::produces_text(chars),
    ensures
        p.chars@ == chars.filter(|c: u16| c >= 0x20 && c != 0x7F),
        (forall|i: int| 0 <= i < chars.len() ==> chars[i] >= 0x20 && chars[i] != 0x7F) ==> p.chars@ == chars,
{
    let f1 = |c: u16| crate::input::is_printable(c);
    let f2 = |c: u16| c >= 0x20 && c != 0x7F;
    assert(f1 =~= f2);
    if forall|i: int| 0 <= i < chars.len() ==> chars[i] >= 0x20 && chars[i] != 0x7F {
        lemma_filter_all(chars, f2);
    }
}

proof fn lemma_filter_all(s: Seq<u16>, f: spec_fn(u16) -> bool)
    requires
        forall|i: int| 0 <= i < s.len() ==> f(s[i]),
    ensures
        s.filter(f) == s,
    decreases s.len(),
{
    reveal(Seq::filter);
    if s.len() > 0 {
        lemma_filter_all(s.drop_last(), f);
        assert(s.drop_last().push(s.last()) =~= s);
    }
}

/// Adding an argument to a command line appends it, after a space, in
/// double quotes exactly when it holds a space; the command line of a
/// program with one argument is the quoted program followed by it; with no
/// argument there is none.
pub proof fn law_command_line_appends(program: Seq<char>, args: Seq<Seq<char>>, a: Seq<char>)
    ensures
        ({
            let piece = if a.contains(' ') {
                seq![' ', '"'] + a + seq!['"']
            } else {
                seq![' '] + a
            };
            &&& crate::cmdline::command_line_spec(program, Seq::empty()) is None
            &&& crate::cmdline::command_line_spec(program, seq![a]) == Some(seq!['"'] + program + seq!['"'] + piece)
            &&& args.len() > 0 ==> crate::cmdline::command_line_spec(program, args.push(a)) == Some(
                crate::cmdline::command_line_spec(program, args)->0 + piece,
            )
        }),
{
    let piece = if a.contains(' ') {
        seq![' ', '"'] + a + seq!['"']
    } else {
        seq![' '] + a
    };
    assert(seq![' '] + crate::cmdline::quoted_arg(a) =~= piece);
    let one = seq![a];
    assert(one.drop_last() =~= Seq::<Seq<char>>::empty());
    assert(crate::cmdline::args_tail(Seq::<Seq<char>>::empty()) =~= Seq::<char>::empty());
    assert(crate::cmdline::args_tail(one) =~= piece);
    assert(seq!['"'] + program + seq!['"'] + crate::cmdline::args_tail(one) =~= seq!['"'] + program + seq!['"'] + piece);
    assert(args.push(a).drop_last() =~= args);
    let head = seq!['"'] + program + seq!['"'];
    assert(head + (crate::cmdline::args_tail(args) + seq![' '] + crate::cmdline::quoted_arg(a)) =~= head
        + crate::cmdline::args_tail(args) + piece);
}

/// Every window that looks like a popup (see `popup_like`) and whose owner is
/// a tracked window that is no popup is proposed, with that owner.
pub proof fn law_owned_popups_are_proposed(wins: Seq<WinInfo>, ws: Seq<TrackedWin>, known: Set<isize>, j: int, t: int)
    requires
        0 <= j < wins.len(),
        0 <= t < ws.len(),
        !ws[t].is_popup,
        wins[j].owner != 0,
        ws[t].hwnd == wins[j].owner,
        popup_like(wins[j], known),
    ensures
        exists|n: int|
            0 <= n < popups_in(wins, ws, known).len() && #[trigger] popups_in(wins, ws, known)[n] == (PopupCandidate {
                hwnd: wins[j].hwnd,
                owner: wins[j].owner,
            }),
    decreases wins.len(),
{
    let init = wins.drop_last();
    assert(hwnds_of(ws, true).contains(ws[t].hwnd));
    if j < wins.len() - 1 {
        assert(init[j] == wins[j]);
        law_owned_popups_are_proposed(init, ws, known, j, t);
        let r = popups_in(init, ws, known);
        let n = choose|n: int| 0 <= n < r.len() && #[trigger] r[n] == (PopupCandidate { hwnd: wins[j].hwnd, owner: wins[j].owner });
        let w = wins.last();
        let all = popups_in(wins, ws, known);
        if popup_like(w, known) && popup_owner(w, ws) is Some {
            assert(all == r.push(PopupCandidate { hwnd: w.hwnd, owner: popup_owner(w, ws)->0 }));
            assert(all[n] == r[n]);
        } else {
            assert(all == r);
        }
        assert(0 <= n < all.len() && all[n] == (PopupCandidate { hwnd: wins[j].hwnd, owner: wins[j].owner }));
    } else {
        let r = popups_in(init, ws, known);
        let w = wins.last();
        assert(w == wins[j]);
        assert(popup_owner(w, ws) == Some(w.owner));
        let all = popups_in(wins, ws, known);
        assert(all == r.push(PopupCandidate { hwnd: w.hwnd, owner: w.owner }));
        let n = r.len() as int;
        assert(0 <= n < all.len() && all[n] == (PopupCandidate { hwnd: wins[j].hwnd, owner: wins[j].owner }));
    }
}

/// When a toplevel takes a new frame, the surfaces of that toplevel are
/// damaged over the whole new frame, whatever its size.
pub proof fn law_refresh_damages_new_frame(
    tls: Seq<WinToplevel>,
    m: int,
    live: Set<isize>,
    store: FrameStore,
    k: int,
)
    requires
        store.wf(),
        0 <= m < tls.len(),
        forall|a: int, b: int| 0 <= a < b < tls.len() ==> #[trigger] tls[a].id != #[trigger] tls[b].id,
        0 <= k < store.frames@.len(),
        store.frames@[k].hwnd == tls[m].hwnd,
        live.contains(tls[m].hwnd),
        store.frames@[k].data@.len() > 0,
        store.frames@[k].version != tls[m].last_frame_version,
    ensures
        crate::capture::damage_from(tls, tls.len() as int, tls[m].id, live, store.frames@) == Some(
            (store.frames@[k].width, store.frames@[k].height),
        ),
{
    let frames = store.frames@;
    assert(exists|q: int| 0 <= q < frames.len() && frames[q].hwnd == tls[m].hwnd);
    let q = frame_index(frames, tls[m].hwnd)->0;
    if q != k {
        if q < k {
            assert(frames[q].hwnd != frames[k].hwnd);
        } else {
            assert(frames[k].hwnd != frames[q].hwnd);
        }
    }
    lemma_damage_from_at(tls, tls.len() as int, m, live, frames);
}

proof fn lemma_damage_from_at(tls: Seq<WinToplevel>, n: int, m: int, live: Set<isize>, frames: Seq<crate::capture::SharedFrame>)
    requires
        0 <= m < n <= tls.len(),
        forall|a: int, b: int| 0 <= a < b < tls.len() ==> #[trigger] tls[a].id != #[trigger] tls[b].id,
        crate::capture::fresh_frame(tls[m], live, frames) is Some,
    ensures
        crate::capture::damage_from(tls, n, tls[m].id, live, frames) == Some(
            (crate::capture::fresh_frame(tls[m], live, frames)->0.width, crate::capture::fresh_frame(tls[m], live, frames)->0.height),
        ),
    decreases n,
{
    if n - 1 != m {
        assert(tls[m].id != tls[n - 1].id);
        lemma_damage_from_at(tls, n - 1, m, live, frames);
    }
}

/// A key release posts no character and types nothing: only the key
/// message goes.
pub proof fn law_key_release_posts_key_only(p: KeyPlan, top_class: Seq<char>, chars: Seq<u16>, on_hidden: bool)
    requires
        key_plan_ok(p, top_class, chars, false, on_hidden),
    ensures
        p.post_key,
        p.chars@.len() == 0,
        p.uia_text is None,
{
}

} // verus!
