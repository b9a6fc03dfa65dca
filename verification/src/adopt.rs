use std::collections::HashSet;
use vstd::prelude::*;

use crate::cmdline::{is_launcher_executable, is_launcher_name};
use crate::desktop::{at_least, has_visible_style, is_child, is_child_style, is_popup_style, popup_style, visible_style, WinInfo};
use crate::launch::{first_toplevel_of, same_settings};
use crate::scanner::{is_drifted, is_menu_class, PopupCandidate, ScanInput, TrackedWin};
use crate::state::{buffer_fits, max_i32, popup_registered, WinSurface, WinToplevel, WindowMod};
use crate::text::str_eq;

verus! {

broadcast use vstd::std_specs::hash::group_hash_axioms;

/// A window that can own a popup: a non-popup toplevel with a root surface,
/// and the process that created its window.
#[derive(Clone, Copy)]
pub struct PopupOwner {
    pub hwnd: isize,
    pub surface: i64,
    pub pid: u32,
}

/// A popup to register: its window, its owner's window and the owner's root
/// surface.
#[derive(Clone, Copy)]
pub struct PopupFind {
    pub hwnd: isize,
    pub owner: isize,
    pub owner_surface: i64,
}

/// The non-popup toplevels of `tls` that have a root surface in `s`, with
/// the process of each (`pids` lists one per toplevel), in order.
pub open spec fn owners_in(s: WindowMod, pids: Seq<u32>, n: int) -> Seq<PopupOwner>
    decreases n,
{
    if n <= 0 {
        Seq::empty()
    } else {
        let r = owners_in(s, pids, n - 1);
        let t = s.toplevels@[n - 1];
        if !t.is_popup && s.root_surface(t.id) is Some {
            r.push(PopupOwner { hwnd: t.hwnd, surface: s.root_surface(t.id)->0, pid: pids[n - 1] })
        } else {
            r
        }
    }
}

/// Whether owner `o` owns the popup `w`: it is the popup's owner window, or
/// the popup is a classic menu of the same (known) process.
pub open spec fn owns_popup(o: PopupOwner, w: WinInfo) -> bool {
    (w.owner != 0 && o.hwnd == w.owner) || (is_menu_class(w.class@) && o.pid == w.pid && w.pid != 0)
}

/// The first of `owners` that owns the popup `w`.
pub open spec fn first_owner(owners: Seq<PopupOwner>, w: WinInfo) -> Option<PopupOwner>
    decreases owners.len(),
{
    if owners.len() == 0 {
        None
    } else if owns_popup(owners[0], w) {
        Some(owners[0])
    } else {
        first_owner(owners.drop_first(), w)
    }
}

/// The popups among `wins` that `owners` own, in enumeration order; `known`
/// holds the windows already tracked.
pub open spec fn owned_popups(wins: Seq<WinInfo>, owners: Seq<PopupOwner>, known: Set<isize>) -> Seq<PopupFind>
    decreases wins.len(),
{
    if wins.len() == 0 {
        Seq::empty()
    } else {
        let r = owned_popups(wins.drop_last(), owners, known);
        let w = wins.last();
        let candidate = !known.contains(w.hwnd) && has_visible_style(w.style) && !is_child_style(w.style) && (
        is_menu_class(w.class@) || is_popup_style(w.style)) && at_least(w, 4);
        if candidate && first_owner(owners, w) is Some {
            r.push(PopupFind { hwnd: w.hwnd, owner: first_owner(owners, w)->0.hwnd, owner_surface: first_owner(owners, w)->0.surface })
        } else {
            r
        }
    }
}

fn first_owner_exec(owners: &Vec<PopupOwner>, w: &WinInfo, is_menu: bool) -> (r: Option<PopupOwner>)
    requires
        is_menu == is_menu_class(w.class@),
    ensures
        r == first_owner(owners@, *w),
{
    let mut i: usize = 0;
    assert(owners@.skip(0) =~= owners@);
    while i < owners.len()
        invariant
            i <= owners@.len(),
            is_menu == is_menu_class(w.class@),
            first_owner(owners@.skip(i as int), *w) == first_owner(owners@, *w),
        decreases owners.len() - i,
    {
        let ghost rest = owners@.skip(i as int);
        assert(rest[0] == owners@[i as int]);
        let o = owners[i];
        if (w.owner != 0 && o.hwnd == w.owner) || (is_menu && o.pid == w.pid && w.pid != 0) {
            return Some(o);
        }
        assert(rest.drop_first() =~= owners@.skip(i + 1));
        i += 1;
    }
    assert(owners@.skip(i as int).len() == 0);
    None
}

/// The popups among the hidden-desktop windows `wins` that the toplevels
/// `owners` own, with the owner each is drawn in; `known` holds the windows
/// already tracked. None when there is no owner.
pub fn find_owned_popups(wins: &Vec<WinInfo>, owners: &Vec<PopupOwner>, known: &HashSet<isize>) -> (r: Vec<PopupFind>)
    ensures
        r@ == (if owners@.len() == 0 {
            Seq::empty()
        } else {
            owned_popups(wins@, owners@, known@)
        }),
{
    let mut r: Vec<PopupFind> = Vec::new();
    if owners.len() == 0 {
        return r;
    }
    let mut i: usize = 0;
    while i < wins.len()
        invariant
            i <= wins@.len(),
            r@ == owned_popups(wins@.take(i as int), owners@, known@),
        decreases wins.len() - i,
    {
        let w = &wins[i];
        proof {
            assert(wins@.take(i + 1).drop_last() =~= wins@.take(i as int));
            assert(wins@.take(i + 1).last() == wins@[i as int]);
        }
        let is_menu = str_eq(w.class.as_str(), "#32768");
        let candidate = !known.contains(&w.hwnd) && visible_style(w.style) && !is_child(w.style) && (is_menu
            || popup_style(w.style)) && w.client_w >= 4 && w.client_h >= 4;
        if candidate {
            if let Some(o) = first_owner_exec(owners, w, is_menu) {
                r.push(PopupFind { hwnd: w.hwnd, owner: o.hwnd, owner_surface: o.surface });
            }
        }
        i += 1;
    }
    assert(wins@.take(wins@.len() as int) =~= wins@);
    r
}

/// The links of every popup toplevel of `tls`: its handle, its window and its
/// owner's window.
pub open spec fn popup_links_in(tls: Seq<WinToplevel>) -> Seq<(i64, isize, isize)>
    decreases tls.len(),
{
    if tls.len() == 0 {
        Seq::empty()
    } else {
        let r = popup_links_in(tls.drop_last());
        let t = tls.last();
        if t.is_popup {
            r.push((t.id, t.hwnd, t.owner_hwnd))
        } else {
            r
        }
    }
}

/// `s` with its offset set to (`x`, `y`) and marked dirty when the offset
/// differs and it belongs to toplevel `tp`.
pub open spec fn moved_surface(s: WinSurface, tp: i64, x: i32, y: i32) -> WinSurface {
    if s.toplevel_ptr == tp && (s.xoff != x || s.yoff != y) {
        WinSurface { xoff: x, yoff: y, buffer_dirty: true, ..s }
    } else {
        s
    }
}

/// The non-popup toplevels among the first `n` of `tls` whose window is not on
/// the hidden desktop (`hidden`) and came back on screen.
pub open spec fn drifted_toplevels(tls: Seq<WinToplevel>, rects: Seq<Option<(i32, i32)>>, hidden: Set<isize>, n: int) -> Seq<
    isize,
>
    decreases n,
{
    if n <= 0 {
        Seq::empty()
    } else {
        let r = drifted_toplevels(tls, rects, hidden, n - 1);
        let t = tls[n - 1];
        if !t.is_popup && !hidden.contains(t.hwnd) && is_drifted(rects[n - 1]) {
            r.push(t.hwnd)
        } else {
            r
        }
    }
}

impl WindowMod {
    /// Whether a window of `client_w`×`client_h` can be registered as a new
    /// toplevel without overflowing the handle counter or the buffer size.
    pub fn window_fits(&self, client_w: i32, client_h: i32) -> (r: bool)
        ensures
            r == (self.next_handle < i64::MAX - 1 && (client_w >= 10 && client_h >= 10 ==> buffer_fits(
                max_i32(client_w, 640),
                max_i32(client_h, 480),
            ))),
    {
        if self.next_handle >= i64::MAX - 1 {
            return false;
        }
        if client_w >= 10 && client_h >= 10 {
            let w: i64 = if client_w >= 640 { client_w as i64 } else { 640 };
            let h: i64 = if client_h >= 480 { client_h as i64 } else { 480 };
            assert(w * h <= 0x7fff_ffffi64 * 0x7fff_ffffi64) by (nonlinear_arith)
                requires
                    0 < w <= 0x7fff_ffff,
                    0 < h <= 0x7fff_ffff,
            ;
            w * h <= 0x7fff_ffff / 4 && w * h * 4 <= 0x7fff_ffff
        } else {
            true
        }
    }

    /// Whether a popup of `client_w`×`client_h` can be registered without
    /// overflowing the handle counter or the buffer size.
    pub fn popup_fits(&self, client_w: i32, client_h: i32) -> (r: bool)
        ensures
            r == (self.next_handle < i64::MAX - 1 && (client_w >= 1 && client_h >= 1 ==> buffer_fits(
                client_w,
                client_h,
            ))),
    {
        if self.next_handle >= i64::MAX - 1 {
            return false;
        }
        if client_w >= 1 && client_h >= 1 {
            let w = client_w as i64;
            let h = client_h as i64;
            assert(w * h <= 0x7fff_ffffi64 * 0x7fff_ffffi64) by (nonlinear_arith)
                requires
                    0 < w <= 0x7fff_ffff,
                    0 < h <= 0x7fff_ffff,
            ;
            w * h <= 0x7fff_ffff / 4 && w * h * 4 <= 0x7fff_ffff
        } else {
            true
        }
    }
}

/// The snapshot entries of the toplevels `tls`, with the process of each
/// (`pids` lists one per toplevel).
pub open spec fn tracked_entries(tls: Seq<WinToplevel>, pids: Seq<u32>) -> Seq<TrackedWin> {
    Seq::new(tls.len(), |i: int| TrackedWin { hwnd: tls[i].hwnd, pid: pids[i], is_popup: tls[i].is_popup })
}

/// Whether some non-popup toplevel of `tls` runs in a game launcher, `stems`
/// holding the executable file stem of each toplevel's process when known.
pub open spec fn has_launcher_in(tls: Seq<WinToplevel>, stems: Seq<Option<String>>) -> bool {
    exists|i: int| 0 <= i < tls.len() && !tls[i].is_popup && #[trigger] stems[i] is Some && is_launcher_name(stems[i]->0@)
}

impl WindowMod {
    /// The toplevels that can own a popup, `pids` holding the process of each
    /// toplevel.
    pub fn popup_owners(&self, pids: &Vec<u32>) -> (r: Vec<PopupOwner>)
        requires
            pids@.len() == self.toplevels@.len(),
        ensures
            r@ == owners_in(*self, pids@, self.toplevels@.len() as int),
    {
        let mut r: Vec<PopupOwner> = Vec::new();
        let mut i: usize = 0;
        while i < self.toplevels.len()
            invariant
                i <= self.toplevels@.len(),
                pids@.len() == self.toplevels@.len(),
                r@ == owners_in(*self, pids@, i as int),
            decreases self.toplevels.len() - i,
        {
            if !self.toplevels[i].is_popup {
                if let Some(sp) = self.surface_for_toplevel(self.toplevels[i].id) {
                    r.push(PopupOwner { hwnd: self.toplevels[i].hwnd, surface: sp, pid: pids[i] });
                }
            }
            i += 1;
        }
        r
    }

    /// Registers the popup `cand` the scanner found, inside its owner: nothing
    /// when the window is already tracked, when no non-popup toplevel shows the
    /// owner or it has no root surface, or when registration refuses it.
    /// `alive`, `client_w`, `client_h` and the offset in the owner are what the
    /// popup window reports.
    pub fn adopt_popup(
        &mut self,
        cand: PopupCandidate,
        alive: bool,
        client_w: i32,
        client_h: i32,
        xoff: i32,
        yoff: i32,
    ) -> (r: Option<i64>)
        requires
            old(self).wf(),
            old(self).next_handle < i64::MAX - 1,
            client_w >= 1 && client_h >= 1 ==> buffer_fits(client_w, client_h),
        ensures
            final(self).wf(),
            ({
                let owner = first_toplevel_of(old(self).toplevels@, cand.owner);
                let accepted = !old(self).tracks_hwnd(cand.hwnd) && owner is Some && old(self).root_surface(
                    owner->0,
                ) is Some && alive && client_w >= 1 && client_h >= 1;
                &&& r is Some <==> accepted
                &&& !accepted ==> *final(self) == *old(self)
                &&& accepted ==> popup_registered(
                    *final(self),
                    *old(self),
                    r->0,
                    cand.hwnd,
                    cand.owner,
                    old(self).root_surface(owner->0)->0,
                    client_w,
                    client_h,
                    xoff,
                    yoff,
                ) && final(self).same_input_state(old(self))
            }),
            old(self).hwnds_distinct() ==> final(self).hwnds_distinct(),
            old(self).surfaces_anchored() ==> final(self).surfaces_anchored(),
    {
        if self.is_tracked(cand.hwnd) {
            return None;
        }
        let owner = match self.toplevel_showing(cand.owner) {
            Some(t) => t,
            None => return None,
        };
        let surface = match self.surface_for_toplevel(owner) {
            Some(sp) => sp,
            None => return None,
        };
        self.register_popup_hwnd(cand.hwnd, cand.owner, surface, alive, client_w, client_h, xoff, yoff)
    }

    /// Every popup toplevel: its handle, its window and its owner's window.
    pub fn popup_links(&self) -> (r: Vec<(i64, isize, isize)>)
        ensures
            r@ == popup_links_in(self.toplevels@),
    {
        let mut r: Vec<(i64, isize, isize)> = Vec::new();
        let mut i: usize = 0;
        while i < self.toplevels.len()
            invariant
                i <= self.toplevels@.len(),
                r@ == popup_links_in(self.toplevels@.take(i as int)),
            decreases self.toplevels.len() - i,
        {
            proof {
                assert(self.toplevels@.take(i + 1).drop_last() =~= self.toplevels@.take(i as int));
                assert(self.toplevels@.take(i + 1).last() == self.toplevels@[i as int]);
            }
            if self.toplevels[i].is_popup {
                r.push((self.toplevels[i].id, self.toplevels[i].hwnd, self.toplevels[i].owner_hwnd));
            }
            i += 1;
        }
        assert(self.toplevels@.take(self.toplevels@.len() as int) =~= self.toplevels@);
        r
    }

    /// Moves the surfaces of popup toplevel `toplevel` to offset (`xoff`,
    /// `yoff`) in their owner; a surface that moves is redrawn.
    pub fn set_popup_offset(&mut self, toplevel: i64, xoff: i32, yoff: i32)
        requires
            old(self).wf(),
        ensures
            final(self).wf(),
            final(self).surfaces@.len() == old(self).surfaces@.len(),
            forall|j: int|
                0 <= j < old(self).surfaces@.len() ==> #[trigger] final(self).surfaces@[j] == moved_surface(
                    old(self).surfaces@[j],
                    toplevel,
                    xoff,
                    yoff,
                ),
            final(self).toplevels == old(self).toplevels,
            final(self).next_handle == old(self).next_handle,
            final(self).same_input_state(old(self)),
    {
        let ghost before = *self;
        let mut j: usize = 0;
        while j < self.surfaces.len()
            invariant
                j <= self.surfaces@.len(),
                self.surfaces@.len() == before.surfaces@.len(),
                forall|k: int| 0 <= k < j ==> #[trigger] self.surfaces@[k] == moved_surface(before.surfaces@[k], toplevel, xoff, yoff),
                forall|k: int| j <= k < self.surfaces@.len() ==> #[trigger] self.surfaces@[k] == before.surfaces@[k],
                self.toplevels == before.toplevels,
                self.next_handle == before.next_handle,
                self.same_input_state(&before),
            decreases self.surfaces.len() - j,
        {
            if self.surfaces[j].toplevel_ptr == toplevel && (self.surfaces[j].xoff != xoff || self.surfaces[j].yoff != yoff) {
                self.surfaces[j].xoff = xoff;
                self.surfaces[j].yoff = yoff;
                self.surfaces[j].buffer_dirty = true;
            }
            j += 1;
        }
        proof {
            assert forall|i: int| 0 <= i < self.surfaces@.len() implies 0 < #[trigger] self.surfaces@[i].id < self.next_handle by {
                assert(self.surfaces@[i].id == before.surfaces@[i].id);
            }
            assert forall|a: int, b: int| 0 <= a < b < self.surfaces@.len() implies #[trigger] self.surfaces@[a].id
                != #[trigger] self.surfaces@[b].id by {
                assert(self.surfaces@[a].id == before.surfaces@[a].id);
                assert(self.surfaces@[b].id == before.surfaces@[b].id);
            }
            assert forall|a: int, b: int| 0 <= a < self.toplevels@.len() && 0 <= b < self.surfaces@.len()
                implies #[trigger] self.toplevels@[a].id != #[trigger] self.surfaces@[b].id by {
                assert(self.surfaces@[b].id == before.surfaces@[b].id);
            }
        }
    }

    /// The snapshot the scanner works against: every toplevel's window and
    /// process (`pids` lists one per toplevel) and whether it is a popup.
    pub fn scan_input(&self, pids: &Vec<u32>, has_launcher: bool, hidden_hdesk_raw: isize) -> (r: ScanInput)
        requires
            pids@.len() == self.toplevels@.len(),
        ensures
            r.windows@ == tracked_entries(self.toplevels@, pids@),
            r.has_launcher == has_launcher,
            r.hidden_hdesk_raw == hidden_hdesk_raw,
    {
        let mut ws: Vec<TrackedWin> = Vec::new();
        let mut i: usize = 0;
        while i < self.toplevels.len()
            invariant
                i <= self.toplevels@.len(),
                pids@.len() == self.toplevels@.len(),
                ws@ == tracked_entries(self.toplevels@, pids@).take(i as int),
            decreases self.toplevels.len() - i,
        {
            ws.push(TrackedWin { hwnd: self.toplevels[i].hwnd, pid: pids[i], is_popup: self.toplevels[i].is_popup });
            assert(ws@ =~= tracked_entries(self.toplevels@, pids@).take(i + 1));
            i += 1;
        }
        assert(tracked_entries(self.toplevels@, pids@).take(self.toplevels@.len() as int) =~= tracked_entries(
            self.toplevels@,
            pids@,
        ));
        ScanInput { windows: ws, has_launcher, hidden_hdesk_raw }
    }

    /// Whether a game launcher shows one of the non-popup toplevels, `stems`
    /// holding the lowercased executable file stem of each toplevel's process
    /// (`None` when it could not be read).
    pub fn should_scan_launcher_children(&self, stems: &Vec<Option<String>>) -> (r: bool)
        requires
            stems@.len() == self.toplevels@.len(),
        ensures
            r == has_launcher_in(self.toplevels@, stems@),
    {
        let mut i: usize = 0;
        while i < self.toplevels.len()
            invariant
                i <= self.toplevels@.len(),
                stems@.len() == self.toplevels@.len(),
                forall|j: int| 0 <= j < i ==> !(!self.toplevels@[j].is_popup && #[trigger] stems@[j] is Some && is_launcher_name(stems@[j]->0@)),
            decreases self.toplevels.len() - i,
        {
            if !self.toplevels[i].is_popup {
                if let Some(stem) = &stems[i] {
                    if is_launcher_executable(stem.as_str()) {
                        return true;
                    }
                }
            }
            i += 1;
        }
        false
    }

    /// Whether this frame re-checks that windows of the visible desktop stay
    /// parked off-screen (see `windows_to_rehide`): every sixtieth frame.
    pub fn rehide_due(&self) -> (r: bool)
        ensures
            r == (self.frame_counter % 60 == 0),
    {
        self.frame_counter % 60 == 0
    }

    /// The windows to park off-screen again: every sixtieth frame, the
    /// non-popup toplevels whose window is not on the hidden desktop (`hidden`)
    /// and came back on screen, `rects` holding each toplevel's top-left corner.
    pub fn windows_to_rehide(&self, hidden: &HashSet<isize>, rects: &Vec<Option<(i32, i32)>>) -> (r: Vec<isize>)
        requires
            rects@.len() == self.toplevels@.len(),
        ensures
            r@ == (if self.frame_counter % 60 != 0 {
                Seq::empty()
            } else {
                drifted_toplevels(self.toplevels@, rects@, hidden@, self.toplevels@.len() as int)
            }),
    {
        let mut r: Vec<isize> = Vec::new();
        if self.frame_counter % 60 != 0 {
            return r;
        }
        let mut i: usize = 0;
        while i < self.toplevels.len()
            invariant
                i <= self.toplevels@.len(),
                rects@.len() == self.toplevels@.len(),
                r@ == drifted_toplevels(self.toplevels@, rects@, hidden@, i as int),
            decreases self.toplevels.len() - i,
        {
            if !self.toplevels[i].is_popup && !hidden.contains(&self.toplevels[i].hwnd) {
                let moved = match rects[i] {
                    Some((left, top)) => left > -20000 || top > -20000,
                    None => false,
                };
                if moved {
                    r.push(self.toplevels[i].hwnd);
                }
            }
            i += 1;
        }
        r
    }

    /// Marks toplevel `h` unmapped, so it is dropped once its window is gone;
    /// returns its window, or `None` when `h` is not registered.
    pub fn unmap_toplevel(&mut self, h: i64) -> (r: Option<isize>)
        requires
            old(self).wf(),
        ensures
            final(self).wf(),
            r == old(self).hwnd_of(h),
            final(self).toplevels@.len() == old(self).toplevels@.len(),
            forall|i: int|
                0 <= i < old(self).toplevels@.len() ==> #[trigger] final(self).toplevels@[i] == (if old(
                    self,
                ).toplevels@[i].id == h {
                    WinToplevel { mapped: false, ..old(self).toplevels@[i] }
                } else {
                    old(self).toplevels@[i]
                }),
            final(self).surfaces == old(self).surfaces,
            final(self).next_handle == old(self).next_handle,
            final(self).same_input_state(old(self)),
    {
        let k = match self.toplevel_index(h) {
            Some(k) => k,
            None => return None,
        };
        let ghost before = *self;
        let hwnd = self.toplevels[k].hwnd;
        self.toplevels[k].mapped = false;
        proof {
            before.lemma_hwnd_of(h, k as int);
            assert forall|i: int| 0 <= i < before.toplevels@.len() && before.toplevels@[i].id == h implies i == k by {
                if i != k {
                    if i < k {
                        assert(before.toplevels@[i].id != before.toplevels@[k as int].id);
                    } else {
                        assert(before.toplevels@[k as int].id != before.toplevels@[i].id);
                    }
                }
            }
        }
        Some(hwnd)
    }

    /// Counts one more frame and says whether the scanner's snapshot is due
    /// (every tenth frame).
    pub fn advance_frame(&mut self) -> (publish_due: bool)
        ensures
            final(self).frame_counter == (if old(self).frame_counter == u64::MAX {
                0
            } else {
                (old(self).frame_counter + 1) as u64
            }),
            publish_due == (final(self).frame_counter % 10 == 0),
            final(self).toplevels == old(self).toplevels,
            final(self).surfaces == old(self).surfaces,
            final(self).next_handle == old(self).next_handle,
            final(self).pending_launches == old(self).pending_launches,
            final(self).launched_pids == old(self).launched_pids,
    {
        self.frame_counter = self.frame_counter.wrapping_add(1);
        self.frame_counter % 10 == 0
    }

    /// Whether the pending launches are polled this frame: every frame while
    /// any is pending.
    pub fn launch_poll_due(&self) -> (r: bool)
        ensures
            r == (self.pending_launches@.len() > 0),
    {
        !self.pending_launches.is_empty()
    }
}

impl WindowMod {
    /// The `WPARAM` of a pointer move: `MK_LBUTTON` while the left button is
    /// held, so a drag extends a selection.
    pub fn move_wparam(&self) -> (r: u32)
        ensures
            r == (if self.left_button_down { 1u32 } else { 0u32 }),
    {
        if self.left_button_down {
            1
        } else {
            0
        }
    }
}

} // verus!
