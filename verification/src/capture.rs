use std::collections::HashSet;
use std::sync::Arc;
use vstd::prelude::*;

use crate::state::{buffer_fits, WindowMod, WinToplevel, WinSurface};

verus! {

broadcast use vstd::std_specs::hash::group_hash_axioms;

/// FNV-1a offset basis and prime.
pub const FNV_OFFSET: u64 = 0xcbf2_9ce4_8422_2325;
pub const FNV_PRIME: u64 = 0x0000_0100_0000_01b3;

/// Bytes between two samples of the change-detection checksum.
pub const CHECKSUM_STRIDE: usize = 64;

/// The FNV-1a state after the first `n` samples (bytes 0, 64, 128, ...) of `buf`.
pub open spec fn checksum_prefix(buf: Seq<u8>, n: nat) -> u64
    decreases n,
{
    if n == 0 {
        FNV_OFFSET
    } else {
        let h = checksum_prefix(buf, (n - 1) as nat);
        (h ^ (buf[(n - 1) * 64] as u64)).wrapping_mul(FNV_PRIME)
    }
}

/// The number of sampled bytes in a buffer of `len` bytes.
pub open spec fn sample_count(len: nat) -> nat {
    ((len + 63) / 64) as nat
}

/// The sampled checksum of `buf`: FNV-1a over every 64th byte, with the
/// length folded in at the end.
pub open spec fn spec_sampled_checksum(buf: Seq<u8>) -> u64 {
    checksum_prefix(buf, sample_count(buf.len())) ^ (buf.len() as u64)
}

/// A cheap checksum of a frame, used to tell whether a window's pixels
/// changed: FNV-1a over one byte in 64, with the length folded in.
pub fn sampled_checksum(buf: &[u8]) -> (h: u64)
    ensures
        h == spec_sampled_checksum(buf@),
{
    let mut hash: u64 = FNV_OFFSET;
    let mut i: usize = 0;
    let ghost mut n: nat = 0;
    while i < buf.len()
        invariant
            i <= buf@.len(),
            i < buf@.len() ==> i == n * 64,
            i == buf@.len() ==> n == sample_count(buf@.len()),
            i < buf@.len() ==> n < sample_count(buf@.len()),
            hash == checksum_prefix(buf@, n),
        decreases buf.len() - i,
    {
        hash = hash ^ (buf[i] as u64);
        hash = hash.wrapping_mul(FNV_PRIME);
        proof {
            n = n + 1;
        }
        if buf.len() - i <= CHECKSUM_STRIDE {
            i = buf.len();
        } else {
            i = i + CHECKSUM_STRIDE;
        }
    }
    proof {
        if buf@.len() == 0 {
            assert(sample_count(0) == 0);
        }
    }
    hash ^ (buf.len() as u64)
}


/// The latest finished capture of one window.
pub struct SharedFrame {
    pub hwnd: isize,
    pub width: i32,
    pub height: i32,
    /// BGRA, top-down, tightly packed (stride = width * 4).
    pub data: Arc<Vec<u8>>,
    /// Bumped each time `data` is replaced.
    pub version: u64,
    /// `sampled_checksum` of `data`.
    pub checksum: u64,
}

/// The latest frame of every captured window, written by the capture threads
/// and read by the render thread.
pub struct FrameStore {
    pub frames: Vec<SharedFrame>,
}

/// Hands out another reference to the same pixels (`Arc::clone`).
#[verifier::external_body]
fn share_pixels(a: &Arc<Vec<u8>>) -> (r: Arc<Vec<u8>>)
    ensures
        r@ == a@,
{
    Arc::clone(a)
}

/// The index of the frame of window `hwnd` in `frames`.
pub open spec fn frame_index(frames: Seq<SharedFrame>, hwnd: isize) -> Option<int> {
    if exists|k: int| 0 <= k < frames.len() && frames[k].hwnd == hwnd {
        Some(choose|k: int| 0 <= k < frames.len() && frames[k].hwnd == hwnd)
    } else {
        None
    }
}

/// `s` is `old` with the `w`×`h` frame `pixels` of window `hwnd` stored: a
/// new entry (version 1) appended for a window it had none for, else the
/// window's entry replaced, its version advanced.
pub open spec fn frame_published(
    s: FrameStore,
    old: FrameStore,
    hwnd: isize,
    w: i32,
    h: i32,
    pixels: Seq<u8>,
    checksum: u64,
) -> bool {
    match frame_index(old.frames@, hwnd) {
        None => s.frames@.len() == old.frames@.len() + 1 && s.frames@.drop_last() == old.frames@ && {
            let f = s.frames@.last();
            &&& f.hwnd == hwnd && f.width == w && f.height == h
            &&& f.data@ == pixels && f.checksum == checksum && f.version == 1
        },
        Some(k) => s.frames@.len() == old.frames@.len() && (forall|j: int|
            0 <= j < old.frames@.len() && j != k ==> #[trigger] s.frames@[j] == old.frames@[j]) && {
            let f = s.frames@[k];
            &&& f.hwnd == hwnd && f.width == w && f.height == h
            &&& f.data@ == pixels && f.checksum == checksum
            &&& f.version == old.frames@[k].version.wrapping_add(1)
        },
    }
}

impl FrameStore {
    pub fn new() -> (s: Self)
        ensures
            s.frames@.len() == 0,
    {
        FrameStore { frames: Vec::new() }
    }

    /// One frame per window, each a whole `width`×`height` image.
    pub open spec fn wf(&self) -> bool {
        &&& forall|i: int, j: int|
            0 <= i < j < self.frames@.len() ==> #[trigger] self.frames@[i].hwnd != #[trigger] self.frames@[j].hwnd
        &&& forall|i: int|
            0 <= i < self.frames@.len() ==> buffer_fits(#[trigger] self.frames@[i].width, self.frames@[i].height)
                && self.frames@[i].data@.len() == self.frames@[i].width * self.frames@[i].height * 4
    }

    fn index_of(&self, hwnd: isize) -> (r: Option<usize>)
        requires
            self.wf(),
        ensures
            match r {
                Some(k) => k < self.frames@.len() && self.frames@[k as int].hwnd == hwnd
                    && frame_index(self.frames@, hwnd) == Some(k as int),
                None => frame_index(self.frames@, hwnd) is None,
            },
    {
        let mut i: usize = 0;
        while i < self.frames.len()
            invariant
                i <= self.frames@.len(),
                self.wf(),
                forall|j: int| 0 <= j < i ==> self.frames@[j].hwnd != hwnd,
            decreases self.frames.len() - i,
        {
            if self.frames[i].hwnd == hwnd {
                proof {
                    let c = choose|k: int| 0 <= k < self.frames@.len() && self.frames@[k].hwnd == hwnd;
                    if c != i {
                        if c < i {
                        } else {
                            assert(self.frames@[i as int].hwnd != self.frames@[c].hwnd);
                        }
                    }
                }
                return Some(i);
            }
            i += 1;
        }
        None
    }

    /// Publishes a fresh `width`×`height` capture of window `hwnd` whose
    /// `sampled_checksum` is `checksum`. The stored frame is replaced, and its
    /// version bumped, only when the size or the checksum differs from the
    /// stored one (or none is stored), so a static window never forces a
    /// re-upload. Returns whether it was replaced.
    pub fn publish(&mut self, hwnd: isize, width: i32, height: i32, pixels: &[u8], checksum: u64) -> (published: bool)
        requires
            old(self).wf(),
            buffer_fits(width, height),
            pixels@.len() == width * height * 4,
        ensures
            final(self).wf(),
            published == match frame_index(old(self).frames@, hwnd) {
                None => true,
                Some(k) => old(self).frames@[k].width != width || old(self).frames@[k].height != height
                    || old(self).frames@[k].data@.len() != pixels@.len()
                    || old(self).frames@[k].checksum != checksum,
            },
            !published ==> final(self).frames@ == old(self).frames@,
            published ==> frame_published(*final(self), *old(self), hwnd, width, height, pixels@, checksum),
    {
        match self.index_of(hwnd) {
            None => {
                let ghost before = self.frames@;
                let data = Arc::new(vstd::slice::slice_to_vec(pixels));
                self.frames.push(SharedFrame { hwnd, width, height, data, version: 1, checksum });
                proof {
                    assert(self.frames@.drop_last() =~= before);
                }
                true
            },
            Some(k) => {
                let size_changed = self.frames[k].width != width || self.frames[k].height != height
                    || self.frames[k].data.len() != pixels.len();
                let content_changed = self.frames[k].checksum != checksum;
                if !(size_changed || content_changed) {
                    return false;
                }
                let data = Arc::new(vstd::slice::slice_to_vec(pixels));
                self.frames[k].width = width;
                self.frames[k].height = height;
                self.frames[k].data = data;
                self.frames[k].checksum = checksum;
                self.frames[k].version = self.frames[k].version.wrapping_add(1);
                true
            },
        }
    }

    /// The frame of window `hwnd`, when it has pixels and its version is not
    /// `seen_version`: size, pixels and version.
    pub fn latest(&self, hwnd: isize, seen_version: u64) -> (r: Option<(i32, i32, Arc<Vec<u8>>, u64)>)
        requires
            self.wf(),
        ensures
            match frame_index(self.frames@, hwnd) {
                None => r is None,
                Some(k) => {
                    let f = self.frames@[k];
                    if f.data@.len() > 0 && f.version != seen_version {
                        r matches Some((w, h, d, v)) && w == f.width && h == f.height && d@ == f.data@
                            && v == f.version
                    } else {
                        r is None
                    }
                },
            },
    {
        match self.index_of(hwnd) {
            None => None,
            Some(k) => {
                let f = &self.frames[k];
                if f.data.len() > 0 && f.version != seen_version {
                    Some((f.width, f.height, share_pixels(&f.data), f.version))
                } else {
                    None
                }
            },
        }
    }

    /// Drops the frame of window `hwnd` (its capture thread ended).
    pub fn remove(&mut self, hwnd: isize)
        requires
            old(self).wf(),
        ensures
            final(self).wf(),
            final(self).frames@ == old(self).frames@.filter(|f: SharedFrame| f.hwnd != hwnd),
    {
        let ghost before = self.frames@;
        let ghost p = |f: SharedFrame| f.hwnd != hwnd;
        let mut old_frames: Vec<SharedFrame> = Vec::new();
        std::mem::swap(&mut old_frames, &mut self.frames);
        let mut kept: Vec<SharedFrame> = Vec::new();
        for f in it: old_frames
            invariant
                it.seq() == before,
                p == (|f: SharedFrame| f.hwnd != hwnd),
                kept@ == before.take(it.index() as int).filter(p),
        {
            let ghost k = it.index();
            proof {
                assert(before.take(k + 1) =~= before.take(k as int).push(f));
                before.take(k as int).lemma_filter_push(f, p);
            }
            if f.hwnd != hwnd {
                kept.push(f);
            }
        }
        proof {
            assert(before.take(before.len() as int) =~= before);
        }
        self.frames = kept;
        proof {
            let idx = crate::seqs::lemma_filter_origin(before, p);
            assert forall|i: int, j: int| 0 <= i < j < self.frames@.len() implies #[trigger] self.frames@[i].hwnd
                != #[trigger] self.frames@[j].hwnd by {
                assert(idx[i] < idx[j]);
                assert(self.frames@[i] == before[idx[i]]);
                assert(self.frames@[j] == before[idx[j]]);
            }
            assert forall|i: int| 0 <= i < self.frames@.len() implies buffer_fits(#[trigger] self.frames@[i].width, self.frames@[i].height)
                && self.frames@[i].data@.len() == self.frames@[i].width * self.frames@[i].height * 4 by {
                assert(self.frames@[i] == before[idx[i]]);
            }
        }
    }
}


/// The new frame `refresh_windows` takes for toplevel `t`: the stored frame of
/// its window, when the window is alive and the frame has pixels not yet taken.
pub open spec fn fresh_frame(t: WinToplevel, live: Set<isize>, frames: Seq<SharedFrame>) -> Option<SharedFrame> {
    if !live.contains(t.hwnd) {
        None
    } else {
        match frame_index(frames, t.hwnd) {
            Some(k) => if frames[k].data@.len() > 0 && frames[k].version != t.last_frame_version {
                Some(frames[k])
            } else {
                None
            },
            None => None,
        }
    }
}

/// Whether the first (up to) 64 bytes of `b` are all zero: a blank capture.
pub open spec fn starts_blank(b: Seq<u8>) -> bool {
    forall|i: int| 0 <= i < b.len() && i < 64 ==> b[i] == 0
}

/// `t` as `refresh_windows` leaves it.
pub open spec fn is_refreshed(t: WinToplevel, o: WinToplevel, live: Set<isize>, frames: Seq<SharedFrame>) -> bool {
    if !live.contains(o.hwnd) {
        t == WinToplevel { mapped: false, ..o }
    } else {
        match fresh_frame(o, live, frames) {
            None => t == WinToplevel { mapped: true, ..o },
            Some(f) => {
                let resized = f.width != o.width || f.height != o.height;
                &&& t.id == o.id && t.hwnd == o.hwnd && t.title == o.title && t.app_id == o.app_id
                &&& t.mapped
                &&& t.width == f.width && t.height == f.height
                &&& t.geom_x == o.geom_x && t.geom_y == o.geom_y
                &&& t.geom_w == (if resized { f.width } else { o.geom_w })
                &&& t.geom_h == (if resized { f.height } else { o.geom_h })
                &&& t.buffer@ == f.data@
                &&& t.last_frame_version == f.version
                &&& t.zero_capture_count == (if starts_blank(f.data@) {
                    o.zero_capture_count.wrapping_add(1)
                } else {
                    0
                })
                &&& t.maximize == o.maximize && t.fullscreen == o.fullscreen
                &&& t.requests == o.requests && t.prev_first16 == o.prev_first16
                &&& t.static_frame_count == o.static_frame_count
                &&& t.is_popup == o.is_popup && t.owner_hwnd == o.owner_hwnd
            },
        }
    }
}

fn is_blank_start(b: &Vec<u8>) -> (r: bool)
    ensures
        r == starts_blank(b@),
{
    let mut i: usize = 0;
    while i < b.len() && i < 64
        invariant
            i <= b@.len(),
            forall|j: int| 0 <= j < i ==> b@[j] == 0,
        decreases b.len() - i,
    {
        if b[i] != 0 {
            return false;
        }
        i += 1;
    }
    true
}

/// The windows of the toplevels that are still alive: the capture targets.
pub fn live_capture_targets(state: &WindowMod, live: &HashSet<isize>) -> (r: Vec<isize>)
    ensures
        r@ == state.toplevels@.filter(|t: WinToplevel| live@.contains(t.hwnd)).map_values(
            |t: WinToplevel| t.hwnd,
        ),
{
    let ghost p = |t: WinToplevel| live@.contains(t.hwnd);
    let ghost tl = state.toplevels@;
    let mut r: Vec<isize> = Vec::new();
    let mut i: usize = 0;
    while i < state.toplevels.len()
        invariant
            i <= tl.len(),
            tl == state.toplevels@,
            p == (|t: WinToplevel| live@.contains(t.hwnd)),
            r@ == tl.take(i as int).filter(p).map_values(|t: WinToplevel| t.hwnd),
        decreases state.toplevels.len() - i,
    {
        let ghost t = tl[i as int];
        proof {
            assert(tl.take(i + 1) =~= tl.take(i as int).push(t));
            tl.take(i as int).lemma_filter_push(t, p);
        }
        if live.contains(&state.toplevels[i].hwnd) {
            r.push(state.toplevels[i].hwnd);
            proof {
                assert(tl.take(i as int).filter(p).push(t).map_values(|t: WinToplevel| t.hwnd) =~= tl.take(
                    i as int,
                ).filter(p).map_values(|t: WinToplevel| t.hwnd).push(t.hwnd));
            }
        }
        i += 1;
    }
    proof {
        assert(tl.take(tl.len() as int) =~= tl);
    }
    r
}

/// The size of the new frame that toplevel `ptr`, among the first `n` of
/// `tls`, gets from `refresh_windows`.
pub open spec fn damage_from(
    tls: Seq<WinToplevel>,
    n: int,
    ptr: i64,
    live: Set<isize>,
    frames: Seq<SharedFrame>,
) -> Option<(i32, i32)>
    decreases n,
{
    if n <= 0 {
        None
    } else {
        let t = tls[n - 1];
        if t.id == ptr && fresh_frame(t, live, frames) is Some {
            let f = fresh_frame(t, live, frames)->0;
            Some((f.width, f.height))
        } else {
            damage_from(tls, n - 1, ptr, live, frames)
        }
    }
}

proof fn lemma_damage_from_absent(
    tls: Seq<WinToplevel>,
    n: int,
    ptr: i64,
    live: Set<isize>,
    frames: Seq<SharedFrame>,
)
    requires
        n <= tls.len(),
        forall|k: int| 0 <= k < n ==> tls[k].id != ptr,
    ensures
        damage_from(tls, n, ptr, live, frames) is None,
    decreases n,
{
    if n > 0 {
        lemma_damage_from_absent(tls, n - 1, ptr, live, frames);
    }
}

/// `s` after `refresh_windows`, given the size of its toplevel's new frame.
pub open spec fn surface_refreshed(s: WinSurface, o: WinSurface, d: Option<(i32, i32)>) -> bool {
    match d {
        Some((w, h)) => crate::state::is_redamaged(s, o, w, h),
        None => s == o,
    }
}

/// Takes the latest captured frame of every toplevel from `store`: toplevels
/// whose window is not in `live` are marked unmapped, the others mapped; a
/// toplevel with a new frame gets its pixels, size and version, counts blank
/// captures, and its surfaces are marked dirty and damaged over the frame.
pub fn refresh_windows(state: &mut WindowMod, live: &HashSet<isize>, store: &FrameStore)
    requires
        old(state).wf(),
        store.wf(),
    ensures
        final(state).wf(),
        final(state).toplevels@.len() == old(state).toplevels@.len(),
        forall|i: int|
            0 <= i < old(state).toplevels@.len() ==> is_refreshed(
                #[trigger] final(state).toplevels@[i],
                old(state).toplevels@[i],
                live@,
                store.frames@,
            ),
        final(state).surfaces@.len() == old(state).surfaces@.len(),
        forall|j: int|
            0 <= j < old(state).surfaces@.len() ==> surface_refreshed(
                #[trigger] final(state).surfaces@[j],
                old(state).surfaces@[j],
                damage_from(
                    old(state).toplevels@,
                    old(state).toplevels@.len() as int,
                    old(state).surfaces@[j].toplevel_ptr,
                    live@,
                    store.frames@,
                ),
            ),
        final(state).next_handle == old(state).next_handle,
        final(state).same_input_state(old(state)),
        old(state).hwnds_distinct() ==> final(state).hwnds_distinct(),
        old(state).surfaces_anchored() ==> final(state).surfaces_anchored(),
{
    let ghost before = *state;
    let mut i: usize = 0;
    while i < state.toplevels.len()
        invariant
            i <= state.toplevels@.len(),
            store.wf(),
            state.wf(),
            before.wf(),
            state.toplevels@.len() == before.toplevels@.len(),
            forall|k: int|
                0 <= k < i ==> is_refreshed(#[trigger] state.toplevels@[k], before.toplevels@[k], live@, store.frames@),
            forall|k: int| i <= k < state.toplevels@.len() ==> #[trigger] state.toplevels@[k] == before.toplevels@[k],
            state.surfaces@.len() == before.surfaces@.len(),
            forall|j: int|
                0 <= j < before.surfaces@.len() ==> surface_refreshed(
                    #[trigger] state.surfaces@[j],
                    before.surfaces@[j],
                    damage_from(before.toplevels@, i as int, before.surfaces@[j].toplevel_ptr, live@, store.frames@),
                ),
            state.next_handle == before.next_handle,
            state.same_input_state(&before),
        decreases state.toplevels.len() - i,
    {
        let ghost t0 = before.toplevels@[i as int];
        let hwnd = state.toplevels[i].hwnd;
        if !live.contains(&hwnd) {
            state.toplevels[i].mapped = false;
            proof {
                assert(fresh_frame(t0, live@, store.frames@) is None);
            }
            i += 1;
            continue;
        }
        state.toplevels[i].mapped = true;
        let frame = store.latest(hwnd, state.toplevels[i].last_frame_version);
        let (w, h, data, version) = match frame {
            Some(f) => f,
            None => {
                i += 1;
                continue;
            },
        };
        if w != state.toplevels[i].width || h != state.toplevels[i].height {
            state.toplevels[i].width = w;
            state.toplevels[i].height = h;
            state.toplevels[i].geom_w = w;
            state.toplevels[i].geom_h = h;
        }
        let blank = is_blank_start(&*data);
        state.toplevels[i].buffer = data;
        state.toplevels[i].last_frame_version = version;
        if blank {
            state.toplevels[i].zero_capture_count = state.toplevels[i].zero_capture_count.wrapping_add(1);
        } else {
            state.toplevels[i].zero_capture_count = 0;
        }
        let id = state.toplevels[i].id;
        proof {
            assert forall|k: int| 0 <= k < i implies before.toplevels@[k].id != id by {
                assert(before.toplevels@[k].id != before.toplevels@[i as int].id);
            }
            lemma_damage_from_absent(before.toplevels@, i as int, id, live@, store.frames@);
        }
        state.redamage_surfaces_of(id, w, h);
        i += 1;
    }
    proof {
        if before.surfaces_anchored() {
            assert forall|j: int| 0 <= j < state.surfaces@.len() implies state.has_toplevel(
                #[trigger] state.surfaces@[j].toplevel_ptr,
            ) by {
                let s = before.surfaces@[j];
                assert(before.has_toplevel(s.toplevel_ptr));
                let m = choose|m: int|
                    0 <= m < before.toplevels@.len() && #[trigger] before.toplevels@[m].id == s.toplevel_ptr;
                assert(is_refreshed(state.toplevels@[m], before.toplevels@[m], live@, store.frames@));
                assert(state.toplevels@[m].id == s.toplevel_ptr);
                assert(state.surfaces@[j].toplevel_ptr == s.toplevel_ptr);
            }
        }
    }
}


/// Capture cadence, in microseconds: Windows Graphics Capture is polled fast
/// (its empty polls are cheap); the PrintWindow fallback runs at ~60 Hz for
/// the window on screen and ~8 Hz for the others.
pub open spec fn spec_capture_period_us(wgc: bool, focused: bool) -> u64 {
    if wgc { 4_000 } else if focused { 16_000 } else { 125_000 }
}

/// Which window the player is looking at, so its capture runs at full rate.
pub struct CaptureFocus {
    pub hwnd: isize,
}

impl CaptureFocus {
    pub fn new() -> (s: Self)
        ensures
            s.hwnd == 0,
    {
        CaptureFocus { hwnd: 0 }
    }

    /// Records `hwnd` as the window on screen.
    pub fn set_focused_capture_hwnd(&mut self, hwnd: isize)
        ensures
            final(self).hwnd == hwnd,
    {
        self.hwnd = hwnd;
    }

    /// The capture period of window `hwnd`, captured through Windows Graphics
    /// Capture when `wgc`, else through PrintWindow.
    pub fn capture_period_us(&self, hwnd: isize, wgc: bool) -> (p: u64)
        ensures
            p == spec_capture_period_us(wgc, self.hwnd == hwnd),
    {
        if wgc {
            4_000
        } else if self.hwnd == hwnd {
            16_000
        } else {
            125_000
        }
    }
}

/// How long a capture thread sleeps after a pass that took `elapsed_us`:
/// the rest of its period, or not at all when the pass overran it.
pub fn capture_sleep_us(period_us: u64, elapsed_us: u64) -> (r: Option<u64>)
    ensures
        r == (if elapsed_us <= period_us { Some((period_us - elapsed_us) as u64) } else { None }),
{
    period_us.checked_sub(elapsed_us)
}

/// Minimum gap between two repaint requests to one window, in microseconds.
pub const REPAINT_INTERVAL_US: u64 = 500_000;

/// When each window was last asked to repaint.
pub struct RepaintLog {
    pub last: Vec<(isize, u64)>,
}

pub open spec fn last_repaint(log: Seq<(isize, u64)>, hwnd: isize) -> Option<u64> {
    if exists|k: int| 0 <= k < log.len() && log[k].0 == hwnd {
        Some(log[choose|k: int| 0 <= k < log.len() && log[k].0 == hwnd].1)
    } else {
        None
    }
}

impl RepaintLog {
    pub fn new() -> (s: Self)
        ensures
            s.last@.len() == 0,
    {
        RepaintLog { last: Vec::new() }
    }

    /// One entry per window.
    pub open spec fn wf(&self) -> bool {
        forall|i: int, j: int|
            0 <= i < j < self.last@.len() ==> #[trigger] self.last@[i].0 != #[trigger] self.last@[j].0
    }

    /// Whether window `hwnd` is due a repaint request at time `now_us`: never
    /// asked, or asked at least `REPAINT_INTERVAL_US` ago (a clock that went
    /// backwards counts as no time). When due, `now_us` is recorded.
    pub fn due(&mut self, hwnd: isize, now_us: u64) -> (due: bool)
        requires
            old(self).wf(),
        ensures
            final(self).wf(),
            due == match last_repaint(old(self).last@, hwnd) {
                None => true,
                Some(t) => now_us >= t && now_us - t >= REPAINT_INTERVAL_US,
            },
            due ==> last_repaint(final(self).last@, hwnd) == Some(now_us),
            forall|h: isize| h != hwnd ==> last_repaint(final(self).last@, h) == last_repaint(old(self).last@, h),
            !due ==> final(self).last@ == old(self).last@,
    {
        let mut k: usize = 0;
        while k < self.last.len()
            invariant
                k <= self.last@.len(),
                self.wf(),
                self.last@ == old(self).last@,
                forall|j: int| 0 <= j < k ==> self.last@[j].0 != hwnd,
            decreases self.last.len() - k,
        {
            if self.last[k].0 == hwnd {
                let ghost before = self.last@;
                proof {
                    let c = choose|c: int| 0 <= c < before.len() && before[c].0 == hwnd;
                    if c > k {
                        assert(before[k as int].0 != before[c].0);
                    }
                    assert(c == k);
                }
                let t = self.last[k].1;
                let due = now_us.saturating_sub(t) >= REPAINT_INTERVAL_US;
                if due {
                    self.last[k].1 = now_us;
                    proof {
                        assert forall|i: int, j: int| 0 <= i < j < self.last@.len() implies #[trigger] self.last@[i].0
                            != #[trigger] self.last@[j].0 by {
                            assert(before[i].0 != before[j].0);
                        }
                        let c = choose|c: int| 0 <= c < self.last@.len() && self.last@[c].0 == hwnd;
                        if c != k {
                            if c < k {
                                assert(before[c].0 != before[k as int].0);
                            } else {
                                assert(before[k as int].0 != before[c].0);
                            }
                        }
                        assert forall|h: isize| h != hwnd implies last_repaint(self.last@, h) == last_repaint(before, h) by {
                            if exists|m: int| 0 <= m < before.len() && before[m].0 == h {
                                let m = choose|m: int| 0 <= m < before.len() && before[m].0 == h;
                                assert(self.last@[m].0 == h);
                                let m2 = choose|m2: int| 0 <= m2 < self.last@.len() && self.last@[m2].0 == h;
                                if m2 != m {
                                    if m2 < m {
                                        assert(before[m2].0 != before[m].0);
                                    } else {
                                        assert(before[m].0 != before[m2].0);
                                    }
                                }
                            } else {
                                assert(!(exists|m: int| 0 <= m < self.last@.len() && self.last@[m].0 == h)) by {
                                    if exists|m: int| 0 <= m < self.last@.len() && self.last@[m].0 == h {
                                        let m = choose|m: int| 0 <= m < self.last@.len() && self.last@[m].0 == h;
                                        assert(before[m].0 == h);
                                    }
                                }
                            }
                        }
                    }
                }
                return due;
            }
            k += 1;
        }
        let ghost before = self.last@;
        self.last.push((hwnd, now_us));
        proof {
            assert(!(exists|c: int| 0 <= c < before.len() && before[c].0 == hwnd));
            let n = before.len() as int;
            assert(self.last@[n].0 == hwnd);
            let c = choose|c: int| 0 <= c < self.last@.len() && self.last@[c].0 == hwnd;
            assert(c == n);
            assert forall|h: isize| h != hwnd implies last_repaint(self.last@, h) == last_repaint(before, h) by {
                if exists|m: int| 0 <= m < before.len() && before[m].0 == h {
                    let m = choose|m: int| 0 <= m < before.len() && before[m].0 == h;
                    assert(self.last@[m].0 == h);
                    let m2 = choose|m2: int| 0 <= m2 < self.last@.len() && self.last@[m2].0 == h;
                    if m2 != m {
                        if m2 < m {
                            assert(before[m2].0 != before[m].0);
                        } else if m2 < n {
                            assert(before[m].0 != before[m2].0);
                        }
                    }
                } else {
                    assert(!(exists|m: int| 0 <= m < self.last@.len() && self.last@[m].0 == h)) by {
                        if exists|m: int| 0 <= m < self.last@.len() && self.last@[m].0 == h {
                            let m = choose|m: int| 0 <= m < self.last@.len() && self.last@[m].0 == h;
                            if m < n {
                                assert(before[m].0 == h);
                            }
                        }
                    }
                }
            }
        }
        true
    }
}

fn vec_contains(v: &Vec<isize>, x: isize) -> (r: bool)
    ensures
        r == v@.contains(x),
{
    let mut i: usize = 0;
    while i < v.len()
        invariant
            i <= v@.len(),
            forall|j: int| 0 <= j < i ==> v@[j] != x,
        decreases v.len() - i,
    {
        if v[i] == x {
            assert(v@[i as int] == x);
            return true;
        }
        i += 1;
    }
    false
}

pub open spec fn in_prefix(s: Seq<isize>, n: int, x: isize) -> bool {
    exists|k: int| 0 <= k < n && #[trigger] s[k] == x
}

proof fn lemma_in_prefix_step(s: Seq<isize>, n: int, x: isize)
    requires
        0 <= n < s.len(),
    ensures
        in_prefix(s, n + 1, x) <==> (in_prefix(s, n, x) || s[n] == x),
{
    if in_prefix(s, n + 1, x) && s[n] != x {
        let k = choose|k: int| 0 <= k < n + 1 && #[trigger] s[k] == x;
        assert(0 <= k < n && s[k] == x);
    }
}

/// Which windows need a capture thread. `live` holds the windows that have
/// one, `targets` those that should. Returns the new set of windows with a
/// thread (exactly the targets; threads of the others stop) and the targets
/// whose thread must be started, each once.
pub fn plan_capture_threads(live: &Vec<isize>, targets: &Vec<isize>) -> (r: (Vec<isize>, Vec<isize>))
    ensures
        forall|x: isize| r.0@.contains(x) <==> targets@.contains(x),
        r.0@.no_duplicates(),
        forall|x: isize| r.1@.contains(x) <==> (targets@.contains(x) && !live@.contains(x)),
        r.1@.no_duplicates(),
{
    let mut kept: Vec<isize> = Vec::new();
    let mut i: usize = 0;
    while i < live.len()
        invariant
            i <= live@.len(),
            forall|x: isize| kept@.contains(x) <==> (in_prefix(live@, i as int, x) && targets@.contains(x)),
            kept@.no_duplicates(),
        decreases live.len() - i,
    {
        let x = live[i];
        let ghost before = kept@;
        let wanted = vec_contains(targets, x);
        let have = vec_contains(&kept, x);
        if wanted && !have {
            kept.push(x);
        }
        proof {
            assert forall|y: isize| kept@.contains(y) <==> (in_prefix(live@, i + 1, y) && targets@.contains(y)) by {
                lemma_in_prefix_step(live@, i as int, y);
                if wanted && !have {
                    if kept@.contains(y) && y != x {
                        let k = choose|k: int| 0 <= k < kept@.len() && kept@[k] == y;
                        assert(before[k] == y);
                    }
                    if before.contains(y) {
                        let k = choose|k: int| 0 <= k < before.len() && before[k] == y;
                        assert(kept@[k] == y);
                    }
                    if y == x {
                        assert(kept@[before.len() as int] == x);
                    }
                }
            }
        }
        i += 1;
    }
    proof {
        assert forall|x: isize| in_prefix(live@, live@.len() as int, x) <==> live@.contains(x) by {
            if live@.contains(x) {
                let k = choose|k: int| 0 <= k < live@.len() && live@[k] == x;
                assert(live@[k] == x);
            }
        }
    }
    let mut spawn: Vec<isize> = Vec::new();
    let mut j: usize = 0;
    while j < targets.len()
        invariant
            j <= targets@.len(),
            forall|x: isize| kept@.contains(x) <==> (targets@.contains(x) && (live@.contains(x) || in_prefix(targets@, j as int, x))),
            forall|x: isize| spawn@.contains(x) <==> (in_prefix(targets@, j as int, x) && !live@.contains(x)),
            kept@.no_duplicates(),
            spawn@.no_duplicates(),
        decreases targets.len() - j,
    {
        let x = targets[j];
        let ghost kept0 = kept@;
        let ghost spawn0 = spawn@;
        let have = vec_contains(&kept, x);
        if !have {
            kept.push(x);
            spawn.push(x);
        }
        proof {
            assert(targets@.contains(x)) by {
                assert(targets@[j as int] == x);
            }
            assert forall|y: isize| #![auto] kept@.contains(y) <==> (targets@.contains(y) && (live@.contains(y) || in_prefix(targets@, j + 1, y))) by {
                lemma_in_prefix_step(targets@, j as int, y);
                if !have {
                    if kept@.contains(y) && y != x {
                        let k = choose|k: int| 0 <= k < kept@.len() && kept@[k] == y;
                        assert(kept0[k] == y);
                    }
                    if kept0.contains(y) {
                        let k = choose|k: int| 0 <= k < kept0.len() && kept0[k] == y;
                        assert(kept@[k] == y);
                    }
                    if y == x {
                        assert(kept@[kept0.len() as int] == x);
                    }
                }
            }
            assert forall|y: isize| #![auto] spawn@.contains(y) <==> (in_prefix(targets@, j + 1, y) && !live@.contains(y)) by {
                lemma_in_prefix_step(targets@, j as int, y);
                if !have {
                    if spawn@.contains(y) && y != x {
                        let k = choose|k: int| 0 <= k < spawn@.len() && spawn@[k] == y;
                        assert(spawn0[k] == y);
                    }
                    if spawn0.contains(y) {
                        let k = choose|k: int| 0 <= k < spawn0.len() && spawn0[k] == y;
                        assert(spawn@[k] == y);
                    }
                    if y == x {
                        assert(spawn@[spawn0.len() as int] == x);
                    }
                } else {
                    if y == x {
                        assert(in_prefix(targets@, j as int, x) || live@.contains(x));
                    }
                }
            }
            if !have {
                assert(!spawn0.contains(x));
            }
        }
        j += 1;
    }
    proof {
        assert forall|x: isize| in_prefix(targets@, targets@.len() as int, x) <==> targets@.contains(x) by {
            if targets@.contains(x) {
                let k = choose|k: int| 0 <= k < targets@.len() && targets@[k] == x;
                assert(targets@[k] == x);
            }
        }
    }
    (kept, spawn)
}

/// The first `h` rows of an image whose rows start `pitch` apart in `src`,
/// each `stride` bytes long, packed one after another.
pub open spec fn tight_rows(src: Seq<u8>, pitch: int, stride: int, h: int) -> Seq<u8>
    decreases h,
{
    if h <= 0 {
        Seq::empty()
    } else {
        tight_rows(src, pitch, stride, h - 1) + src.subrange((h - 1) * pitch, (h - 1) * pitch + stride)
    }
}

/// Copies a `width`×`height` BGRA image whose rows start `row_pitch` bytes
/// apart in `src` (GPU row padding) into `out`, tightly packed.
pub fn copy_rows_tight(src: &[u8], row_pitch: usize, width: usize, height: usize, out: &mut Vec<u8>)
    requires
        width * 4 <= row_pitch,
        height > 0 ==> (height - 1) * row_pitch + width * 4 <= src@.len(),
    ensures
        final(out)@ == tight_rows(src@, row_pitch as int, (width * 4) as int, height as int),
{
    let stride = width * 4;
    let n = src.len();
    let mut v: Vec<u8> = Vec::new();
    let mut y: usize = 0;
    while y < height
        invariant
            n == src@.len(),
            y <= height,
            stride == width * 4,
            stride <= row_pitch,
            height > 0 ==> (height - 1) * row_pitch + stride <= src@.len(),
            v@ == tight_rows(src@, row_pitch as int, stride as int, y as int),
        decreases height - y,
    {
        proof {
            assert(y * row_pitch <= (height - 1) * row_pitch) by (nonlinear_arith)
                requires
                    y < height,
            ;
        }
        let base = y * row_pitch;
        let mut x: usize = 0;
        while x < stride
            invariant
                x <= stride,
                n == src@.len(),
                base == y * row_pitch,
                base + stride <= src@.len(),
                v@ == tight_rows(src@, row_pitch as int, stride as int, y as int) + src@.subrange(
                    base as int,
                    base + x,
                ),
            decreases stride - x,
        {
            v.push(src[base + x]);
            proof {
                assert(src@.subrange(base as int, base + x).push(src@[base + x]) =~= src@.subrange(
                    base as int,
                    base + x + 1,
                ));
            }
            x += 1;
        }
        proof {
            assert(tight_rows(src@, row_pitch as int, stride as int, y + 1) == tight_rows(
                src@,
                row_pitch as int,
                stride as int,
                y as int,
            ) + src@.subrange(y * row_pitch, y * row_pitch + stride));
        }
        y += 1;
    }
    *out = v;
}

/// A popup's offset inside its owner: its top-left corner minus the owner's
/// client origin, both in screen coordinates.
pub fn refresh_popup_offset(popup_left: i32, popup_top: i32, owner_x: i32, owner_y: i32) -> (r: (i32, i32))
    requires
        i32::MIN <= popup_left - owner_x <= i32::MAX,
        i32::MIN <= popup_top - owner_y <= i32::MAX,
    ensures
        r == ((popup_left - owner_x) as i32, (popup_top - owner_y) as i32),
{
    (popup_left - owner_x, popup_top - owner_y)
}

/// The bytes of a `w`×`h` BGRA frame, when it is not empty and its size fits
/// the frame store (see `buffer_fits`); `None` otherwise.
pub fn frame_bytes(w: i32, h: i32) -> (r: Option<usize>)
    ensures
        r == (if buffer_fits(w, h) {
            Some((w * h * 4) as usize)
        } else {
            None
        }),
{
    if w <= 0 || h <= 0 {
        return None;
    }
    let ww: u128 = w as u128;
    let hh: u128 = h as u128;
    assert(ww * hh <= 0x7fff_ffffu128 * 0x7fff_ffffu128) by (nonlinear_arith)
        requires
            ww <= 0x7fff_ffffu128,
            hh <= 0x7fff_ffffu128,
    ;
    let need: u128 = ww * hh * 4;
    if need <= 0x7fff_ffffu128 {
        Some(need as usize)
    } else {
        None
    }
}

/// The number of bytes a captured `w`×`h` frame occupies at the front of a
/// scratch buffer of `scratch_len` bytes, when it can be published: it is
/// not empty, its size fits the frame store, and the scratch buffer holds it.
pub fn publishable_len(w: i32, h: i32, scratch_len: usize) -> (r: Option<usize>)
    ensures
        r == (if buffer_fits(w, h) && w * h * 4 <= scratch_len {
            Some((w * h * 4) as usize)
        } else {
            None
        }),
{
    match frame_bytes(w, h) {
        Some(size) => if size <= scratch_len {
            Some(size)
        } else {
            None
        },
        None => None,
    }
}

/// The size of the bitmap the PrintWindow fallback draws into, if one was
/// made.
pub struct BitmapCache {
    pub size: Option<(i32, i32)>,
}

impl BitmapCache {
    pub fn new() -> (r: Self)
        ensures
            r.size is None,
    {
        BitmapCache { size: None }
    }

    /// A `w`×`h` capture is about to be drawn: returns whether a bitmap of
    /// that size must be made (none yet, or another size), and records it.
    pub fn bitmap_for(&mut self, w: i32, h: i32) -> (make: bool)
        ensures
            make == (old(self).size != Some((w, h))),
            final(self).size == Some((w, h)),
    {
        let make = match self.size {
            Some((bw, bh)) => bw != w || bh != h,
            None => true,
        };
        self.size = Some((w, h));
        make
    }
}

} // verus!
