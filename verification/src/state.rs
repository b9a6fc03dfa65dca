use std::collections::HashSet;
use std::sync::Arc;
use vstd::prelude::*;

use crate::apps::DesktopApp;

verus! {

broadcast use vstd::std_specs::hash::group_hash_axioms;

/// Window-management requests raised for a toplevel and not yet collected.
pub struct ToplevelRequests {
    pub minimize: bool,
    pub maximize: bool,
    pub unmaximize: bool,
    pub fullscreen: bool,
    pub unfullscreen: bool,
}

impl ToplevelRequests {
    /// Whether the request of `kind` is set; it is cleared.
    pub fn take(&mut self, kind: &RequestKind) -> (set: bool)
        ensures
            set == request_set(*old(self), *kind),
            *final(self) == request_cleared(*old(self), *kind),
    {
        match kind {
            RequestKind::Minimize => {
                let b = self.minimize;
                self.minimize = false;
                b
            },
            RequestKind::Maximize => {
                let b = self.maximize;
                self.maximize = false;
                b
            },
            RequestKind::Unmaximize => {
                let b = self.unmaximize;
                self.unmaximize = false;
                b
            },
            RequestKind::Fullscreen => {
                let b = self.fullscreen;
                self.fullscreen = false;
                b
            },
            RequestKind::Unfullscreen => {
                let b = self.unfullscreen;
                self.unfullscreen = false;
                b
            },
        }
    }

    pub fn new() -> (r: Self)
        ensures
            !r.minimize && !r.maximize && !r.unmaximize && !r.fullscreen && !r.unfullscreen,
    {
        ToplevelRequests {
            minimize: false,
            maximize: false,
            unmaximize: false,
            fullscreen: false,
            unfullscreen: false,
        }
    }
}

/// A captured top-level window (or popup) of another application.
pub struct WinToplevel {
    /// The handle the Java side holds for this toplevel.
    pub id: i64,
    pub hwnd: isize,
    pub title: String,
    pub app_id: String,
    pub width: i32,
    pub height: i32,
    pub geom_x: i32,
    pub geom_y: i32,
    pub geom_w: i32,
    pub geom_h: i32,
    /// Latest captured pixels (BGRA, top-down, stride = width*4), shared with
    /// the capture thread that produced them.
    pub buffer: Arc<Vec<u8>>,
    pub mapped: bool,
    pub maximize: bool,
    pub fullscreen: bool,
    pub requests: ToplevelRequests,
    pub zero_capture_count: u32,
    pub prev_first16: [u8; 16],
    pub static_frame_count: u32,
    /// Version of the last shared frame taken from the capture thread.
    pub last_frame_version: u64,
    /// A popup (menu, dropdown, flyout) is drawn inside its owner's window
    /// rather than listed as a window of its own.
    pub is_popup: bool,
    /// For a popup: the window that owns it (0 otherwise).
    pub owner_hwnd: isize,
}

/// A drawable surface: the root surface of a toplevel, or a popup's surface
/// linked under its owner's root surface.
pub struct WinSurface {
    /// The handle the Java side holds for this surface.
    pub id: i64,
    pub toplevel_ptr: i64,
    pub parent_ptr: i64,
    pub xoff: i32,
    pub yoff: i32,
    pub damage: Vec<[i32; 4]>,
    pub buffer_dirty: bool,
}

/// A launch whose window is still being looked for.
pub struct PendingLaunch {
    pub pid: u32,
    pub app_id: String,
    pub attempts: u32,
    pub hint: String,
    pub alt_hint: Option<String>,
    /// Window handles present before the launch.
    pub snapshot: HashSet<isize>,
    /// True if the app was relaunched without the hidden show state.
    pub relaunched: bool,
    /// The window found and registered for this launch, if any.
    pub hwnd_found: Option<isize>,
    pub hwnd_found_attempt: u32,
    pub rejected_hwnds: HashSet<isize>,
    /// The toplevel created or reused for this launch, reused again when the
    /// app replaces its window.
    pub toplevel_ptr: Option<i64>,
    /// The launched process; its whole descendant tree is matched.
    pub root_pid: u32,
}

/// The window registry and input state of the mod.
pub struct WindowMod {
    pub toplevels: Vec<WinToplevel>,
    pub surfaces: Vec<WinSurface>,
    pub pending_launches: Vec<PendingLaunch>,
    pub output_size: (i32, i32),
    pub output_bounds: (i32, i32),
    pub focus_toplevel_ptr: i64,
    pub pointer_focus_ptr: i64,
    pub pointer_locked: bool,
    /// True while the left mouse button is held down.
    pub left_button_down: bool,
    pub keyboard_active: bool,
    pub move_serial: Option<u32>,
    pub resize_serial: Option<(u32, i32)>,
    pub serial_counter: u32,
    pub desktop_apps: Vec<DesktopApp>,
    pub preferred_terminal: String,
    /// Root PIDs of every process launched from inside the game.
    pub launched_pids: Vec<u32>,
    /// Incremented by every `update`.
    pub frame_counter: u64,
    /// The next handle to give a toplevel or surface.
    pub next_handle: i64,
}

/// Which pending request `take_requests` collects.
pub enum RequestKind {
    Minimize,
    Maximize,
    Unmaximize,
    Fullscreen,
    Unfullscreen,
}

pub open spec fn request_set(r: ToplevelRequests, kind: RequestKind) -> bool {
    match kind {
        RequestKind::Minimize => r.minimize,
        RequestKind::Maximize => r.maximize,
        RequestKind::Unmaximize => r.unmaximize,
        RequestKind::Fullscreen => r.fullscreen,
        RequestKind::Unfullscreen => r.unfullscreen,
    }
}

/// `r` with the request of `kind` cleared.
pub open spec fn request_cleared(r: ToplevelRequests, kind: RequestKind) -> ToplevelRequests {
    match kind {
        RequestKind::Minimize => ToplevelRequests { minimize: false, ..r },
        RequestKind::Maximize => ToplevelRequests { maximize: false, ..r },
        RequestKind::Unmaximize => ToplevelRequests { unmaximize: false, ..r },
        RequestKind::Fullscreen => ToplevelRequests { fullscreen: false, ..r },
        RequestKind::Unfullscreen => ToplevelRequests { unfullscreen: false, ..r },
    }
}

pub open spec fn max_i32(a: i32, b: i32) -> i32 {
    if a >= b { a } else { b }
}

/// The pixel buffer of a `w`×`h` window fits the `i32` arithmetic that sizes it.
pub open spec fn buffer_fits(w: i32, h: i32) -> bool {
    0 < w && 0 < h && w * h * 4 <= i32::MAX
}

/// The index of the first surface at or after `i` that is the root surface of
/// toplevel `tp`.
pub open spec fn first_root_from(sf: Seq<WinSurface>, tp: i64, i: int) -> Option<int>
    decreases sf.len() - i,
{
    if i < 0 || i >= sf.len() {
        None
    } else if sf[i].toplevel_ptr == tp && sf[i].parent_ptr == 0 {
        Some(i)
    } else {
        first_root_from(sf, tp, i + 1)
    }
}

pub proof fn lemma_first_root_from(sf: Seq<WinSurface>, tp: i64, i: int)
    requires
        0 <= i <= sf.len(),
    ensures
        match first_root_from(sf, tp, i) {
            Some(k) => i <= k < sf.len() && sf[k].toplevel_ptr == tp && sf[k].parent_ptr == 0
                && forall|j: int| i <= j < k ==> !(sf[j].toplevel_ptr == tp && sf[j].parent_ptr == 0),
            None => forall|j: int| i <= j < sf.len() ==> !(sf[j].toplevel_ptr == tp && sf[j].parent_ptr == 0),
        },
    decreases sf.len() - i,
{
    if i < sf.len() {
        lemma_first_root_from(sf, tp, i + 1);
    }
}

impl WindowMod {
    /// Handle bookkeeping: every handle is positive, below `next_handle`, and
    /// names one toplevel or one surface.
    pub open spec fn wf(&self) -> bool {
        &&& 0 < self.next_handle
        &&& forall|i: int|
            0 <= i < self.toplevels@.len() ==> 0 < #[trigger] self.toplevels@[i].id < self.next_handle
        &&& forall|i: int|
            0 <= i < self.surfaces@.len() ==> 0 < #[trigger] self.surfaces@[i].id < self.next_handle
        &&& forall|i: int, j: int|
            0 <= i < j < self.toplevels@.len() ==> #[trigger] self.toplevels@[i].id
                != #[trigger] self.toplevels@[j].id
        &&& forall|i: int, j: int|
            0 <= i < j < self.surfaces@.len() ==> #[trigger] self.surfaces@[i].id
                != #[trigger] self.surfaces@[j].id
        &&& forall|i: int, j: int|
            0 <= i < self.toplevels@.len() && 0 <= j < self.surfaces@.len()
                ==> #[trigger] self.toplevels@[i].id != #[trigger] self.surfaces@[j].id
        &&& forall|i: int|
            0 <= i < self.toplevels@.len() ==> buffer_fits(
                #[trigger] self.toplevels@[i].width,
                self.toplevels@[i].height,
            )
    }

    pub open spec fn has_toplevel(&self, h: i64) -> bool {
        exists|i: int| 0 <= i < self.toplevels@.len() && #[trigger] self.toplevels@[i].id == h
    }

    pub open spec fn has_surface(&self, h: i64) -> bool {
        exists|i: int| 0 <= i < self.surfaces@.len() && #[trigger] self.surfaces@[i].id == h
    }

    pub open spec fn tracks_hwnd(&self, hwnd: isize) -> bool {
        exists|i: int| 0 <= i < self.toplevels@.len() && #[trigger] self.toplevels@[i].hwnd == hwnd
    }

    /// No window is tracked by two toplevels.
    pub open spec fn hwnds_distinct(&self) -> bool {
        forall|i: int, j: int|
            0 <= i < j < self.toplevels@.len() ==> #[trigger] self.toplevels@[i].hwnd
                != #[trigger] self.toplevels@[j].hwnd
    }

    /// Every surface belongs to a toplevel that is still registered.
    pub open spec fn surfaces_anchored(&self) -> bool {
        forall|i: int|
            0 <= i < self.surfaces@.len() ==> self.has_toplevel(#[trigger] self.surfaces@[i].toplevel_ptr)
    }

    /// The root surface of toplevel `tp`, as `surface_for_toplevel` finds it.
    pub open spec fn root_surface(&self, tp: i64) -> Option<i64> {
        match first_root_from(self.surfaces@, tp, 0) {
            Some(k) => Some(self.surfaces@[k].id),
            None => None,
        }
    }

    /// Everything but the toplevels, surfaces and handle counter is as in `old`.
    pub open spec fn same_input_state(&self, old: &Self) -> bool {
        &&& self.pending_launches == old.pending_launches
        &&& self.output_size == old.output_size
        &&& self.output_bounds == old.output_bounds
        &&& self.focus_toplevel_ptr == old.focus_toplevel_ptr
        &&& self.pointer_focus_ptr == old.pointer_focus_ptr
        &&& self.pointer_locked == old.pointer_locked
        &&& self.left_button_down == old.left_button_down
        &&& self.keyboard_active == old.keyboard_active
        &&& self.move_serial == old.move_serial
        &&& self.resize_serial == old.resize_serial
        &&& self.serial_counter == old.serial_counter
        &&& self.desktop_apps == old.desktop_apps
        &&& self.preferred_terminal == old.preferred_terminal
        &&& self.launched_pids == old.launched_pids
        &&& self.frame_counter == old.frame_counter
    }

    /// A fresh state listing `desktop_apps` in the launcher.
    pub fn new(desktop_apps: Vec<DesktopApp>) -> (s: Self)
        ensures
            s.wf(),
            s.toplevels@.len() == 0,
            s.surfaces@.len() == 0,
            s.pending_launches@.len() == 0,
            s.output_size == (1920i32, 1080i32),
            s.output_bounds == (1920i32, 1080i32),
            s.focus_toplevel_ptr == 0,
            s.pointer_focus_ptr == 0,
            !s.pointer_locked,
            !s.left_button_down,
            !s.keyboard_active,
            s.move_serial is None,
            s.resize_serial is None,
            s.serial_counter == 1,
            s.desktop_apps == desktop_apps,
            s.preferred_terminal@.len() == 0,
            s.launched_pids@.len() == 0,
            s.frame_counter == 0,
    {
        WindowMod {
            toplevels: Vec::new(),
            surfaces: Vec::new(),
            pending_launches: Vec::new(),
            output_size: (1920, 1080),
            output_bounds: (1920, 1080),
            focus_toplevel_ptr: 0,
            pointer_focus_ptr: 0,
            pointer_locked: false,
            left_button_down: false,
            keyboard_active: false,
            move_serial: None,
            resize_serial: None,
            serial_counter: 1,
            desktop_apps,
            preferred_terminal: String::new(),
            launched_pids: Vec::new(),
            frame_counter: 0,
            next_handle: 1,
        }
    }

    /// Hands out the next serial number, wrapping at `u32::MAX`.
    pub fn next_serial(&mut self) -> (s: u32)
        ensures
            s == old(self).serial_counter,
            final(self).serial_counter == (if old(self).serial_counter == u32::MAX {
                0
            } else {
                (old(self).serial_counter + 1) as u32
            }),
            same_registry(*final(self), *old(self)),
            final(self).focus_toplevel_ptr == old(self).focus_toplevel_ptr,
            final(self).pointer_focus_ptr == old(self).pointer_focus_ptr,
            final(self).pointer_locked == old(self).pointer_locked,
            final(self).left_button_down == old(self).left_button_down,
            final(self).keyboard_active == old(self).keyboard_active,
    {
        let s = self.serial_counter;
        self.serial_counter = self.serial_counter.wrapping_add(1);
        s
    }

    /// Registers `toplevel` under a fresh handle, which is returned.
    pub fn insert_toplevel(&mut self, toplevel: WinToplevel) -> (h: i64)
        requires
            old(self).wf(),
            old(self).next_handle < i64::MAX,
            buffer_fits(toplevel.width, toplevel.height),
        ensures
            final(self).wf(),
            h == old(self).next_handle,
            final(self).next_handle == h + 1,
            final(self).toplevels@ == old(self).toplevels@.push(WinToplevel { id: h, ..toplevel }),
            final(self).surfaces@ == old(self).surfaces@,
            final(self).same_input_state(old(self)),
    {
        let h = self.next_handle;
        let mut t = toplevel;
        t.id = h;
        self.toplevels.push(t);
        self.next_handle = h + 1;
        h
    }

    /// Registers `surface` under a fresh handle, which is returned.
    pub fn insert_surface(&mut self, surface: WinSurface) -> (h: i64)
        requires
            old(self).wf(),
            old(self).next_handle < i64::MAX,
        ensures
            final(self).wf(),
            h == old(self).next_handle,
            final(self).next_handle == h + 1,
            final(self).surfaces@ == old(self).surfaces@.push(WinSurface { id: h, ..surface }),
            final(self).toplevels@ == old(self).toplevels@,
            final(self).same_input_state(old(self)),
    {
        let h = self.next_handle;
        let mut s = surface;
        s.id = h;
        self.surfaces.push(s);
        self.next_handle = h + 1;
        h
    }

    /// The first surface that is the root surface (no parent) of toplevel
    /// `toplevel_ptr`.
    pub fn surface_for_toplevel(&self, toplevel_ptr: i64) -> (r: Option<i64>)
        ensures
            r == self.root_surface(toplevel_ptr),
    {
        let mut i: usize = 0;
        while i < self.surfaces.len()
            invariant
                i <= self.surfaces@.len(),
                first_root_from(self.surfaces@, toplevel_ptr, 0) == first_root_from(
                    self.surfaces@,
                    toplevel_ptr,
                    i as int,
                ),
            decreases self.surfaces.len() - i,
        {
            if self.surfaces[i].toplevel_ptr == toplevel_ptr && self.surfaces[i].parent_ptr == 0 {
                return Some(self.surfaces[i].id);
            }
            i += 1;
        }
        None
    }
}


/// The toplevel `register_external_hwnd` creates for a `w`×`h` window.
pub open spec fn is_new_external(
    t: WinToplevel,
    id: i64,
    hwnd: isize,
    title: Seq<char>,
    app_id: Seq<char>,
    w: i32,
    h: i32,
) -> bool {
    let ww = max_i32(w, 640);
    let hh = max_i32(h, 480);
    &&& t.id == id
    &&& t.hwnd == hwnd
    &&& t.title@ == title
    &&& t.app_id@ == app_id
    &&& t.width == ww && t.height == hh
    &&& t.geom_x == 0 && t.geom_y == 0
    &&& t.geom_w == ww && t.geom_h == hh
    &&& t.buffer@.len() == ww * hh * 4
    &&& (forall|i: int| 0 <= i < t.buffer@.len() ==> t.buffer@[i] == 0)
    &&& t.mapped && !t.maximize && !t.fullscreen
    &&& !t.requests.minimize && !t.requests.maximize && !t.requests.unmaximize
    &&& !t.requests.fullscreen && !t.requests.unfullscreen
    &&& t.zero_capture_count == 0 && t.static_frame_count == 0 && t.last_frame_version == 0
    &&& t.prev_first16@ == Seq::new(16, |i: int| 0u8)
    &&& !t.is_popup && t.owner_hwnd == 0
}

/// The popup toplevel `register_popup_hwnd` creates for a `w`×`h` menu.
pub open spec fn is_new_popup(t: WinToplevel, id: i64, hwnd: isize, owner: isize, w: i32, h: i32) -> bool {
    &&& t.id == id
    &&& t.hwnd == hwnd
    &&& t.title@ == Seq::<char>::empty()
    &&& t.app_id@ == "popup"@
    &&& t.width == w && t.height == h
    &&& t.geom_x == 0 && t.geom_y == 0
    &&& t.geom_w == w && t.geom_h == h
    &&& t.buffer@.len() == w * h * 4
    &&& (forall|i: int| 0 <= i < t.buffer@.len() ==> t.buffer@[i] == 0)
    &&& t.mapped && !t.maximize && !t.fullscreen
    &&& !t.requests.minimize && !t.requests.maximize && !t.requests.unmaximize
    &&& !t.requests.fullscreen && !t.requests.unfullscreen
    &&& t.zero_capture_count == 0 && t.static_frame_count == 0 && t.last_frame_version == 0
    &&& t.prev_first16@ == Seq::new(16, |i: int| 0u8)
    &&& t.is_popup && t.owner_hwnd == owner
}

/// A surface as `register_*` creates it: dirty, damaged over its whole area.
pub open spec fn is_new_surface(
    s: WinSurface,
    id: i64,
    toplevel_ptr: i64,
    parent_ptr: i64,
    xoff: i32,
    yoff: i32,
    w: i32,
    h: i32,
) -> bool {
    &&& s.id == id
    &&& s.toplevel_ptr == toplevel_ptr
    &&& s.parent_ptr == parent_ptr
    &&& s.xoff == xoff && s.yoff == yoff
    &&& s.damage@ == seq![[0i32, 0i32, w, h]]
    &&& s.buffer_dirty
}

/// `s` after its toplevel was retargeted and resized to `w`×`h`.
pub open spec fn is_redamaged(s: WinSurface, old: WinSurface, w: i32, h: i32) -> bool {
    &&& s.id == old.id && s.toplevel_ptr == old.toplevel_ptr && s.parent_ptr == old.parent_ptr
    &&& s.xoff == old.xoff && s.yoff == old.yoff
    &&& s.buffer_dirty
    &&& s.damage@ == old.damage@.push([0i32, 0i32, w, h])
}

/// Whether `register_external_hwnd` accepts window `hwnd` in state `s`.
pub open spec fn can_register_external(s: WindowMod, hwnd: isize, alive: bool, w: i32, h: i32) -> bool {
    alive && !s.tracks_hwnd(hwnd) && w >= 10 && h >= 10
}

/// The toplevels, surfaces and handle counter of `s` are those of `old` with
/// window `hwnd` registered as toplevel `h` (and its root surface `h + 1`).
pub open spec fn external_registered(
    s: WindowMod,
    old: WindowMod,
    h: i64,
    hwnd: isize,
    title: Seq<char>,
    app_id: Seq<char>,
    w: i32,
    ht: i32,
) -> bool {
    &&& h == old.next_handle
    &&& s.next_handle == h + 2
    &&& s.toplevels@.len() == old.toplevels@.len() + 1
    &&& s.toplevels@.drop_last() == old.toplevels@
    &&& is_new_external(s.toplevels@.last(), h, hwnd, title, app_id, w, ht)
    &&& s.surfaces@.len() == old.surfaces@.len() + 1
    &&& s.surfaces@.drop_last() == old.surfaces@
    &&& is_new_surface(s.surfaces@.last(), (h + 1) as i64, h, 0, 0, 0, max_i32(w, 640), max_i32(ht, 480))
}

/// The toplevels, surfaces and handle counter of `s` are those of `old` with
/// popup `hwnd` of `owner` registered as toplevel `h`, its surface `h + 1`
/// linked under `owner_surface` at (`xoff`, `yoff`).
pub open spec fn popup_registered(
    s: WindowMod,
    old: WindowMod,
    h: i64,
    hwnd: isize,
    owner: isize,
    owner_surface: i64,
    w: i32,
    ht: i32,
    xoff: i32,
    yoff: i32,
) -> bool {
    &&& h == old.next_handle
    &&& s.next_handle == h + 2
    &&& s.toplevels@.len() == old.toplevels@.len() + 1
    &&& s.toplevels@.drop_last() == old.toplevels@
    &&& is_new_popup(s.toplevels@.last(), h, hwnd, owner, w, ht)
    &&& s.surfaces@.len() == old.surfaces@.len() + 1
    &&& s.surfaces@.drop_last() == old.surfaces@
    &&& is_new_surface(s.surfaces@.last(), (h + 1) as i64, h, owner_surface, xoff, yoff, w, ht)
}

/// Whether `reassign_toplevel_hwnd` can point toplevel `ptr` of `s` at window
/// `hwnd`.
pub open spec fn can_reassign(s: WindowMod, ptr: i64, hwnd: isize, alive: bool, w: i32, h: i32) -> bool {
    &&& alive
    &&& !(exists|i: int| 0 <= i < s.toplevels@.len() && #[trigger] s.toplevels@[i].hwnd == hwnd && s.toplevels@[i].id != ptr)
    &&& s.has_toplevel(ptr)
    &&& w >= 10 && h >= 10
}

/// The toplevels, surfaces and handle counter of `s` are those of `old` with
/// toplevel `ptr` pointed at window `hwnd`, resized and its surfaces damaged.
pub open spec fn toplevel_reassigned(
    s: WindowMod,
    old: WindowMod,
    ptr: i64,
    hwnd: isize,
    app_id: String,
    title: String,
    w: i32,
    h: i32,
) -> bool {
    let ww = max_i32(w, 640);
    let hh = max_i32(h, 480);
    &&& s.next_handle == old.next_handle
    &&& s.toplevels@.len() == old.toplevels@.len()
    &&& forall|i: int|
        0 <= i < old.toplevels@.len() ==> {
            let o = old.toplevels@[i];
            let t = #[trigger] s.toplevels@[i];
            if o.id == ptr {
                t == WinToplevel {
                    hwnd: hwnd,
                    app_id: app_id,
                    title: title,
                    mapped: true,
                    width: ww,
                    height: hh,
                    geom_w: ww,
                    geom_h: hh,
                    last_frame_version: 0,
                    ..o
                }
            } else {
                t == o
            }
        }
    &&& s.surfaces@.len() == old.surfaces@.len()
    &&& forall|j: int|
        0 <= j < old.surfaces@.len() ==> if old.surfaces@[j].toplevel_ptr == ptr {
            is_redamaged(#[trigger] s.surfaces@[j], old.surfaces@[j], ww, hh)
        } else {
            s.surfaces@[j] == old.surfaces@[j]
        }
}

fn zero_buffer(n: usize) -> (b: Arc<Vec<u8>>)
    ensures
        b@.len() == n,
        forall|i: int| 0 <= i < n ==> b@[i] == 0,
{
    let mut v: Vec<u8> = Vec::new();
    let mut i: usize = 0;
    while i < n
        invariant
            i <= n,
            v@.len() == i,
            forall|j: int| 0 <= j < i ==> v@[j] == 0,
        decreases n - i,
    {
        v.push(0);
        i += 1;
    }
    Arc::new(v)
}

fn max_i32_exec(a: i32, b: i32) -> (r: i32)
    ensures
        r == max_i32(a, b),
{
    if a >= b { a } else { b }
}

impl WindowMod {
    /// The index of toplevel `h`.
    pub fn toplevel_index(&self, h: i64) -> (r: Option<usize>)
        requires
            self.wf(),
        ensures
            match r {
                Some(k) => k < self.toplevels@.len() && self.toplevels@[k as int].id == h,
                None => !self.has_toplevel(h),
            },
    {
        let mut i: usize = 0;
        while i < self.toplevels.len()
            invariant
                i <= self.toplevels@.len(),
                forall|j: int| 0 <= j < i ==> self.toplevels@[j].id != h,
            decreases self.toplevels.len() - i,
        {
            if self.toplevels[i].id == h {
                return Some(i);
            }
            i += 1;
        }
        None
    }

    /// The index of surface `h`.
    pub fn surface_index(&self, h: i64) -> (r: Option<usize>)
        requires
            self.wf(),
        ensures
            match r {
                Some(k) => k < self.surfaces@.len() && self.surfaces@[k as int].id == h,
                None => !self.has_surface(h),
            },
    {
        let mut i: usize = 0;
        while i < self.surfaces.len()
            invariant
                i <= self.surfaces@.len(),
                forall|j: int| 0 <= j < i ==> self.surfaces@[j].id != h,
            decreases self.surfaces.len() - i,
        {
            if self.surfaces[i].id == h {
                return Some(i);
            }
            i += 1;
        }
        None
    }

    /// Whether some toplevel tracks window `hwnd`.
    pub fn is_tracked(&self, hwnd: isize) -> (r: bool)
        ensures
            r == self.tracks_hwnd(hwnd),
    {
        let mut i: usize = 0;
        while i < self.toplevels.len()
            invariant
                i <= self.toplevels@.len(),
                forall|j: int| 0 <= j < i ==> self.toplevels@[j].hwnd != hwnd,
            decreases self.toplevels.len() - i,
        {
            if self.toplevels[i].hwnd == hwnd {
                return true;
            }
            i += 1;
        }
        false
    }

    /// Starts tracking window `hwnd` as a new toplevel with a root surface.
    ///
    /// `alive`, `client_w`, `client_h` and `title` are what the window reports
    /// (`IsWindow`, its client rectangle and its cached title). Nothing is
    /// registered when the window is dead, already tracked, or smaller than
    /// 10×10; otherwise the toplevel's handle is returned.
    pub fn register_external_hwnd(
        &mut self,
        hwnd: isize,
        app_id: String,
        alive: bool,
        client_w: i32,
        client_h: i32,
        title: String,
    ) -> (r: Option<i64>)
        requires
            old(self).wf(),
            old(self).next_handle < i64::MAX - 1,
            alive && !old(self).tracks_hwnd(hwnd) && client_w >= 10 && client_h >= 10
                ==> buffer_fits(max_i32(client_w, 640), max_i32(client_h, 480)),
        ensures
            final(self).wf(),
            r is Some <==> can_register_external(*old(self), hwnd, alive, client_w, client_h),
            r is None ==> *final(self) == *old(self),
            r matches Some(h) ==> external_registered(
                *final(self),
                *old(self),
                h,
                hwnd,
                title@,
                app_id@,
                client_w,
                client_h,
            ) && final(self).same_input_state(old(self)),
            old(self).hwnds_distinct() ==> final(self).hwnds_distinct(),
            old(self).surfaces_anchored() ==> final(self).surfaces_anchored(),
    {
        if !alive {
            return None;
        }
        if self.is_tracked(hwnd) {
            return None;
        }
        if client_w < 10 || client_h < 10 {
            return None;
        }
        let w = max_i32_exec(client_w, 640);
        let h = max_i32_exec(client_h, 480);
        let size = (w * h * 4) as usize;
        let toplevel = WinToplevel {
            id: 0,
            hwnd,
            title,
            app_id,
            width: w,
            height: h,
            geom_x: 0,
            geom_y: 0,
            geom_w: w,
            geom_h: h,
            buffer: zero_buffer(size),
            mapped: true,
            maximize: false,
            fullscreen: false,
            requests: ToplevelRequests::new(),
            zero_capture_count: 0,
            prev_first16: [0u8; 16],
            static_frame_count: 0,
            last_frame_version: 0,
            is_popup: false,
            owner_hwnd: 0,
        };
        let ghost before = *self;
        let toplevel_ptr = self.insert_toplevel(toplevel);
        let mut damage: Vec<[i32; 4]> = Vec::new();
        damage.push([0, 0, w, h]);
        self.insert_surface(
            WinSurface {
                id: 0,
                toplevel_ptr,
                parent_ptr: 0,
                xoff: 0,
                yoff: 0,
                damage,
                buffer_dirty: true,
            },
        );
        proof {
            assert(self.toplevels@.drop_last() =~= before.toplevels@);
            assert(self.surfaces@.drop_last() =~= before.surfaces@);
            assert(self.toplevels@.last().prev_first16@ =~= Seq::new(16, |i: int| 0u8));
            assert(self.surfaces@.last().damage@ =~= seq![[0i32, 0i32, w, h]]);
            if before.hwnds_distinct() {
                assert forall|i: int, j: int|
                    0 <= i < j < self.toplevels@.len() implies #[trigger] self.toplevels@[i].hwnd
                    != #[trigger] self.toplevels@[j].hwnd by {
                    if j == self.toplevels@.len() - 1 {
                        assert(before.toplevels@[i].hwnd == self.toplevels@[i].hwnd);
                    }
                }
            }
            if before.surfaces_anchored() {
                assert forall|i: int| 0 <= i < self.surfaces@.len() implies self.has_toplevel(
                    #[trigger] self.surfaces@[i].toplevel_ptr,
                ) by {
                    if i < before.surfaces@.len() {
                        let k = choose|k: int|
                            0 <= k < before.toplevels@.len() && #[trigger] before.toplevels@[k].id
                                == before.surfaces@[i].toplevel_ptr;
                        assert(self.toplevels@[k].id == self.surfaces@[i].toplevel_ptr);
                    } else {
                        assert(self.toplevels@[self.toplevels@.len() - 1].id == toplevel_ptr);
                    }
                }
            }
        }
        Some(toplevel_ptr)
    }
}


impl WindowMod {
    /// Marks every surface of toplevel `tp` dirty and damaged over `w`×`h`.
    pub(crate) fn redamage_surfaces_of(&mut self, tp: i64, w: i32, h: i32)
        ensures
            final(self).surfaces@.len() == old(self).surfaces@.len(),
            forall|j: int|
                0 <= j < old(self).surfaces@.len() ==> if old(self).surfaces@[j].toplevel_ptr == tp {
                    is_redamaged(#[trigger] final(self).surfaces@[j], old(self).surfaces@[j], w, h)
                } else {
                    final(self).surfaces@[j] == old(self).surfaces@[j]
                },
            final(self).toplevels == old(self).toplevels,
            final(self).next_handle == old(self).next_handle,
            final(self).same_input_state(old(self)),
    {
        let mut j: usize = 0;
        while j < self.surfaces.len()
            invariant
                j <= self.surfaces@.len(),
                self.surfaces@.len() == old(self).surfaces@.len(),
                forall|k: int|
                    0 <= k < j ==> if old(self).surfaces@[k].toplevel_ptr == tp {
                        is_redamaged(#[trigger] self.surfaces@[k], old(self).surfaces@[k], w, h)
                    } else {
                        self.surfaces@[k] == old(self).surfaces@[k]
                    },
                forall|k: int| j <= k < self.surfaces@.len() ==> #[trigger] self.surfaces@[k] == old(self).surfaces@[k],
                self.toplevels == old(self).toplevels,
                self.next_handle == old(self).next_handle,
                self.same_input_state(old(self)),
            decreases self.surfaces.len() - j,
        {
            if self.surfaces[j].toplevel_ptr == tp {
                self.surfaces[j].buffer_dirty = true;
                self.surfaces[j].damage.push([0, 0, w, h]);
            }
            j += 1;
        }
    }

    /// Whether a toplevel other than `tp` tracks window `hwnd`.
    fn tracked_elsewhere(&self, hwnd: isize, tp: i64) -> (r: bool)
        ensures
            r == exists|i: int|
                0 <= i < self.toplevels@.len() && #[trigger] self.toplevels@[i].hwnd == hwnd
                    && self.toplevels@[i].id != tp,
    {
        let mut i: usize = 0;
        while i < self.toplevels.len()
            invariant
                i <= self.toplevels@.len(),
                forall|j: int|
                    0 <= j < i ==> !(self.toplevels@[j].hwnd == hwnd && self.toplevels@[j].id != tp),
            decreases self.toplevels.len() - i,
        {
            if self.toplevels[i].hwnd == hwnd && self.toplevels[i].id != tp {
                return true;
            }
            i += 1;
        }
        false
    }

    /// Points the existing toplevel `toplevel_ptr` at a new window, so whatever
    /// holds its handle follows the app when it replaces its window.
    ///
    /// `alive`, `client_w`, `client_h` and `title` are what `new_hwnd` reports.
    /// Fails (changing nothing) when the window is dead, tracked by another
    /// toplevel, smaller than 10×10, or when `toplevel_ptr` is not registered.
    pub fn reassign_toplevel_hwnd(
        &mut self,
        toplevel_ptr: i64,
        new_hwnd: isize,
        new_app_id: String,
        alive: bool,
        client_w: i32,
        client_h: i32,
        title: String,
    ) -> (r: bool)
        requires
            old(self).wf(),
            can_reassign(*old(self), toplevel_ptr, new_hwnd, alive, client_w, client_h) ==> buffer_fits(
                max_i32(client_w, 640),
                max_i32(client_h, 480),
            ),
        ensures
            final(self).wf(),
            r == can_reassign(*old(self), toplevel_ptr, new_hwnd, alive, client_w, client_h),
            !r ==> *final(self) == *old(self),
            r ==> toplevel_reassigned(
                *final(self),
                *old(self),
                toplevel_ptr,
                new_hwnd,
                new_app_id,
                title,
                client_w,
                client_h,
            ) && final(self).same_input_state(old(self)),
            old(self).hwnds_distinct() ==> final(self).hwnds_distinct(),
            old(self).surfaces_anchored() ==> final(self).surfaces_anchored(),
    {
        if !alive {
            return false;
        }
        if self.tracked_elsewhere(new_hwnd, toplevel_ptr) {
            return false;
        }
        let k = match self.toplevel_index(toplevel_ptr) {
            Some(k) => k,
            None => return false,
        };
        if client_w < 10 || client_h < 10 {
            return false;
        }
        let ghost before = *self;
        let ww = max_i32_exec(client_w, 640);
        let hh = max_i32_exec(client_h, 480);
        self.toplevels[k].hwnd = new_hwnd;
        self.toplevels[k].app_id = new_app_id;
        self.toplevels[k].title = title;
        self.toplevels[k].mapped = true;
        self.toplevels[k].width = ww;
        self.toplevels[k].height = hh;
        self.toplevels[k].geom_w = ww;
        self.toplevels[k].geom_h = hh;
        self.toplevels[k].last_frame_version = 0;
        proof {
            assert forall|i: int| 0 <= i < before.toplevels@.len() && before.toplevels@[i].id == toplevel_ptr implies i == k by {
                if i != k {
                    if i < k {
                        assert(before.toplevels@[i].id != before.toplevels@[k as int].id);
                    } else {
                        assert(before.toplevels@[k as int].id != before.toplevels@[i].id);
                    }
                }
            }
        }
        self.redamage_surfaces_of(toplevel_ptr, ww, hh);
        proof {
            if before.hwnds_distinct() {
                assert forall|i: int, j: int|
                    0 <= i < j < self.toplevels@.len() implies #[trigger] self.toplevels@[i].hwnd
                    != #[trigger] self.toplevels@[j].hwnd by {
                    if i == k {
                        assert(before.toplevels@[j].id != toplevel_ptr);
                    } else if j == k {
                        assert(before.toplevels@[i].id != toplevel_ptr);
                    }
                }
            }
            if before.surfaces_anchored() {
                assert forall|i: int| 0 <= i < self.surfaces@.len() implies self.has_toplevel(
                    #[trigger] self.surfaces@[i].toplevel_ptr,
                ) by {
                    let m = choose|m: int|
                        0 <= m < before.toplevels@.len() && #[trigger] before.toplevels@[m].id
                            == before.surfaces@[i].toplevel_ptr;
                    assert(self.toplevels@[m].id == self.surfaces@[i].toplevel_ptr);
                }
            }
        }
        true
    }

    /// Starts tracking popup window `hwnd` (a menu, dropdown or flyout) owned
    /// by window `owner_hwnd`: a popup toplevel whose surface is linked under
    /// the owner's root surface `owner_surface_ptr` at offset (`xoff`, `yoff`).
    ///
    /// Nothing is registered when the window is dead, already tracked, or has
    /// an empty client area.
    pub fn register_popup_hwnd(
        &mut self,
        hwnd: isize,
        owner_hwnd: isize,
        owner_surface_ptr: i64,
        alive: bool,
        client_w: i32,
        client_h: i32,
        xoff: i32,
        yoff: i32,
    ) -> (r: Option<i64>)
        requires
            old(self).wf(),
            old(self).next_handle < i64::MAX - 1,
            alive && !old(self).tracks_hwnd(hwnd) && client_w >= 1 && client_h >= 1 ==> buffer_fits(
                client_w,
                client_h,
            ),
        ensures
            final(self).wf(),
            r is Some <==> (alive && !old(self).tracks_hwnd(hwnd) && client_w >= 1 && client_h >= 1),
            r is None ==> *final(self) == *old(self),
            r matches Some(h) ==> popup_registered(
                *final(self),
                *old(self),
                h,
                hwnd,
                owner_hwnd,
                owner_surface_ptr,
                client_w,
                client_h,
                xoff,
                yoff,
            ) && final(self).same_input_state(old(self)),
            old(self).hwnds_distinct() ==> final(self).hwnds_distinct(),
            old(self).surfaces_anchored() ==> final(self).surfaces_anchored(),
    {
        if !alive {
            return None;
        }
        if self.is_tracked(hwnd) {
            return None;
        }
        if client_w < 1 || client_h < 1 {
            return None;
        }
        let size = (client_w * client_h * 4) as usize;
        let toplevel = WinToplevel {
            id: 0,
            hwnd,
            title: String::new(),
            app_id: crate::text::owned("popup"),
            width: client_w,
            height: client_h,
            geom_x: 0,
            geom_y: 0,
            geom_w: client_w,
            geom_h: client_h,
            buffer: zero_buffer(size),
            mapped: true,
            maximize: false,
            fullscreen: false,
            requests: ToplevelRequests::new(),
            zero_capture_count: 0,
            prev_first16: [0u8; 16],
            static_frame_count: 0,
            last_frame_version: 0,
            is_popup: true,
            owner_hwnd,
        };
        let ghost before = *self;
        let toplevel_ptr = self.insert_toplevel(toplevel);
        let mut damage: Vec<[i32; 4]> = Vec::new();
        damage.push([0, 0, client_w, client_h]);
        self.insert_surface(
            WinSurface {
                id: 0,
                toplevel_ptr,
                parent_ptr: owner_surface_ptr,
                xoff,
                yoff,
                damage,
                buffer_dirty: true,
            },
        );
        proof {
            assert(self.toplevels@.drop_last() =~= before.toplevels@);
            assert(self.surfaces@.drop_last() =~= before.surfaces@);
            assert(self.toplevels@.last().prev_first16@ =~= Seq::new(16, |i: int| 0u8));
            assert(self.surfaces@.last().damage@ =~= seq![[0i32, 0i32, client_w, client_h]]);
            if before.hwnds_distinct() {
                assert forall|i: int, j: int|
                    0 <= i < j < self.toplevels@.len() implies #[trigger] self.toplevels@[i].hwnd
                    != #[trigger] self.toplevels@[j].hwnd by {
                    if j == self.toplevels@.len() - 1 {
                        assert(before.toplevels@[i].hwnd == self.toplevels@[i].hwnd);
                    }
                }
            }
            if before.surfaces_anchored() {
                assert forall|i: int| 0 <= i < self.surfaces@.len() implies self.has_toplevel(
                    #[trigger] self.surfaces@[i].toplevel_ptr,
                ) by {
                    if i < before.surfaces@.len() {
                        let k = choose|k: int|
                            0 <= k < before.toplevels@.len() && #[trigger] before.toplevels@[k].id
                                == before.surfaces@[i].toplevel_ptr;
                        assert(self.toplevels@[k].id == self.surfaces@[i].toplevel_ptr);
                    } else {
                        assert(self.toplevels@[self.toplevels@.len() - 1].id == toplevel_ptr);
                    }
                }
            }
        }
        Some(toplevel_ptr)
    }
}


/// Toplevels kept by `retain_toplevels`: mapped, with a live window.
pub open spec fn keeps_toplevel(live: Set<isize>) -> spec_fn(WinToplevel) -> bool {
    |t: WinToplevel| t.mapped && live.contains(t.hwnd)
}

/// Surfaces whose toplevel is among `tls`.
pub open spec fn anchored_in(tls: Seq<WinToplevel>) -> spec_fn(WinSurface) -> bool {
    |s: WinSurface| exists|i: int| 0 <= i < tls.len() && #[trigger] tls[i].id == s.toplevel_ptr
}

fn has_id(tls: &Vec<WinToplevel>, h: i64) -> (r: bool)
    ensures
        r == exists|i: int| 0 <= i < tls@.len() && #[trigger] tls@[i].id == h,
{
    let mut i: usize = 0;
    while i < tls.len()
        invariant
            i <= tls@.len(),
            forall|j: int| 0 <= j < i ==> tls@[j].id != h,
        decreases tls.len() - i,
    {
        if tls[i].id == h {
            return true;
        }
        i += 1;
    }
    false
}

impl WindowMod {
    /// Drops the toplevels that are unmapped or whose window is not in `live`
    /// (the windows that still exist), then every surface left without its
    /// toplevel. Returns how many toplevels and surfaces were dropped.
    pub fn retain_toplevels(&mut self, live: &HashSet<isize>) -> (removed: (usize, usize))
        requires
            old(self).wf(),
        ensures
            final(self).wf(),
            final(self).toplevels@ == old(self).toplevels@.filter(keeps_toplevel(live@)),
            final(self).surfaces@ == old(self).surfaces@.filter(anchored_in(final(self).toplevels@)),
            removed.0 == old(self).toplevels@.len() - final(self).toplevels@.len(),
            removed.1 == old(self).surfaces@.len() - final(self).surfaces@.len(),
            final(self).surfaces_anchored(),
            old(self).hwnds_distinct() ==> final(self).hwnds_distinct(),
            final(self).next_handle == old(self).next_handle,
            final(self).same_input_state(old(self)),
    {
        let ghost before = *self;
        let ghost p = keeps_toplevel(live@);
        let mut old_tl: Vec<WinToplevel> = Vec::new();
        std::mem::swap(&mut old_tl, &mut self.toplevels);
        let mut kept: Vec<WinToplevel> = Vec::new();
        let mut removed_t: usize = 0;
        let n = old_tl.len();
        for t in it: old_tl
            invariant
                it.seq() == before.toplevels@,
                n == before.toplevels@.len(),
                p == keeps_toplevel(live@),
                kept@ == before.toplevels@.take(it.index() as int).filter(p),
                removed_t + kept@.len() == it.index(),
        {
            let ghost k = it.index();
            proof {
                assert(before.toplevels@.take(k + 1) =~= before.toplevels@.take(k as int).push(t));
                before.toplevels@.take(k as int).lemma_filter_push(t, p);
            }
            let keep = t.mapped && live.contains(&t.hwnd);
            if keep {
                kept.push(t);
            } else {
                removed_t += 1;
            }
        }
        proof {
            assert(before.toplevels@.take(n as int) =~= before.toplevels@);
        }
        self.toplevels = kept;
        let ghost q = anchored_in(self.toplevels@);
        let mut old_sf: Vec<WinSurface> = Vec::new();
        std::mem::swap(&mut old_sf, &mut self.surfaces);
        let mut kept_s: Vec<WinSurface> = Vec::new();
        let mut removed_s: usize = 0;
        let m = old_sf.len();
        for s in it: old_sf
            invariant
                it.seq() == before.surfaces@,
                m == before.surfaces@.len(),
                q == anchored_in(self.toplevels@),
                kept_s@ == before.surfaces@.take(it.index() as int).filter(q),
                removed_s + kept_s@.len() == it.index(),
        {
            let ghost k = it.index();
            proof {
                assert(before.surfaces@.take(k + 1) =~= before.surfaces@.take(k as int).push(s));
                before.surfaces@.take(k as int).lemma_filter_push(s, q);
            }
            if has_id(&self.toplevels, s.toplevel_ptr) {
                kept_s.push(s);
            } else {
                removed_s += 1;
            }
        }
        proof {
            assert(before.surfaces@.take(m as int) =~= before.surfaces@);
        }
        self.surfaces = kept_s;
        proof {
            let it_ = crate::seqs::lemma_filter_origin(before.toplevels@, p);
            let is_ = crate::seqs::lemma_filter_origin(before.surfaces@, q);
            assert forall|i: int| 0 <= i < self.toplevels@.len() implies 0 < #[trigger] self.toplevels@[i].id
                < self.next_handle by {
                assert(self.toplevels@[i] == before.toplevels@[it_[i]]);
            }
            assert forall|i: int| 0 <= i < self.surfaces@.len() implies 0 < #[trigger] self.surfaces@[i].id
                < self.next_handle by {
                assert(self.surfaces@[i] == before.surfaces@[is_[i]]);
            }
            assert forall|i: int, j: int| 0 <= i < j < self.toplevels@.len() implies #[trigger] self.toplevels@[i].id
                != #[trigger] self.toplevels@[j].id by {
                assert(it_[i] < it_[j]);
                assert(self.toplevels@[i] == before.toplevels@[it_[i]]);
                assert(self.toplevels@[j] == before.toplevels@[it_[j]]);
            }
            assert forall|i: int, j: int| 0 <= i < j < self.surfaces@.len() implies #[trigger] self.surfaces@[i].id
                != #[trigger] self.surfaces@[j].id by {
                assert(is_[i] < is_[j]);
                assert(self.surfaces@[i] == before.surfaces@[is_[i]]);
                assert(self.surfaces@[j] == before.surfaces@[is_[j]]);
            }
            assert forall|i: int, j: int|
                0 <= i < self.toplevels@.len() && 0 <= j < self.surfaces@.len() implies #[trigger] self.toplevels@[i].id
                != #[trigger] self.surfaces@[j].id by {
                assert(self.toplevels@[i] == before.toplevels@[it_[i]]);
                assert(self.surfaces@[j] == before.surfaces@[is_[j]]);
            }
            assert forall|i: int| 0 <= i < self.toplevels@.len() implies buffer_fits(
                #[trigger] self.toplevels@[i].width,
                self.toplevels@[i].height,
            ) by {
                assert(self.toplevels@[i] == before.toplevels@[it_[i]]);
            }
            assert forall|i: int| 0 <= i < self.surfaces@.len() implies self.has_toplevel(
                #[trigger] self.surfaces@[i].toplevel_ptr,
            ) by {
                assert(q(self.surfaces@[i]));
            }
            if before.hwnds_distinct() {
                assert forall|i: int, j: int| 0 <= i < j < self.toplevels@.len() implies #[trigger] self.toplevels@[i].hwnd
                    != #[trigger] self.toplevels@[j].hwnd by {
                    assert(it_[i] < it_[j]);
                    assert(self.toplevels@[i] == before.toplevels@[it_[i]]);
                    assert(self.toplevels@[j] == before.toplevels@[it_[j]]);
                }
            }
        }
        (removed_t, removed_s)
    }
}


/// Surfaces other than surface `h`.
pub open spec fn surface_not(h: i64) -> spec_fn(WinSurface) -> bool {
    |s: WinSurface| s.id != h
}

/// Surfaces not belonging to toplevel `h`.
pub open spec fn surface_not_of(h: i64) -> spec_fn(WinSurface) -> bool {
    |s: WinSurface| s.toplevel_ptr != h
}

/// Toplevels other than toplevel `h`.
pub open spec fn toplevel_not(h: i64) -> spec_fn(WinToplevel) -> bool {
    |t: WinToplevel| t.id != h
}

impl WindowMod {
    fn filter_surfaces(&mut self, h: i64, by_toplevel: bool)
        requires
            old(self).wf(),
        ensures
            final(self).wf(),
            final(self).surfaces@ == old(self).surfaces@.filter(
                if by_toplevel { surface_not_of(h) } else { surface_not(h) },
            ),
            final(self).toplevels == old(self).toplevels,
            final(self).next_handle == old(self).next_handle,
            final(self).same_input_state(old(self)),
    {
        let ghost before = *self;
        let ghost q = if by_toplevel { surface_not_of(h) } else { surface_not(h) };
        let mut old_sf: Vec<WinSurface> = Vec::new();
        std::mem::swap(&mut old_sf, &mut self.surfaces);
        let mut kept: Vec<WinSurface> = Vec::new();
        for s in it: old_sf
            invariant
                it.seq() == before.surfaces@,
                q == (if by_toplevel { surface_not_of(h) } else { surface_not(h) }),
                kept@ == before.surfaces@.take(it.index() as int).filter(q),
        {
            let ghost k = it.index();
            proof {
                assert(before.surfaces@.take(k + 1) =~= before.surfaces@.take(k as int).push(s));
                before.surfaces@.take(k as int).lemma_filter_push(s, q);
            }
            let keep = if by_toplevel { s.toplevel_ptr != h } else { s.id != h };
            if keep {
                kept.push(s);
            }
        }
        proof {
            assert(before.surfaces@.take(before.surfaces@.len() as int) =~= before.surfaces@);
        }
        self.surfaces = kept;
        proof {
            let is_ = crate::seqs::lemma_filter_origin(before.surfaces@, q);
            assert forall|i: int| 0 <= i < self.surfaces@.len() implies 0 < #[trigger] self.surfaces@[i].id
                < self.next_handle by {
                assert(self.surfaces@[i] == before.surfaces@[is_[i]]);
            }
            assert forall|i: int, j: int| 0 <= i < j < self.surfaces@.len() implies #[trigger] self.surfaces@[i].id
                != #[trigger] self.surfaces@[j].id by {
                assert(is_[i] < is_[j]);
                assert(self.surfaces@[i] == before.surfaces@[is_[i]]);
                assert(self.surfaces@[j] == before.surfaces@[is_[j]]);
            }
            assert forall|i: int, j: int|
                0 <= i < self.toplevels@.len() && 0 <= j < self.surfaces@.len() implies #[trigger] self.toplevels@[i].id
                != #[trigger] self.surfaces@[j].id by {
                assert(self.surfaces@[j] == before.surfaces@[is_[j]]);
            }
        }
    }

    /// Forgets surface `surface_handle` (the Java side released it).
    pub fn free_surface(&mut self, surface_handle: i64)
        requires
            old(self).wf(),
        ensures
            final(self).wf(),
            final(self).surfaces@ == old(self).surfaces@.filter(surface_not(surface_handle)),
            final(self).toplevels == old(self).toplevels,
            final(self).next_handle == old(self).next_handle,
            final(self).same_input_state(old(self)),
            old(self).surfaces_anchored() ==> final(self).surfaces_anchored(),
            old(self).hwnds_distinct() ==> final(self).hwnds_distinct(),
    {
        let ghost before = *self;
        self.filter_surfaces(surface_handle, false);
        proof {
            if before.surfaces_anchored() {
                let is_ = crate::seqs::lemma_filter_origin(before.surfaces@, surface_not(surface_handle));
                assert forall|i: int| 0 <= i < self.surfaces@.len() implies self.has_toplevel(
                    #[trigger] self.surfaces@[i].toplevel_ptr,
                ) by {
                    assert(self.surfaces@[i] == before.surfaces@[is_[i]]);
                    assert(before.has_toplevel(before.surfaces@[is_[i]].toplevel_ptr));
                }
            }
        }
    }

    /// Forgets toplevel `toplevel_handle` and all of its surfaces.
    pub fn free_toplevel(&mut self, toplevel_handle: i64)
        requires
            old(self).wf(),
        ensures
            final(self).wf(),
            final(self).toplevels@ == old(self).toplevels@.filter(toplevel_not(toplevel_handle)),
            final(self).surfaces@ == old(self).surfaces@.filter(surface_not_of(toplevel_handle)),
            final(self).next_handle == old(self).next_handle,
            final(self).same_input_state(old(self)),
            old(self).surfaces_anchored() ==> final(self).surfaces_anchored(),
            old(self).hwnds_distinct() ==> final(self).hwnds_distinct(),
    {
        let ghost before = *self;
        let ghost p = toplevel_not(toplevel_handle);
        let mut old_tl: Vec<WinToplevel> = Vec::new();
        std::mem::swap(&mut old_tl, &mut self.toplevels);
        let mut kept: Vec<WinToplevel> = Vec::new();
        for t in it: old_tl
            invariant
                it.seq() == before.toplevels@,
                p == toplevel_not(toplevel_handle),
                kept@ == before.toplevels@.take(it.index() as int).filter(p),
        {
            let ghost k = it.index();
            proof {
                assert(before.toplevels@.take(k + 1) =~= before.toplevels@.take(k as int).push(t));
                before.toplevels@.take(k as int).lemma_filter_push(t, p);
            }
            if t.id != toplevel_handle {
                kept.push(t);
            }
        }
        proof {
            assert(before.toplevels@.take(before.toplevels@.len() as int) =~= before.toplevels@);
        }
        self.toplevels = kept;
        let ghost mid = *self;
        proof {
            let it_ = crate::seqs::lemma_filter_origin(before.toplevels@, p);
            assert forall|i: int| 0 <= i < self.toplevels@.len() implies 0 < #[trigger] self.toplevels@[i].id
                < self.next_handle by {
                assert(self.toplevels@[i] == before.toplevels@[it_[i]]);
            }
            assert forall|i: int, j: int| 0 <= i < j < self.toplevels@.len() implies #[trigger] self.toplevels@[i].id
                != #[trigger] self.toplevels@[j].id by {
                assert(it_[i] < it_[j]);
                assert(self.toplevels@[i] == before.toplevels@[it_[i]]);
                assert(self.toplevels@[j] == before.toplevels@[it_[j]]);
            }
            assert forall|i: int, j: int|
                0 <= i < self.toplevels@.len() && 0 <= j < self.surfaces@.len() implies #[trigger] self.toplevels@[i].id
                != #[trigger] self.surfaces@[j].id by {
                assert(self.toplevels@[i] == before.toplevels@[it_[i]]);
            }
            assert forall|i: int| 0 <= i < self.toplevels@.len() implies buffer_fits(
                #[trigger] self.toplevels@[i].width,
                self.toplevels@[i].height,
            ) by {
                assert(self.toplevels@[i] == before.toplevels@[it_[i]]);
            }
            if before.hwnds_distinct() {
                assert forall|i: int, j: int| 0 <= i < j < self.toplevels@.len() implies #[trigger] self.toplevels@[i].hwnd
                    != #[trigger] self.toplevels@[j].hwnd by {
                    assert(it_[i] < it_[j]);
                    assert(self.toplevels@[i] == before.toplevels@[it_[i]]);
                    assert(self.toplevels@[j] == before.toplevels@[it_[j]]);
                }
            }
        }
        self.filter_surfaces(toplevel_handle, true);
        proof {
            if before.surfaces_anchored() {
                let is_ = crate::seqs::lemma_filter_origin(before.surfaces@, surface_not_of(toplevel_handle));
                assert forall|i: int| 0 <= i < self.surfaces@.len() implies self.has_toplevel(
                    #[trigger] self.surfaces@[i].toplevel_ptr,
                ) by {
                    let s = before.surfaces@[is_[i]];
                    assert(self.surfaces@[i] == s);
                    assert(before.has_toplevel(s.toplevel_ptr));
                    let m = choose|m: int| 0 <= m < before.toplevels@.len() && #[trigger] before.toplevels@[m].id == s.toplevel_ptr;
                    crate::seqs::lemma_filter_keeps(before.toplevels@, p, m);
                    let m2 = choose|m2: int| 0 <= m2 < self.toplevels@.len() && self.toplevels@[m2] == before.toplevels@[m];
                    assert(self.toplevels@[m2].id == s.toplevel_ptr);
                }
            }
        }
    }
}


/// `t` with its request of `kind` cleared.
pub open spec fn without_request(t: WinToplevel, kind: RequestKind) -> WinToplevel {
    WinToplevel { requests: request_cleared(t.requests, kind), ..t }
}

pub open spec fn has_request(kind: RequestKind) -> spec_fn(WinToplevel) -> bool {
    |t: WinToplevel| request_set(t.requests, kind)
}

pub open spec fn not_popup() -> spec_fn(WinToplevel) -> bool {
    |t: WinToplevel| !t.is_popup
}

pub open spec fn is_fullscreen() -> spec_fn(WinToplevel) -> bool {
    |t: WinToplevel| t.fullscreen
}

pub open spec fn ids_of(tls: Seq<WinToplevel>) -> Seq<i64> {
    tls.map_values(|t: WinToplevel| t.id)
}

pub open spec fn child_of(h: i64) -> spec_fn(WinSurface) -> bool {
    |s: WinSurface| s.parent_ptr == h
}

pub open spec fn child_entries(sf: Seq<WinSurface>) -> Seq<(i64, i32, i32)> {
    sf.map_values(|s: WinSurface| (s.id, s.xoff, s.yoff))
}

/// What the Java side must do to show surface `h`'s latest pixels.
pub enum SurfaceUpdate {
    /// No surface has that handle.
    NoSurface,
    /// Nothing changed since the last update.
    Clean,
    /// The surface's toplevel is gone: detach its buffer.
    NoToplevel,
    /// The toplevel has no pixels: detach its buffer.
    EmptyBuffer,
    /// Attach the buffer of `toplevels[toplevel_index]` and report `damage`.
    Attach { toplevel_index: usize, width: i32, height: i32, stride: i32, damage: Vec<[i32; 4]> },
}

/// The window under the pointer and how to report a button on it.
pub struct ButtonTarget {
    pub top: isize,
    /// The message for this press or release.
    pub msg: u32,
    /// The `MK_*` flag of the button.
    pub mk_flag: u32,
}

/// Button messages for a Linux input button code: left, right, middle.
pub open spec fn button_messages(button: u32) -> Option<(u32, u32, u32)> {
    if button == 0x110 {
        Some((0x0201u32, 0x0202u32, 0x0001u32))
    } else if button == 0x111 {
        Some((0x0204u32, 0x0205u32, 0x0002u32))
    } else if button == 0x112 {
        Some((0x0207u32, 0x0208u32, 0x0010u32))
    } else {
        None
    }
}

impl WindowMod {
    /// The handles of the toplevels with a pending request of `kind`, in
    /// order; those requests are cleared.
    pub fn take_requests(&mut self, kind: RequestKind) -> (r: Vec<i64>)
        requires
            old(self).wf(),
        ensures
            final(self).wf(),
            r@ == ids_of(old(self).toplevels@.filter(has_request(kind))),
            final(self).toplevels@.len() == old(self).toplevels@.len(),
            forall|i: int|
                0 <= i < old(self).toplevels@.len() ==> #[trigger] final(self).toplevels@[i]
                    == without_request(old(self).toplevels@[i], kind),
            final(self).surfaces == old(self).surfaces,
            final(self).next_handle == old(self).next_handle,
            final(self).same_input_state(old(self)),
    {
        let ghost before = *self;
        let ghost p = has_request(kind);
        let mut r: Vec<i64> = Vec::new();
        let mut i: usize = 0;
        while i < self.toplevels.len()
            invariant
                i <= self.toplevels@.len(),
                self.toplevels@.len() == before.toplevels@.len(),
                p == has_request(kind),
                r@ == ids_of(before.toplevels@.take(i as int).filter(p)),
                forall|j: int|
                    0 <= j < i ==> #[trigger] self.toplevels@[j] == without_request(before.toplevels@[j], kind),
                forall|j: int| i <= j < self.toplevels@.len() ==> #[trigger] self.toplevels@[j] == before.toplevels@[j],
                self.surfaces == before.surfaces,
                self.next_handle == before.next_handle,
                self.same_input_state(&before),
            decreases self.toplevels.len() - i,
        {
            let ghost t = before.toplevels@[i as int];
            proof {
                assert(before.toplevels@.take(i + 1) =~= before.toplevels@.take(i as int).push(t));
                before.toplevels@.take(i as int).lemma_filter_push(t, p);
            }
            let set = self.toplevels[i].requests.take(&kind);
            if set {
                r.push(self.toplevels[i].id);
                proof {
                    assert(ids_of(before.toplevels@.take(i as int).filter(p).push(t)) =~= ids_of(
                        before.toplevels@.take(i as int).filter(p),
                    ).push(t.id));
                }
            }
            i += 1;
        }
        proof {
            assert(before.toplevels@.take(before.toplevels@.len() as int) =~= before.toplevels@);
        }
        r
    }

    /// The handles of the toplevels satisfying `fullscreen_only ? fullscreen : !is_popup`.
    fn handles_where(&self, fullscreen_only: bool) -> (r: Vec<i64>)
        ensures
            r@ == ids_of(self.toplevels@.filter(if fullscreen_only { is_fullscreen() } else { not_popup() })),
    {
        let ghost p = if fullscreen_only { is_fullscreen() } else { not_popup() };
        let mut r: Vec<i64> = Vec::new();
        let mut i: usize = 0;
        while i < self.toplevels.len()
            invariant
                i <= self.toplevels@.len(),
                p == (if fullscreen_only { is_fullscreen() } else { not_popup() }),
                r@ == ids_of(self.toplevels@.take(i as int).filter(p)),
            decreases self.toplevels.len() - i,
        {
            let ghost t = self.toplevels@[i as int];
            proof {
                assert(self.toplevels@.take(i + 1) =~= self.toplevels@.take(i as int).push(t));
                self.toplevels@.take(i as int).lemma_filter_push(t, p);
            }
            let keep = if fullscreen_only { self.toplevels[i].fullscreen } else { !self.toplevels[i].is_popup };
            if keep {
                r.push(self.toplevels[i].id);
                proof {
                    assert(ids_of(self.toplevels@.take(i as int).filter(p).push(t)) =~= ids_of(
                        self.toplevels@.take(i as int).filter(p),
                    ).push(t.id));
                }
            }
            i += 1;
        }
        proof {
            assert(self.toplevels@.take(self.toplevels@.len() as int) =~= self.toplevels@);
        }
        r
    }

    /// The handles of the windows listed to the Java side: every toplevel but
    /// the popups, which are drawn inside their owners.
    pub fn toplevel_handles(&self) -> (r: Vec<i64>)
        ensures
            r@ == ids_of(self.toplevels@.filter(not_popup())),
    {
        self.handles_where(false)
    }

    /// The handles of the fullscreen toplevels.
    pub fn fullscreened(&self) -> (r: Vec<i64>)
        ensures
            r@ == ids_of(self.toplevels@.filter(is_fullscreen())),
    {
        self.handles_where(true)
    }

    /// Sets toplevel `h` to a `width`×`height` window, neither maximized nor
    /// fullscreen. Returns its window, to be resized to match, or `None`
    /// when `h` is not a registered toplevel.
    pub fn toplevel_resize(&mut self, h: i64, width: i32, height: i32) -> (r: Option<isize>)
        requires
            old(self).wf(),
        ensures
            final(self).wf(),
            r is None <==> !old(self).has_toplevel(h),
            r is None ==> *final(self) == *old(self),
            r matches Some(w) ==> exists|k: int|
                0 <= k < old(self).toplevels@.len() && old(self).toplevels@[k].id == h
                    && w == old(self).toplevels@[k].hwnd
                    && final(self).toplevels@ == old(self).toplevels@.update(k, WinToplevel {
                        geom_w: width,
                        geom_h: height,
                        maximize: false,
                        fullscreen: false,
                        ..old(self).toplevels@[k]
                    }),
            final(self).surfaces == old(self).surfaces,
            final(self).next_handle == old(self).next_handle,
            final(self).same_input_state(old(self)),
            old(self).hwnds_distinct() ==> final(self).hwnds_distinct(),
            old(self).surfaces_anchored() ==> final(self).surfaces_anchored(),
    {
        let k = match self.toplevel_index(h) {
            Some(k) => k,
            None => return None,
        };
        let ghost before = *self;
        self.toplevels[k].geom_w = width;
        self.toplevels[k].geom_h = height;
        self.toplevels[k].maximize = false;
        self.toplevels[k].fullscreen = false;
        proof {
            assert(self.toplevels@ =~= before.toplevels@.update(k as int, WinToplevel {
                geom_w: width,
                geom_h: height,
                maximize: false,
                fullscreen: false,
                ..before.toplevels@[k as int]
            }));
            if before.surfaces_anchored() {
                assert forall|i: int| 0 <= i < self.surfaces@.len() implies self.has_toplevel(
                    #[trigger] self.surfaces@[i].toplevel_ptr,
                ) by {
                    let m = choose|m: int|
                        0 <= m < before.toplevels@.len() && #[trigger] before.toplevels@[m].id
                            == before.surfaces@[i].toplevel_ptr;
                    assert(self.toplevels@[m].id == self.surfaces@[i].toplevel_ptr);
                }
            }
        }
        Some(self.toplevels[k].hwnd)
    }

    /// Maximizes toplevel `h` to the output bounds (or, with `fullscreen`,
    /// makes it fullscreen at the output size). Returns its window and the new
    /// size, or `None` when `h` is not a registered toplevel.
    pub fn toplevel_fill(&mut self, h: i64, fullscreen: bool) -> (r: Option<(isize, i32, i32)>)
        requires
            old(self).wf(),
        ensures
            final(self).wf(),
            r is None <==> !old(self).has_toplevel(h),
            r is None ==> *final(self) == *old(self),
            r matches Some((w, width, height)) ==> {
                let size = if fullscreen { old(self).output_size } else { old(self).output_bounds };
                &&& width == size.0 && height == size.1
                &&& exists|k: int|
                    0 <= k < old(self).toplevels@.len() && old(self).toplevels@[k].id == h
                        && w == old(self).toplevels@[k].hwnd
                        && final(self).toplevels@ == old(self).toplevels@.update(k,
                            if fullscreen {
                                WinToplevel {
                                    geom_w: size.0,
                                    geom_h: size.1,
                                    fullscreen: true,
                                    ..old(self).toplevels@[k]
                                }
                            } else {
                                WinToplevel {
                                    geom_w: size.0,
                                    geom_h: size.1,
                                    maximize: true,
                                    fullscreen: false,
                                    ..old(self).toplevels@[k]
                                }
                            })
            },
            final(self).surfaces == old(self).surfaces,
            final(self).next_handle == old(self).next_handle,
            final(self).same_input_state(old(self)),
            old(self).hwnds_distinct() ==> final(self).hwnds_distinct(),
            old(self).surfaces_anchored() ==> final(self).surfaces_anchored(),
    {
        let k = match self.toplevel_index(h) {
            Some(k) => k,
            None => return None,
        };
        let ghost before = *self;
        let size = if fullscreen { self.output_size } else { self.output_bounds };
        if fullscreen {
            self.toplevels[k].fullscreen = true;
        } else {
            self.toplevels[k].maximize = true;
            self.toplevels[k].fullscreen = false;
        }
        self.toplevels[k].geom_w = size.0;
        self.toplevels[k].geom_h = size.1;
        proof {
            let t = before.toplevels@[k as int];
            assert(self.toplevels@ =~= before.toplevels@.update(k as int,
                if fullscreen {
                    WinToplevel { geom_w: size.0, geom_h: size.1, fullscreen: true, ..t }
                } else {
                    WinToplevel { geom_w: size.0, geom_h: size.1, maximize: true, fullscreen: false, ..t }
                }));
            if before.surfaces_anchored() {
                assert forall|i: int| 0 <= i < self.surfaces@.len() implies self.has_toplevel(
                    #[trigger] self.surfaces@[i].toplevel_ptr,
                ) by {
                    let m = choose|m: int|
                        0 <= m < before.toplevels@.len() && #[trigger] before.toplevels@[m].id
                            == before.surfaces@[i].toplevel_ptr;
                    assert(self.toplevels@[m].id == self.surfaces@[i].toplevel_ptr);
                }
            }
        }
        Some((self.toplevels[k].hwnd, size.0, size.1))
    }

    /// The popup surfaces drawn inside surface `h`: handle and offset of each,
    /// in registration order.
    pub fn surface_children(&self, h: i64) -> (r: Vec<(i64, i32, i32)>)
        ensures
            r@ == child_entries(self.surfaces@.filter(child_of(h))),
    {
        let ghost p = child_of(h);
        let mut r: Vec<(i64, i32, i32)> = Vec::new();
        let mut i: usize = 0;
        while i < self.surfaces.len()
            invariant
                i <= self.surfaces@.len(),
                p == child_of(h),
                r@ == child_entries(self.surfaces@.take(i as int).filter(p)),
            decreases self.surfaces.len() - i,
        {
            let ghost s = self.surfaces@[i as int];
            proof {
                assert(self.surfaces@.take(i + 1) =~= self.surfaces@.take(i as int).push(s));
                self.surfaces@.take(i as int).lemma_filter_push(s, p);
            }
            if self.surfaces[i].parent_ptr == h {
                r.push((self.surfaces[i].id, self.surfaces[i].xoff, self.surfaces[i].yoff));
                proof {
                    assert(child_entries(self.surfaces@.take(i as int).filter(p).push(s)) =~= child_entries(
                        self.surfaces@.take(i as int).filter(p),
                    ).push((s.id, s.xoff, s.yoff)));
                }
            }
            i += 1;
        }
        proof {
            assert(self.surfaces@.take(self.surfaces@.len() as int) =~= self.surfaces@);
        }
        r
    }

    /// The toplevel behind surface `sh`, as an index.
    pub fn toplevel_of_surface(&self, sh: i64) -> (r: Option<usize>)
        requires
            self.wf(),
        ensures
            match r {
                Some(k) => k < self.toplevels@.len() && exists|j: int|
                    0 <= j < self.surfaces@.len() && self.surfaces@[j].id == sh
                        && self.surfaces@[j].toplevel_ptr == self.toplevels@[k as int].id,
                None => !(exists|j: int, k: int|
                    0 <= j < self.surfaces@.len() && 0 <= k < self.toplevels@.len()
                        && self.surfaces@[j].id == sh && self.surfaces@[j].toplevel_ptr
                        == self.toplevels@[k].id),
            },
    {
        let j = match self.surface_index(sh) {
            Some(j) => j,
            None => return None,
        };
        proof {
            assert forall|j2: int| 0 <= j2 < self.surfaces@.len() && self.surfaces@[j2].id == sh implies j2 == j by {
                if j2 < j {
                    assert(self.surfaces@[j2].id != self.surfaces@[j as int].id);
                } else if j2 > j {
                    assert(self.surfaces@[j as int].id != self.surfaces@[j2].id);
                }
            }
        }
        let r = self.toplevel_index(self.surfaces[j].toplevel_ptr);
        r
    }

    /// The window geometry `[x, y, w, h]` of surface `sh`'s toplevel.
    pub fn surface_xdg_geometry(&self, sh: i64) -> (r: Option<[i32; 4]>)
        requires
            self.wf(),
        ensures
            match r {
                Some(g) => exists|j: int, k: int|
                    0 <= j < self.surfaces@.len() && 0 <= k < self.toplevels@.len()
                        && self.surfaces@[j].id == sh && self.surfaces@[j].toplevel_ptr
                        == self.toplevels@[k].id && g@ == seq![
                        self.toplevels@[k].geom_x,
                        self.toplevels@[k].geom_y,
                        self.toplevels@[k].geom_w,
                        self.toplevels@[k].geom_h,
                    ],
                None => !(exists|j: int, k: int|
                    0 <= j < self.surfaces@.len() && 0 <= k < self.toplevels@.len()
                        && self.surfaces@[j].id == sh && self.surfaces@[j].toplevel_ptr
                        == self.toplevels@[k].id),
            },
    {
        match self.toplevel_of_surface(sh) {
            Some(k) => {
                let t = &self.toplevels[k];
                let g = [t.geom_x, t.geom_y, t.geom_w, t.geom_h];
                assert(g@ =~= seq![t.geom_x, t.geom_y, t.geom_w, t.geom_h]);
                Some(g)
            },
            None => None,
        }
    }

    /// What to hand the Java side for surface `sh`; on `Attach`, the surface's
    /// damage is handed over and it is marked clean.
    pub fn take_surface_update(&mut self, sh: i64) -> (r: SurfaceUpdate)
        requires
            old(self).wf(),
        ensures
            final(self).wf(),
            final(self).toplevels == old(self).toplevels,
            final(self).next_handle == old(self).next_handle,
            final(self).same_input_state(old(self)),
            final(self).surfaces@.len() == old(self).surfaces@.len(),
            match r {
                SurfaceUpdate::NoSurface => !old(self).has_surface(sh) && *final(self) == *old(self),
                SurfaceUpdate::Clean => exists|j: int|
                    0 <= j < old(self).surfaces@.len() && old(self).surfaces@[j].id == sh
                        && !old(self).surfaces@[j].buffer_dirty && *final(self) == *old(self),
                SurfaceUpdate::NoToplevel => exists|j: int|
                    0 <= j < old(self).surfaces@.len() && old(self).surfaces@[j].id == sh
                        && old(self).surfaces@[j].buffer_dirty
                        && !old(self).has_toplevel(old(self).surfaces@[j].toplevel_ptr)
                        && *final(self) == *old(self),
                SurfaceUpdate::EmptyBuffer => exists|j: int, k: int|
                    0 <= j < old(self).surfaces@.len() && 0 <= k < old(self).toplevels@.len()
                        && old(self).surfaces@[j].id == sh && old(self).surfaces@[j].buffer_dirty
                        && old(self).toplevels@[k].id == old(self).surfaces@[j].toplevel_ptr
                        && old(self).toplevels@[k].buffer@.len() == 0 && *final(self) == *old(self),
                SurfaceUpdate::Attach { toplevel_index, width, height, stride, damage } => exists|j: int|
                    0 <= j < old(self).surfaces@.len() && old(self).surfaces@[j].id == sh && {
                        let s = old(self).surfaces@[j];
                        let t = old(self).toplevels@[toplevel_index as int];
                        &&& s.buffer_dirty
                        &&& toplevel_index < old(self).toplevels@.len()
                        &&& t.id == s.toplevel_ptr
                        &&& t.buffer@.len() > 0
                        &&& width == t.width && height == t.height && stride == t.width * 4
                        &&& damage@ == s.damage@
                        &&& final(self).surfaces@ == old(self).surfaces@.update(j, WinSurface {
                            damage: final(self).surfaces@[j].damage,
                            buffer_dirty: false,
                            ..s
                        })
                        &&& final(self).surfaces@[j].damage@.len() == 0
                    },
            },
            old(self).surfaces_anchored() ==> final(self).surfaces_anchored(),
            old(self).hwnds_distinct() ==> final(self).hwnds_distinct(),
    {
        let j = match self.surface_index(sh) {
            Some(j) => j,
            None => return SurfaceUpdate::NoSurface,
        };
        if !self.surfaces[j].buffer_dirty {
            return SurfaceUpdate::Clean;
        }
        let k = match self.toplevel_index(self.surfaces[j].toplevel_ptr) {
            Some(k) => k,
            None => return SurfaceUpdate::NoToplevel,
        };
        if self.toplevels[k].buffer.len() == 0 {
            return SurfaceUpdate::EmptyBuffer;
        }
        let width = self.toplevels[k].width;
        let height = self.toplevels[k].height;
        proof {
            assert(buffer_fits(self.toplevels@[k as int].width, self.toplevels@[k as int].height));
            assert(width * 4 <= width * height * 4) by (nonlinear_arith)
                requires
                    0 < width,
                    0 < height,
            ;
        }
        let stride = width * 4;
        let ghost before = *self;
        let mut damage: Vec<[i32; 4]> = Vec::new();
        std::mem::swap(&mut damage, &mut self.surfaces[j].damage);
        self.surfaces[j].buffer_dirty = false;
        proof {
            assert(self.surfaces@ =~= before.surfaces@.update(j as int, WinSurface {
                damage: self.surfaces@[j as int].damage,
                buffer_dirty: false,
                ..before.surfaces@[j as int]
            }));
            if before.surfaces_anchored() {
                assert forall|i: int| 0 <= i < self.surfaces@.len() implies self.has_toplevel(
                    #[trigger] self.surfaces@[i].toplevel_ptr,
                ) by {
                    assert(before.has_toplevel(before.surfaces@[i].toplevel_ptr));
                    let m = choose|m: int|
                        0 <= m < before.toplevels@.len() && #[trigger] before.toplevels@[m].id
                            == before.surfaces@[i].toplevel_ptr;
                    assert(self.surfaces@[i].toplevel_ptr == before.surfaces@[i].toplevel_ptr);
                    assert(self.toplevels@[m].id == self.surfaces@[i].toplevel_ptr);
                }
            }
        }
        SurfaceUpdate::Attach { toplevel_index: k, width, height, stride, damage }
    }
}


/// Everything but the pointer, keyboard and serial fields is as in `old`.
pub open spec fn same_registry(s: WindowMod, old: WindowMod) -> bool {
    &&& s.toplevels == old.toplevels
    &&& s.surfaces == old.surfaces
    &&& s.next_handle == old.next_handle
    &&& s.pending_launches == old.pending_launches
    &&& s.output_size == old.output_size
    &&& s.output_bounds == old.output_bounds
    &&& s.move_serial == old.move_serial
    &&& s.resize_serial == old.resize_serial
    &&& s.desktop_apps == old.desktop_apps
    &&& s.preferred_terminal == old.preferred_terminal
    &&& s.launched_pids == old.launched_pids
    &&& s.frame_counter == old.frame_counter
}

impl WindowMod {
    /// The window of toplevel `h`, if `h` is registered.
    pub open spec fn hwnd_of(&self, h: i64) -> Option<isize> {
        if self.has_toplevel(h) {
            Some(self.toplevels@[choose|k: int| 0 <= k < self.toplevels@.len() && self.toplevels@[k].id == h].hwnd)
        } else {
            None
        }
    }

    /// The window of the toplevel behind surface `sh`.
    pub open spec fn surface_hwnd(&self, sh: i64) -> Option<isize> {
        if exists|j: int| 0 <= j < self.surfaces@.len() && self.surfaces@[j].id == sh {
            self.hwnd_of(self.surfaces@[choose|j: int| 0 <= j < self.surfaces@.len() && self.surfaces@[j].id == sh].toplevel_ptr)
        } else {
            None
        }
    }

    pub proof fn lemma_hwnd_of(&self, h: i64, k: int)
        requires
            self.wf(),
            0 <= k < self.toplevels@.len(),
            self.toplevels@[k].id == h,
        ensures
            self.hwnd_of(h) == Some(self.toplevels@[k].hwnd),
    {
        let k2 = choose|k2: int| 0 <= k2 < self.toplevels@.len() && self.toplevels@[k2].id == h;
        if k2 != k {
            if k2 < k {
                assert(self.toplevels@[k2].id != self.toplevels@[k].id);
            } else {
                assert(self.toplevels@[k].id != self.toplevels@[k2].id);
            }
        }
    }

    proof fn lemma_surface_unique(&self, sh: i64, j: int)
        requires
            self.wf(),
            0 <= j < self.surfaces@.len(),
            self.surfaces@[j].id == sh,
        ensures
            (choose|j2: int| 0 <= j2 < self.surfaces@.len() && self.surfaces@[j2].id == sh) == j,
    {
        let j2 = choose|j2: int| 0 <= j2 < self.surfaces@.len() && self.surfaces@[j2].id == sh;
        if j2 != j {
            if j2 < j {
                assert(self.surfaces@[j2].id != self.surfaces@[j].id);
            } else {
                assert(self.surfaces@[j].id != self.surfaces@[j2].id);
            }
        }
    }

    /// The window of toplevel `h`.
    pub fn toplevel_hwnd(&self, h: i64) -> (r: Option<isize>)
        requires
            self.wf(),
        ensures
            r == self.hwnd_of(h),
    {
        match self.toplevel_index(h) {
            Some(k) => {
                proof {
                    self.lemma_hwnd_of(h, k as int);
                }
                Some(self.toplevels[k].hwnd)
            },
            None => None,
        }
    }

    /// The window of the toplevel behind surface `sh`.
    pub fn surface_toplevel_hwnd(&self, sh: i64) -> (r: Option<isize>)
        requires
            self.wf(),
        ensures
            r == self.surface_hwnd(sh),
    {
        let j = match self.surface_index(sh) {
            Some(j) => j,
            None => return None,
        };
        proof {
            self.lemma_surface_unique(sh, j as int);
        }
        self.toplevel_hwnd(self.surfaces[j].toplevel_ptr)
    }

    /// Gives keyboard focus to toplevel `toplevel_ptr` (none for `None`) and
    /// points the pointer at its root surface. Returns the window whose capture
    /// should run at full rate (0 when the toplevel is unknown or none).
    pub fn focus_toplevel(&mut self, toplevel_ptr: Option<i64>) -> (focused_hwnd: isize)
        requires
            old(self).wf(),
        ensures
            final(self).wf(),
            ({
                let p = match toplevel_ptr { Some(p) => p, None => 0 };
                &&& focused_hwnd == (if p != 0 && old(self).hwnd_of(p) is Some {
                    old(self).hwnd_of(p)->0
                } else {
                    0
                })
                &&& if p != 0 && p == old(self).focus_toplevel_ptr {
                    *final(self) == *old(self)
                } else {
                    &&& final(self).focus_toplevel_ptr == p
                    &&& final(self).pointer_focus_ptr == (match toplevel_ptr {
                        Some(tp) => match old(self).root_surface(tp) {
                            Some(s) => s,
                            None => old(self).pointer_focus_ptr,
                        },
                        None => old(self).pointer_focus_ptr,
                    })
                    &&& final(self).pointer_locked == old(self).pointer_locked
                    &&& final(self).left_button_down == old(self).left_button_down
                    &&& final(self).keyboard_active == old(self).keyboard_active
                    &&& final(self).serial_counter == old(self).serial_counter
                    &&& same_registry(*final(self), *old(self))
                }
            }),
    {
        let new_ptr = match toplevel_ptr {
            Some(p) => p,
            None => 0,
        };
        let focused_hwnd = if new_ptr == 0 {
            0
        } else {
            match self.toplevel_hwnd(new_ptr) {
                Some(h) => h,
                None => 0,
            }
        };
        if new_ptr != 0 && new_ptr == self.focus_toplevel_ptr {
            return focused_hwnd;
        }
        self.focus_toplevel_ptr = new_ptr;
        if let Some(ptr) = toplevel_ptr {
            if let Some(surface_ptr) = self.surface_for_toplevel(ptr) {
                self.pointer_focus_ptr = surface_ptr;
            }
        }
        focused_hwnd
    }

    /// The pointer entered surface `surface_ptr`.
    pub fn set_pointer_focus(&mut self, surface_ptr: i64)
        ensures
            *final(self) == (WindowMod { pointer_focus_ptr: surface_ptr, ..*old(self) }),
    {
        self.pointer_focus_ptr = surface_ptr;
    }

    /// The pointer left every surface.
    pub fn pointer_leave(&mut self)
        ensures
            *final(self) == (WindowMod { pointer_focus_ptr: 0, ..*old(self) }),
    {
        self.pointer_focus_ptr = 0;
    }

    /// Locks the pointer when it is over `surface_ptr`, unlocks it otherwise;
    /// returns whether it is locked.
    pub fn maybe_pointer_lock(&mut self, surface_ptr: i64) -> (locked: bool)
        ensures
            locked == (old(self).pointer_focus_ptr == surface_ptr),
            *final(self) == (WindowMod { pointer_locked: locked, ..*old(self) }),
    {
        self.pointer_locked = self.pointer_focus_ptr == surface_ptr;
        self.pointer_locked
    }

    pub fn pointer_unlock(&mut self)
        ensures
            *final(self) == (WindowMod { pointer_locked: false, ..*old(self) }),
    {
        self.pointer_locked = false;
    }

    pub fn activate_keyboard(&mut self)
        ensures
            *final(self) == (WindowMod { keyboard_active: true, ..*old(self) }),
    {
        self.keyboard_active = true;
    }

    /// Releases the keyboard, and with it the pointer lock.
    pub fn deactivate_keyboard(&mut self)
        ensures
            *final(self) == (WindowMod { keyboard_active: false, pointer_locked: false, ..*old(self) }),
    {
        self.keyboard_active = false;
        self.pointer_locked = false;
    }

    /// The window that keyboard input goes to: the focused toplevel's, when
    /// the keyboard is captured.
    pub fn keyboard_target(&self) -> (r: Option<isize>)
        requires
            self.wf(),
        ensures
            r == (if self.focus_toplevel_ptr == 0 || !self.keyboard_active {
                None
            } else {
                self.hwnd_of(self.focus_toplevel_ptr)
            }),
    {
        if self.focus_toplevel_ptr == 0 || !self.keyboard_active {
            return None;
        }
        self.toplevel_hwnd(self.focus_toplevel_ptr)
    }

    /// The window under the pointer: the toplevel behind the hovered surface.
    pub fn pointer_target(&self) -> (r: Option<isize>)
        requires
            self.wf(),
        ensures
            r == (if self.pointer_focus_ptr == 0 { None } else { self.surface_hwnd(self.pointer_focus_ptr) }),
    {
        if self.pointer_focus_ptr == 0 {
            return None;
        }
        self.surface_toplevel_hwnd(self.pointer_focus_ptr)
    }

    /// A button press or release: takes a serial, tracks the left button, and
    /// returns the window under the pointer with the button's messages.
    /// Unknown buttons, or no window under the pointer, give no target.
    pub fn pointer_button(&mut self, button: u32, pressed: bool) -> (r: (u32, Option<ButtonTarget>))
        requires
            old(self).wf(),
        ensures
            final(self).wf(),
            r.0 == old(self).serial_counter,
            final(self).serial_counter == (if old(self).serial_counter == u32::MAX {
                0
            } else {
                (old(self).serial_counter + 1) as u32
            }),
            same_registry(*final(self), *old(self)),
            final(self).focus_toplevel_ptr == old(self).focus_toplevel_ptr,
            final(self).pointer_focus_ptr == old(self).pointer_focus_ptr,
            final(self).pointer_locked == old(self).pointer_locked,
            final(self).keyboard_active == old(self).keyboard_active,
            ({
                let top = if old(self).pointer_focus_ptr == 0 {
                    None
                } else {
                    old(self).surface_hwnd(old(self).pointer_focus_ptr)
                };
                match r.1 {
                    None => (top is None || button_messages(button) is None)
                        && final(self).left_button_down == old(self).left_button_down,
                    Some(t) => {
                        &&& top == Some(t.top)
                        &&& button_messages(button) matches Some((down, up, mk))
                        &&& t.msg == (if pressed { down } else { up })
                        &&& t.mk_flag == mk
                        &&& final(self).left_button_down == (if button == 0x110 {
                            pressed
                        } else {
                            old(self).left_button_down
                        })
                    },
                }
            }),
    {
        let serial = self.next_serial();
        let top = match self.pointer_target() {
            Some(h) => h,
            None => return (serial, None),
        };
        let (msg_down, msg_up, mk_flag) = if button == 0x110 {
            (0x0201u32, 0x0202u32, 0x0001u32)
        } else if button == 0x111 {
            (0x0204u32, 0x0205u32, 0x0002u32)
        } else if button == 0x112 {
            (0x0207u32, 0x0208u32, 0x0010u32)
        } else {
            return (serial, None);
        };
        if button == 0x110 {
            self.left_button_down = pressed;
        }
        let msg = if pressed { msg_down } else { msg_up };
        (serial, Some(ButtonTarget { top, msg, mk_flag }))
    }
}

/// Something the Java side holds by a handle: a toplevel or a surface.
pub trait Handled {
    spec fn handle_spec(&self) -> i64;

    fn handle(&self) -> (h: i64)
        ensures
            h == self.handle_spec(),
    ;
}

impl Handled for WinToplevel {
    open spec fn handle_spec(&self) -> i64 {
        self.id
    }

    fn handle(&self) -> (h: i64) {
        self.id
    }
}

impl Handled for WinSurface {
    open spec fn handle_spec(&self) -> i64 {
        self.id
    }

    fn handle(&self) -> (h: i64) {
        self.id
    }
}

/// The handle of `value`.
pub fn ptr_of_ref<T: Handled>(value: &T) -> (r: i64)
    ensures
        r == value.handle_spec(),
{
    value.handle()
}

/// The handle of `value`, which is left as it is.
pub fn ptr_of<T: Handled>(value: &mut T) -> (r: i64)
    ensures
        r == old(value).handle_spec(),
        *final(value) == *old(value),
{
    value.handle()
}

impl WindowMod {
    /// Records the game window's size.
    pub fn output_resize(&mut self, width: i32, height: i32)
        ensures
            *final(self) == (WindowMod { output_size: (width, height), ..*old(self) }),
    {
        self.output_size = (width, height);
    }

    /// Records the area a maximized window gets.
    pub fn output_set_bounds(&mut self, width: i32, height: i32)
        ensures
            *final(self) == (WindowMod { output_bounds: (width, height), ..*old(self) }),
    {
        self.output_bounds = (width, height);
    }

    /// Records the program that runs terminal apps.
    pub fn set_preferred_terminal(&mut self, cmd: String)
        ensures
            *final(self) == (WindowMod { preferred_terminal: cmd, ..*old(self) }),
    {
        self.preferred_terminal = cmd;
    }
}

} // verus!
