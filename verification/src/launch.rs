use std::collections::HashSet;
use vstd::prelude::*;

use crate::apps::{find_app, first_app_with_id, opt_view, strings_view, DesktopApp};
use crate::cmdline::{
    add_chromium_flags, hint_from_path, is_chromium_executable, is_chromium_name, path_hint,
    split_args, split_args_spec, with_chromium_flags,
};
use crate::desktop::{first_match, first_window, Query, WinInfo, WindowQuery};
use crate::state::{
    buffer_fits, can_reassign, can_register_external, external_registered, max_i32,
    toplevel_reassigned, PendingLaunch, WinToplevel, WindowMod,
};
use crate::text::{all_ws, is_blank, owned, spec_lowercase, str_eq, to_lowercase};

verus! {

broadcast use vstd::std_specs::hash::group_hash_axioms;

/// Polls after which a launch still looking for its window is dropped.
pub const LAUNCH_TIMEOUT_ATTEMPTS: u32 = 200;

/// Polls a launch stays after its window was found and registered, to catch
/// further windows of the same launch; then it is removed.
pub const FOUND_LINGER_POLLS: u32 = 30;

/// How to start a program: what `CreateProcessW` is given.
pub struct SpawnPlan {
    pub program: String,
    pub args: Vec<String>,
    /// The directory to start in; `None` inherits ours.
    pub work_dir: Option<String>,
}

/// The arguments an app is started with: its shortcut's arguments split up
/// (none when blank), plus the Chromium anti-freeze flags for Chromium programs.
pub open spec fn planned_args(app: DesktopApp, exec: Seq<char>) -> Seq<Seq<char>> {
    let base = match app.exec_args {
        Some(a) => if all_ws(a@) {
            Seq::empty()
        } else {
            split_args_spec(a@)
        },
        None => Seq::empty(),
    };
    if is_chromium_name(path_hint(exec)) {
        with_chromium_flags(base)
    } else {
        base
    }
}

/// The working directory an app is started in: its shortcut's, unless empty.
pub open spec fn planned_work_dir(app: DesktopApp) -> Option<Seq<char>> {
    match app.working_dir {
        Some(d) => if d@.len() > 0 {
            Some(d@)
        } else {
            None
        },
        None => None,
    }
}

/// Whether `app` can be started: it has an executable, and a terminal
/// program is configured when it needs one.
pub open spec fn can_plan(app: DesktopApp, terminal: Seq<char>) -> bool {
    app.exec_path is Some && (app.exec_terminal ==> terminal.len() > 0)
}

/// `p` starts `app`: a terminal app through `terminal /c start "" exec`,
/// any other directly.
pub open spec fn is_plan_for(p: SpawnPlan, app: DesktopApp, terminal: Seq<char>) -> bool {
    match app.exec_path {
        None => false,
        Some(exec) => if app.exec_terminal {
            &&& p.program@ == terminal
            &&& strings_view(p.args@) == seq!["/c"@, "start"@, ""@, exec@]
            &&& p.work_dir is None
        } else {
            &&& p.program@ == exec@
            &&& strings_view(p.args@) == planned_args(app, exec@)
            &&& opt_view(p.work_dir) == planned_work_dir(app)
        },
    }
}

/// How to start `app`, with `preferred_terminal` the program that runs
/// terminal apps.
pub fn plan_desktop_app(app: &DesktopApp, preferred_terminal: &str) -> (r: Option<SpawnPlan>)
    ensures
        r is Some <==> can_plan(*app, preferred_terminal@),
        r matches Some(p) ==> is_plan_for(p, *app, preferred_terminal@),
{
    let exec = match &app.exec_path {
        Some(e) => e,
        None => return None,
    };
    if app.exec_terminal {
        if preferred_terminal.is_empty() {
            return None;
        }
        let mut args: Vec<String> = Vec::new();
        args.push(owned("/c"));
        args.push(owned("start"));
        args.push(owned(""));
        args.push(exec.clone());
        assert(strings_view(args@) =~= seq!["/c"@, "start"@, ""@, exec@]);
        return Some(SpawnPlan { program: owned(preferred_terminal), args, work_dir: None });
    }
    let mut args: Vec<String> = match &app.exec_args {
        Some(a) => {
            if is_blank(a.as_str()) {
                Vec::new()
            } else {
                split_args(a.as_str())
            }
        },
        None => Vec::new(),
    };
    assert(strings_view(Seq::<String>::empty()) =~= Seq::<Seq<char>>::empty());
    if is_chromium_executable(exec.as_str()) {
        add_chromium_flags(&mut args);
    }
    let work_dir = match &app.working_dir {
        Some(d) => {
            if d.as_str().is_empty() {
                None
            } else {
                Some(d.clone())
            }
        },
        None => None,
    };
    Some(SpawnPlan { program: exec.clone(), args, work_dir })
}

/// The title hint of a launch: the app's name, lowercased.
pub open spec fn launch_hint(name: Option<String>) -> Seq<char> {
    spec_lowercase(
        match name {
            Some(n) => n@,
            None => ""@,
        },
    )
}

/// The second title hint: the program's file stem, when it differs from the
/// first and is not empty.
pub open spec fn launch_alt_hint(hint: Seq<char>, program: Seq<char>) -> Option<Seq<char>> {
    let p = path_hint(program);
    if hint != p && p.len() > 0 {
        Some(p)
    } else {
        None
    }
}

/// `l` is the pending launch recorded when `pid` was started for `app` from
/// `program`, with `snapshot` the windows present before.
pub open spec fn is_new_launch(
    l: PendingLaunch,
    pid: u32,
    app: DesktopApp,
    program: Seq<char>,
    snapshot: Set<isize>,
) -> bool {
    &&& l.pid == pid && l.root_pid == pid
    &&& l.app_id == app.app_id
    &&& l.attempts == 0
    &&& l.hint@ == launch_hint(app.name)
    &&& opt_view(l.alt_hint) == launch_alt_hint(launch_hint(app.name), program)
    &&& l.snapshot@ == snapshot
    &&& !l.relaunched
    &&& l.hwnd_found is None && l.hwnd_found_attempt == 0
    &&& l.rejected_hwnds@ == Set::<isize>::empty()
    &&& l.toplevel_ptr is None
}

/// Everything but the registry (toplevels, surfaces, handle counter), the
/// pending launches and the launched processes is as in `old`.
pub open spec fn same_settings(s: WindowMod, old: WindowMod) -> bool {
    &&& s.output_size == old.output_size
    &&& s.output_bounds == old.output_bounds
    &&& s.focus_toplevel_ptr == old.focus_toplevel_ptr
    &&& s.pointer_focus_ptr == old.pointer_focus_ptr
    &&& s.pointer_locked == old.pointer_locked
    &&& s.left_button_down == old.left_button_down
    &&& s.keyboard_active == old.keyboard_active
    &&& s.move_serial == old.move_serial
    &&& s.resize_serial == old.resize_serial
    &&& s.serial_counter == old.serial_counter
    &&& s.desktop_apps == old.desktop_apps
    &&& s.preferred_terminal == old.preferred_terminal
    &&& s.frame_counter == old.frame_counter
}

/// The toplevels, surfaces and handle counter are as in `old`.
pub open spec fn same_registry_as(s: WindowMod, old: WindowMod) -> bool {
    &&& s.toplevels == old.toplevels
    &&& s.surfaces == old.surfaces
    &&& s.next_handle == old.next_handle
}

/// Every pending launch but the one at `i` is as in `old`.
pub open spec fn others_unchanged(s: Seq<PendingLaunch>, old: Seq<PendingLaunch>, i: int) -> bool {
    &&& s.len() == old.len()
    &&& forall|j: int| 0 <= j < s.len() && j != i ==> #[trigger] s[j] == old[j]
}

/// `old` without its entry `i`, the last entry moved into its place.
pub open spec fn swap_removed(old: Seq<PendingLaunch>, i: int) -> Seq<PendingLaunch> {
    old.update(i, old.last()).drop_last()
}

/// Whether `visible_probe` holds: the costly visible-desktop search runs on
/// the first polls of a launch and then on every twentieth.
pub open spec fn visible_probe(attempts: u32) -> bool {
    attempts <= 30 || attempts % 20 == 0
}

/// What the first half of a poll of a pending launch decided.
pub enum LaunchStep {
    /// The launch timed out and was removed.
    Dropped,
    /// The launch's window was found `FOUND_LINGER_POLLS` polls ago: the
    /// launch is done and was removed.
    Settled,
    /// The window found for it is still alive: nothing to search; the poll
    /// is counted.
    Waiting,
    /// Search for the launch's window; `visible_probe` allows the search on
    /// the visible desktop.
    Search { visible_probe: bool },
}

/// What the second half of a poll of a pending launch did with the window
/// the search found.
pub enum LaunchOutcome {
    /// The window was rejected earlier: nothing changed, the poll is not
    /// counted.
    Rejected,
    /// The window already belongs to toplevel `toplevel` (a single-instance
    /// app handed over to its running copy): the launch was removed.
    Adopted { toplevel: i64 },
    /// The window now shows as toplevel `handle`; `park` says it lives on the
    /// visible desktop and must be moved off-screen.
    Registered { handle: i64, park: bool },
    /// Registration refused the window, which is rejected from now on.
    Refused,
    /// Nothing was registered (no window found, or the launch has one).
    Counted,
}

/// The first non-popup toplevel showing `hwnd`.
pub open spec fn first_toplevel_of(tls: Seq<WinToplevel>, hwnd: isize) -> Option<i64>
    decreases tls.len(),
{
    if tls.len() == 0 {
        None
    } else if tls[0].hwnd == hwnd && !tls[0].is_popup {
        Some(tls[0].id)
    } else {
        first_toplevel_of(tls.drop_first(), hwnd)
    }
}

/// `l` with one more poll counted.
pub open spec fn counted(l: PendingLaunch) -> PendingLaunch {
    PendingLaunch { attempts: (l.attempts + 1) as u32, ..l }
}

/// Whether a window of `w`×`h` fits the frame buffers the mod allocates for
/// it (at least 640×480).
pub open spec fn window_size_fits(w: i32, h: i32) -> bool {
    w >= 10 && h >= 10 ==> buffer_fits(max_i32(w, 640), max_i32(h, 480))
}

/// What the first half of a poll does with the launch `l` (see
/// `launch_begin`); `found_alive` tells whether its found window lives.
pub open spec fn begin_result(l: PendingLaunch, found_alive: bool) -> LaunchStep {
    if l.attempts >= LAUNCH_TIMEOUT_ATTEMPTS {
        LaunchStep::Dropped
    } else if l.hwnd_found is Some && l.attempts - l.hwnd_found_attempt >= FOUND_LINGER_POLLS {
        LaunchStep::Settled
    } else if l.hwnd_found is Some && found_alive {
        LaunchStep::Waiting
    } else {
        LaunchStep::Search { visible_probe: visible_probe(l.attempts) }
    }
}

/// `l` after `n` more counted polls.
pub open spec fn recounted(l: PendingLaunch, n: nat) -> PendingLaunch {
    PendingLaunch { attempts: (l.attempts + n) as u32, ..l }
}

/// A launch stays `FOUND_LINGER_POLLS` polls after its window was registered
/// and is then removed: from the poll that registers the window (`found_as`),
/// while the window lives, each of the next polls waits (counting itself),
/// and the last of them removes the launch, as settled, or earlier as timed
/// out. A launch never lingers longer.
pub proof fn law_found_launch_lingers_then_leaves(l0: PendingLaunch, hwnd: isize, handle: i64)
    requires
        l0.attempts + FOUND_LINGER_POLLS <= u32::MAX,
    ensures
        ({
            let l = found_as(l0, hwnd, handle);
            &&& forall|j: nat| j + 1 < FOUND_LINGER_POLLS ==> {
                let lj = #[trigger] recounted(l, j);
                &&& (begin_result(lj, true) == LaunchStep::Waiting || begin_result(lj, true) == LaunchStep::Dropped)
                &&& (begin_result(lj, true) == LaunchStep::Waiting ==> counted(lj) == recounted(l, j + 1))
            }
            &&& begin_result(recounted(l, (FOUND_LINGER_POLLS - 1) as nat), true) == LaunchStep::Settled
                || begin_result(recounted(l, (FOUND_LINGER_POLLS - 1) as nat), true) == LaunchStep::Dropped
        }),
{
}

/// `l` with window `hwnd` found and shown as toplevel `handle`, the poll counted.
pub open spec fn found_as(l: PendingLaunch, hwnd: isize, handle: i64) -> PendingLaunch {
    PendingLaunch {
        hwnd_found: Some(hwnd),
        hwnd_found_attempt: l.attempts,
        toplevel_ptr: Some(handle),
        attempts: (l.attempts + 1) as u32,
        ..l
    }
}

impl WindowMod {
    /// How to start the first listed app whose id is `app_id`.
    pub fn plan_app_launch(&self, app_id: &str) -> (r: Option<SpawnPlan>)
        ensures
            match first_app_with_id(self.desktop_apps@, app_id@) {
                None => r is None,
                Some(i) => (r is Some <==> can_plan(self.desktop_apps@[i], self.preferred_terminal@)) && (
                r matches Some(p) ==> is_plan_for(p, self.desktop_apps@[i], self.preferred_terminal@)),
            },
    {
        let apps = self.desktop_apps.as_slice();
        match find_app(apps, app_id) {
            None => {
                proof {
                    assert(!(exists|i: int|
                        0 <= i < self.desktop_apps@.len() && self.desktop_apps@[i].app_id@ == app_id@));
                }
                None
            },
            Some(app) => {
                proof {
                    let i = choose|i: int|
                        0 <= i < apps@.len() && apps@[i] == *app && app.app_id@ == app_id@ && forall|j: int|
                            0 <= j < i ==> apps@[j].app_id@ != app_id@;
                    assert(self.desktop_apps@[i].app_id@ == app_id@);
                    let k = choose|k: int|
                        0 <= k < self.desktop_apps@.len() && self.desktop_apps@[k].app_id@ == app_id@
                            && forall|j: int| 0 <= j < k ==> self.desktop_apps@[j].app_id@ != app_id@;
                    assert(k == i) by {
                        if k < i {
                            assert(apps@[k].app_id@ != app_id@);
                        }
                        if i < k {
                            assert(self.desktop_apps@[i].app_id@ != app_id@);
                        }
                    }
                }
                plan_desktop_app(app, self.preferred_terminal.as_str())
            },
        }
    }

    /// Records that `pid` was started for `app` from `program` (`pid` 0 when
    /// the shell started it and no process id is known), `snapshot` holding
    /// the windows present before: a pending launch is added, and a known
    /// process is remembered for termination at shutdown.
    pub fn record_launch(&mut self, pid: u32, app: &DesktopApp, program: &str, snapshot: HashSet<isize>)
        ensures
            final(self).launched_pids@ == (if pid != 0 {
                old(self).launched_pids@.push(pid)
            } else {
                old(self).launched_pids@
            }),
            final(self).pending_launches@.len() == old(self).pending_launches@.len() + 1,
            final(self).pending_launches@.drop_last() == old(self).pending_launches@,
            is_new_launch(final(self).pending_launches@.last(), pid, *app, program@, snapshot@),
            same_settings(*final(self), *old(self)),
            same_registry_as(*final(self), *old(self)),
    {
        let hint = match &app.name {
            Some(n) => to_lowercase(n.as_str()),
            None => to_lowercase(""),
        };
        let path = hint_from_path(program);
        let alt_hint = if !str_eq(hint.as_str(), path.as_str()) && !path.as_str().is_empty() {
            Some(path)
        } else {
            None
        };
        if pid != 0 {
            self.launched_pids.push(pid);
        }
        let launch = PendingLaunch {
            pid,
            app_id: app.app_id.clone(),
            attempts: 0,
            hint,
            alt_hint,
            snapshot,
            relaunched: false,
            hwnd_found: None,
            hwnd_found_attempt: 0,
            rejected_hwnds: HashSet::new(),
            toplevel_ptr: None,
            root_pid: pid,
        };
        self.pending_launches.push(launch);
    }

    /// Records that pending launch `i` was started again as process `pid`
    /// on the visible desktop, `snapshot` holding the windows present before.
    pub fn mark_relaunched(&mut self, i: usize, pid: u32, snapshot: HashSet<isize>)
        requires
            i < old(self).pending_launches@.len(),
        ensures
            others_unchanged(final(self).pending_launches@, old(self).pending_launches@, i as int),
            final(self).pending_launches@[i as int] == (PendingLaunch {
                pid,
                attempts: 0,
                snapshot,
                relaunched: true,
                ..old(self).pending_launches@[i as int]
            }),
            same_settings(*final(self), *old(self)),
            same_registry_as(*final(self), *old(self)),
            final(self).launched_pids == old(self).launched_pids,
    {
        self.pending_launches[i].pid = pid;
        self.pending_launches[i].attempts = 0;
        self.pending_launches[i].snapshot = snapshot;
        self.pending_launches[i].relaunched = true;
    }

    /// The first half of a poll of pending launch `i`. A launch polled
    /// `LAUNCH_TIMEOUT_ATTEMPTS` times is removed, and so is one whose window
    /// was found `FOUND_LINGER_POLLS` polls ago. One whose window was found
    /// and is still alive (`found_alive`) waits, the poll counted. Otherwise
    /// its window is to be searched for; a launch whose found window died
    /// starts counting again.
    pub fn launch_begin(&mut self, i: usize, found_alive: bool) -> (r: LaunchStep)
        requires
            i < old(self).pending_launches@.len(),
        ensures
            r == begin_result(old(self).pending_launches@[i as int], found_alive),
            ({
                let l = old(self).pending_launches@[i as int];
                if l.attempts >= LAUNCH_TIMEOUT_ATTEMPTS {
                    &&& r == LaunchStep::Dropped
                    &&& final(self).pending_launches@ == swap_removed(old(self).pending_launches@, i as int)
                } else if l.hwnd_found is Some && l.attempts - l.hwnd_found_attempt >= FOUND_LINGER_POLLS {
                    &&& r == LaunchStep::Settled
                    &&& final(self).pending_launches@ == swap_removed(old(self).pending_launches@, i as int)
                } else if l.hwnd_found is Some && found_alive {
                    &&& r == LaunchStep::Waiting
                    &&& others_unchanged(final(self).pending_launches@, old(self).pending_launches@, i as int)
                    &&& final(self).pending_launches@[i as int] == counted(l)
                } else {
                    &&& r == (LaunchStep::Search { visible_probe: visible_probe(l.attempts) })
                    &&& others_unchanged(final(self).pending_launches@, old(self).pending_launches@, i as int)
                    &&& final(self).pending_launches@[i as int] == (if l.hwnd_found is Some {
                        PendingLaunch { hwnd_found: None, hwnd_found_attempt: 0, attempts: 0, ..l }
                    } else {
                        l
                    })
                }
            }),
            same_settings(*final(self), *old(self)),
            same_registry_as(*final(self), *old(self)),
            final(self).launched_pids == old(self).launched_pids,
    {
        let attempts = self.pending_launches[i].attempts;
        if attempts >= LAUNCH_TIMEOUT_ATTEMPTS {
            self.pending_launches.swap_remove(i);
            return LaunchStep::Dropped;
        }
        if self.pending_launches[i].hwnd_found.is_some() {
            let found_at = self.pending_launches[i].hwnd_found_attempt;
            if attempts >= found_at && attempts - found_at >= FOUND_LINGER_POLLS {
                self.pending_launches.swap_remove(i);
                return LaunchStep::Settled;
            }
            if found_alive {
                self.pending_launches[i].attempts = attempts + 1;
                return LaunchStep::Waiting;
            }
            self.pending_launches[i].hwnd_found = None;
            self.pending_launches[i].hwnd_found_attempt = 0;
            self.pending_launches[i].attempts = 0;
        }
        LaunchStep::Search { visible_probe: attempts <= 30 || attempts % 20 == 0 }
    }

    /// The handle of the first non-popup toplevel showing `hwnd`.
    pub fn toplevel_showing(&self, hwnd: isize) -> (r: Option<i64>)
        ensures
            r == first_toplevel_of(self.toplevels@, hwnd),
    {
        let mut i: usize = 0;
        assert(self.toplevels@.skip(0) =~= self.toplevels@);
        while i < self.toplevels.len()
            invariant
                i <= self.toplevels@.len(),
                first_toplevel_of(self.toplevels@.skip(i as int), hwnd) == first_toplevel_of(
                    self.toplevels@,
                    hwnd,
                ),
            decreases self.toplevels.len() - i,
        {
            let ghost rest = self.toplevels@.skip(i as int);
            assert(rest[0] == self.toplevels@[i as int]);
            if self.toplevels[i].hwnd == hwnd && !self.toplevels[i].is_popup {
                return Some(self.toplevels[i].id);
            }
            assert(rest.drop_first() =~= self.toplevels@.skip(i + 1));
            i += 1;
        }
        assert(self.toplevels@.skip(i as int).len() == 0);
        None
    }

    /// The second half of a poll of pending launch `i`, given the window the
    /// search found (`None` when none; its flag says it lives on the visible
    /// desktop) and what that window reports: `alive`, its client size and
    /// its title. A window too large for a frame buffer (see
    /// `window_size_fits`) counts as not found.
    #[verifier::rlimit(40)]
    pub fn launch_finish(
        &mut self,
        i: usize,
        found: Option<(isize, bool)>,
        alive: bool,
        client_w: i32,
        client_h: i32,
        title: String,
    ) -> (r: LaunchOutcome)
        requires
            old(self).wf(),
            i < old(self).pending_launches@.len(),
            old(self).pending_launches@[i as int].attempts < u32::MAX,
            old(self).next_handle < i64::MAX - 1,
        ensures
            final(self).wf(),
            same_settings(*final(self), *old(self)),
            final(self).launched_pids == old(self).launched_pids,
            r matches LaunchOutcome::Registered { handle, .. } ==> found is Some && exists|k: int|
                0 <= k < final(self).toplevels@.len() && #[trigger] final(self).toplevels@[k].id == handle
                    && final(self).toplevels@[k].hwnd == (found->0).0,
            ({
                let l = old(self).pending_launches@[i as int];
                let ps = final(self).pending_launches@;
                let ops = old(self).pending_launches@;
                match (if window_size_fits(client_w, client_h) { found } else { None }) {
                    None => {
                        &&& r == LaunchOutcome::Counted
                        &&& others_unchanged(ps, ops, i as int) && ps[i as int] == counted(l)
                        &&& same_registry_as(*final(self), *old(self))
                    },
                    Some((hwnd, on_visible)) => if l.rejected_hwnds@.contains(hwnd) {
                        &&& r == LaunchOutcome::Rejected
                        &&& *final(self) == *old(self)
                    } else if first_toplevel_of(old(self).toplevels@, hwnd) is Some {
                        &&& r == (LaunchOutcome::Adopted {
                            toplevel: first_toplevel_of(old(self).toplevels@, hwnd)->0,
                        })
                        &&& ps == swap_removed(ops, i as int)
                        &&& same_registry_as(*final(self), *old(self))
                    } else if l.hwnd_found is Some {
                        &&& r == LaunchOutcome::Counted
                        &&& others_unchanged(ps, ops, i as int) && ps[i as int] == counted(l)
                        &&& same_registry_as(*final(self), *old(self))
                    } else if l.toplevel_ptr is Some && can_reassign(
                        *old(self),
                        l.toplevel_ptr->0,
                        hwnd,
                        alive,
                        client_w,
                        client_h,
                    ) {
                        &&& r == (LaunchOutcome::Registered { handle: l.toplevel_ptr->0, park: on_visible })
                        &&& toplevel_reassigned(
                            *final(self),
                            *old(self),
                            l.toplevel_ptr->0,
                            hwnd,
                            l.app_id,
                            title,
                            client_w,
                            client_h,
                        )
                        &&& others_unchanged(ps, ops, i as int)
                        &&& ps[i as int] == found_as(l, hwnd, l.toplevel_ptr->0)
                    } else if can_register_external(*old(self), hwnd, alive, client_w, client_h) {
                        &&& r == (LaunchOutcome::Registered { handle: old(self).next_handle, park: on_visible })
                        &&& external_registered(
                            *final(self),
                            *old(self),
                            old(self).next_handle,
                            hwnd,
                            title@,
                            l.app_id@,
                            client_w,
                            client_h,
                        )
                        &&& others_unchanged(ps, ops, i as int)
                        &&& ps[i as int] == found_as(l, hwnd, old(self).next_handle)
                    } else {
                        &&& r == LaunchOutcome::Refused
                        &&& same_registry_as(*final(self), *old(self))
                        &&& others_unchanged(ps, ops, i as int)
                        &&& ps[i as int].rejected_hwnds@ == l.rejected_hwnds@.insert(hwnd)
                        &&& ps[i as int] == (PendingLaunch {
                            rejected_hwnds: ps[i as int].rejected_hwnds,
                            ..counted(l)
                        })
                    },
                }
            }),
    {
        let found = if self.window_fits(client_w, client_h) {
            found
        } else {
            None
        };
        let (hwnd, on_visible) = match found {
            None => {
                let a = self.pending_launches[i].attempts;
                self.pending_launches[i].attempts = a + 1;
                return LaunchOutcome::Counted;
            },
            Some(f) => f,
        };
        if self.pending_launches[i].rejected_hwnds.contains(&hwnd) {
            return LaunchOutcome::Rejected;
        }
        if let Some(existing) = self.toplevel_showing(hwnd) {
            self.pending_launches.swap_remove(i);
            return LaunchOutcome::Adopted { toplevel: existing };
        }
        if self.pending_launches[i].hwnd_found.is_some() {
            let a = self.pending_launches[i].attempts;
            self.pending_launches[i].attempts = a + 1;
            return LaunchOutcome::Counted;
        }
        let ghost before = *self;
        let ghost title0 = title;
        let app_id = self.pending_launches[i].app_id.clone();
        let existing_ptr = self.pending_launches[i].toplevel_ptr;
        let reused = match existing_ptr {
            Some(ptr) => self.reassign_toplevel_hwnd(ptr, hwnd, app_id.clone(), alive, client_w, client_h, title.clone()),
            None => false,
        };
        let registered = if reused {
            existing_ptr
        } else {
            self.register_external_hwnd(hwnd, app_id, alive, client_w, client_h, title)
        };
        proof {
            if reused {
                crate::laws::law_reassign_reads_back(
                    *self,
                    before,
                    existing_ptr->0,
                    hwnd,
                    before.pending_launches@[i as int].app_id,
                    title0,
                    client_w,
                    client_h,
                );
            } else if registered is Some {
                crate::laws::law_registered_handle_shows_window(
                    *self,
                    before,
                    registered->0,
                    hwnd,
                    title0@,
                    before.pending_launches@[i as int].app_id@,
                    client_w,
                    client_h,
                );
            }
        }
        let ghost tls = self.toplevels@;
        let ghost k = choose|k: int| 0 <= k < tls.len() && #[trigger] tls[k].id == registered->0;
        proof {
            if registered is Some {
                assert(self.has_toplevel(registered->0));
                assert(0 <= k < tls.len() && tls[k].id == registered->0 && tls[k].hwnd == hwnd);
            }
        }
        let a = self.pending_launches[i].attempts;
        match registered {
            Some(ptr) => {
                self.pending_launches[i].hwnd_found = Some(hwnd);
                self.pending_launches[i].hwnd_found_attempt = a;
                self.pending_launches[i].toplevel_ptr = Some(ptr);
                self.pending_launches[i].attempts = a + 1;
                assert(self.toplevels@ == tls);
                assert(self.toplevels@[k].id == ptr && self.toplevels@[k].hwnd == hwnd);
                LaunchOutcome::Registered { handle: ptr, park: on_visible }
            },
            None => {
                self.pending_launches[i].rejected_hwnds.insert(hwnd);
                self.pending_launches[i].attempts = a + 1;
                LaunchOutcome::Refused
            },
        }
    }
}

/// The first of two results that is a window.
pub open spec fn first_some(a: Option<isize>, b: Option<isize>) -> Option<isize> {
    if a is Some {
        a
    } else {
        b
    }
}

/// A found window with the desktop it was found on.
pub open spec fn tagged(o: Option<isize>, on_visible: bool) -> Option<(isize, bool)> {
    match o {
        Some(h) => Some((h, on_visible)),
        None => None,
    }
}

/// The first window whose lowercased title holds the lowercased `hint` (none
/// for an empty hint); `sized` selects the hidden-desktop rules.
pub open spec fn hint_in(wins: Seq<WinInfo>, hint: Seq<char>, sized: bool) -> Option<isize> {
    if hint.len() == 0 {
        None
    } else if sized {
        first_match(wins, Query::TitledSized { needle: spec_lowercase(hint) })
    } else {
        first_match(wins, Query::TitledPlain { needle: spec_lowercase(hint) })
    }
}

/// A window matching `hint`, else one matching `alt`.
pub open spec fn by_hints(wins: Seq<WinInfo>, hint: Seq<char>, alt: Option<Seq<char>>, sized: bool) -> Option<
    isize,
> {
    first_some(
        hint_in(wins, hint, sized),
        match alt {
            Some(a) => hint_in(wins, a, sized),
            None => None,
        },
    )
}

/// The window a launch adopts, in the order the searches are tried: on the
/// hidden desktop by process tree, by pid, by title hint, then any new titled
/// window; then, when `probe` allows, on the visible desktop by process tree,
/// by pid and by hint. Without a hidden desktop: by pid, by hint, then any new
/// window of another process.
pub open spec fn launch_search(
    on_hidden: bool,
    probe: bool,
    pid: u32,
    tree: Set<u32>,
    hint: Seq<char>,
    alt: Option<Seq<char>>,
    snapshot: Set<isize>,
    own_pid: u32,
    hidden: Seq<WinInfo>,
    visible: Seq<WinInfo>,
) -> Option<(isize, bool)> {
    let by_pid_visible = if pid != 0 {
        first_match(visible, Query::PidAny { pid })
    } else {
        None
    };
    if on_hidden {
        let on_hidden_desktop = first_some(
            first_match(hidden, Query::Tree { pids: tree, need_visible: false }),
            first_some(
                if pid != 0 {
                    first_match(hidden, Query::PidSized { pid })
                } else {
                    None
                },
                first_some(
                    by_hints(hidden, hint, alt, true),
                    first_match(hidden, Query::NewTitled { before: snapshot }),
                ),
            ),
        );
        if on_hidden_desktop is Some {
            tagged(on_hidden_desktop, false)
        } else if probe {
            tagged(
                first_some(
                    first_match(visible, Query::Tree { pids: tree, need_visible: true }),
                    first_some(by_pid_visible, by_hints(visible, hint, alt, false)),
                ),
                true,
            )
        } else {
            None
        }
    } else {
        tagged(
            first_some(
                by_pid_visible,
                first_some(
                    by_hints(visible, hint, alt, false),
                    first_match(visible, Query::NewForeign { before: snapshot, own_pid }),
                ),
            ),
            false,
        )
    }
}

fn hint_window(wins: &Vec<WinInfo>, hint: &str, sized: bool) -> (r: Option<isize>)
    ensures
        r == hint_in(wins@, hint@, sized),
{
    if hint.is_empty() {
        return None;
    }
    let needle = to_lowercase(hint);
    if sized {
        first_window(wins, &WindowQuery::TitledSized { needle: needle.as_str() })
    } else {
        first_window(wins, &WindowQuery::TitledPlain { needle: needle.as_str() })
    }
}

fn hints_window(wins: &Vec<WinInfo>, hint: &str, alt: &Option<String>, sized: bool) -> (r: Option<isize>)
    ensures
        r == by_hints(wins@, hint@, opt_view(*alt), sized),
{
    let first = hint_window(wins, hint, sized);
    if first.is_some() {
        return first;
    }
    match alt {
        Some(a) => hint_window(wins, a.as_str(), sized),
        None => None,
    }
}

/// Searches the windows of the hidden desktop (`hidden`) and of the visible
/// one (`visible`) for the window of `launch`, whose process tree is `tree`;
/// `own_pid` is this process.
pub fn find_launch_window(
    on_hidden: bool,
    probe: bool,
    launch: &PendingLaunch,
    tree: &HashSet<u32>,
    own_pid: u32,
    hidden: &Vec<WinInfo>,
    visible: &Vec<WinInfo>,
) -> (r: Option<(isize, bool)>)
    ensures
        r == launch_search(
            on_hidden,
            probe,
            launch.pid,
            tree@,
            launch.hint@,
            opt_view(launch.alt_hint),
            launch.snapshot@,
            own_pid,
            hidden@,
            visible@,
        ),
{
    let pid = launch.pid;
    if on_hidden {
        if let Some(h) = first_window(hidden, &WindowQuery::Tree { pids: tree, need_visible: false }) {
            return Some((h, false));
        }
        if pid != 0 {
            if let Some(h) = first_window(hidden, &WindowQuery::PidSized { pid }) {
                return Some((h, false));
            }
        }
        if let Some(h) = hints_window(hidden, launch.hint.as_str(), &launch.alt_hint, true) {
            return Some((h, false));
        }
        if let Some(h) = first_window(hidden, &WindowQuery::NewTitled { before: &launch.snapshot }) {
            return Some((h, false));
        }
        if !probe {
            return None;
        }
        if let Some(h) = first_window(visible, &WindowQuery::Tree { pids: tree, need_visible: true }) {
            return Some((h, true));
        }
        if pid != 0 {
            if let Some(h) = first_window(visible, &WindowQuery::PidAny { pid }) {
                return Some((h, true));
            }
        }
        match hints_window(visible, launch.hint.as_str(), &launch.alt_hint, false) {
            Some(h) => Some((h, true)),
            None => None,
        }
    } else {
        if pid != 0 {
            if let Some(h) = first_window(visible, &WindowQuery::PidAny { pid }) {
                return Some((h, false));
            }
        }
        if let Some(h) = hints_window(visible, launch.hint.as_str(), &launch.alt_hint, false) {
            return Some((h, false));
        }
        match first_window(visible, &WindowQuery::NewForeign { before: &launch.snapshot, own_pid }) {
            Some(h) => Some((h, false)),
            None => None,
        }
    }
}

} // verus!
