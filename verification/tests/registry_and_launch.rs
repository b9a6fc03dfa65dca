use std::collections::HashSet;

use waylandcraft::adopt::{find_owned_popups, PopupOwner};
use waylandcraft::apps::DesktopApp;
use waylandcraft::desktop::WinInfo;
use waylandcraft::launch::{find_launch_window, plan_desktop_app, LaunchOutcome, LaunchStep};
use waylandcraft::scanner::PopupCandidate;
use waylandcraft::state::{ptr_of_ref, RequestKind, SurfaceUpdate, WindowMod};

fn app(id: &str, name: Option<&str>, exec: Option<&str>) -> DesktopApp {
    DesktopApp {
        app_id: id.to_string(),
        name: name.map(|s| s.to_string()),
        generic_name: None,
        exec_path: exec.map(|s| s.to_string()),
        exec_args: None,
        working_dir: None,
        exec_terminal: false,
        comment: None,
        keywords: Vec::new(),
        categories: Vec::new(),
        visible: true,
        icon_path: None,
    }
}

fn win(hwnd: isize, pid: u32, class: &str, title: &str, w: i32, h: i32) -> WinInfo {
    WinInfo {
        hwnd,
        pid,
        style: 0x1000_0000,
        ex_style: 0,
        visible: true,
        class: class.to_string(),
        title: title.to_string(),
        title_len: title.encode_utf16().count() as i32,
        client_w: w,
        client_h: h,
        owner: 0,
    }
}

#[test]
fn registered_window_reads_back() {
    let mut s = WindowMod::new(Vec::new());
    let h = s.register_external_hwnd(100, "notepad".to_string(), true, 800, 600, "Notes".to_string()).unwrap();
    assert_eq!(h, 1);
    assert_eq!(s.surface_for_toplevel(h), Some(2));
    assert_eq!(s.toplevel_hwnd(h), Some(100));
    assert_eq!(ptr_of_ref(&s.toplevels[0]), h);
    assert_eq!(s.toplevels[0].width, 800);
    assert_eq!(s.toplevels[0].height, 600);
    // Small windows get at least 640x480.
    let h2 = s.register_external_hwnd(101, "x".to_string(), true, 20, 20, String::new()).unwrap();
    assert_eq!(h2, 3);
    assert_eq!(s.toplevels[1].width, 640);
    assert_eq!(s.toplevels[1].height, 480);
    // Refused: tracked, dead, tiny.
    assert!(s.register_external_hwnd(100, "x".to_string(), true, 800, 600, String::new()).is_none());
    assert!(s.register_external_hwnd(102, "x".to_string(), false, 800, 600, String::new()).is_none());
    assert!(s.register_external_hwnd(103, "x".to_string(), true, 9, 600, String::new()).is_none());
    assert_eq!(s.toplevel_handles(), vec![1, 3]);
}

#[test]
fn requests_are_taken_once() {
    let mut s = WindowMod::new(Vec::new());
    let h = s.register_external_hwnd(7, "a".to_string(), true, 800, 600, String::new()).unwrap();
    s.toplevels[0].requests.maximize = true;
    assert_eq!(s.take_requests(RequestKind::Maximize), vec![h]);
    assert!(s.take_requests(RequestKind::Maximize).is_empty());
    assert!(s.take_requests(RequestKind::Minimize).is_empty());
}

#[test]
fn retain_drops_dead_windows_and_their_surfaces() {
    let mut s = WindowMod::new(Vec::new());
    let a = s.register_external_hwnd(1, "a".to_string(), true, 800, 600, String::new()).unwrap();
    let _b = s.register_external_hwnd(2, "b".to_string(), true, 800, 600, String::new()).unwrap();
    let live: HashSet<isize> = [1isize].into_iter().collect();
    assert_eq!(s.retain_toplevels(&live), (1, 1));
    assert_eq!(s.toplevel_handles(), vec![a]);
    assert_eq!(s.surfaces.len(), 1);
    assert_eq!(s.surfaces[0].toplevel_ptr, a);
}

#[test]
fn popups_link_under_their_owner() {
    let mut s = WindowMod::new(Vec::new());
    let owner = s.register_external_hwnd(10, "app".to_string(), true, 800, 600, String::new()).unwrap();
    let root = s.surface_for_toplevel(owner).unwrap();
    let p = s.adopt_popup(PopupCandidate { hwnd: 11, owner: 10 }, true, 100, 50, 5, 6).unwrap();
    assert!(s.toplevels[1].is_popup);
    assert_eq!(s.surface_children(root), vec![(p + 1, 5, 6)]);
    assert_eq!(s.toplevel_handles(), vec![owner]);
    assert_eq!(s.popup_links(), vec![(p, 11, 10)]);
    s.set_popup_offset(p, 7, 8);
    assert_eq!(s.surface_children(root), vec![(p + 1, 7, 8)]);
    // No owner window tracked: refused.
    assert!(s.adopt_popup(PopupCandidate { hwnd: 12, owner: 99 }, true, 100, 50, 0, 0).is_none());
}

#[test]
fn surface_updates_attach_then_go_clean() {
    let mut s = WindowMod::new(Vec::new());
    let h = s.register_external_hwnd(5, "a".to_string(), true, 800, 600, String::new()).unwrap();
    let sh = s.surface_for_toplevel(h).unwrap();
    match s.take_surface_update(sh) {
        SurfaceUpdate::Attach { width, height, stride, damage, .. } => {
            assert_eq!((width, height, stride), (800, 600, 3200));
            assert_eq!(damage, vec![[0, 0, 800, 600]]);
        }
        _ => panic!("expected an attach"),
    }
    assert!(matches!(s.take_surface_update(sh), SurfaceUpdate::Clean));
    assert!(matches!(s.take_surface_update(999), SurfaceUpdate::NoSurface));
    assert_eq!(s.surface_xdg_geometry(sh), Some([0, 0, 800, 600]));
}

#[test]
fn maximize_and_fullscreen_fill_the_output() {
    let mut s = WindowMod::new(Vec::new());
    let h = s.register_external_hwnd(5, "a".to_string(), true, 800, 600, String::new()).unwrap();
    s.output_set_bounds(1600, 900);
    s.output_resize(1920, 1080);
    assert_eq!(s.toplevel_fill(h, false), Some((5, 1600, 900)));
    assert!(s.toplevels[0].maximize);
    assert_eq!(s.toplevel_fill(h, true), Some((5, 1920, 1080)));
    assert_eq!(s.fullscreened(), vec![h]);
    assert_eq!(s.toplevel_resize(h, 300, 200), Some(5));
    assert!(s.fullscreened().is_empty());
    assert_eq!(s.toplevel_resize(77, 1, 1), None);
}

#[test]
fn pointer_button_targets_the_hovered_window() {
    let mut s = WindowMod::new(Vec::new());
    let h = s.register_external_hwnd(5, "a".to_string(), true, 800, 600, String::new()).unwrap();
    let (serial, target) = s.pointer_button(0x110, true);
    assert_eq!(serial, 1);
    assert!(target.is_none());
    s.set_pointer_focus(s.surface_for_toplevel(h).unwrap());
    let (serial, target) = s.pointer_button(0x110, true);
    assert_eq!(serial, 2);
    let t = target.unwrap();
    assert_eq!((t.top, t.msg, t.mk_flag), (5, 0x0201, 1));
    assert!(s.left_button_down);
    let (_, t) = s.pointer_button(0x111, false);
    assert_eq!(t.unwrap().msg, 0x0205);
    assert!(s.pointer_button(0x999, true).1.is_none());
}

#[test]
fn keyboard_follows_focus() {
    let mut s = WindowMod::new(Vec::new());
    let h = s.register_external_hwnd(5, "a".to_string(), true, 800, 600, String::new()).unwrap();
    assert_eq!(s.focus_toplevel(Some(h)), 5);
    assert_eq!(s.pointer_focus_ptr, h + 1);
    assert_eq!(s.keyboard_target(), None);
    s.activate_keyboard();
    assert_eq!(s.keyboard_target(), Some(5));
    s.deactivate_keyboard();
    assert_eq!(s.keyboard_target(), None);
}

#[test]
fn launch_plans() {
    let mut a = app("chrome", Some("Chrome"), Some("C:\\Chrome\\chrome.exe"));
    a.exec_args = Some("--profile \"My Profile\"".to_string());
    a.working_dir = Some(String::new());
    let p = plan_desktop_app(&a, "").unwrap();
    assert_eq!(p.program, "C:\\Chrome\\chrome.exe");
    assert_eq!(p.args.len(), 6);
    assert_eq!(p.args[1], "My Profile");
    assert!(p.work_dir.is_none());
    let mut t = app("top", None, Some("top.exe"));
    t.exec_terminal = true;
    assert!(plan_desktop_app(&t, "").is_none());
    let p = plan_desktop_app(&t, "cmd.exe").unwrap();
    assert_eq!(p.program, "cmd.exe");
    assert_eq!(p.args, vec!["/c", "start", "", "top.exe"]);
    assert!(plan_desktop_app(&app("none", None, None), "cmd.exe").is_none());
    let s = WindowMod::new(vec![a]);
    assert!(s.plan_app_launch("chrome").is_some());
    assert!(s.plan_app_launch("missing").is_none());
}

#[test]
fn a_launch_finds_registers_and_waits() {
    let mut s = WindowMod::new(Vec::new());
    let a = app("notepad", Some("Notepad"), Some("C:\\Windows\\notepad.exe"));
    s.record_launch(42, &a, "C:\\Windows\\notepad.exe", HashSet::new());
    assert_eq!(s.launched_pids, vec![42]);
    assert_eq!(s.pending_launches[0].hint, "notepad");
    assert!(s.pending_launches[0].alt_hint.is_none());
    assert!(matches!(s.launch_begin(0, false), LaunchStep::Search { visible_probe: true }));
    let tree: HashSet<u32> = [42u32].into_iter().collect();
    let hidden = vec![win(1, 7, "X", "", 500, 500), win(2, 42, "Notepad", "Untitled - Notepad", 640, 480)];
    let found = find_launch_window(true, true, &s.pending_launches[0], &tree, 1, &hidden, &Vec::new());
    assert_eq!(found, Some((2, false)));
    let out = s.launch_finish(0, found, true, 640, 480, "Untitled - Notepad".to_string());
    assert!(matches!(out, LaunchOutcome::Registered { handle: 1, park: false }));
    assert_eq!(s.pending_launches[0].hwnd_found, Some(2));
    assert_eq!(s.pending_launches[0].toplevel_ptr, Some(1));
    assert_eq!(s.pending_launches[0].attempts, 1);
    assert!(matches!(s.launch_begin(0, true), LaunchStep::Waiting));
    assert_eq!(s.pending_launches[0].attempts, 2);
    // The window died: searching starts over with a fresh count.
    assert!(matches!(s.launch_begin(0, false), LaunchStep::Search { visible_probe: true }));
    assert_eq!(s.pending_launches[0].attempts, 0);
    assert!(s.pending_launches[0].hwnd_found.is_none());
}

#[test]
fn a_launch_times_out_and_single_instances_are_adopted() {
    let mut s = WindowMod::new(Vec::new());
    let a = app("d", Some("Discord"), Some("Discord.exe"));
    s.record_launch(0, &a, "Discord.exe", HashSet::new());
    assert!(s.launched_pids.is_empty());
    s.pending_launches[0].attempts = 200;
    assert!(matches!(s.launch_begin(0, false), LaunchStep::Dropped));
    assert!(s.pending_launches.is_empty());
    let h = s.register_external_hwnd(9, "d".to_string(), true, 800, 600, String::new()).unwrap();
    s.record_launch(5, &a, "Discord.exe", HashSet::new());
    s.pending_launches[0].attempts = 31;
    assert!(matches!(s.launch_begin(0, false), LaunchStep::Search { visible_probe: false }));
    let out = s.launch_finish(0, Some((9, false)), true, 800, 600, String::new());
    assert!(matches!(out, LaunchOutcome::Adopted { toplevel } if toplevel == h));
    assert!(s.pending_launches.is_empty());
}

#[test]
fn refused_windows_are_rejected_from_then_on() {
    let mut s = WindowMod::new(Vec::new());
    let a = app("x", Some("X"), Some("x.exe"));
    s.record_launch(3, &a, "x.exe", HashSet::new());
    let out = s.launch_finish(0, Some((50, true)), true, 5, 5, String::new());
    assert!(matches!(out, LaunchOutcome::Refused));
    assert!(s.pending_launches[0].rejected_hwnds.contains(&50));
    assert_eq!(s.pending_launches[0].attempts, 1);
    let out = s.launch_finish(0, Some((50, true)), true, 800, 600, String::new());
    assert!(matches!(out, LaunchOutcome::Rejected));
    assert_eq!(s.pending_launches[0].attempts, 1);
    assert!(matches!(s.launch_finish(0, None, false, 0, 0, String::new()), LaunchOutcome::Counted));
    assert_eq!(s.pending_launches[0].attempts, 2);
    // A window too large for a frame buffer counts as not found.
    let out = s.launch_finish(0, Some((60, false)), true, 40000, 40000, String::new());
    assert!(matches!(out, LaunchOutcome::Counted));
    assert_eq!(s.pending_launches[0].attempts, 3);
    assert!(s.toplevels.is_empty());
}

#[test]
fn visible_desktop_search_order() {
    let mut s = WindowMod::new(Vec::new());
    let a = app("calc", Some("Calculator"), Some("calc.exe"));
    s.record_launch(0, &a, "calc.exe", HashSet::new());
    let l = &s.pending_launches[0];
    assert_eq!(l.alt_hint.as_deref(), Some("calc"));
    let visible = vec![win(4, 8, "ApplicationFrameWindow", "Calculator", 300, 300)];
    let tree: HashSet<u32> = HashSet::new();
    assert_eq!(find_launch_window(true, true, l, &tree, 1, &Vec::new(), &visible), Some((4, true)));
    assert_eq!(find_launch_window(true, false, l, &tree, 1, &Vec::new(), &visible), None);
    assert_eq!(find_launch_window(false, false, l, &tree, 1, &Vec::new(), &visible), Some((4, false)));
}

#[test]
fn owned_popups_pick_the_first_owner() {
    let owners = vec![
        PopupOwner { hwnd: 1, surface: 2, pid: 5 },
        PopupOwner { hwnd: 3, surface: 4, pid: 6 },
    ];
    let mut menu = win(20, 5, "#32768", "", 50, 50);
    menu.owner = 3;
    let mut flyout = win(21, 9, "Flyout", "", 50, 50);
    flyout.style = 0x9000_0000u32 as i32;
    flyout.owner = 3;
    let plain = win(22, 5, "Other", "", 50, 50);
    let known = HashSet::new();
    let found = find_owned_popups(&vec![menu, flyout, plain], &owners, &known);
    assert_eq!(found.len(), 2);
    assert_eq!((found[0].hwnd, found[0].owner, found[0].owner_surface), (20, 1, 2));
    assert_eq!((found[1].hwnd, found[1].owner, found[1].owner_surface), (21, 3, 4));
    assert!(find_owned_popups(&Vec::new(), &Vec::new(), &known).is_empty());
}

#[test]
fn frame_pacing_of_the_registry() {
    let mut wm = WindowMod::new(Vec::new());
    let mut due = Vec::new();
    for _ in 0..20 {
        due.push(wm.advance_frame());
    }
    assert_eq!(wm.frame_counter, 20);
    assert_eq!(due.iter().filter(|d| **d).count(), 2);
    assert!(due[9] && due[19]);
    assert!(!wm.launch_poll_due());
    wm.record_launch(0, &app("a", Some("A"), Some("C:\\a.exe")), "C:\\a.exe", HashSet::new());
    assert!(wm.launch_poll_due());
    wm.advance_frame();
    assert!(wm.launch_poll_due());
    assert_eq!(wm.move_wparam(), 0);
    wm.left_button_down = true;
    assert_eq!(wm.move_wparam(), 1);
}

#[test]
fn freed_windows_are_gone() {
    let mut s = WindowMod::new(Vec::new());
    let a = s.register_external_hwnd(1, "a".to_string(), true, 800, 600, String::new()).unwrap();
    let b = s.register_external_hwnd(2, "b".to_string(), true, 800, 600, String::new()).unwrap();
    let sb = s.surface_for_toplevel(b).unwrap();
    s.free_toplevel(a);
    assert_eq!(s.toplevel_handles(), vec![b]);
    assert!(s.surfaces.iter().all(|x| x.toplevel_ptr != a));
    assert_eq!(s.toplevel_resize(a, 100, 100), None);
    assert_eq!(s.toplevel_fill(a, true), None);
    assert_eq!(s.surface_for_toplevel(a), None);
    s.free_surface(sb);
    assert_eq!(s.surface_for_toplevel(b), None);
    assert_eq!(s.toplevel_handles(), vec![b]);
}

#[test]
fn a_found_launch_is_removed_after_its_linger() {
    let mut s = WindowMod::new(Vec::new());
    let a = app("notepad", Some("Notepad"), Some("C:\\Windows\\notepad.exe"));
    s.record_launch(42, &a, "C:\\Windows\\notepad.exe", HashSet::new());
    assert!(matches!(s.launch_begin(0, false), LaunchStep::Search { .. }));
    let out = s.launch_finish(0, Some((2, false)), true, 640, 480, String::new());
    assert!(matches!(out, LaunchOutcome::Registered { .. }));
    assert_eq!(s.pending_launches[0].hwnd_found_attempt, 0);
    // Polls while the window lives are counted: 29 more keep it waiting.
    for _ in 0..29 {
        assert!(matches!(s.launch_begin(0, true), LaunchStep::Waiting));
    }
    assert_eq!(s.pending_launches[0].attempts, 30);
    assert!(matches!(s.launch_begin(0, true), LaunchStep::Settled));
    assert!(s.pending_launches.is_empty());
    assert_eq!(s.toplevel_handles().len(), 1);
}

#[test]
fn drifted_visible_windows_are_parked_every_sixtieth_frame() {
    let mut s = WindowMod::new(Vec::new());
    s.register_external_hwnd(9, "a".to_string(), true, 800, 600, String::new()).unwrap();
    s.register_external_hwnd(10, "b".to_string(), true, 800, 600, String::new()).unwrap();
    let hidden: HashSet<isize> = [10].into_iter().collect();
    assert!(s.rehide_due());
    assert_eq!(s.windows_to_rehide(&hidden, &vec![Some((0, 0)), Some((5, 5))]), vec![9]);
    assert!(s.windows_to_rehide(&hidden, &vec![Some((-32000, -32000)), Some((5, 5))]).is_empty());
    assert!(s.windows_to_rehide(&hidden, &vec![None, Some((5, 5))]).is_empty());
    s.advance_frame();
    assert!(!s.rehide_due());
    assert!(s.windows_to_rehide(&hidden, &vec![Some((0, 0)), Some((5, 5))]).is_empty());
}
