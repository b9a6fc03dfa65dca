use std::collections::HashSet;

use waylandcraft::adopt::PopupOwner;
use waylandcraft::capture::{
    capture_sleep_us, copy_rows_tight, plan_capture_threads, publishable_len, frame_bytes, refresh_popup_offset,
    sampled_checksum, BitmapCache, CaptureFocus, FrameStore, RepaintLog,
};
use waylandcraft::desktop::{first_window, game_window_style, restored_style, WinInfo, WindowQuery};
use waylandcraft::injector::{send, InputCmd};
use waylandcraft::input::{
    key_lparam, key_target, needs_widget_redirect, pack_coords_i, pack_screen_coords, plan_click,
    plan_key, scroll_plan, thread_focus_choice, wheel_wparam,
};
use waylandcraft::process::{
    collect_descendant_pids_pub, is_on_hidden_desktop, kill_targets, kill_tree, wide_nul,
    HiddenDesktop, HiddenDesktopOnce,
};
use waylandcraft::render::{copy_pixels, render_image, Picture};
use waylandcraft::scanner::{
    dedup_bound, is_chromium_class, launcher_children, scan, ScanInput, ScanMailbox, ScanOutput,
    TrackedWin,
};
use waylandcraft::uia::{
    choose_invoke_action, coalesce, descendant_follow_up, element_area, DescendantFollowUp, element_contains, pick_focused, smallest_area,
    topmost_containing, InvokeAction, UiaCmd, UiaQueue, WokenWindows,
};
use waylandcraft::wgc::{frame_len, WgcCapture};

fn win(hwnd: isize, pid: u32, class: &str, title: &str, w: i32, h: i32) -> WinInfo {
    WinInfo {
        hwnd,
        pid,
        style: 0x1000_0000,
        ex_style: 0,
        visible: true,
        class: class.to_string(),
        title: title.to_string(),
        title_len: title.encode_utf16().count() as i32,
        client_w: w,
        client_h: h,
        owner: 0,
    }
}

fn fnv_sampled(buf: &[u8]) -> u64 {
    let mut h: u64 = 0xcbf2_9ce4_8422_2325;
    let mut i = 0;
    while i < buf.len() {
        h ^= buf[i] as u64;
        h = h.wrapping_mul(0x0000_0100_0000_01b3);
        i += 64;
    }
    h ^ buf.len() as u64
}

#[test]
fn checksum_matches_sampled_fnv() {
    assert_eq!(sampled_checksum(&[]), 0xcbf2_9ce4_8422_2325);
    let buf: Vec<u8> = (0..300u32).map(|x| (x % 251) as u8).collect();
    assert_eq!(sampled_checksum(&buf), fnv_sampled(&buf));
    let mut other = buf.clone();
    other[64] ^= 1;
    assert_ne!(sampled_checksum(&other), sampled_checksum(&buf));
    other[65] ^= 1;
    other[64] ^= 1;
    assert_eq!(sampled_checksum(&other), sampled_checksum(&buf));
}

#[test]
fn frames_are_published_only_when_changed() {
    let mut store = FrameStore::new();
    let px = vec![1u8; 16];
    assert!(store.publish(9, 2, 2, &px, 7));
    let (w, h, data, v) = store.latest(9, 0).unwrap();
    assert_eq!((w, h, v), (2, 2, 1));
    assert_eq!(data.as_slice(), px.as_slice());
    assert!(!store.publish(9, 2, 2, &vec![2u8; 16], 7));
    assert!(store.latest(9, 1).is_none());
    assert!(store.publish(9, 2, 2, &vec![2u8; 16], 8));
    assert_eq!(store.latest(9, 1).unwrap().3, 2);
    store.remove(9);
    assert!(store.latest(9, 0).is_none());
}

#[test]
fn capture_pacing() {
    let mut f = CaptureFocus::new();
    f.set_focused_capture_hwnd(3);
    assert_eq!(f.capture_period_us(3, true), 4_000);
    assert_eq!(f.capture_period_us(3, false), 16_000);
    assert_eq!(f.capture_period_us(4, false), 125_000);
    assert_eq!(capture_sleep_us(16_000, 6_000), Some(10_000));
    assert_eq!(capture_sleep_us(16_000, 20_000), None);
}

#[test]
fn repaints_are_throttled() {
    let mut log = RepaintLog::new();
    assert!(log.due(5, 1_000_000));
    assert!(!log.due(5, 1_400_000));
    assert!(!log.due(5, 900_000));
    assert!(log.due(6, 1_400_000));
    assert!(log.due(5, 1_500_000));
    assert!(!log.due(5, 1_999_999));
}

#[test]
fn capture_threads_follow_targets() {
    let (kept, spawn) = plan_capture_threads(&vec![1, 2, 3], &vec![2, 4, 4, 5]);
    let kept: HashSet<isize> = kept.into_iter().collect();
    assert_eq!(kept, [2, 4, 5].into_iter().collect());
    assert_eq!(spawn, vec![4, 5]);
}

#[test]
fn rows_are_copied_without_padding() {
    let src: Vec<u8> = (0..20u8).collect();
    let mut out = Vec::new();
    copy_rows_tight(&src, 8, 1, 3, &mut out);
    assert_eq!(out, vec![0, 1, 2, 3, 8, 9, 10, 11, 16, 17, 18, 19]);
    copy_rows_tight(&src, 8, 1, 0, &mut out);
    assert!(out.is_empty());
    assert_eq!(refresh_popup_offset(120, 80, 100, 50), (20, 30));
}

#[test]
fn wgc_state() {
    let mut c = WgcCapture::new(100, 50);
    assert!(!c.content_resized(100, 50));
    assert!(c.content_resized(120, 50));
    assert_eq!((c.last_w, c.last_h), (120, 50));
    assert!(c.staging_for(120, 50));
    assert!(!c.staging_for(120, 50));
    assert!(c.staging_for(60, 50));
    assert_eq!(frame_len(3, 2), Some(24));
    assert_eq!(frame_len(0, 2), None);
}

#[test]
fn images_are_resized_and_copied() {
    // A single red pixel scaled up stays red everywhere.
    let red = Picture::from_rgba(1, 1, vec![255, 0, 0, 255]).unwrap();
    let mut out = vec![9u8; 2 * 3 * 4];
    render_image(&red, 2, 3, &mut out);
    assert_eq!(out, [255u8, 0, 0, 255].repeat(6));
    // Same size: the pixels are copied as they are.
    let px: Vec<u8> = (0..16u8).collect();
    let same = Picture::from_rgba(2, 2, px.clone()).unwrap();
    let mut out = vec![0u8; 16];
    render_image(&same, 2, 2, &mut out);
    assert_eq!(out, px);
    // A blank picture scaled down stays blank.
    let blank = Picture::from_rgba(4, 4, vec![0u8; 64]).unwrap();
    let mut out = vec![9u8; 4];
    render_image(&blank, 1, 1, &mut out);
    assert_eq!(out, vec![0u8; 4]);
    assert!(Picture::from_rgba(2, 2, vec![0u8; 15]).is_none());
    let mut dst = vec![0u8; 3];
    copy_pixels(&[1, 2, 3], &mut dst);
    assert_eq!(dst, vec![1, 2, 3]);
}

#[test]
fn process_trees() {
    let edges = vec![(1, 10), (10, 11), (11, 12), (2, 20), (12, 10)];
    let t = collect_descendant_pids_pub(10, &edges);
    assert_eq!(t, [10, 11, 12].into_iter().collect());
    let zero = collect_descendant_pids_pub(0, &edges);
    assert_eq!(zero, [0].into_iter().collect());
    let mut k = kill_targets(&vec![11, 2, 0], &edges);
    k.sort();
    assert_eq!(k, vec![2, 10, 11, 12, 20]);
    let mut k = kill_tree(1, &edges);
    k.sort();
    assert_eq!(k, vec![1, 10, 11, 12]);
    // A deep chain is followed even though the edges are listed in reverse.
    let chain: Vec<(u32, u32)> = (1..30u32).rev().map(|p| (p, p + 1)).collect();
    assert_eq!(collect_descendant_pids_pub(1, &chain).len(), 30);
    // Listed in reverse, each pass reaches one generation further: a chain
    // deeper than the pass limit is followed exactly that many generations.
    let deep: Vec<(u32, u32)> = (1..80u32).rev().map(|p| (p, p + 1)).collect();
    let found = collect_descendant_pids_pub(1, &deep);
    assert_eq!(found.len(), 65);
    assert!(found.contains(&65) && !found.contains(&66));
}

#[test]
fn hidden_desktop_record() {
    let d = HiddenDesktop::created(77);
    assert_eq!(d.hidden_hdesk_raw(), 77);
    assert_eq!(d.hidden_hdesk(), Some(77));
    let expected: Vec<u16> = "WindowModDesktop".encode_utf16().chain([0]).collect();
    assert_eq!(d.hidden_desktop_name_wide().unwrap(), expected.as_slice());
    assert!(d.ensure_hidden_desktop());
    let none = HiddenDesktop::unavailable();
    assert!(none.hidden_desktop_name_wide().is_none());
    assert!(!none.ensure_hidden_desktop());
    assert_eq!(wide_nul("a😀"), vec![0x61, 0xD83D, 0xDE00, 0]);
    assert!(is_on_hidden_desktop(3, &vec![1, 3]));
    assert!(!is_on_hidden_desktop(4, &vec![1, 3]));
}

#[test]
fn hidden_desktop_is_made_once() {
    let mut once = HiddenDesktopOnce::new();
    assert!(once.needs_creation());
    assert!(once.desktop().is_none());
    assert_eq!(once.settle(77), 77);
    assert!(!once.needs_creation());
    assert_eq!(once.settle(5), 77);
    let d = once.desktop().unwrap();
    assert_eq!(d.hidden_hdesk_raw(), 77);
    let expected: Vec<u16> = "WindowModDesktop".encode_utf16().chain([0]).collect();
    assert_eq!(d.hidden_desktop_name_wide().unwrap(), expected.as_slice());
    let mut failed = HiddenDesktopOnce::new();
    assert_eq!(failed.settle(0), 0);
    assert_eq!(failed.settle(9), 0);
    assert!(failed.desktop().unwrap().hidden_desktop_name_wide().is_none());
}

#[test]
fn window_queries() {
    let mut child = win(1, 5, "A", "Foo", 50, 50);
    child.style = 0x4000_0000;
    let wins = vec![child, win(2, 5, "B", "Some FOO app", 50, 50), win(3, 6, "C", "foo", 5, 5)];
    assert_eq!(first_window(&wins, &WindowQuery::PidAny { pid: 5 }), Some(2));
    assert_eq!(first_window(&wins, &WindowQuery::TitledSized { needle: "foo" }), Some(2));
    assert_eq!(first_window(&wins, &WindowQuery::TitledPlain { needle: "foo" }), Some(1));
    let before: HashSet<isize> = [2].into_iter().collect();
    assert_eq!(first_window(&wins, &WindowQuery::NewForeign { before: &before, own_pid: 6 }), None);
    assert_eq!(first_window(&wins, &WindowQuery::NewTitled { before: &before }), None);
}

#[test]
fn scanner_mailbox_and_queues() {
    let mut v = vec![3, 1, 3, 2, 1];
    dedup_bound(&mut v);
    assert_eq!(v, vec![3, 1, 2]);
    let mut long: Vec<isize> = (0..100).collect();
    dedup_bound(&mut long);
    assert_eq!(long.len(), 64);
    let mut m = ScanMailbox::new();
    let mut out = ScanOutput::new();
    out.new_hidden_children = vec![5, 5, 6];
    m.merge(out);
    let mut again = ScanOutput::new();
    again.new_hidden_children = vec![6, 7];
    m.merge(again);
    let taken = m.take_output();
    assert_eq!(taken.new_hidden_children, vec![5, 6, 7]);
    assert!(m.take_output().new_hidden_children.is_empty());
    let mut inp = ScanInput::new();
    inp.has_launcher = true;
    m.publish_input(inp);
    assert!(m.latest_input().has_launcher);
    assert!(is_chromium_class("Chrome_WidgetWin_1"));
    assert!(!is_chromium_class("Chrome_WidgetWin_2"));
}

#[test]
fn scanning_finds_children_popups_and_drift() {
    let mut inp = ScanInput::new();
    inp.has_launcher = true;
    inp.windows = vec![
        TrackedWin { hwnd: 100, pid: 10, is_popup: false },
        TrackedWin { hwnd: 101, pid: 10, is_popup: true },
    ];
    let edges = vec![(10, 11)];
    let mut menu = win(300, 10, "#32768", "", 40, 40);
    menu.style = 0x1000_0000;
    let hidden = vec![
        win(100, 10, "Main", "Launcher", 800, 600),
        win(200, 11, "Game", "Game", 1024, 768),
        win(201, 11, "Chrome_WidgetWin_1", "Helper", 1024, 768),
        win(202, 11, "Tiny", "Tiny", 50, 50),
        menu,
    ];
    let visible = vec![win(400, 11, "Game2", "", 300, 300), win(401, 11, "Game3", "Game 3", 150, 150), win(402, 11, "Game4", "", 150, 150)];
    let rects = vec![Some((0, 0)), None];
    let out = scan(&inp, &edges, &hidden, &visible, &rects);
    assert_eq!(out.new_hidden_children, vec![200]);
    assert_eq!(out.new_visible_children, vec![400]);
    assert_eq!(out.new_popups.len(), 1);
    assert_eq!((out.new_popups[0].hwnd, out.new_popups[0].owner), (300, 100));
    assert!(out.redrift_visible.is_empty());
    let not_hidden = scan(&inp, &edges, &Vec::new(), &Vec::new(), &rects);
    assert_eq!(not_hidden.redrift_visible, vec![100]);
    let (h, v) = launcher_children(&inp.windows, &edges, &hidden, &visible);
    assert_eq!(h, vec![200]);
    assert_eq!(v, vec![400, 401]);
    let nobody = vec![TrackedWin { hwnd: 1, pid: 0, is_popup: false }];
    let (h, v) = launcher_children(&nobody, &edges, &hidden, &visible);
    assert!(h.is_empty() && v.is_empty());
    let _ = PopupOwner { hwnd: 0, surface: 0, pid: 0 };
}

#[test]
fn coordinates_and_messages() {
    assert_eq!(pack_coords_i(10, 20), 20 * 65536 + 10);
    assert_eq!(pack_coords_i(-5, 3), 3 * 65536);
    assert_eq!(pack_screen_coords(-1, 0), 0xFFFF);
    assert_eq!(wheel_wparam(120), 120 << 16);
    assert_eq!(wheel_wparam(-120), (0xFF88usize) << 16);
    assert_eq!(scroll_plan(0, 120), (Some(true), Some(0x020A)));
    assert_eq!(scroll_plan(1, -120), (None, Some(0x0114)));
    assert_eq!(scroll_plan(2, 0), (None, None));
    assert_eq!(key_lparam(0x1E, true), 0x001E_0001);
    assert_eq!(key_lparam(0x11E, false) as u32, 0xC01E_0000);
    assert_eq!(key_target(1, Some(2), 3), 2);
    assert_eq!(key_target(1, Some(1), 3), 3);
    assert_eq!(key_target(1, None, 3), 3);
    assert!(needs_widget_redirect(5, 1, "Intermediate D3D Window", false));
    assert!(needs_widget_redirect(1, 1, "X", true));
    assert!(!needs_widget_redirect(1, 1, "X", false));
    assert!(!send(InputCmd::Move { hwnd: 1, x: 0, y: 0 }));
}

#[test]
fn clicks_route_by_window_kind() {
    let p = plan_click(1, 2, "Button", "#32770", true, 0x110, true, 1, 5, 6);
    assert!(p.activate);
    assert_eq!(p.post_to, Some(2));
    assert_eq!((p.move_wparam, p.wparam, p.lparam), (1, 1, 6 * 65536 + 5));
    assert_eq!(p.uia, Some((2, true)));
    let list = plan_click(1, 2, "SysListView32", "#32770", true, 0x110, true, 1, 5, 6);
    assert_eq!(list.uia, None);
    let edit = plan_click(1, 2, "RichEdit50W", "Notepad", false, 0x110, true, 1, 5, 6);
    assert_eq!(edit.uia, None);
    let hidden_chrome = plan_click(1, 2, "Intermediate D3D Window", "Chrome_WidgetWin_1", true, 0x110, true, 1, 0, 0);
    assert!(!hidden_chrome.activate);
    assert_eq!(hidden_chrome.post_to, Some(1));
    assert_eq!(hidden_chrome.uia, Some((1, true)));
    let visible_chrome = plan_click(1, 2, "Chrome_RenderWidgetHostHWND", "Chrome_WidgetWin_1", false, 0x110, true, 1, 0, 0);
    assert!(!visible_chrome.activate);
    assert_eq!(visible_chrome.post_to, None);
    assert_eq!(visible_chrome.uia, None);
    let release = plan_click(1, 2, "Button", "X", true, 0x110, false, 1, 0, 0);
    assert_eq!(release.move_wparam, 0);
    assert_eq!(release.uia, None);
}

#[test]
fn keys_take_one_text_route() {
    let p = plan_key("Notepad", &vec![0x61], true, true);
    assert!(!p.post_key);
    assert_eq!(p.chars, vec![0x61]);
    assert!(p.uia_text.is_none());
    let enter = plan_key("Notepad", &vec![0x0D], true, true);
    assert!(enter.post_key);
    assert!(enter.chars.is_empty());
    for control in [0x08u16, 0x09] {
        let p = plan_key("Notepad", &vec![control], true, true);
        assert!(p.post_key && p.chars.is_empty() && p.uia_text.is_none());
    }
    let mixed = plan_key("Notepad", &vec![0x61, 0x08], true, true);
    assert!(!mixed.post_key);
    assert_eq!(mixed.chars, vec![0x61]);
    let release = plan_key("Notepad", &Vec::new(), false, true);
    assert!(release.post_key && release.chars.is_empty());
    let uwp = plan_key("Windows.UI.Core.CoreWindow", &vec![0x41, 0x08], true, true);
    assert!(uwp.chars.is_empty());
    assert_eq!(uwp.uia_text, Some(("A".to_string(), true)));
    let sdl = plan_key("SDL_app", &vec![0xD800, 0x42], true, false);
    assert_eq!(sdl.uia_text, Some(("B".to_string(), false)));
    let del = plan_key("Notepad", &vec![0x7F], true, false);
    assert!(del.post_key);
    assert!(del.chars.is_empty());
    let uwp_del = plan_key("SDL_app", &vec![0x7F], true, true);
    assert!(uwp_del.post_key && uwp_del.uia_text.is_none());
}

#[test]
fn automation_queue_coalesces_pointer_commands() {
    let mut q = UiaQueue::new();
    assert!(q.invoke_at_screen(1, 0, 0, true));
    assert!(q.scroll_at(1, 0, 0, true));
    assert!(q.append_focused_text(1, "a".to_string(), false));
    assert!(q.append_focused_text(1, "b".to_string(), false));
    assert!(q.invoke_at_screen(2, 5, 5, false));
    assert!(q.invoke_at_screen(3, 6, 6, false));
    let done = coalesce(q.drain());
    assert!(q.drain().is_empty());
    assert_eq!(done.len(), 4);
    assert!(matches!(done[0], UiaCmd::ScrollAt { .. }));
    assert!(matches!(&done[1], UiaCmd::AppendFocusedText { text, .. } if text == "a"));
    assert!(matches!(&done[2], UiaCmd::AppendFocusedText { text, .. } if text == "b"));
    assert!(matches!(done[3], UiaCmd::InvokeAt { hwnd: 3, .. }));
    // A click between two texts is followed by text, so it is performed.
    assert!(q.append_focused_text(1, "x".to_string(), false));
    assert!(q.invoke_at_screen(4, 1, 1, false));
    assert!(q.append_focused_text(1, "y".to_string(), false));
    let done = coalesce(q.drain());
    assert_eq!(done.len(), 3);
    assert!(matches!(done[1], UiaCmd::InvokeAt { hwnd: 4, .. }));
}

#[test]
fn automation_descendant_follow_up() {
    assert!(matches!(descendant_follow_up(true, false), DescendantFollowUp::MarkWoken));
    assert!(matches!(descendant_follow_up(true, true), DescendantFollowUp::MarkWoken));
    assert!(matches!(descendant_follow_up(false, true), DescendantFollowUp::Focus));
    assert!(matches!(descendant_follow_up(false, false), DescendantFollowUp::Nothing));
}

#[test]
fn automation_hit_testing() {
    assert!(element_contains(Some([0, 0, 10, 10]), 0, 9));
    assert!(!element_contains(Some([0, 0, 10, 10]), 10, 5));
    assert!(!element_contains(Some([5, 5, 5, 10]), 5, 6));
    assert!(!element_contains(None, 0, 0));
    let rects = vec![Some([0, 0, 100, 100]), Some([0, 0, 50, 50]), None];
    assert_eq!(topmost_containing(&rects, 10, 10), Some(1));
    assert_eq!(topmost_containing(&rects, 70, 70), Some(0));
    assert_eq!(topmost_containing(&rects, 200, 200), None);
    assert_eq!(element_area(Some([1, 2, 11, 7])), 50);
    assert_eq!(element_area(None), i64::MAX);
    assert_eq!(smallest_area(&vec![9, 4, 7, 4]), Some(1));
    assert_eq!(smallest_area(&Vec::new()), None);
    let mut woken = WokenWindows::woken_windows();
    assert!(woken.needs_wake(5));
    woken.mark_woken(5);
    assert!(!woken.needs_wake(5));
}

#[test]
fn captured_frames_are_sized_before_publishing() {
    assert_eq!(publishable_len(2, 3, 24), Some(24));
    assert_eq!(publishable_len(2, 3, 100), Some(24));
    assert_eq!(publishable_len(2, 3, 23), None);
    assert_eq!(publishable_len(0, 3, 100), None);
    assert_eq!(publishable_len(-1, 3, 100), None);
    assert_eq!(publishable_len(30000, 30000, usize::MAX), None);
    assert_eq!(frame_bytes(2, 3), Some(24));
    assert_eq!(frame_bytes(0, 3), None);
    assert_eq!(frame_bytes(30000, 30000), None);
    assert_eq!(frame_bytes(16384, 32767), Some(16384 * 32767 * 4));
    let mut cache = BitmapCache::new();
    assert!(cache.bitmap_for(640, 480));
    assert!(!cache.bitmap_for(640, 480));
    assert!(cache.bitmap_for(800, 600));
    assert_eq!(cache.size, Some((800, 600)));
}

#[test]
fn window_styles_for_capture() {
    // WS_POPUP | WS_VISIBLE | WS_MAXIMIZE becomes an overlapped, visible window.
    let popup_max = (0x8000_0000u32 | 0x1000_0000 | 0x0100_0000) as i32;
    assert_eq!(game_window_style(popup_max), 0x1000_0000 | 0x00CF_0000);
    // WS_MINIMIZE | WS_VISIBLE | WS_CHILD keeps all but the minimized bit.
    assert_eq!(restored_style(0x2000_0000 | 0x1000_0000 | 0x4000_0000), 0x1000_0000 | 0x4000_0000);
}

#[test]
fn focus_inside_an_application_thread() {
    assert_eq!(thread_focus_choice(10, 0, Some((20, 30))), 10);
    assert_eq!(thread_focus_choice(10, 7, Some((20, 30))), 20);
    assert_eq!(thread_focus_choice(10, 7, Some((0, 30))), 30);
    assert_eq!(thread_focus_choice(10, 7, Some((0, 0))), 10);
    assert_eq!(thread_focus_choice(10, 7, None), 10);
}

#[test]
fn automation_actions_and_focus() {
    assert!(matches!(choose_invoke_action(true, true, true, true), InvokeAction::Expand));
    assert!(matches!(choose_invoke_action(false, true, true, true), InvokeAction::Invoke));
    assert!(matches!(choose_invoke_action(false, false, true, true), InvokeAction::Toggle));
    assert!(matches!(choose_invoke_action(false, false, false, true), InvokeAction::Select));
    assert!(matches!(choose_invoke_action(false, false, false, false), InvokeAction::Descendant));
    assert_eq!(pick_focused(&vec![(false, false), (true, false), (true, true)]), Some(Ok(2)));
    assert_eq!(pick_focused(&vec![(false, false), (true, false), (true, false)]), Some(Err(1)));
    assert_eq!(pick_focused(&vec![(false, true)]), None);
}
