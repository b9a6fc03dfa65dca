use vstd::prelude::*;

use crate::text::{contains, push_char, starts_with, str_contains, str_eq, str_starts_with};

verus! {

/// `WM_MOUSEMOVE`.
pub const WM_MOUSEMOVE: u32 = 0x0200;

/// `WM_MOUSEWHEEL`.
pub const WM_MOUSEWHEEL: u32 = 0x020A;

/// `WM_HSCROLL`.
pub const WM_HSCROLL: u32 = 0x0114;

/// `WM_KEYDOWN`.
pub const WM_KEYDOWN: u32 = 0x0100;

/// `WM_KEYUP`.
pub const WM_KEYUP: u32 = 0x0101;

/// `MK_LBUTTON`.
pub const MK_LBUTTON: u32 = 0x0001;

/// The `LPARAM` of a mouse message for a point in client coordinates:
/// negative coordinates clamp to 0, `y` in the high word, `x` in the low one.
pub open spec fn coords_lparam(x: i32, y: i32) -> isize {
    let ix: i32 = if x >= 0 { x } else { 0 };
    let iy: i32 = if y >= 0 { y } else { 0 };
    ((((iy as u32) << 16u32) | ((ix as u32) & 0xFFFFu32)) as isize)
}

/// Packs a client-space point into a mouse message's `LPARAM`.
pub fn pack_coords_i(x: i32, y: i32) -> (r: isize)
    ensures
        r == coords_lparam(x, y),
        0 <= x < 0x1_0000 && 0 <= y < 0x8000 ==> r == y * 0x1_0000 + x,
{
    let ix: i32 = if x >= 0 { x } else { 0 };
    let iy: i32 = if y >= 0 { y } else { 0 };
    let packed: u32 = ((iy as u32) << 16u32) | ((ix as u32) & 0xFFFFu32);
    proof {
        if 0 <= x < 0x1_0000 && 0 <= y < 0x8000 {
            let ux = ix as u32;
            let uy = iy as u32;
            assert(ux < 0x1_0000 && uy < 0x8000);
            assert((uy << 16u32) | (ux & 0xFFFFu32) == uy * 0x1_0000 + ux) by (bit_vector)
                requires
                    ux < 0x1_0000u32,
                    uy < 0x8000u32,
            ;
            assert(packed < 0x8000_0000);
        }
    }
    packed as isize
}

/// The `LPARAM` of a wheel message for a point in screen coordinates.
pub open spec fn screen_lparam(x: i32, y: i32) -> isize {
    ((((y as u32) << 16u32) | ((x as u32) & 0xFFFFu32)) as isize)
}

/// Packs a screen-space point into a wheel message's `LPARAM`.
pub fn pack_screen_coords(x: i32, y: i32) -> (r: isize)
    ensures
        r == screen_lparam(x, y),
{
    let packed: u32 = ((y as u32) << 16u32) | ((x as u32) & 0xFFFFu32);
    packed as isize
}

/// The `WPARAM` of a wheel message turning by `delta` (120 per notch): the
/// delta's low 16 bits in the high word.
pub open spec fn wheel_wparam_spec(delta: i32) -> usize {
    ((((delta as i16) as i32) as u32) << 16u32) as usize
}

pub fn wheel_wparam(delta: i32) -> (r: usize)
    ensures
        r == wheel_wparam_spec(delta),
{
    let d16 = delta as i16;
    let d32 = d16 as i32;
    let shifted: u32 = (d32 as u32) << 16u32;
    shifted as usize
}

/// What a wheel turn of `delta` on `axis` does: scroll the element under the
/// cursor through UI Automation (vertical turns only, `Some(up)`), and the
/// message posted to the window (`WM_MOUSEWHEEL` vertical, `WM_HSCROLL`
/// horizontal, none for another axis).
pub fn scroll_plan(axis: i32, delta: i32) -> (r: (Option<bool>, Option<u32>))
    ensures
        r.0 == (if axis == 0 && delta != 0 {
            Some(delta > 0)
        } else {
            None
        }),
        r.1 == (if axis == 0 {
            Some(WM_MOUSEWHEEL)
        } else if axis == 1 {
            Some(WM_HSCROLL)
        } else {
            None
        }),
{
    let uia = if axis == 0 && delta != 0 {
        Some(delta > 0)
    } else {
        None
    };
    let msg = if axis == 0 {
        Some(WM_MOUSEWHEEL)
    } else if axis == 1 {
        Some(WM_HSCROLL)
    } else {
        None
    };
    (uia, msg)
}

pub open spec fn is_chromium_top_class(c: Seq<char>) -> bool {
    c == "Chrome_WidgetWin_1"@ || c == "Chrome_WidgetWin_0"@
}

/// Classic list and header controls, which react to posted clicks and would
/// act twice if also driven through UI Automation.
pub open spec fn is_classic_list_class(c: Seq<char>) -> bool {
    ||| c == "SysListView32"@
    ||| c == "SysHeader32"@
    ||| c == "ListBox"@
    ||| starts_with(c, "WindowsForms10.SysListView"@)
}

/// Text controls, which place the caret and select text from posted clicks.
pub open spec fn is_text_edit_class(c: Seq<char>) -> bool {
    ||| c == "Edit"@
    ||| c == "RichEditD2DPT"@
    ||| starts_with(c, "RICHEDIT"@)
    ||| starts_with(c, "RichEdit"@)
    ||| c == "Scintilla"@
}

/// Windows whose actionable automation tree hangs off the top-level window.
pub open spec fn uses_top_window_uia(target_class: Seq<char>, top_class: Seq<char>) -> bool {
    ||| target_class == "Intermediate D3D Window"@
    ||| target_class == "Chrome_RenderWidgetHostHWND"@
    ||| is_chromium_top_class(top_class)
    ||| top_class == "SDL_app"@
}

/// Chromium and Electron windows.
pub open spec fn is_chromium_click(target_class: Seq<char>, top_class: Seq<char>) -> bool {
    is_chromium_top_class(top_class) || target_class == "Chrome_RenderWidgetHostHWND"@
}

/// How a click on a captured window is delivered.
pub struct ClickPlan {
    /// Send the activation handshake to the top window and the target.
    pub activate: bool,
    /// The window that gets `WM_MOUSEMOVE` and the button message, if any.
    pub post_to: Option<isize>,
    /// `WPARAM` of the `WM_MOUSEMOVE`: the button's flag while pressed.
    pub move_wparam: u32,
    /// `WPARAM` of the button message.
    pub wparam: u32,
    /// `LPARAM` of both messages.
    pub lparam: isize,
    /// Invoke the element under the click through UI Automation, resolved in
    /// this window's tree, focusing it only when allowed.
    pub uia: Option<(isize, bool)>,
}

/// The delivery of a click: `top` is the captured window, `target` the deepest
/// child under the point (`lx`, `ly`) in its client coordinates, their class
/// names `top_class` and `target_class`; `on_hidden` tells whether `top` lives
/// on the hidden desktop; `msg` and `mk_flag` are the button's message and flag.
pub open spec fn click_plan_spec(
    top: isize,
    target: isize,
    target_class: Seq<char>,
    top_class: Seq<char>,
    on_hidden: bool,
    button: u32,
    pressed: bool,
    mk_flag: u32,
    lx: i32,
    ly: i32,
) -> ClickPlan {
    let chromium = is_chromium_click(target_class, top_class);
    ClickPlan {
        activate: pressed && !chromium,
        post_to: if !chromium {
            Some(target)
        } else if pressed && on_hidden {
            Some(top)
        } else {
            None
        },
        move_wparam: if pressed { mk_flag } else { 0 },
        wparam: mk_flag,
        lparam: coords_lparam(lx, ly),
        uia: if pressed && button == 0x110 && !is_classic_list_class(target_class) && !is_text_edit_class(
            target_class,
        ) && !(chromium && !on_hidden) {
            Some((if uses_top_window_uia(target_class, top_class) { top } else { target }, on_hidden))
        } else {
            None
        },
    }
}

fn chromium_top(c: &str) -> (r: bool)
    ensures
        r == is_chromium_top_class(c@),
{
    str_eq(c, "Chrome_WidgetWin_1") || str_eq(c, "Chrome_WidgetWin_0")
}

/// Plans the delivery of a click (see `click_plan_spec`).
pub fn plan_click(
    top: isize,
    target: isize,
    target_class: &str,
    top_class: &str,
    on_hidden: bool,
    button: u32,
    pressed: bool,
    mk_flag: u32,
    lx: i32,
    ly: i32,
) -> (r: ClickPlan)
    ensures
        r == click_plan_spec(top, target, target_class@, top_class@, on_hidden, button, pressed, mk_flag, lx, ly),
{
    let classic_list = str_eq(target_class, "SysListView32") || str_eq(target_class, "SysHeader32") || str_eq(
        target_class,
        "ListBox",
    ) || str_starts_with(target_class, "WindowsForms10.SysListView");
    let text_edit = str_eq(target_class, "Edit") || str_eq(target_class, "RichEditD2DPT") || str_starts_with(
        target_class,
        "RICHEDIT",
    ) || str_starts_with(target_class, "RichEdit") || str_eq(target_class, "Scintilla");
    let top_uia = str_eq(target_class, "Intermediate D3D Window") || str_eq(
        target_class,
        "Chrome_RenderWidgetHostHWND",
    ) || chromium_top(top_class) || str_eq(top_class, "SDL_app");
    let chromium = chromium_top(top_class) || str_eq(target_class, "Chrome_RenderWidgetHostHWND");
    let post_to = if !chromium {
        Some(target)
    } else if pressed && on_hidden {
        Some(top)
    } else {
        None
    };
    let skip_uia = chromium && !on_hidden;
    let uia = if pressed && button == 0x110 && !classic_list && !text_edit && !skip_uia {
        Some((if top_uia { top } else { target }, on_hidden))
    } else {
        None
    };
    ClickPlan {
        activate: pressed && !chromium,
        post_to,
        move_wparam: if pressed { mk_flag } else { 0 },
        wparam: mk_flag,
        lparam: pack_coords_i(lx, ly),
        uia,
    }
}

/// Whether the input for `top` must be redirected to Chromium's render
/// widget: the target is the GPU compositing layer (for keys, also when the
/// target is the top window itself).
pub fn needs_widget_redirect(target: isize, top: isize, target_class: &str, for_keys: bool) -> (r: bool)
    ensures
        r == (target_class@ == "Intermediate D3D Window"@ || (for_keys && target == top)),
{
    str_eq(target_class, "Intermediate D3D Window") || (for_keys && target == top)
}

/// The window that receives a key: the child under the last pointer position
/// when there is one other than the top window, else the window focused in
/// the app's own thread.
pub fn key_target(top: isize, pointer_child: Option<isize>, focus_win: isize) -> (r: isize)
    ensures
        r == (match pointer_child {
            Some(c) => if c != top {
                c
            } else {
                focus_win
            },
            None => focus_win,
        }),
{
    match pointer_child {
        Some(c) => if c != top {
            c
        } else {
            focus_win
        },
        None => focus_win,
    }
}

/// The `LPARAM` of a key message: repeat count 1 on press; on release the
/// previous-state and transition bits; the scan code's low byte in bits 16–23.
pub open spec fn key_lparam_spec(scancode: u32, pressed: bool) -> isize {
    let scan = scancode & 0xFFu32;
    let repeat: u32 = if pressed { 1 } else { 0 };
    let up_bits: u32 = if !pressed { (1u32 << 30u32) | (1u32 << 31u32) } else { 0 };
    ((repeat | (scan << 16u32) | up_bits) as isize)
}

pub fn key_lparam(scancode: u32, pressed: bool) -> (r: isize)
    ensures
        r == key_lparam_spec(scancode, pressed),
{
    let scan = scancode & 0xFFu32;
    let repeat: u32 = if pressed { 1 } else { 0 };
    let up_bits: u32 = if !pressed { (1u32 << 30u32) | (1u32 << 31u32) } else { 0 };
    (repeat | (scan << 16u32) | up_bits) as isize
}

/// Windows that ignore posted characters and take text through UI Automation.
pub open spec fn is_uwp_class(c: Seq<char>) -> bool {
    ||| contains(c, "Microsoft.UI."@)
    ||| contains(c, "Windows.UI."@)
    ||| contains(c, "ApplicationFrameWindow"@)
    ||| c == "SDL_app"@
}

/// Whether a key's characters hold printable text.
pub open spec fn produces_text(chars: Seq<u16>) -> bool {
    exists|i: int| 0 <= i < chars.len() && chars[i] >= 0x20 && chars[i] != 0x7F
}

/// Whether the UTF-16 unit `ch` is printable (not a control character).
pub open spec fn is_printable(ch: u16) -> bool {
    ch >= 0x20 && ch != 0x7F
}

/// The characters posted as `WM_CHAR`: the printable ones. Control output
/// (backspace, tab, return, delete) travels as the key message alone.
pub open spec fn postable_chars(chars: Seq<u16>) -> Seq<u16> {
    chars.filter(|ch: u16| is_printable(ch))
}

/// The text of the printable characters that are Unicode scalar values.
pub open spec fn typed_text(chars: Seq<u16>) -> Seq<char>
    decreases chars.len(),
{
    if chars.len() == 0 {
        Seq::empty()
    } else {
        let t = typed_text(chars.drop_last());
        let ch = chars.last();
        if is_printable(ch) && !(0xD800 <= ch <= 0xDFFF) {
            t.push((ch as u32) as char)
        } else {
            t
        }
    }
}

/// Text typed from `chars` comes from a printable character.
pub proof fn lemma_typed_text_printable(chars: Seq<u16>)
    ensures
        typed_text(chars).len() > 0 ==> produces_text(chars),
    decreases chars.len(),
{
    if chars.len() > 0 {
        let init = chars.drop_last();
        lemma_typed_text_printable(init);
        if typed_text(init).len() > 0 {
            let i = choose|i: int| 0 <= i < init.len() && init[i] >= 0x20 && init[i] != 0x7F;
            assert(chars[i] == init[i]);
        } else if typed_text(chars).len() > 0 {
            assert(chars[chars.len() - 1] == chars.last());
        }
    }
}

/// How a key is delivered to a captured window.
pub struct KeyPlan {
    /// Post `WM_KEYDOWN`/`WM_KEYUP` (not for the press of a printable key,
    /// whose character is posted instead).
    pub post_key: bool,
    /// The characters posted as `WM_CHAR`, in order: only for the press of
    /// a printable key, which is then not posted as a key message.
    pub chars: Vec<u16>,
    /// Text appended through UI Automation, with whether focusing is allowed.
    pub uia_text: Option<(String, bool)>,
}

/// The delivery of a key for a window of class `top_class`, `chars` being
/// what the key types (nothing on release) and `on_hidden` whether the
/// window lives on the hidden desktop.
pub open spec fn key_plan_ok(p: KeyPlan, top_class: Seq<char>, chars: Seq<u16>, pressed: bool, on_hidden: bool) -> bool {
    let uwp = is_uwp_class(top_class);
    &&& p.post_key == !(pressed && produces_text(chars))
    &&& p.chars@ == (if pressed && !uwp && produces_text(chars) {
        postable_chars(chars)
    } else {
        Seq::empty()
    })
    &&& match p.uia_text {
        Some((t, allow)) => uwp && pressed && chars.len() > 0 && typed_text(chars).len() > 0 && t@ == typed_text(chars)
            && allow == (on_hidden && !is_chromium_top_class(top_class)),
        None => !(uwp && pressed && chars.len() > 0 && typed_text(chars).len() > 0),
    }
}

/// `char::from_u32`: the character of code point `u`, if it is a Unicode
/// scalar value.
#[verifier::external_body]
fn char_from_u32(u: u32) -> (r: Option<char>)
    ensures
        r is Some <==> (u < 0xD800 || (0xE000 <= u && u <= 0x10FFFF)),
        r matches Some(c) ==> c == (u as char),
{
    char::from_u32(u)
}

/// Plans the delivery of a key (see `key_plan_ok`).
pub fn plan_key(top_class: &str, chars: &Vec<u16>, pressed: bool, on_hidden: bool) -> (r: KeyPlan)
    ensures
        key_plan_ok(r, top_class@, chars@, pressed, on_hidden),
{
    let uwp = str_contains(top_class, "Microsoft.UI.") || str_contains(top_class, "Windows.UI.") || str_contains(
        top_class,
        "ApplicationFrameWindow",
    ) || str_eq(top_class, "SDL_app");
    let chromium = chromium_top(top_class);
    let mut text = false;
    let mut posted: Vec<u16> = Vec::new();
    let mut typed = String::new();
    let ghost pq = |ch: u16| is_printable(ch);
    let mut i: usize = 0;
    while i < chars.len()
        invariant
            i <= chars@.len(),
            pq == (|ch: u16| is_printable(ch)),
            text == exists|j: int| 0 <= j < i && chars@[j] >= 0x20 && chars@[j] != 0x7F,
            posted@ == chars@.take(i as int).filter(pq),
            typed@ == typed_text(chars@.take(i as int)),
        decreases chars.len() - i,
    {
        let ch = chars[i];
        proof {
            assert(chars@.take(i + 1).drop_last() =~= chars@.take(i as int));
            assert(chars@.take(i + 1).last() == ch);
            chars@.take(i as int).lemma_filter_push(ch, pq);
            assert(chars@.take(i + 1) =~= chars@.take(i as int).push(ch));
        }
        if ch >= 0x20 && ch != 0x7F {
            text = true;
        }
        if ch >= 0x20 && ch != 0x7F {
            posted.push(ch);
        }
        let ghost typed0 = typed@;
        if ch >= 0x20 && ch != 0x7F {
            if let Some(c) = char_from_u32(ch as u32) {
                push_char(&mut typed, c);
            }
        }
        proof {
            let t = chars@.take(i + 1);
            assert(typed_text(t) == (if is_printable(ch) && !(0xD800 <= ch <= 0xDFFF) {
                typed_text(t.drop_last()).push((ch as u32) as char)
            } else {
                typed_text(t.drop_last())
            }));
        }
        i += 1;
    }
    assert(chars@.take(chars@.len() as int) =~= chars@);
    let uia_text = if uwp && pressed && chars.len() > 0 && !typed.as_str().is_empty() {
        Some((typed, on_hidden && !chromium))
    } else {
        None
    };
    KeyPlan {
        post_key: !(pressed && text),
        chars: if pressed && !uwp && text { posted } else { Vec::new() },
        uia_text,
    }
}

/// The window that holds the keyboard inside `top`'s own thread: the
/// thread's focus window, else its active window, else `top` itself (also
/// when the thread is unknown, `thread` 0, or its state could not be read,
/// `info` `None`); `info` holds the focus and active windows, 0 for none.
pub fn thread_focus_choice(top: isize, thread: u32, info: Option<(isize, isize)>) -> (r: isize)
    ensures
        r == (if thread == 0 {
            top
        } else {
            match info {
                Some((focus, active)) => if focus != 0 {
                    focus
                } else if active != 0 {
                    active
                } else {
                    top
                },
                None => top,
            }
        }),
{
    if thread == 0 {
        return top;
    }
    match info {
        Some((focus, active)) => if focus != 0 {
            focus
        } else if active != 0 {
            active
        } else {
            top
        },
        None => top,
    }
}

} // verus!
