//! Window commands from the page, global shortcut messages, and window colours.
use crate::text::{contains, seq_contains, str_eq};
use crate::theme::{hex_val, skip_hash};
use vstd::prelude::*;
use vstd::utf8::encode_utf8;

verus! {

/// What the window is asked to do.
#[derive(Debug, Clone, Copy, PartialEq, Eq, Structural)]
pub enum WindowStep {
    Minimize,
    Maximize,
    Unmaximize,
    Close,
    Hide,
    /// Show and focus the window, un-minimising it first when `unminimize`.
    Show { unminimize: bool },
}

/// The step for a window action given the window's state: `maximize` toggles,
/// `toggle-visible` hides a visible window and shows (and un-minimises) a hidden one;
/// an unknown action is refused.
pub open spec fn window_plan(action: Seq<char>, maximized: bool, visible: bool, minimized: bool) -> Result<WindowStep, Seq<char>> {
    if action == "minimize"@ {
        Ok(WindowStep::Minimize)
    } else if action == "maximize"@ {
        Ok(if maximized { WindowStep::Unmaximize } else { WindowStep::Maximize })
    } else if action == "close"@ {
        Ok(WindowStep::Close)
    } else if action == "toggle-visible"@ {
        Ok(if visible { WindowStep::Hide } else { WindowStep::Show { unminimize: minimized } })
    } else {
        Err("未知窗口动作: "@ + action)
    }
}

pub fn window_action_plan(action: &str, maximized: bool, visible: bool, minimized: bool) -> (r: Result<WindowStep, String>)
    ensures
        match window_plan(action@, maximized, visible, minimized) {
            Ok(step) => r == Ok::<WindowStep, String>(step),
            Err(m) => r matches Err(e) && e@ == m,
        },
{
    if str_eq(action, "minimize") {
        Ok(WindowStep::Minimize)
    } else if str_eq(action, "maximize") {
        Ok(if maximized { WindowStep::Unmaximize } else { WindowStep::Maximize })
    } else if str_eq(action, "close") {
        Ok(WindowStep::Close)
    } else if str_eq(action, "toggle-visible") {
        Ok(if visible { WindowStep::Hide } else { WindowStep::Show { unminimize: minimized } })
    } else {
        let mut m = String::from_str("未知窗口动作: ");
        m.append(action);
        Err(m)
    }
}

/// The message of a failed shortcut registration: a shortcut another application
/// holds is reported as taken, anything else with the error text.
pub open spec fn shortcut_error_text(shortcut: Seq<char>, message: Seq<char>) -> Seq<char> {
    if seq_contains(message, "already registered"@) || seq_contains(message, "already in use"@) {
        "快捷键 "@ + shortcut + " 已被其他应用占用"@
    } else {
        "注册快捷键 "@ + shortcut + " 失败: "@ + message
    }
}

pub fn shortcut_error(shortcut: &str, message: &str) -> (r: String)
    ensures
        r@ == shortcut_error_text(shortcut@, message@),
{
    if contains(message, "already registered") || contains(message, "already in use") {
        let mut m = String::from_str("快捷键 ");
        m.append(shortcut);
        m.append(" 已被其他应用占用");
        m
    } else {
        let mut m = String::from_str("注册快捷键 ");
        m.append(shortcut);
        m.append(" 失败: ");
        m.append(message);
        m
    }
}

/// Two bytes read by `u8::from_str_radix(_, 16)`, if they form such a number.
pub open spec fn radix_pair_opt(b0: u8, b1: u8) -> Option<nat> {
    match (hex_val(b0), hex_val(b1)) {
        (Some(h), Some(l)) => Some(16 * h + l),
        (None, Some(l)) => if b0 == 43 {
            Some(l)
        } else {
            None
        },
        _ => None,
    }
}

pub open spec fn continuation(b: u8) -> bool {
    0x80 <= b && b < 0xc0
}

/// The bytes of a colour after its leading `#`s.
pub open spec fn color_bytes(hex: Seq<char>) -> Seq<u8> {
    skip_hash(encode_utf8(hex))
}

/// An opaque window colour from `#rrggbb`: exactly six bytes after the `#`s, each
/// pair a base-16 number.
pub open spec fn window_color(hex: Seq<char>) -> Option<(u8, u8, u8, u8)> {
    let v = color_bytes(hex);
    if v.len() != 6 {
        None
    } else {
        match (radix_pair_opt(v[0], v[1]), radix_pair_opt(v[2], v[3]), radix_pair_opt(v[4], v[5])) {
            (Some(r), Some(g), Some(b)) => Some((r as u8, g as u8, b as u8, 255u8)),
            _ => None,
        }
    }
}

fn pair_value(b0: u8, b1: u8) -> (r: Option<u8>)
    ensures
        match radix_pair_opt(b0, b1) {
            Some(v) => r == Some(v as u8) && v < 256,
            None => r is None,
        },
{
    let h = crate::theme::hex_digit_value(b0);
    let l = crate::theme::hex_digit_value(b1);
    match (h, l) {
        (Some(h), Some(l)) => Some(h * 16 + l),
        (None, Some(l)) => if b0 == 43 {
            Some(l)
        } else {
            None
        },
        _ => None,
    }
}

/// The window background for a `#rrggbb` colour. Slicing the pairs requires the
/// byte positions 2 and 4 to start characters when there are six bytes.
pub fn parse_window_color(hex: &str) -> (r: Option<(u8, u8, u8, u8)>)
    requires
        color_bytes(hex@).len() == 6 ==> !continuation(color_bytes(hex@)[2]) && !continuation(
            color_bytes(hex@)[4],
        ),
    ensures
        r == window_color(hex@),
{
    let bytes = hex.as_bytes();
    let ghost b = bytes@;
    let mut i: usize = 0;
    assert(b.skip(0) =~= b);
    while i < bytes.len() && bytes[i] == 35
        invariant
            i <= b.len(),
            bytes@ == b,
            skip_hash(b) == skip_hash(b.skip(i as int)),
        decreases b.len() - i,
    {
        assert(b.skip(i as int).drop_first() =~= b.skip(i + 1));
        i = i + 1;
    }
    assert(skip_hash(b.skip(i as int)) == b.skip(i as int));
    assert(b == encode_utf8(hex@));
    let ghost v = b.skip(i as int);
    if bytes.len() - i != 6 {
        return None;
    }
    assert(v[0] == bytes[i as int] && v[1] == bytes[i + 1] && v[2] == bytes[i + 2]);
    assert(v[3] == bytes[i + 3] && v[4] == bytes[i + 4] && v[5] == bytes[i + 5]);
    let r = match pair_value(bytes[i], bytes[i + 1]) {
        Some(x) => x,
        None => return None,
    };
    let g = match pair_value(bytes[i + 2], bytes[i + 3]) {
        Some(x) => x,
        None => return None,
    };
    let bl = match pair_value(bytes[i + 4], bytes[i + 5]) {
        Some(x) => x,
        None => return None,
    };
    Some((r, g, bl, 255))
}

} // verus!
