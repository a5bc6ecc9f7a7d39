//! macOS privacy permissions: Screen Recording, Accessibility, Input Monitoring.

use crate::text::{lower, lowercase, same, trim, trimmed};
use vstd::prelude::*;

verus! {

/// The System Settings page for a permission, by any of its names.
pub open spec fn pane(which: Seq<char>) -> Option<Seq<char>> {
    let w = lower(trimmed(which));
    if w == "screen"@ || w == "screencapture"@ || w == "capture"@ {
        Some("x-apple.systempreferences:com.apple.preference.security?Privacy_ScreenCapture"@)
    } else if w == "accessibility"@ || w == "ax"@ {
        Some("x-apple.systempreferences:com.apple.preference.security?Privacy_Accessibility"@)
    } else if w == "input"@ || w == "listen"@ || w == "hid"@ || w == "monitoring"@ {
        Some("x-apple.systempreferences:com.apple.preference.security?Privacy_ListenEvent"@)
    } else {
        None
    }
}

pub fn privacy_pane_url(which: &str) -> (r: Option<&'static str>)
    ensures
        match r {
            Some(url) => pane(which@) == Some(url@),
            None => pane(which@) is None,
        },
{
    let t = lowercase(trim(which).as_str());
    let w = t.as_str();
    if same(w, "screen") || same(w, "screencapture") || same(w, "capture") {
        Some("x-apple.systempreferences:com.apple.preference.security?Privacy_ScreenCapture")
    } else if same(w, "accessibility") || same(w, "ax") {
        Some("x-apple.systempreferences:com.apple.preference.security?Privacy_Accessibility")
    } else if same(w, "input") || same(w, "listen") || same(w, "hid") || same(w, "monitoring") {
        Some("x-apple.systempreferences:com.apple.preference.security?Privacy_ListenEvent")
    } else {
        None
    }
}

/// Whether the screen may be recorded, from the system's answer; a system that
/// does not ask for the permission has none.
pub fn screen_ok(preflight: Option<bool>) -> (r: bool)
    ensures
        r == (preflight != Some(false)),
{
    match preflight {
        Some(ok) => ok,
        None => true,
    }
}

/// Whether input may be injected.
pub fn accessibility_ok(trusted: Option<bool>) -> (r: bool)
    ensures
        r == (trusted != Some(false)),
{
    match trusted {
        Some(ok) => ok,
        None => true,
    }
}

/// The system's answer when it grants access to input events.
pub const HID_GRANTED: u32 = 0;

/// Whether input events may be listened to.
pub fn input_ok(access: Option<u32>) -> (r: bool)
    ensures
        r == (access is None || access == Some(HID_GRANTED)),
{
    match access {
        Some(a) => a == HID_GRANTED,
        None => true,
    }
}

/// The page to open for a permission, or why none is opened.
pub fn open_privacy_pane(which: &str, macos: bool) -> (r: Result<&'static str, &'static str>)
    ensures
        match (pane(which@), r) {
            (None, Err(e)) => e@ == "unknown pane"@,
            (Some(url), Ok(u)) => macos && u@ == url,
            (Some(_), Err(e)) => !macos && e@ == "macos only"@,
            _ => false,
        },
{
    match privacy_pane_url(which) {
        None => Err("unknown pane"),
        Some(url) => if macos {
            Ok(url)
        } else {
            Err("macos only")
        },
    }
}

/// What came of opening a page, from whether the command ran and succeeded.
pub fn pane_opened(succeeded: Option<bool>) -> (r: Result<(), &'static str>)
    ensures
        match r {
            Ok(_) => succeeded == Some(true),
            Err(e) => succeeded != Some(true) && e@ == "open failed"@,
        },
{
    match succeeded {
        Some(true) => Ok(()),
        _ => Err("open failed"),
    }
}

/// Each permission has one page, by any of its names, in capitals or not and
/// with white space around them or not.
pub proof fn panes_go_by_any_name(which: Seq<char>)
    ensures
        ({
            let w = lower(trimmed(which));
            &&& (w == "screen"@ || w == "screencapture"@ || w == "capture"@) ==> pane(which) == Some(
                "x-apple.systempreferences:com.apple.preference.security?Privacy_ScreenCapture"@,
            )
            &&& (w == "accessibility"@ || w == "ax"@) ==> pane(which) == Some(
                "x-apple.systempreferences:com.apple.preference.security?Privacy_Accessibility"@,
            )
            &&& (w == "input"@ || w == "listen"@ || w == "hid"@ || w == "monitoring"@) ==> pane(which)
                == Some(
                "x-apple.systempreferences:com.apple.preference.security?Privacy_ListenEvent"@,
            )
            &&& w.len() == 0 || w.len() == 1 || w.len() == 4 ==> pane(which) is None
        }),
{
    reveal_strlit("screen");
    reveal_strlit("screencapture");
    reveal_strlit("capture");
    reveal_strlit("accessibility");
    reveal_strlit("ax");
    reveal_strlit("input");
    reveal_strlit("listen");
    reveal_strlit("hid");
    reveal_strlit("monitoring");
    assert("screen"@[0] == 's' && "screencapture"@[0] == 's' && "capture"@[0] == 'c'
        && "accessibility"@[0] == 'a' && "ax"@[0] == 'a' && "input"@[0] == 'i' && "listen"@[0] == 'l'
        && "hid"@[0] == 'h' && "monitoring"@[0] == 'm');
}

} // verus!
