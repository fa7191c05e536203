//! Clicks that are put in to set the web view's pointer right after a drag.

use vstd::prelude::*;
use crate::native_dnd;
use crate::native_dnd::{DisplayServer, Environment, KeptServer};
use crate::text;

verus! {

/// What came of putting in a click.
#[derive(Clone, Copy, Debug, PartialEq, Eq, Structural)]
pub enum InjectResult {
    Success,
    /// Wayland does not let the click in.
    LibeiUnavailable,
    /// X does not let the click in.
    X11Unavailable,
    UnknownDisplayServer,
    Error,
}

/// The display server, where the toolkit's backend tells as well: it is asked
/// after the session's type and before the name of the X display.
pub open spec fn input_server(e: Environment) -> DisplayServer {
    if e.wayland_display {
        DisplayServer::Wayland
    } else {
        match native_dnd::session_server(e) {
            Some(s) => s,
            None => if e.gdk_backend is Some && text::has_sub(e.gdk_backend->0@, "wayland"@) {
                DisplayServer::Wayland
            } else if (e.gdk_backend is Some && text::has_sub(e.gdk_backend->0@, "x11"@))
                || e.display {
                DisplayServer::X11
            } else {
                DisplayServer::Unknown
            },
        }
    }
}

/// The display server, by all that the environment says.
pub fn detect_display_server(e: &Environment) -> (r: DisplayServer)
    ensures
        r == input_server(*e),
{
    if e.wayland_display {
        return DisplayServer::Wayland;
    }
    if let Some(s) = native_dnd::server_of_session(e) {
        return s;
    }
    if let Some(b) = &e.gdk_backend {
        if text::contains(b.as_str(), "wayland") {
            return DisplayServer::Wayland;
        }
        if text::contains(b.as_str(), "x11") {
            return DisplayServer::X11;
        }
    }
    if e.display {
        DisplayServer::X11
    } else {
        DisplayServer::Unknown
    }
}

/// The display server that input goes to, by what the environment said when it
/// was first asked.
pub fn kept_display_server(kept: &mut KeptServer, e: &Environment) -> (r: DisplayServer)
    ensures
        r == native_dnd::first_found(old(kept).kept, input_server(*e)),
        final(kept).kept == Some(r),
{
    kept.keep(detect_display_server(e))
}

/// Whether there is Wayland.
pub fn is_wayland(kept: &mut KeptServer, e: &Environment) -> (r: bool)
    ensures
        r == (native_dnd::first_found(old(kept).kept, input_server(*e)) == DisplayServer::Wayland),
        final(kept).kept == Some(native_dnd::first_found(old(kept).kept, input_server(*e))),
{
    match kept_display_server(kept, e) {
        DisplayServer::Wayland => true,
        _ => false,
    }
}

/// Whether there is X.
pub fn is_x11(kept: &mut KeptServer, e: &Environment) -> (r: bool)
    ensures
        r == (native_dnd::first_found(old(kept).kept, input_server(*e)) == DisplayServer::X11),
        final(kept).kept == Some(native_dnd::first_found(old(kept).kept, input_server(*e))),
{
    match kept_display_server(kept, e) {
        DisplayServer::X11 => true,
        _ => false,
    }
}

/// Where no backend of the toolkit is named, both searches find the same display
/// server.
pub proof fn law_searches_agree(e: Environment)
    requires
        e.gdk_backend is None,
    ensures
        input_server(e) == native_dnd::display_server(e),
{
}

/// How far a click came that the toolkit simulates.
pub struct SimulatedClick {
    pub has_display: bool,
    pub has_root_window: bool,
    pub pressed: bool,
    pub released: bool,
}

/// What came of a click that the toolkit simulates.
pub fn inject_click_gdk(c: &SimulatedClick) -> (r: InjectResult)
    ensures
        r == if c.has_display && c.has_root_window && c.pressed && c.released {
            InjectResult::Success
        } else {
            InjectResult::X11Unavailable
        },
{
    if c.has_display && c.has_root_window && c.pressed && c.released {
        InjectResult::Success
    } else {
        InjectResult::X11Unavailable
    }
}

/// What came of putting in a click: with X it is tried directly, and then
/// simulated; with Wayland it is not tried.
pub open spec fn click_result(server: DisplayServer, direct: bool, c: SimulatedClick) -> InjectResult {
    match server {
        DisplayServer::X11 => if direct || (c.has_display && c.has_root_window && c.pressed
            && c.released) {
            InjectResult::Success
        } else {
            InjectResult::X11Unavailable
        },
        DisplayServer::Wayland => InjectResult::LibeiUnavailable,
        DisplayServer::Unknown => InjectResult::UnknownDisplayServer,
    }
}

/// What came of putting in a click. `direct` says whether it could be put in
/// directly, and `simulated` how far it came where it could not.
pub fn inject_click(
    kept: &mut KeptServer,
    e: &Environment,
    direct: bool,
    simulated: &SimulatedClick,
) -> (r: InjectResult)
    ensures
        r == click_result(
            native_dnd::first_found(old(kept).kept, input_server(*e)),
            direct,
            *simulated,
        ),
        final(kept).kept == Some(native_dnd::first_found(old(kept).kept, input_server(*e))),
{
    match kept_display_server(kept, e) {
        DisplayServer::X11 => {
            if direct {
                InjectResult::Success
            } else {
                inject_click_gdk(simulated)
            }
        },
        DisplayServer::Wayland => InjectResult::LibeiUnavailable,
        DisplayServer::Unknown => InjectResult::UnknownDisplayServer,
    }
}

/// Whether the page has to set its pointer right itself, since no click could be
/// put in.
pub fn inject_click_or_need_fallback(
    kept: &mut KeptServer,
    e: &Environment,
    direct: bool,
    simulated: &SimulatedClick,
) -> (r: bool)
    ensures
        r == (click_result(
            native_dnd::first_found(old(kept).kept, input_server(*e)),
            direct,
            *simulated,
        ) != InjectResult::Success),
        final(kept).kept == Some(native_dnd::first_found(old(kept).kept, input_server(*e))),
{
    match inject_click(kept, e, direct, simulated) {
        InjectResult::Success => false,
        _ => true,
    }
}

/// A click comes about exactly where X can be had and puts it in: directly, or by a
/// press and a release on a display with a root window.
pub proof fn law_clicks_come_about(server: DisplayServer, direct: bool, c: SimulatedClick)
    ensures
        click_result(server, direct, c) == InjectResult::Success <==> server == DisplayServer::X11
            && (direct || (c.has_display && c.has_root_window && c.pressed && c.released)),
        server == DisplayServer::Wayland <==> click_result(server, direct, c)
            == InjectResult::LibeiUnavailable,
        server == DisplayServer::Unknown <==> click_result(server, direct, c)
            == InjectResult::UnknownDisplayServer,
{
}

} // verus!
