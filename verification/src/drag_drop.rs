//! Drags out of a window, whatever the operating system.

use vstd::prelude::*;
use crate::linux;
use crate::linux::LinuxDrag;
use crate::macos;
use crate::sanitize::Platform;
use crate::text;
use crate::windows;
use crate::windows::InternalDrag;

verus! {

/// What a window hands over for a drag.
pub struct NativeDragData {
    pub text_plain: Option<String>,
    pub text_html: Option<String>,
    pub text_vnd_tiddler: Option<String>,
    pub text_uri_list: Option<String>,
    pub text_x_moz_url: Option<String>,
    pub url: Option<String>,
    /// The drag is one of selected text.
    pub is_text_selection_drag: bool,
}

/// The drag of the operating system that there is.
pub enum NativeDrag {
    Linux(LinuxDrag),
    Windows(Option<windows::OutgoingDragState>, InternalDrag),
    MacOs(Option<macos::OutgoingDragState>),
}

/// The data carries what the window handed over.
pub open spec fn carries_for_linux(out: linux::OutgoingDragData, d: NativeDragData) -> bool {
    &&& text::opt_view(out.text_plain) == text::opt_view(d.text_plain)
    &&& text::opt_view(out.text_html) == text::opt_view(d.text_html)
    &&& text::opt_view(out.text_vnd_tiddler) == text::opt_view(d.text_vnd_tiddler)
    &&& text::opt_view(out.text_uri_list) == text::opt_view(d.text_uri_list)
    &&& text::opt_view(out.text_x_moz_url) == text::opt_view(d.text_x_moz_url)
    &&& text::opt_view(out.url) == text::opt_view(d.url)
    &&& out.is_text_selection_drag == d.is_text_selection_drag
}

/// The data carries what the window handed over.
pub open spec fn carries_for_windows(out: windows::OutgoingDragData, d: NativeDragData) -> bool {
    &&& text::opt_view(out.text_plain) == text::opt_view(d.text_plain)
    &&& text::opt_view(out.text_html) == text::opt_view(d.text_html)
    &&& text::opt_view(out.text_vnd_tiddler) == text::opt_view(d.text_vnd_tiddler)
    &&& text::opt_view(out.text_uri_list) == text::opt_view(d.text_uri_list)
    &&& text::opt_view(out.text_x_moz_url) == text::opt_view(d.text_x_moz_url)
    &&& text::opt_view(out.url) == text::opt_view(d.url)
    &&& out.is_text_selection_drag == d.is_text_selection_drag
    &&& out.source_window is None
}

/// What a window hands over, for Linux and macOS.
pub fn outgoing_for_linux(d: NativeDragData) -> (r: linux::OutgoingDragData)
    ensures
        carries_for_linux(r, d),
{
    linux::OutgoingDragData {
        text_plain: d.text_plain,
        text_html: d.text_html,
        text_vnd_tiddler: d.text_vnd_tiddler,
        text_uri_list: d.text_uri_list,
        text_x_moz_url: d.text_x_moz_url,
        url: d.url,
        is_text_selection_drag: d.is_text_selection_drag,
    }
}

/// What a window hands over, for Windows.
pub fn outgoing_for_windows(d: NativeDragData) -> (r: windows::OutgoingDragData)
    ensures
        carries_for_windows(r, d),
{
    windows::OutgoingDragData {
        text_plain: d.text_plain,
        text_html: d.text_html,
        text_vnd_tiddler: d.text_vnd_tiddler,
        text_uri_list: d.text_uri_list,
        text_x_moz_url: d.text_x_moz_url,
        url: d.url,
        is_text_selection_drag: d.is_text_selection_drag,
        source_window: None,
    }
}

/// Something of the window with the label is on its way, with the data.
pub open spec fn is_under_way(drag: NativeDrag, label: Seq<char>, data: NativeDragData) -> bool {
    match drag {
        NativeDrag::Linux(d) => d.outgoing is Some && d.outgoing->0.source_window_label@ == label
            && !d.outgoing->0.data_was_requested && carries_for_linux(d.outgoing->0.data, data),
        NativeDrag::Windows(out, _) => out is Some && out->0.source_window_label@ == label
            && carries_for_windows(out->0.data, data),
        NativeDrag::MacOs(out) => out is Some && out->0.source_window_label@ == label
            && !out->0.data_was_requested && carries_for_linux(out->0.data, data),
    }
}

/// Nothing is on its way.
pub open spec fn is_over(drag: NativeDrag) -> bool {
    match drag {
        NativeDrag::Linux(d) => d.outgoing is None && d.image is None && d.active_window is None
            && !d.source_ready,
        NativeDrag::Windows(out, internal) => out is None && internal.state
            == windows::DRAG_STATE_NONE,
        NativeDrag::MacOs(out) => out is None,
    }
}

/// The two are drags of the same operating system.
pub open spec fn same_system(a: NativeDrag, b: NativeDrag) -> bool {
    match (a, b) {
        (NativeDrag::Linux(_), NativeDrag::Linux(_)) => true,
        (NativeDrag::Windows(_, _), NativeDrag::Windows(_, _)) => true,
        (NativeDrag::MacOs(_), NativeDrag::MacOs(_)) => true,
        _ => false,
    }
}

/// The drag with nothing on its way: the window that holds it and what is under
/// the pointer stay.
pub open spec fn cleaned_up(drag: NativeDrag) -> NativeDrag {
    match drag {
        NativeDrag::Linux(d) => NativeDrag::Linux(
            LinuxDrag {
                outgoing: None,
                image: None,
                active_window: None,
                source_ready: false,
                drag_target: d.drag_target,
            },
        ),
        NativeDrag::Windows(_, internal) => NativeDrag::Windows(
            None,
            InternalDrag { state: windows::DRAG_STATE_NONE, ..internal },
        ),
        NativeDrag::MacOs(_) => NativeDrag::MacOs(None),
    }
}

/// Makes ready for a drag that may leave the window.
pub fn prepare_native_drag_impl(drag: &mut NativeDrag, label: &str, data: NativeDragData) -> (r:
    Result<(), String>)
    ensures
        r is Ok,
        same_system(*final(drag), *old(drag)),
        is_under_way(*final(drag), label@, data),
        match (*old(drag), *final(drag)) {
            (NativeDrag::Linux(a), NativeDrag::Linux(b)) => b.source_ready && b.image == a.image
                && b.active_window == a.active_window && b.drag_target == a.drag_target,
            (NativeDrag::Windows(_, a), NativeDrag::Windows(_, b)) => a == b,
            _ => true,
        },
{
    match drag {
        NativeDrag::Linux(d) => {
            d.prepare_native_drag(label, outgoing_for_linux(data));
        },
        NativeDrag::Windows(out, _) => {
            windows::prepare_native_drag(out, label, outgoing_for_windows(data));
        },
        NativeDrag::MacOs(out) => {
            macos::prepare_native_drag(out, label, outgoing_for_linux(data));
        },
    }
    Ok(())
}

/// Starts a drag that leaves the window. Its picture is kept on Linux, where one
/// comes with it; the other systems take it as it is.
pub fn start_native_drag_impl(
    drag: &mut NativeDrag,
    label: &str,
    data: NativeDragData,
    image_data: Option<Vec<u8>>,
    image_offset_x: Option<i32>,
    image_offset_y: Option<i32>,
) -> (r: Result<(), String>)
    ensures
        r is Ok,
        same_system(*final(drag), *old(drag)),
        is_under_way(*final(drag), label@, data),
        match (*old(drag), *final(drag)) {
            (NativeDrag::Linux(a), NativeDrag::Linux(b)) => {
                &&& text::opt_view(b.active_window) == Some(label@)
                &&& match image_data {
                    Some(png) => b.image is Some && b.image->0.png@ == png@ && b.image->0.offset_x
                        == linux::kept_offset(image_offset_x) && b.image->0.offset_y
                        == linux::kept_offset(image_offset_y),
                    None => b.image == a.image,
                }
                &&& b.source_ready == a.source_ready
                &&& b.drag_target == a.drag_target
            },
            (NativeDrag::Windows(_, a), NativeDrag::Windows(_, b)) => a == b,
            _ => true,
        },
{
    match drag {
        NativeDrag::Linux(d) => {
            d.start_native_drag(
                label,
                outgoing_for_linux(data),
                image_data,
                image_offset_x,
                image_offset_y,
            );
        },
        NativeDrag::Windows(out, _) => {
            windows::prepare_native_drag(out, label, outgoing_for_windows(data));
        },
        NativeDrag::MacOs(out) => {
            macos::prepare_native_drag(out, label, outgoing_for_linux(data));
        },
    }
    Ok(())
}

/// A drag is over, or was given up. Gives the window whose pointer is to be set
/// right, where there is one.
pub fn cleanup_native_drag_impl(drag: &mut NativeDrag) -> (r: Option<String>)
    ensures
        *final(drag) == cleaned_up(*old(drag)),
        is_over(*final(drag)),
        text::opt_view(r) == match *old(drag) {
            NativeDrag::Linux(d) => text::opt_view(d.active_window),
            _ => None,
        },
{
    match drag {
        NativeDrag::Linux(d) => d.cleanup_native_drag(),
        NativeDrag::Windows(out, internal) => {
            windows::cleanup_native_drag(out, internal);
            None
        },
        NativeDrag::MacOs(out) => {
            macos::cleanup_native_drag(out);
            None
        },
    }
}

/// Cleaning up a drag twice comes to the same as once.
pub proof fn law_cleaning_up_twice_is_once(drag: NativeDrag)
    ensures
        cleaned_up(cleaned_up(drag)) == cleaned_up(drag),
        is_over(cleaned_up(drag)),
        same_system(cleaned_up(drag), drag),
{
}

/// Another picture for a drag that is under way: none of the systems takes one.
pub fn update_drag_icon_impl(
    drag: &mut NativeDrag,
    _image_data: Vec<u8>,
    _offset_x: i32,
    _offset_y: i32,
) -> (r: Result<(), String>)
    ensures
        r is Ok,
        *final(drag) == *old(drag),
{
    Ok(())
}

/// The picture for the next drag, which only Linux takes.
pub fn set_pending_drag_icon_impl(
    drag: &mut NativeDrag,
    image_data: Vec<u8>,
    offset_x: i32,
    offset_y: i32,
) -> (r: Result<(), String>)
    ensures
        r is Ok,
        match (*old(drag), *final(drag)) {
            (NativeDrag::Linux(a), NativeDrag::Linux(b)) => {
                &&& b.image is Some
                &&& b.image->0.png@ == image_data@
                &&& b.image->0.offset_x == offset_x
                &&& b.image->0.offset_y == offset_y
                &&& b.outgoing == a.outgoing
                &&& b.active_window == a.active_window
                &&& b.source_ready == a.source_ready
                &&& b.drag_target == a.drag_target
            },
            (a, b) => a == b,
        },
{
    if let NativeDrag::Linux(d) = drag {
        d.set_pending_drag_icon(image_data, offset_x, offset_y);
    }
    Ok(())
}

/// Makes a window's view a place for drags or not: no system needs it, so
/// nothing changes.
pub fn set_drag_dest_enabled_impl(drag: &mut NativeDrag, _label: &str, _enabled: bool)
    ensures
        *final(drag) == *old(drag),
{
}

/// Whether the pointer is let go for a moment, so that the focus can change
/// during a drag: only on Linux, and where there is a display with a seat.
pub fn ungrab_seat_for_focus_impl(platform: Platform, has_display: bool, has_seat: bool) -> (r:
    bool)
    ensures
        r == (platform == Platform::Linux && has_display && has_seat),
{
    match platform {
        Platform::Linux => has_display && has_seat,
        _ => false,
    }
}

/// What is on its way carries every text that the window handed over, on each of
/// the systems, and nothing is on its way once it is cleaned up.
pub proof fn law_drags_carry_what_was_handed_over(
    drag: NativeDrag,
    label: Seq<char>,
    data: NativeDragData,
)
    requires
        is_under_way(drag, label, data),
    ensures
        match drag {
            NativeDrag::Linux(d) => d.outgoing is Some && text::opt_view(d.outgoing->0.data.text_plain)
                == text::opt_view(data.text_plain) && text::opt_view(d.outgoing->0.data.text_html)
                == text::opt_view(data.text_html) && text::opt_view(
                d.outgoing->0.data.text_vnd_tiddler,
            ) == text::opt_view(data.text_vnd_tiddler),
            NativeDrag::Windows(out, _) => out is Some && text::opt_view(out->0.data.text_plain)
                == text::opt_view(data.text_plain) && text::opt_view(out->0.data.text_html)
                == text::opt_view(data.text_html) && text::opt_view(out->0.data.text_vnd_tiddler)
                == text::opt_view(data.text_vnd_tiddler),
            NativeDrag::MacOs(out) => out is Some && text::opt_view(out->0.data.text_plain)
                == text::opt_view(data.text_plain) && text::opt_view(out->0.data.text_html)
                == text::opt_view(data.text_html) && text::opt_view(out->0.data.text_vnd_tiddler)
                == text::opt_view(data.text_vnd_tiddler),
        },
        !is_over(drag),
        !is_under_way(cleaned_up(drag), label, data),
{
}

} // verus!
