use vstd::prelude::*;

use crate::surface_hash::SurfaceHash;
use crate::text::text_eq;

verus! {

/// The native side of a GPU surface: the child view or window that hosts it.
/// Each platform backend implements it over its own windowing API.
pub trait NativeSurfaceContext {
    fn hide_window(&self);

    fn show_window(&self);

    /// `(width, height, x, y)` of the native child window.
    fn current_window_size_and_position(&self) -> (u32, u32, u32, u32);

    fn move_window_size_and_position(&mut self, width: u32, height: u32, x: u32, y: u32);
}

/// The call `s.hide_window()` was made.
pub open spec fn hidden_by_call<S: NativeSurfaceContext>(s: S) -> bool {
    call_ensures(S::hide_window, (&s,), ())
}

/// The call `s.show_window()` was made.
pub open spec fn shown_by_call<S: NativeSurfaceContext>(s: S) -> bool {
    call_ensures(S::show_window, (&s,), ())
}

/// `h` is what the call `s.hash()` returned.
pub open spec fn named_by_call<S: SurfaceContext>(s: S, h: SurfaceHash) -> bool {
    call_ensures(S::hash, (&s,), h)
}

/// A native GPU surface that can name itself with a `SurfaceHash`.
pub trait SurfaceContext: NativeSurfaceContext {
    fn hash(&self) -> SurfaceHash;
}

/// Control over the mouse cursor shown over a surface.
pub trait CursorContext {
    /// Push a named cursor onto the cursor stack.
    fn push_cursor(&self, cursor: &str);

    /// Pop the top cursor from the cursor stack.
    /// Must be paired with a prior `push_cursor` call.
    fn pop_cursor(&self);
}

/// The resize cursors that a panel divider can show.
#[derive(Debug, Clone, Copy, PartialEq, Eq, Structural)]
pub enum ResizeCursor {
    /// Left-right arrows (`"ew-resize"`).
    Horizontal,
    /// Up-down arrows (`"ns-resize"`).
    Vertical,
}

impl ResizeCursor {
    /// The cursor for dragging a divider horizontally (`true`) or vertically (`false`).
    pub fn for_direction(horizontal: bool) -> (r: ResizeCursor)
        ensures
            r == (if horizontal { ResizeCursor::Horizontal } else { ResizeCursor::Vertical }),
    {
        if horizontal {
            ResizeCursor::Horizontal
        } else {
            ResizeCursor::Vertical
        }
    }

    /// The CSS name of the cursor.
    pub fn css_name(&self) -> (r: &'static str)
        ensures
            r@ == css_cursor_name(*self),
    {
        match self {
            ResizeCursor::Horizontal => "ew-resize",
            ResizeCursor::Vertical => "ns-resize",
        }
    }

    /// The cursor with the given CSS name; `None` for any name other than
    /// `"ew-resize"` and `"ns-resize"` (such names are ignored).
    pub fn from_css_name(name: &str) -> (r: Option<ResizeCursor>)
        ensures
            r == cursor_named(name@),
    {
        if text_eq(name, "ew-resize") {
            Some(ResizeCursor::Horizontal)
        } else if text_eq(name, "ns-resize") {
            Some(ResizeCursor::Vertical)
        } else {
            None
        }
    }
}

/// The CSS name of a resize cursor.
pub open spec fn css_cursor_name(c: ResizeCursor) -> Seq<char> {
    match c {
        ResizeCursor::Horizontal => "ew-resize"@,
        ResizeCursor::Vertical => "ns-resize"@,
    }
}

/// The resize cursor that a CSS cursor name stands for.
pub open spec fn cursor_named(name: Seq<char>) -> Option<ResizeCursor> {
    if name == "ew-resize"@ {
        Some(ResizeCursor::Horizontal)
    } else if name == "ns-resize"@ {
        Some(ResizeCursor::Vertical)
    } else {
        None
    }
}

/// Every resize cursor is recognised again from its own CSS name.
pub proof fn law_cursor_name_round_trip(c: ResizeCursor)
    ensures
        cursor_named(css_cursor_name(c)) == Some(c),
{
    reveal_strlit("ew-resize");
    reveal_strlit("ns-resize");
    assert("ew-resize"@ != "ns-resize"@) by {
        assert("ew-resize"@[0] != "ns-resize"@[0]);
    }
}

/// The kind of raw window handle that the host window provides.
#[derive(Debug, Clone, Copy, PartialEq, Eq, Structural)]
pub enum WindowHandleKind {
    AppKit,
    Win32,
    Other,
}

/// The operating system the library was built for.
#[derive(Debug, Clone, Copy, PartialEq, Eq, Structural)]
pub enum TargetOs {
    MacOs,
    Windows,
    Other,
}

/// The native surface implementations.
#[derive(Debug, Clone, Copy, PartialEq, Eq, Structural)]
pub enum NativeBackend {
    /// An `NSView` subview backed by a `CAMetalLayer`.
    MacOs,
    /// A borderless Win32 child `HWND`.
    Windows,
}

/// The backend that hosts a child surface in a window with the given handle: the
/// macOS backend exists only in macOS builds and takes AppKit handles, the Windows
/// backend exists only in Windows builds and takes Win32 handles; every other
/// combination has no native surface (the caller reports an unsupported platform).
pub fn native_backend(handle: WindowHandleKind, target: TargetOs) -> (r: Option<NativeBackend>)
    ensures
        r == (if handle == WindowHandleKind::AppKit && target == TargetOs::MacOs {
            Some(NativeBackend::MacOs)
        } else if handle == WindowHandleKind::Win32 && target == TargetOs::Windows {
            Some(NativeBackend::Windows)
        } else {
            None
        }),
{
    match (handle, target) {
        (WindowHandleKind::AppKit, TargetOs::MacOs) => Some(NativeBackend::MacOs),
        (WindowHandleKind::Win32, TargetOs::Windows) => Some(NativeBackend::Windows),
        _ => None,
    }
}

} // verus!
