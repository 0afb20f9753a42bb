use vstd::prelude::*;

verus! {

/// Size and position of a native child window, in physical pixels with a top-left
/// origin, as last applied to the window, and whether the window is shown.
#[derive(Debug, Clone, Copy, PartialEq, Eq, Structural)]
pub struct WindowFrame {
    pub width: u32,
    pub height: u32,
    pub x: u32,
    pub y: u32,
    pub shown: bool,
}

impl WindowFrame {
    /// The frame of a child window just created, visible, at the given place.
    pub fn new(width: u32, height: u32, x: u32, y: u32) -> (r: WindowFrame)
        ensures
            r == (WindowFrame { width, height, x, y, shown: true }),
    {
        WindowFrame { width, height, x, y, shown: true }
    }

    /// `(width, height, x, y)`.
    pub open spec fn size_and_position_spec(&self) -> (u32, u32, u32, u32) {
        (self.width, self.height, self.x, self.y)
    }

    /// `(width, height, x, y)`.
    pub fn size_and_position(&self) -> (r: (u32, u32, u32, u32))
        ensures
            r == (self.width, self.height, self.x, self.y),
    {
        (self.width, self.height, self.x, self.y)
    }

    /// Records that the window was hidden; its size and position are kept.
    pub fn mark_hidden(&mut self)
        ensures
            *final(self) == (WindowFrame { shown: false, ..*old(self) }),
    {
        self.shown = false;
    }

    /// Records that the window was shown; its size and position are kept.
    pub fn mark_shown(&mut self)
        ensures
            *final(self) == (WindowFrame { shown: true, ..*old(self) }),
    {
        self.shown = true;
    }

    /// Records a move of the window to the given size and position, after which it is
    /// shown. Returns whether the native window has to be moved and shown: when it is
    /// hidden, or when its size or position changes.
    pub fn move_to(&mut self, width: u32, height: u32, x: u32, y: u32) -> (changed: bool)
        ensures
            (*final(self), changed) == moved(*old(self), width, height, x, y),
            final(self).size_and_position_spec() == (width, height, x, y),
            final(self).shown,
            changed == (!old(self).shown || old(self).width != width || old(self).height != height
                || old(self).x != x || old(self).y != y),
    {
        if !self.shown || x != self.x || y != self.y || width != self.width || height != self.height {
            self.x = x;
            self.y = y;
            self.width = width;
            self.height = height;
            self.shown = true;
            true
        } else {
            false
        }
    }
}

/// The frame after a move to the given size and position, and whether the native
/// window has to be moved and shown for it.
pub open spec fn moved(f: WindowFrame, width: u32, height: u32, x: u32, y: u32) -> (WindowFrame, bool) {
    let target = WindowFrame { width, height, x, y, shown: true };
    (target, f != target)
}

/// A move puts the window at the requested size and position, shown, and it calls for
/// a native move exactly when the window was hidden or any of width, height, x and y
/// differs from the request.
pub proof fn law_move_reaches_target(f: WindowFrame, width: u32, height: u32, x: u32, y: u32)
    ensures
        moved(f, width, height, x, y).0.width == width,
        moved(f, width, height, x, y).0.height == height,
        moved(f, width, height, x, y).0.x == x,
        moved(f, width, height, x, y).0.y == y,
        moved(f, width, height, x, y).0.shown,
        moved(f, width, height, x, y).1 == (!f.shown || f.width != width || f.height != height
            || f.x != x || f.y != y),
{
}

/// Moving a window twice to the same place changes it at most once: the second
/// move reports no change and leaves the frame where the first one put it.
pub proof fn law_move_idempotent(f: WindowFrame, width: u32, height: u32, x: u32, y: u32)
    ensures
        moved(moved(f, width, height, x, y).0, width, height, x, y) == (
            moved(f, width, height, x, y).0,
            false,
        ),
{
}

/// A hidden window is shown again by the next move, even to the place it already has.
pub proof fn law_move_shows_hidden(f: WindowFrame, width: u32, height: u32, x: u32, y: u32)
    requires
        !f.shown,
    ensures
        moved(f, width, height, x, y).1,
        moved(f, width, height, x, y).0.shown,
{
}

} // verus!
