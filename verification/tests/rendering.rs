use native_tauri_surface::frame::WindowFrame;
use native_tauri_surface::greeting::greet;
use native_tauri_surface::platform::ResizeCursor;
use native_tauri_surface::render::{frame_notice, frame_step, preferred_format_index, FrameStep, TextureAcquire};

#[test]
fn first_srgb_format_is_preferred() {
    assert_eq!(preferred_format_index(&vec![false, true, true]), 1);
    assert_eq!(preferred_format_index(&vec![true, false]), 0);
    assert_eq!(preferred_format_index(&vec![false, false, false, true]), 3);
}

#[test]
fn without_srgb_the_first_format_is_taken() {
    assert_eq!(preferred_format_index(&vec![false]), 0);
    assert_eq!(preferred_format_index(&vec![false, false]), 0);
}

#[test]
fn frame_steps() {
    assert_eq!(frame_step(TextureAcquire::Success), FrameStep::DrawAndPresent);
    assert_eq!(frame_step(TextureAcquire::Suboptimal), FrameStep::PresentOnly);
    for a in [
        TextureAcquire::Timeout,
        TextureAcquire::Occluded,
        TextureAcquire::Outdated,
        TextureAcquire::Lost,
        TextureAcquire::Validation,
    ] {
        assert_eq!(frame_step(a), FrameStep::Skip);
    }
}

#[test]
fn frame_notices() {
    assert_eq!(frame_notice(TextureAcquire::Success), None);
    assert_eq!(frame_notice(TextureAcquire::Occluded), None);
    assert_eq!(
        frame_notice(TextureAcquire::Suboptimal),
        Some("wgpu: surface suboptimal, resize pending")
    );
    assert_eq!(
        frame_notice(TextureAcquire::Timeout),
        Some("wgpu: get_current_texture timed out, skipping frame")
    );
    assert_eq!(
        frame_notice(TextureAcquire::Outdated),
        Some("wgpu: surface outdated, reconfigure needed")
    );
    assert_eq!(frame_notice(TextureAcquire::Lost), Some("wgpu: surface lost, recreate needed"));
    assert_eq!(frame_notice(TextureAcquire::Validation), Some("wgpu: surface validation error"));
}

#[test]
fn window_frame_moves_only_when_changed() {
    let mut f = WindowFrame::new(800, 600, 10, 20);
    assert_eq!(f.size_and_position(), (800, 600, 10, 20));
    assert!(!f.move_to(800, 600, 10, 20));
    assert!(f.move_to(800, 600, 11, 20));
    assert_eq!(f.size_and_position(), (800, 600, 11, 20));
    assert!(!f.move_to(800, 600, 11, 20));
    assert!(f.move_to(1024, 768, 0, 0));
    assert_eq!(f.size_and_position(), (1024, 768, 0, 0));
}

#[test]
fn hidden_window_frame_is_shown_by_the_next_move() {
    let mut f = WindowFrame::new(800, 600, 10, 20);
    assert!(f.shown);
    f.mark_hidden();
    assert!(!f.shown);
    assert_eq!(f.size_and_position(), (800, 600, 10, 20));
    assert!(f.move_to(800, 600, 10, 20));
    assert!(f.shown);
    assert!(!f.move_to(800, 600, 10, 20));
    f.mark_hidden();
    f.mark_shown();
    assert!(!f.move_to(800, 600, 10, 20));
}

#[test]
fn resize_cursors() {
    assert_eq!(ResizeCursor::for_direction(true), ResizeCursor::Horizontal);
    assert_eq!(ResizeCursor::for_direction(false), ResizeCursor::Vertical);
    assert_eq!(ResizeCursor::Horizontal.css_name(), "ew-resize");
    assert_eq!(ResizeCursor::Vertical.css_name(), "ns-resize");
    assert_eq!(ResizeCursor::from_css_name("ew-resize"), Some(ResizeCursor::Horizontal));
    assert_eq!(ResizeCursor::from_css_name("ns-resize"), Some(ResizeCursor::Vertical));
    assert_eq!(ResizeCursor::from_css_name("pointer"), None);
    assert_eq!(ResizeCursor::from_css_name(""), None);
    assert_eq!(ResizeCursor::from_css_name("ew-resiz"), None);
    for c in [ResizeCursor::Horizontal, ResizeCursor::Vertical] {
        assert_eq!(ResizeCursor::from_css_name(c.css_name()), Some(c));
    }
}

#[test]
fn greeting_text() {
    assert_eq!(greet("Ada"), "Hello, Ada! You've been greeted from Rust!");
    assert_eq!(greet(""), "Hello, ! You've been greeted from Rust!");
}
