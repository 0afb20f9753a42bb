use native_tauri_surface::platform::{native_backend, NativeBackend, TargetOs, WindowHandleKind};

/// Only macOS builds have the `NSView` / `CAMetalLayer` backend: on any other
/// platform no window handle gets a macOS native surface.
#[test]
fn no_native_surface_on_this_platform() {
    for handle in [WindowHandleKind::AppKit, WindowHandleKind::Win32, WindowHandleKind::Other] {
        assert!(
            native_backend(handle, TargetOs::Other) != Some(NativeBackend::MacOs),
            "MacOSContext is only available on macOS; this platform has no native surface backend"
        );
    }
}

#[test]
fn appkit_handle_on_macos_gets_metal_backend() {
    assert_eq!(
        native_backend(WindowHandleKind::AppKit, TargetOs::MacOs),
        Some(NativeBackend::MacOs)
    );
}

#[test]
fn win32_handle_on_windows_gets_child_hwnd_backend() {
    assert_eq!(
        native_backend(WindowHandleKind::Win32, TargetOs::Windows),
        Some(NativeBackend::Windows)
    );
}

#[test]
fn mismatched_handle_is_unsupported() {
    assert_eq!(native_backend(WindowHandleKind::Win32, TargetOs::MacOs), None);
    assert_eq!(native_backend(WindowHandleKind::AppKit, TargetOs::Windows), None);
    assert_eq!(native_backend(WindowHandleKind::Other, TargetOs::MacOs), None);
    assert_eq!(native_backend(WindowHandleKind::Other, TargetOs::Windows), None);
}
