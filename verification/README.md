# native_tauri_surface

GPU-rendered panels for a Tauri desktop app: each panel is a native child window
(an `NSView` with a `CAMetalLayer` on macOS, a child `HWND` on Windows) that wgpu
renders into, positioned under an HTML element of the web frontend.

- `src/` is the verified library (Verus): surface hashes and their decimal text,
  the registry of a renderer's surfaces and how a move request is carried out, the
  map from windows to the surfaces they host, the frame tracking of child windows,
  the choice of backend and of surface format, what a frame does after acquiring a
  texture, resize cursors, and the directory listing of the file browser.
- `app/` is the unverified shell: wgpu device and surface plumbing, the AppKit,
  Win32 and browser canvas backends, the renderers, and the Tauri commands.
- `tests/` exercises the library on concrete values.
