use native_tauri_surface::surface_map::SurfaceMap;
use native_tauri_surface::SurfaceHash;
use std::sync::{Arc, Mutex};

fn label(s: &str) -> String {
    s.to_string()
}

#[test]
fn surface_map_initializes_empty() {
    let map = SurfaceMap::new();
    assert!(map.is_empty(), "SurfaceMap should be empty before any init_surface call");
}

#[test]
fn main_window_starts_without_surfaces() {
    let map = SurfaceMap::with_window(label("main"));
    assert!(!map.is_empty());
    assert!(map.contains_window(&label("main")));
    assert_eq!(map.surfaces_of(&label("main")).map(|v| v.len()), Some(0));
}

#[test]
fn surface_map_is_shared_across_arc_clones() {
    let state: Arc<Mutex<SurfaceMap>> = Arc::new(Mutex::new(SurfaceMap::new()));
    let cloned = Arc::clone(&state);
    assert!(state.lock().unwrap().is_empty());
    assert!(cloned.lock().unwrap().is_empty());
    cloned.lock().unwrap().record_surface(label("main"), SurfaceHash(4));
    assert!(!state.lock().unwrap().is_empty());
}

#[test]
fn new_window_has_no_surface_entry() {
    let map = SurfaceMap::new();
    assert!(
        map.surfaces_of(&label("test-panel")).is_none(),
        "no surface entry should exist for a freshly created window"
    );
}

#[test]
fn surface_lookup_returns_none_for_unknown_label() {
    let map = SurfaceMap::new();
    assert!(
        map.surfaces_of(&label("unknown-panel")).is_none(),
        "render_surface should silently skip panels without an initialised surface"
    );
}

#[test]
fn set_surface_rect_error_path_for_uninitialised_surface() {
    let map = SurfaceMap::new();
    let found = map.surfaces_of(&label("uninit-panel"));
    assert!(found.is_none(), "surface not initialized — expected None, got Some");
}

#[test]
fn lookup_of_unknown_label_beside_known_ones() {
    let mut map = SurfaceMap::with_window(label("main"));
    map.record_surface(label("main"), SurfaceHash(1));
    assert!(map.surfaces_of(&label("unknown-panel")).is_none());
    assert!(!map.contains_window(&label("unknown-panel")));
}

#[test]
fn recorded_surfaces_are_listed_once() {
    let mut map = SurfaceMap::with_window(label("main"));
    map.record_surface(label("main"), SurfaceHash(10));
    map.record_surface(label("main"), SurfaceHash(20));
    map.record_surface(label("main"), SurfaceHash(10));
    let mut hashes = map.surfaces_of(&label("main")).unwrap().clone();
    hashes.sort();
    assert_eq!(hashes, vec![SurfaceHash(10), SurfaceHash(20)]);
}

#[test]
fn unknown_window_becomes_known_on_first_surface() {
    let mut map = SurfaceMap::with_window(label("main"));
    map.record_surface(label("popout"), SurfaceHash(3));
    assert_eq!(map.surfaces_of(&label("popout")), Some(&vec![SurfaceHash(3)]));
    assert_eq!(map.surfaces_of(&label("main")).map(|v| v.len()), Some(0));
}

#[test]
fn forget_removes_only_that_surface() {
    let mut map = SurfaceMap::with_window(label("main"));
    map.record_surface(label("main"), SurfaceHash(1));
    map.record_surface(label("main"), SurfaceHash(2));
    map.forget_surface(&label("main"), SurfaceHash(1));
    assert_eq!(map.surfaces_of(&label("main")), Some(&vec![SurfaceHash(2)]));
    map.forget_surface(&label("main"), SurfaceHash(99));
    assert_eq!(map.surfaces_of(&label("main")), Some(&vec![SurfaceHash(2)]));
}

#[test]
fn closing_a_window_hands_back_its_surfaces() {
    let mut map = SurfaceMap::with_window(label("main"));
    map.record_surface(label("main"), SurfaceHash(5));
    map.record_surface(label("main"), SurfaceHash(6));
    map.record_surface(label("other"), SurfaceHash(7));
    let mut closed = map.close_window(&label("main"));
    closed.sort();
    assert_eq!(closed, vec![SurfaceHash(5), SurfaceHash(6)]);
    assert!(!map.contains_window(&label("main")));
    assert!(map.contains_window(&label("other")));
    let rest = map.close_window(&label("other"));
    assert_eq!(rest, vec![SurfaceHash(7)]);
    assert!(map.is_empty());
}
