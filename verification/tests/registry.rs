use native_tauri_surface::registry::{SurfaceMove, SurfaceRegistry};
use native_tauri_surface::{NativeSurfaceContext, SurfaceContext, SurfaceHash};
use std::cell::Cell;

/// A stand-in for a native child window that records what was done to it.
struct FakeSurface {
    id: u64,
    frame: (u32, u32, u32, u32),
    hidden: Cell<bool>,
    moves: u32,
}

impl FakeSurface {
    fn new(id: u64) -> Self {
        FakeSurface { id, frame: (100, 100, 0, 0), hidden: Cell::new(false), moves: 0 }
    }
}

impl NativeSurfaceContext for FakeSurface {
    fn hide_window(&self) {
        self.hidden.set(true);
    }
    fn show_window(&self) {
        self.hidden.set(false);
    }
    fn current_window_size_and_position(&self) -> (u32, u32, u32, u32) {
        self.frame
    }
    fn move_window_size_and_position(&mut self, width: u32, height: u32, x: u32, y: u32) {
        self.frame = (width, height, x, y);
        self.hidden.set(false);
        self.moves += 1;
    }
}

impl SurfaceContext for FakeSurface {
    fn hash(&self) -> SurfaceHash {
        SurfaceHash(self.id)
    }
}

#[test]
fn added_surface_is_found_under_its_hash() {
    let mut reg = SurfaceRegistry::new();
    let h = reg.add(FakeSurface::new(42));
    assert_eq!(h, SurfaceHash(42));
    assert!(reg.contains(h));
    assert_eq!(reg.get(h).map(|s| s.id), Some(42));
    assert_eq!(reg.len(), 1);
}

#[test]
fn removed_surface_is_gone_and_others_stay() {
    let mut reg = SurfaceRegistry::new();
    let a = reg.add(FakeSurface::new(1));
    let b = reg.add(FakeSurface::new(2));
    let removed = reg.remove(a);
    assert_eq!(removed.map(|s| s.id), Some(1));
    assert!(reg.get(a).is_none());
    assert!(reg.get(b).is_some());
    assert!(reg.remove(a).is_none());
    reg.remove(b);
    assert!(reg.is_empty());
}

#[test]
fn move_with_size_moves_and_asks_for_resolution() {
    let mut reg = SurfaceRegistry::new();
    let h = reg.add(FakeSurface::new(7));
    let outcome = reg.move_surface(h, 640, 480, 10, 20);
    assert_eq!(outcome, SurfaceMove::Moved { width: 640, height: 480 });
    let s = reg.get(h).unwrap();
    assert_eq!(s.current_window_size_and_position(), (640, 480, 10, 20));
    assert_eq!(s.moves, 1);
}

#[test]
fn move_to_empty_size_hides() {
    let mut reg = SurfaceRegistry::new();
    let h = reg.add(FakeSurface::new(7));
    assert_eq!(reg.move_surface(h, 0, 480, 10, 20), SurfaceMove::Hidden);
    assert_eq!(reg.move_surface(h, 640, 0, 10, 20), SurfaceMove::Hidden);
    let s = reg.get(h).unwrap();
    assert!(s.hidden.get());
    assert_eq!(s.moves, 0);
    assert_eq!(s.current_window_size_and_position(), (100, 100, 0, 0));
}

#[test]
fn move_of_unknown_surface_does_nothing() {
    let mut reg: SurfaceRegistry<FakeSurface> = SurfaceRegistry::new();
    assert_eq!(reg.move_surface(SurfaceHash(3), 1, 1, 0, 0), SurfaceMove::NotFound);
    assert!(reg.is_empty());
}

#[test]
fn hide_and_show_report_whether_found() {
    let mut reg = SurfaceRegistry::new();
    let h = reg.add(FakeSurface::new(9));
    assert!(reg.hide_surface(h));
    assert!(reg.get(h).unwrap().hidden.get());
    assert!(reg.show_surface(h));
    assert!(!reg.get(h).unwrap().hidden.get());
    assert!(!reg.hide_surface(SurfaceHash(10)));
    assert!(!reg.show_surface(SurfaceHash(10)));
}

#[test]
fn insert_replaces_and_hands_back() {
    let mut reg = SurfaceRegistry::new();
    assert!(reg.insert(SurfaceHash(1), FakeSurface::new(1)).is_none());
    let old = reg.insert(SurfaceHash(1), FakeSurface::new(100));
    assert_eq!(old.map(|s| s.id), Some(1));
    assert_eq!(reg.get(SurfaceHash(1)).map(|s| s.id), Some(100));
    assert_eq!(reg.len(), 1);
}
