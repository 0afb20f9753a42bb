use std::collections::HashMap;
use vstd::prelude::*;

use crate::platform::{
    hidden_by_call, named_by_call, shown_by_call, NativeSurfaceContext,
    SurfaceContext,
};
use crate::surface_hash::SurfaceHash;

verus! {

broadcast use {
    vstd::std_specs::hash::group_hash_axioms,
    vstd::std_specs::hash::axiom_u64_obeys_hash_table_key_model,
    vstd::std_specs::hash::axiom_random_state_builds_valid_hashers,
};

/// The GPU surfaces of a renderer, each under the hash that it names itself with.
pub struct SurfaceRegistry<S> {
    surfaces: HashMap<u64, S>,
}

/// What `move_surface` did with the surface.
#[derive(Debug, Clone, Copy, PartialEq, Eq, Structural)]
pub enum SurfaceMove {
    /// No surface has that hash; nothing was done.
    NotFound,
    /// The requested size was empty, so the native window was hidden.
    Hidden,
    /// The native window was moved and shown; its render resolution must now be set
    /// to `width` x `height`.
    Moved { width: u32, height: u32 },
}

/// What `move_surface` does for a surface that is (`present`) or is not registered.
pub open spec fn move_outcome(present: bool, width: u32, height: u32) -> SurfaceMove {
    if !present {
        SurfaceMove::NotFound
    } else if width == 0 || height == 0 {
        SurfaceMove::Hidden
    } else {
        SurfaceMove::Moved { width, height }
    }
}

impl<S> View for SurfaceRegistry<S> {
    type V = Map<u64, S>;

    closed spec fn view(&self) -> Map<u64, S> {
        self.surfaces@
    }
}

impl<S> SurfaceRegistry<S> {
    pub fn new() -> (r: SurfaceRegistry<S>)
        ensures
            r@ == Map::<u64, S>::empty(),
    {
        SurfaceRegistry { surfaces: HashMap::new() }
    }

    /// Registers `surface` under `hash`; a surface that was registered under the same
    /// hash is handed back.
    pub fn insert(&mut self, hash: SurfaceHash, surface: S) -> (r: Option<S>)
        ensures
            final(self)@ == old(self)@.insert(hash@, surface),
            r == (if old(self)@.contains_key(hash@) {
                Some(old(self)@[hash@])
            } else {
                None
            }),
    {
        self.surfaces.insert(hash.0, surface)
    }

    pub fn contains(&self, hash: SurfaceHash) -> (r: bool)
        ensures
            r == self@.contains_key(hash@),
    {
        self.surfaces.contains_key(&hash.0)
    }

    pub fn get(&self, hash: SurfaceHash) -> (r: Option<&S>)
        ensures
            r == (if self@.contains_key(hash@) {
                Some(&self@[hash@])
            } else {
                None
            }),
    {
        self.surfaces.get(&hash.0)
    }

    /// Unregisters the surface under `hash` and hands it back, so that it is dropped
    /// by the caller; `None` when no surface has that hash.
    pub fn remove(&mut self, hash: SurfaceHash) -> (r: Option<S>)
        ensures
            final(self)@ == old(self)@.remove(hash@),
            r == (if old(self)@.contains_key(hash@) {
                Some(old(self)@[hash@])
            } else {
                None
            }),
    {
        self.surfaces.remove(&hash.0)
    }

    pub fn len(&self) -> (r: usize)
        ensures
            r == self@.len(),
    {
        self.surfaces.len()
    }

    pub fn is_empty(&self) -> (r: bool)
        ensures
            r == (self@.len() == 0),
    {
        self.surfaces.is_empty()
    }
}

impl<S: SurfaceContext> SurfaceRegistry<S> {
    /// Registers a newly created surface under the hash it names itself with, and
    /// returns that hash.
    pub fn add(&mut self, surface: S) -> (r: SurfaceHash)
        ensures
            named_by_call(surface, r),
            final(self)@ == old(self)@.insert(r@, surface),
    {
        let hash = surface.hash();
        let _ = self.surfaces.insert(hash.0, surface);
        hash
    }
}

impl<S: NativeSurfaceContext> SurfaceRegistry<S> {
    /// Hides the native window of the surface under `hash`; returns whether there is one.
    pub fn hide_surface(&self, hash: SurfaceHash) -> (found: bool)
        ensures
            found == self@.contains_key(hash@),
            found ==> hidden_by_call(self@[hash@]),
    {
        match self.surfaces.get(&hash.0) {
            Some(surface) => {
                surface.hide_window();
                true
            },
            None => false,
        }
    }

    /// Shows the native window of the surface under `hash`; returns whether there is one.
    pub fn show_surface(&self, hash: SurfaceHash) -> (found: bool)
        ensures
            found == self@.contains_key(hash@),
            found ==> shown_by_call(self@[hash@]),
    {
        match self.surfaces.get(&hash.0) {
            Some(surface) => {
                surface.show_window();
                true
            },
            None => false,
        }
    }

    /// Moves the surface under `hash` to the given size and position. An empty size
    /// (a zero width or height) hides the native window instead. The set of registered
    /// hashes does not change, nor does any other surface.
    pub fn move_surface(&mut self, hash: SurfaceHash, width: u32, height: u32, x: u32, y: u32) -> (r:
        SurfaceMove)
        ensures
            r == move_outcome(old(self)@.contains_key(hash@), width, height),
            final(self)@.dom() == old(self)@.dom(),
            forall|k: u64| k != hash@ && old(self)@.contains_key(k) ==> #[trigger] final(self)@[k] == old(self)@[k],
            r != (SurfaceMove::Moved { width, height }) ==> final(self)@ == old(self)@,
            // the surface went through `S::move_window_size_and_position(m, width, height,
            // x, y)` on a reference `m` to it
            r == (SurfaceMove::Moved { width, height }) ==> exists|m: &mut S|
                mut_ref_current(m) == old(self)@[hash@] && mut_ref_future(m) == final(self)@[hash@]
                    && #[trigger] call_ensures(
                    S::move_window_size_and_position,
                    (m, width, height, x, y),
                    (),
                ),
            r == SurfaceMove::Hidden ==> hidden_by_call(old(self)@[hash@]),
    {
        if !self.surfaces.contains_key(&hash.0) {
            return SurfaceMove::NotFound;
        }
        if width != 0 && height != 0 {
            let mut surface = self.surfaces.remove(&hash.0).unwrap();
            S::move_window_size_and_position(&mut surface, width, height, x, y);
            let _ = self.surfaces.insert(hash.0, surface);
            proof {
                assert(self@.dom() =~= old(self)@.dom());
            }
            SurfaceMove::Moved { width, height }
        } else {
            let _ = self.hide_surface(hash);
            SurfaceMove::Hidden
        }
    }
}

/// A surface that was added can be found again under the hash that `add` returned,
/// until it is removed; removing it leaves every other surface in place.
pub proof fn law_add_then_remove<S>(before: Map<u64, S>, hash: u64, surface: S)
    ensures
        before.insert(hash, surface).contains_key(hash),
        before.insert(hash, surface)[hash] == surface,
        !before.insert(hash, surface).remove(hash).contains_key(hash),
        !before.contains_key(hash) ==> before.insert(hash, surface).remove(hash) == before,
{
    assert(!before.contains_key(hash) ==> before.insert(hash, surface).remove(hash) =~= before);
}

} // verus!
