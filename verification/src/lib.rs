//! A GPU-synchronized entity-component store.
//!
//! Entities live in archetypes: groups of entities that share a component
//! set, stored as flat per-component byte columns with a data version that
//! is bumped on every write.  A [`gpu_world::GpuWorld`] mirrors chosen
//! components into GPU-resident buffers; its layout (which buffer region
//! belongs to which archetype) is recomputed once per frame and carries a
//! layout version.  Sync systems copy a component column into its buffer
//! region, but only when the data version or the layout version moved since
//! the last frame.

use vstd::prelude::*;

pub mod clipboard;
pub mod dirs;
pub mod ecs;
pub mod files;
pub mod gpu_world;
pub mod input;
pub mod laws;
pub mod sparse;
pub mod sync;

verus! {

/// Title used for a freshly created window.
pub fn default_title() -> (r: String)
    ensures
        r@ == "ambient"@,
{
    let t = "ambient";
    t.to_owned()
}

} // verus!
