//! The one plain-data leaf of the rendering side: the immutable record
//! shared between all renderers of one render context.
//!
//! The rendering engine itself is an external consumer of decoded data and
//! lives outside this library; GPU devices, queues and encoders cannot be
//! modeled here. What is kept is the shared, immutable configuration that
//! every renderer reads, as plain values.

use vstd::prelude::*;

verus! {

/// The capability tier of the device a render context was created for.
#[derive(Clone, Copy, Debug, PartialEq, Eq, Structural)]
pub enum HardwareTier {
    /// A constrained target (e.g. a browser sandbox).
    Basic,
    /// An unconstrained native target.
    Full,
}

/// Immutable data that is shared between all renderers of one context.
#[derive(Clone, Copy, Debug, PartialEq, Eq, Structural)]
pub struct SharedRendererData {
    /// The hardware tier the context was configured for.
    pub hardware_tier: HardwareTier,
    /// The bind group slot that global bindings always occupy; renderers
    /// must not use this slot themselves.
    pub global_binding_slot: u32,
}

impl SharedRendererData {
    /// Global bindings always sit in bind group slot zero.
    pub fn new(hardware_tier: HardwareTier) -> (r: SharedRendererData)
        ensures
            r.hardware_tier == hardware_tier,
            r.global_binding_slot == 0,
    {
        SharedRendererData { hardware_tier, global_binding_slot: 0 }
    }
}

} // verus!
