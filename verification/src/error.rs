//! Failure taxonomy of the reconciliation core.
//!
//! Unknown identities and unknown component ids are protocol violations: the
//! peers' registries or identity spaces disagree, and processing of the
//! offending message must abort. Capacity errors mark the exhaustion of the
//! identity or handle space. Every variant carries the value that caused it.

use vstd::prelude::*;

verus! {

/// A fatal condition met while applying a world-state message.
#[derive(Clone, Copy, Debug, PartialEq, Eq, Structural)]
pub enum SyncError {
    /// A network identity was not bound in the allocator.
    UnknownIdentity(u64),
    /// A wire component id was not registered.
    UnknownComponent(u32),
    /// A component type key was not registered.
    UnknownComponentType(u64),
    /// An identity was requested that is already bound.
    IdentityInUse(u64),
    /// A world handle is already bound to another identity.
    HandleInUse(u32),
    /// A world handle does not name a live entity.
    DeadEntity(u32),
    /// A wire component id is already registered.
    ComponentIdRegistered(u32),
    /// A component type key is already registered.
    ComponentTypeRegistered(u64),
    /// The identity space is exhausted (or the reserved top identity was requested).
    IdentityExhausted,
    /// The handle space is exhausted.
    HandleExhausted,
    /// A command frame in a message lies too close to the end of the frame range.
    FrameOutOfRange(u32),
}

} // verus!
