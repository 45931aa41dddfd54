//! Scene graph and guest-application protocol core of an immersive rendering host.
//!
//! - [`scene`]: the store of entities, their parent links, a parent-to-children
//!   index and their components; deferred destruction.
//! - [`hierarchy`]: reachability through parent links and the traversal of
//!   descendants, parents first.
//! - [`transform`]: propagation of world transforms from the scene root down
//!   and extraction of the per-frame render data.
//! - [`guest`]: the container of one guest application and the dispatcher of
//!   its commands against the scene.
//! - [`event`], [`device`], [`distributor`]: the guest-facing event schema,
//!   the numbering of input devices and the fan-out of events to every guest.
//! - [`raytrace`]: choice of the closest ray hit among the rendered rows.
//!
//! Transforms are of any `Copy` type; their product is supplied by the caller.

pub mod scene;
pub mod hierarchy;
pub mod transform;
pub mod guest;
pub mod event;
pub mod device;
pub mod distributor;
pub mod raytrace;
