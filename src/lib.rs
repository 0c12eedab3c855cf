//! Model and instance bookkeeping for a small batched mesh renderer.
//!
//! Meshes are registered once and drawn many times, each placement being an
//! instance. Nothing is destroyed explicitly: a housekeeping sweep drops every
//! model and instance that no handle outside the registry still refers to, and
//! reports whether the set of drawable geometry changed, so that the combined
//! GPU buffers are rebuilt only when needed.
pub mod batch;
pub mod events;
pub mod gles;
pub mod housekeep;
pub mod image;
pub mod marks;
pub mod mesh;
pub mod registry;
pub mod scene;
pub mod visual;
