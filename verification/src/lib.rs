//! A minimal entity-component storage engine.
//!
//! Entities are opaque identifiers; components are plain values attached to
//! entities, one instance per component type per entity. Each component type
//! is held in a sparse-set store: a dense array of values plus a pair of
//! index maps that keep insertion, removal and lookup constant-time while
//! the array stays gap-free. A manager owns every store together with a
//! per-entity record of which component types the entity currently has, and
//! validates every operation before it touches a store.

pub mod component;
pub mod entity;
pub mod error;
pub mod manager;
pub mod mesh;

pub use component::ComponentSparseVec;
pub use component::Name;
pub use entity::Entity;
pub use entity::EntityID;
pub use error::EcsFault;
pub use error::FoxyError;
pub use manager::ComponentTypeKey;
pub use manager::ECSManager;
