pub mod filter;
pub mod shape;
pub mod morphism;
pub mod path;
pub mod gizmo;
