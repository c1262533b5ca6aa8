//! A bridge between a host runtime's dynamic terms and a structured value
//! model, together with the lifecycle of the components that process those
//! values behind an opaque handle.
pub mod bridge;
pub mod component;
pub mod resource;
pub mod term;
pub mod value;
