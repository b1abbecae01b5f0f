//! Component composition and render-cycle core of a terminal dashboard
//! toolkit: size constraints, layout trees, a frame-scoped state store and
//! the component traits that tie them together.

pub mod canvas;
pub mod component;
pub mod context;
pub mod flex;
pub mod geometry;
pub mod layout;
pub mod lifecycle;
pub mod state;
pub mod widget;
