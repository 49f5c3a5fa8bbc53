//! Priority-ordered publish/subscribe event dispatch, and the expansion of
//! include directives in shader source.

pub mod gfx;
pub mod observer;
