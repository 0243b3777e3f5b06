//! Verified core of a set of chat-bot plugins: the emoji registry, the
//! per-group switches, the command grammars, the reaction planner, and the
//! image "symmetry" transformation on still and animated pictures.

pub mod pixels;
pub mod animation;
pub mod text;
pub mod registry;
pub mod decode;
pub mod message;
pub mod symmetry;
pub mod encode;
