//! The telnet transport: a line-oriented text stream to and from the fabric.

pub mod connection;
pub mod parse;
pub mod provision;
pub mod render;
pub mod tick;

pub use connection::{flush, greet, handle_line, LineReply};
pub use parse::{is_quit, parse};
pub use provision::{attach_named, despawn_player, end_session, spawn_player};
pub use render::{render, style_for, RenderStyle};
pub use tick::beat;
