//! The editing core of a terminal text editor: a line buffer with a cursor and
//! a scroll anchor, soft-wrap layout onto a fixed-width grid, and the pacing
//! rule of the frame loop. Every function is verified against a mathematical
//! model of the state it works on.

pub mod draw;
pub mod editor;
pub mod frame;
pub mod render;
pub mod scroll;
pub mod state;
pub mod width;
pub mod wrap;

pub use crate::draw::DrawBuffer;
pub use crate::editor::{Core, Cursor};
pub use crate::frame::{poll_budget, Command, Poll, FRAME_NANOS};
pub use crate::scroll::Viewport;
pub use crate::width::{advance, display_width};
pub use crate::wrap::{count_breaks, get_rows};
