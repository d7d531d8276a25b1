//! A small windowing runtime: a coordinator that owns the window state and a
//! software triangle rasterizer, and a polling handle that buffers and decays
//! events, connected by bidirectional message channels.
use vstd::prelude::*;

pub mod api;
pub mod channel;
pub mod coordinator;
pub mod geometry;
pub mod messages;

pub use api::{EventKind, WindowAPI};
pub use channel::Channel;
pub use coordinator::{Effect, Frame, Window};
pub use geometry::{Texture, TextureTrait, Triangle};
pub use messages::{EvMSG, Event, Msg};
