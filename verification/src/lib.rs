//! A double-buffered message bus, with two smaller parts of an engine
//! beside it.
//!
//! [`message`] is the bus. A writer appends typed messages to a queue; any
//! number of readers later drain the messages they have not seen yet, each
//! with a cursor of its own. The queue keeps two generations of messages and
//! drops the older one on every rotation, so a reader that falls two
//! rotations behind loses what it did not read.
//!
//! [`ssgi`] holds what the passes of screen space global illumination are set
//! up from, and [`view_frustum`] the corners of the region that a camera
//! sees. [`math`] is the arithmetic they share with the bus.
pub mod math;
pub mod message;
pub mod ssgi;
pub mod view_frustum;
