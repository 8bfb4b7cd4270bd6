//! A small creative-coding library in the style of p5.js, built for use on
//! top of a native windowing/rendering backend.
//!
//! The library itself is pure: it models the sketch runtime's draw state,
//! turns primitive calls into an explicit sequence of draw commands, and
//! provides exact (rational-arithmetic) color and range utilities.  A thin
//! unverified shell owns the actual window, performs the commands, and
//! drives the frame loop.

pub mod sketch;
pub mod utils;

pub use sketch::Color;
pub use sketch::DrawCmd;
pub use sketch::DrawError;
pub use sketch::Event;
pub use sketch::MainLoopMethods;
pub use sketch::RectMode;
pub use sketch::Sketch;
pub use sketch::end_frame;
pub use sketch::frame;
pub use sketch::handle_events;
pub use sketch::start;
pub use sketch::KEY_ESCAPE;
