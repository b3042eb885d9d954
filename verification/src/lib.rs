//! A minimal logging sink: it gates log records by severity and renders each
//! one as a single timestamped line for the diagnostic stream.
//!
//! The sink itself holds no state. It decides whether a record is emitted and
//! what its line says; writing that line to the stream is left to the caller.

pub mod calendar;
pub mod level;
pub mod logger;
pub mod stamp;
pub mod stream;
pub mod timestamp;

pub use calendar::CalendarTime;
pub use level::Level;
pub use logger::{Logger, Record};
pub use timestamp::Timestamp;
