//! Live traffic observer: per-address byte counters, the capture session's
//! decision logic, and the text formats it writes and reads back.
pub mod stats;
pub mod text;
pub mod records;
pub mod decode;
pub mod session;
pub mod screen;
pub mod menu;
