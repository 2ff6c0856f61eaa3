//! Webcam session tracking, verified: parses the camera-activity lines of
//! the OS logging facility into Started/Stopped events, and maintains
//! durable, queryable records of when which application used the camera.
//!
//! - `subsystem` picks which of the incompatible logging formats to read;
//! - `parser` turns raw log lines into camera events, with the cross-line
//!   state that diff- and transition-based formats need;
//! - `session`, `store` and `manager` keep the session records: overlap
//!   resolution, pause/resume, startup crash recovery and queries;
//! - `timefmt`, `csvfmt` and `icon` render timestamps, CSV exports and
//!   icon data URLs;
//! - `monitor` decides what the polling control loop does next;
//! - `text` holds the character-level scanning primitives everything else
//!   is specified with.

pub mod csvfmt;
pub mod icon;
pub mod manager;
pub mod monitor;
pub mod parser;
pub mod session;
pub mod store;
pub mod subsystem;
pub mod text;
pub mod timefmt;
