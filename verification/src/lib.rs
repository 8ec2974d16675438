//! Reachability monitoring engine: per-target probe scheduling, bounded
//! history, and a gap-aware latency series for plotting.

pub mod clock;
pub mod pong;
pub mod registry;
pub mod segments;
pub mod window;

pub use clock::{default_now, held_nanos, instant_after, nanos_since, Clock, CADENCE_NANOS};
pub use pong::{first_address, Pong, ProbeError};
pub use registry::{PingApp, ProbeRequest, TargetInfo};
pub use segments::{history_segments, PLOT_LEN};
pub use window::{
    default_true, Group, Indicator, PingWindow, GROUP_COUNT, UNTITLED, URL_SCHEME,
};
