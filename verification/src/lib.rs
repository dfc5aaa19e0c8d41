//! Round-trip monitoring for a set of network targets: the per-target RTT
//! history and statistics, the registry of monitored addresses, the control
//! decisions of a monitoring loop, and the text shown for each target.

pub mod address;
pub mod control;
pub mod display;
pub mod engine;
pub mod reply;
pub mod target;
pub mod target_laws;

pub use address::Address;
pub use reply::{PingError, PingReply, ReplyStatus};
pub use target::{Target, TargetView, HIST_SIZE};
pub use engine::Engine;
pub use display::{error_summary, n_o_d, rtt_summary, status_color, StatusColor};
pub use control::{Action, LoopControl, Poll, Signal};
