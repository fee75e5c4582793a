//! Verified core of a coding-agent transcript toolkit: excerpting, range addressing,
//! label policy, censuses, merges and the decision steps of the `list`/`show`
//! subcommands.

pub mod chars;
pub mod ids;
pub mod text;
pub mod range;
pub mod labels;
pub mod model;
pub mod subagent;
pub mod durations;
pub mod session;
pub mod session_render;
pub mod lineage;
pub mod timefmt;
pub mod search;
pub mod show;
pub mod time_window;
pub mod stats;
pub mod topology;
