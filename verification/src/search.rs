//! `search`: regex over transcripts, returning the complete round-trip per hit.

pub mod types;
pub mod engine;
pub mod matcher;
pub mod needles;
pub mod excerpt;
pub mod turns;
pub mod filter;
pub mod record_text;
pub mod hits;
pub mod census;
pub mod axis;
pub mod diagnosis;
pub mod text_out;
pub mod siblings;
pub mod notes;
pub mod reconstruct;
pub mod render;
pub mod timeline;
pub mod scan;
pub mod rows;
pub mod refusals;
