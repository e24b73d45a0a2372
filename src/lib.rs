//! Log ingestion, normalization, filtering, streaming aggregation and
//! pattern detection for systemd-journal and syslog text.
pub mod text;
pub mod pattern;
pub mod entry;
pub mod parse;
pub mod record;
pub mod normalize;
pub mod table;
pub mod state;
pub mod rank;
pub mod order;
pub mod patterns;
pub mod filter;
pub mod channel;
pub mod ui;
pub mod monitor;
