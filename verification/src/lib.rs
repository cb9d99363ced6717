//! Log handling and content-provider helpers for a Minecraft launcher:
//! censoring of user secrets in game logs, incremental log cursors,
//! chunked log decoding, and the description of content providers.

pub mod facets;
pub mod logs;
pub mod providers;
pub mod secrets;
pub mod text;
