//! Verified core of the osm-world renderer and area-preparation server:
//! request validation, shell command construction, host-binding policy,
//! rate limiting, tile bookkeeping and render-layer partitioning.

pub mod access;
pub mod area_switch;
pub mod decimal;
pub mod digits;
pub mod digest;
pub mod errors;
pub mod extra_args;
pub mod float_text;
pub mod glyphs;
pub mod host_policy;
pub mod int_text;
pub mod launch;
pub mod listing;
pub mod paths;
pub mod prepared;
pub mod rate_limit;
pub mod render_layers;
pub mod search;
pub mod shell;
pub mod text;
pub mod themes;
pub mod tiles;
pub mod visual_detail;
