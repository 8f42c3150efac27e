//! Identifies which x265 preset produced a set of observed encoder flags.
//!
//! The observed flags are read as `name=value` tokens into [`Settings`], then
//! compared with a fixed catalog of presets held by a [`Determiner`]: a preset
//! matches when it contradicts none of the observed values. When none or
//! several match, the presets are ranked by how many observed values they
//! share, and the best ones can be laid out in a comparison table.

mod catalog;
mod determiner;
mod laws;
mod parse;
mod report;
mod settings;
mod style;
mod table;

pub use determiner::{Cli, ColorMode, Determiner};
pub use laws::{
    closest_matches_cover_catalog, determine_preset_is_consistent, determine_preset_is_repeatable,
    matching_is_monotonic,
};
pub use parse::{normalize, parse_string, split_words};
pub use report::{names_list, pairs_list};
pub use settings::Settings;
pub use table::render_table;
