//! Deterministic colors for filesystem paths.
//!
//! A path string is normalized into lowercased, non-empty, non-blacklisted
//! components; the concatenation of those components is then mapped to a hue
//! by a positional per-character scoring scheme over the alphabet of the ten
//! digits followed by the twenty-six lowercase letters.
//!
//! The scoring weights (36 for the first ten characters, 2/5 for the rest,
//! each divided by the alphabet size 36) are rationals with denominator 90,
//! so the library computes hues exactly, in integer ninetieths of a degree.
//! Callers that need a hue in degrees divide by 90 at the boundary.

pub mod alphabet;
pub mod hue;
pub mod normalize;
pub mod render;

pub use alphabet::position_for;
pub use alphabet::positioner;
pub use alphabet::Positioner;
pub use hue::concat_components;
pub use hue::hue_ninetieths;
pub use hue::path_hue_ninetieths;
pub use hue::wrap_ninetieths;
pub use normalize::clean;
pub use render::get_format;
pub use render::hex_byte;
pub use render::hex_digit;
