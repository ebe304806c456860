//! Word-case conversion: splitting text into words wherever a separator,
//! a change of letter case or a change between digits and letters marks a
//! word boundary, and rendering the words again in a target convention.
//!
//! - `unicode` classifies characters, over the character properties and case
//!   mappings of the standard library.
//! - `segment` says where words begin and what the words of a text are;
//!   `segment_laws` and `word_spans` prove what holds of them.
//! - `transform` is the engine that runs a `Policy` over the words of a text.
//! - `title` is the Title Case policy and the `TitleCase` conversion;
//!   `title_laws` proves what holds of its output, and `casing` tells on
//!   which texts a second conversion changes nothing.

pub mod unicode;
pub mod segment;
pub mod segment_laws;
pub mod word_spans;
pub mod transform;
pub mod title;
pub mod title_laws;
pub mod casing;

pub use crate::title::TitleCase;
