//! Sentence segmentation driven by SRX rules.
//!
//! A rule set binds language patterns to ordered groups of break and
//! no-break rules. [`document::parse`] reads one from an SRX document,
//! leaving out each rule whose pattern the regular expression engine
//! refuses and noting why. [`ruleset::Ruleset::resolve`] gives the ordered
//! rules that apply to a language code, and
//! [`rules::ResolvedRules::split`] cuts a text into segments with them:
//! at each position inside the text the first rule that applies decides,
//! and the segments join to the text again.
pub mod cursor;
pub mod document;
pub mod laws;
pub mod markup;
pub mod packaged;
pub mod pattern;
pub mod rules;
pub mod ruleset;
pub mod segment;
pub mod source;
pub mod text;
