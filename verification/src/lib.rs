//! An archive of daily word-puzzle results, and at its heart the codec for
//! the blocks of glyphs that players paste.
//!
//! A submission is the pasted result text of a puzzle site and the solution
//! transcript that belongs to it. [`validate::decode_submission`] makes the
//! record that is stored, or says why the submission is rejected:
//!
//! * [`scan`] finds the blocks of glyphs in the text, by the grammar of the
//!   site's family ([`grammar`]), and keeps what stands around them;
//! * [`assemble`] decodes a block, glyph by glyph ([`glyph`]), into the
//!   canonical pattern, and works out victory and attempts;
//! * [`validate`] holds the outcome against the solution transcript.
//!
//! For display, [`render`] makes glyphs from a stored pattern again, [`parts`]
//! takes a record apart into its blocks and lines, [`pacing`] tells guesses
//! from answers, and [`escape`] writes text as a script literal. [`legacy`]
//! derives attempts for records that were stored without them, and [`route`]
//! decides where a request goes. [`laws`] states what holds of these together.

pub mod assemble;
pub mod escape;
pub mod glyph;
pub mod grammar;
pub mod laws;
pub mod legacy;
pub mod pacing;
pub mod parts;
pub mod rejection;
pub mod render;
pub mod route;
pub mod scan;
pub mod text;
pub mod validate;
