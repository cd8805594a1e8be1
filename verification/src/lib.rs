//! Renders a blame-annotated source listing where each line's background
//! color encodes the relative age of the commit that last touched it.
//!
//! The crate fuses three line-indexed streams: an ordered revision list,
//! a per-line blame annotation stream, and a pre-rendered text stream.
//! A [`revindex::RevisionIndex`] maps each revision identifier to its rank
//! in the list, a [`gradient::Gradient`] interpolates between two endpoint
//! colors with one step per revision, and [`fuse`] combines both into one
//! colorized output line per annotation line.

pub mod bytes;
pub mod color;
pub mod fuse;
pub mod gradient;
pub mod revindex;
