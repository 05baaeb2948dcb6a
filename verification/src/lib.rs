//! Construction of read length / accuracy density heatmaps.
//!
//! The library turns per-read (length, identity) samples into a square
//! pixel grid: lengths are placed on a log10 scale, identities either on
//! a linear percent scale or on a phred scale, counts are accumulated per
//! pixel bin, and one to three such histograms are composited into an RGB
//! canvas.  Identities are carried as integers in hundredths of a percent
//! so that every step of the pipeline is exact integer arithmetic.

use vstd::prelude::*;

pub mod axis_ticks;
pub mod bignum;
pub mod compositor;
pub mod histogram;
pub mod identity;
pub mod transform;
pub mod utils;

verus! {

/// Palette of colors a dataset can be rendered in.
#[derive(Copy, Clone, Debug, PartialEq, Eq, Structural)]
pub enum Color {
    Red,
    Green,
    Blue,
    Purple,
    Yellow,
}

/// Background polarity of the canvas: counts brighten a black canvas and
/// darken a white one.
#[derive(Copy, Clone, Debug, PartialEq, Eq, Structural)]
pub enum BackGround {
    Black,
    White,
}

/// The ways the pipeline can fail.  Every failure aborts the whole run;
/// there is no partial output.
#[derive(Copy, Clone, Debug, PartialEq, Eq, Structural)]
pub enum HeatmapError {
    /// The number of datasets and the number of palette colors disagree,
    /// or the number of datasets is zero or more than three.
    ConfigError,
    /// A record lacks a usable edit-distance tag, carries a tag of an
    /// unexpected type, or has no aligned bases to compute an identity from.
    ParseError,
    /// A dataset's histogram is empty: there is nothing to plot.
    DataError,
    /// Opening an input or writing the image failed (raised by callers
    /// that perform the actual I/O).
    IoError,
}

} // verus!
