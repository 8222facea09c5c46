//! A minimal training-and-evaluation harness for competitive image
//! classifiers over fixed-size 28x28 grayscale images with 10 classes.
//!
//! The harness is generic over a family of "neuron" units: a network
//! implements the [`MnistNetwork`] capability (an ordered collection of
//! neurons, per-pixel ingestion and one opaque learning step), and the
//! driver trains it, builds a per-neuron per-class activation profile and
//! scores test images against that profile.
//!
//! Pixel intensities and neuron activations are unsigned fixed-point
//! values bounded by [`PIXEL_MAX`] and [`EM_MAX`]; normalized scores are
//! compared exactly as fractions by cross multiplication, so no rounding
//! enters the classification decision.

use vstd::prelude::*;

pub mod model;
pub mod score;
pub mod profile;
pub mod report;
pub mod evaluate;
pub mod toy;

pub use evaluate::MnistNetwork;
pub use evaluate::MnistNeuron;
pub use profile::ProfileVariant;
pub use report::MetricReport;

verus! {

/// Side length of one image.
pub const MNIST_SIDE: usize = 28;

/// Number of pixels of one image: `MNIST_SIDE * MNIST_SIDE`.
pub const MNIST_AREA: usize = 784;

/// Number of classes; labels range over `0..NUM_CLASSES`.
pub const NUM_CLASSES: usize = 10;

/// Largest pixel intensity a buffer may hold.
pub const PIXEL_MAX: u64 = 65536;

/// Largest activation a neuron may report.
pub const EM_MAX: u64 = 65536;

/// Largest number of neurons a network may expose to the evaluator.
pub const MAX_NEURONS: usize = 4096;

/// Largest number of training images one evaluation may consume.
pub const MAX_TRAIN_IMAGES: usize = 1048576;

/// Largest value a profile cell can reach: `EM_MAX * MAX_TRAIN_IMAGES`.
pub const PROFILE_CELL_MAX: u64 = 65536 * 1048576;

/// Largest value a per-class total can reach:
/// `EM_MAX * MAX_TRAIN_IMAGES * MAX_NEURONS`.
pub const CLASS_TOTAL_MAX: u64 = 65536 * 1048576 * 4096;

/// Largest value a weighted classification slot can reach:
/// `CLASS_TOTAL_MAX * EM_MAX`.
pub const WEIGHTED_MAX: u128 = 65536 * 65536 * 1048576 * 4096;

/// How an evaluation fails.
#[derive(Clone, Copy, Debug, PartialEq, Eq, Structural)]
pub enum MetricError {
    /// An image index reaches past the end of the image buffer.
    IndexError,
    /// A label lies outside `0..NUM_CLASSES`.
    InvalidLabel,
}

} // verus!
