//! Turns a digitized audio waveform into a raster image.
//!
//! A fixed-size analysis window slides across the signal. Each window is
//! transformed to the frequency domain, its spectrum is reduced to three band
//! peaks, and the peaks are normalised into one RGB pixel. The modules follow
//! that flow:
//!
//! - [`plan`] places the windows on the signal,
//! - [`signal`] holds the samples and cuts the windows,
//! - [`magnitude`] reads the spectral magnitudes as exact numbers,
//! - [`reduce`] and [`normalize`] turn one spectrum into one colour,
//! - [`pool`] decides when the next window may be handed to a worker,
//! - [`assemble`] gathers the pixels into the image, which [`canvas`] holds,
//! - [`run`] states what holds of a run as a whole,
//! - [`naming`] names the file that the image is written to,
//! - [`ui`], with [`frame`] and [`text`], draws the terminal boxes that
//!   report on a run.
//!
//! The transform itself works on floating-point numbers and is left to the
//! caller, who hands each spectrum over as the bit patterns of its
//! magnitudes. Reading the waveform and writing the image are left to the
//! caller too.
pub mod assemble;
pub mod canvas;
pub mod error;
pub mod frame;
pub mod magnitude;
pub mod naming;
pub mod normalize;
pub mod plan;
pub mod pool;
pub mod reduce;
pub mod run;
pub mod signal;
pub mod text;
pub mod ui;
