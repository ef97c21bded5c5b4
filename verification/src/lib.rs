//! An image-synthesis pipeline for webcam frames: it segments the sky of a
//! decoded raster, recolours it with a time-of-day gradient blend, and
//! injects one of several statistical noise models, each stage specified
//! and verified down to the pixel.
//!
//! The raster model, the colour scheduler, the two sky segmenters, the
//! boundary smoother, the compositor and the noise synthesizers live here;
//! frame acquisition, decoding, the command line and the wallpaper call sit
//! outside the library and hand plain values in and out.

pub mod camera;
pub mod cli;
pub mod error;
pub mod gui;
pub mod image_processing;
pub mod image_processor;
pub mod raster;
pub mod sky_detection;
pub mod stream;
