//! Animated radar loops: the most recent scans of a weather radar, each laid
//! over a static map, encoded as one looping GIF.
//!
//! The crate holds the part that computes. Given the payloads of the map
//! layers and of the scan images, it selects the scans to show, decodes and
//! composites the images in a fixed stacking order, and encodes the frames
//! into a byte stream. Fetching the payloads and serving the stream is left
//! to the caller.

pub mod error;
pub mod canvas;
pub mod selector;
pub mod compositor;
pub mod sink;
pub mod animation;
pub mod encoder;
pub mod assets;
pub mod bom_radar_gif_encoder;
