//! Quantitative analysis of thin-layer chromatography plates. Proved in Verus: image
//! statistics, the polynomial basis and training samples of the background fit, background
//! removal against a fixed-point surface, plate corner assembly and the rectified size, spot
//! detection from the labelled regions, spot integration and the reference lookup. The
//! least-squares fits, Hough line geometry and the perspective warp run on floating point
//! outside this library.

pub mod blobs;
pub mod calibration;
pub mod color;
pub mod corners;
pub mod geometry;
pub mod gray;
pub mod hdr;
pub mod integration;
pub mod labelling;
pub mod plate;
pub mod poly;
