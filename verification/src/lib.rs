//! Language-detection report pipeline.
//!
//! The library validates detection options, models classification results
//! as plain fixed-point values, and renders them as line-delimited JSON.
//! Real-valued quantities (the relative-distance threshold and the
//! confidence of a classification) are carried as integers in micro-units:
//! one unit equals one millionth.

pub mod codec;
pub mod config;
pub mod pipeline;
pub mod record;
