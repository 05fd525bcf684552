//! Batch generation of resized image derivatives.
//!
//! Given a directory of images, or a bucket to fetch them from, and a list of
//! sizes, a run cuts every image to every size. This crate holds the rules of
//! such a run: how derived images are named and told from sources, which
//! entries of a directory or keys of a listing are sources, what the units of
//! work of a batch are and what a batch has produced, when progress is
//! reported, and how one image is cut. Reading directories, talking to the
//! bucket and running units side by side are left to the caller.

pub mod config;
pub mod engine;
pub mod explain;
pub mod lambda;
pub mod naming;
pub mod pipeline;
pub mod progress;
pub mod raster;
pub mod remote;
pub mod resolver;
pub mod text;

pub use config::{Config, ConfigError};
pub use lambda::{LambdaEvent, LambdaOutput};
pub use naming::{generate_thumb_path, get_file_name};
pub use raster::TransformError;
