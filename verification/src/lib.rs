//! Stream provisioning for an RTSP media server.
//!
//! The crate holds the decisions that stand between a directory of video
//! files and a running server: which files become streams and under which
//! name, whether a stream is transcoded on demand or looped from segments
//! cut beforehand, how the one-shot cutting of a source is supervised, and
//! which pipeline description is mounted under which path. Reading the
//! environment and the file system, and driving the media framework, are
//! left to the program that uses the crate; it hands in plain values and
//! carries out the actions that come back.

pub mod bootstrap;
pub mod config;
pub mod planner;
pub mod scanner;
pub mod segmenter;
pub mod text;
