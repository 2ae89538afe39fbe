//! A version manager for the CMake build tool: release catalog, version
//! resolution, installation pipeline and activation, as verified decision
//! logic over plain values.

pub mod activation;
pub mod commands;
pub mod error;
pub mod feed;
pub mod package;
pub mod platform;
pub mod releases;
pub mod storage;
pub mod text;
pub mod versions;
