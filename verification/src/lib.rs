//! Verified core of the Neural DVR backend: configuration parsing, RTSP URL
//! construction, MJPEG frame extraction, stream bookkeeping and camera
//! discovery decisions.

pub mod api;
pub mod capture;
pub mod config;
pub mod discovery;
pub mod frames;
pub mod models;
pub mod order;
mod outside;
pub mod streaming;
pub mod text;
