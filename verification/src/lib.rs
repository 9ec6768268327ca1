//! Scene compiler and record encoding for signed-distance-field scenes.
//!
//! A scene is a forest of binary blend operators over shape leaves. The
//! compiler flattens it into index-addressed arrays of fixed-size records
//! that a sphere-marching evaluator reads.
pub mod engine;
