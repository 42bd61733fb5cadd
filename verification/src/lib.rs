//! Terminal control over a byte stream, the receive queue of a serial line, the
//! snake game played on that terminal, and one-dimensional k-means clustering
//! over fixed-capacity vectors.

pub mod color;
pub mod fixed_vec;
pub mod kmeans;
pub mod terminal;
pub mod screen;
pub mod input;
pub mod game;
