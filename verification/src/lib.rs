//! Turns a raster picture into a mesh of triangles: the red channel is
//! blurred and run through an edge filter, pixels that stand out are drawn
//! at random, and the drawn points are inserted one by one into a
//! triangulation of the picture's rectangle.

pub mod circle;
pub mod cli;
pub mod delaunay;
pub mod drawer;
pub mod filter;
pub mod filter_laws;
pub mod geometry;
pub mod kernel;
pub mod mesh_laws;
pub mod raster;
pub mod sampler;
pub mod triangle;
pub mod triangulation;

pub use crate::triangulation::{Rate, Triangulation};
