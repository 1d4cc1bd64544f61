//! A small orthographic wireframe renderer: point sets in homogeneous
//! coordinates, fixed-point affine transforms, shape generators, an exact
//! integer line rasterizer and a line-oriented script interpreter.
pub mod color;
pub mod image;
pub mod draw;
pub mod matrix;
pub mod transform;
pub mod geometry;
pub mod lexer;
pub mod script;
pub mod interpreter;
