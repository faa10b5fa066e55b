//! Square matrices of sizes 2, 3 and 4 with their index algebra (element
//! access, transpose, submatrix extraction, identity) and a pixel canvas that
//! serialises to the plain-text PPM raster format.
//!
//! The containers are generic over the stored value: the structure and layout
//! logic is verified here for every element type, while numeric work on
//! floating-point values is left to the caller.
pub mod canvas;
pub mod matrix;
