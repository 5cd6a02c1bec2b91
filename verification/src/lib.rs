//! Verified logic for a small set of graphics programs: the decision kernel and image
//! encoder of a Monte-Carlo path tracer, a maze board and a Rubik's cube.

pub mod image;
pub mod material;
pub mod maze;
pub mod ray;
pub mod rubiks_cube;
pub mod scalar;
pub mod scene;
pub mod vector;
