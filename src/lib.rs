//! Chunk streaming core of a procedurally generated, infinitely scrolling
//! 2D tile world: chunk identities and pixel data, the camera-driven window
//! of resident chunks, the request/ready cache and the channel facade that
//! connects the control thread with the generator workers.

pub mod colour;
pub mod chunk;
pub mod window;
pub mod cache;
pub mod generator;
pub mod world;
pub mod input;
pub mod frame;
