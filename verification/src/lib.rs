pub mod utils;
pub mod perlin;
pub mod bvh;
pub mod camera;
pub mod texture;
pub mod aabb;
mod seq_lemmas;
pub mod image;
