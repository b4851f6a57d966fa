pub mod camera;
pub mod hittable;
pub mod material;
pub mod primitive;
pub mod samples;
pub mod texture;
