pub mod color;
pub mod interval;
pub mod point3;
pub mod ray;
pub mod scalar;
pub mod vec3;
