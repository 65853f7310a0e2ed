pub mod bvh;
pub mod nearest;
pub mod ray_resolver;
