//! A bounding-volume hierarchy over triangles, and ray queries against it.
//!
//! [`ray_resolvers::bvh::generate_bvh`] builds the hierarchy: a binary tree
//! whose leaves are the triangles and whose inner nodes carry the box round
//! everything below them. A query,
//! [`ray_resolvers::ray_resolver::RayResolver::resolve`], walks the tree,
//! leaves out every branch whose box the ray misses, and answers with the
//! nearest surface that the ray meets.
//!
//! Numbers are IEEE 754 single-precision numbers, held as their encodings
//! ([`scalar::Scalar`]). The crate compares them and picks among them, which
//! is exact; whatever rounds, it asks of functions that the caller hands in
//! ([`ray_resolvers::ray_resolver::Arithmetic`]). What is proved holds
//! whatever those functions return; what a query finds if they behave like
//! arithmetic is stated in [`ray_resolvers::nearest`].
pub mod error;
pub mod ray_resolvers;
pub mod scalar;
pub mod utilities;
