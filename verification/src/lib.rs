//! The verified core of a path tracer.
//!
//! The crate holds what a renderer decides: which of the objects a ray hits
//! first, how a bounding volume hierarchy is built and searched, how boxes
//! are joined, which face of a surface a ray strikes, what a material
//! returns and when a path ends. Every function states what it returns, and
//! the statements are proved.
//!
//! Numbers are carried as the bit patterns of doubles. The crate compares
//! and negates them, which is exact on the pattern, and leaves all other
//! arithmetic to its caller: shapes, materials and textures that need it
//! implement the traits `Hittable`, `Material` and `Texture` outside.

pub mod aabb;
pub mod accel;
pub mod bvh;
pub mod hit;
pub mod integrator;
pub mod material;
pub mod ray;
pub mod rect;
pub mod scalar;
pub mod scatter;
pub mod sphere;
pub mod texture;
pub mod vector;
pub mod walk;
