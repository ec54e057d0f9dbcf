//! A minimal software rasterizer: triangles with fixed-point coordinates,
//! point-containment by the barycentric area test, rigid rotation about the
//! centroid, an AABB-culled draw pass over a row-major color buffer, and a
//! BMP container encoder for that buffer.

pub mod aabb;
pub mod bmp;
pub mod color;
pub mod fixed;
pub mod geometry;
pub mod mesh;
pub mod raster;
pub mod triangle;
