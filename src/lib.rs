//! The integer side of a small Whitted-style ray tracer: the depth bound of the
//! recursive shading, the choice of the nearest surface along a ray, the
//! checkerboard's tile parity, the split of the image into row bands and their
//! reassembly, and the PPM byte stream of a quantized framebuffer.
pub mod bands;
pub mod checker;
pub mod hit;
pub mod ppm;
pub mod trace;
