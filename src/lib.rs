//! Integer core of a multithreaded scanline ray tracer: the RGBA framebuffer,
//! its text encoding, the scanline work queue shared by render workers, and
//! the per-row decisions a worker makes between shading calls.

pub mod bitmap;
pub mod ppm;
pub mod rotation;
pub mod scheduler;
