//! The discrete core of a path tracer: the plain-text PPM encoding of the
//! rendered raster, the bounce-by-bounce decisions that end a light path, and
//! the derivation of one random stream per pixel so that a parallel render is
//! reproducible from a single seed.
pub mod path;
pub mod ppm;
pub mod raster;
