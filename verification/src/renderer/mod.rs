//! The integer side of rendering: the order in which the bounding-volume
//! hierarchy lays out objects before splitting them, and the order in which
//! the pixels of an image are produced.
pub mod bvh;
pub mod camera;
