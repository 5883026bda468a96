//! A ray tracer's scene description and layouts: the kinds of objects and
//! materials a scene holds, its render settings, how a scene is assembled
//! from its objects, the steps and the object order of the bounding-volume
//! hierarchy build, the order in which the pixels of a render are produced,
//! and the object-list edits and image buffer of the interactive front end.

pub mod gui;
pub mod renderer;
pub mod scene_file;
