//! Presentation core of an e-reader: a tree of views that receive events and
//! repaint the regions of a shared display that changed.

pub mod category_set;
pub mod framebuffer;
pub mod geom;
pub mod importer;
pub mod gesture;
pub mod input;
pub mod metadata;
pub mod symbolic_path;
pub mod text;
pub mod view;
