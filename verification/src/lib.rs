//! Sorting images by orientation: the decisions, without the file system.
//!
//! Paths are plain strings whose components are separated by `/`. Whatever
//! has to be read from a disk (the entries of a directory tree, the pixel
//! dimensions of an image, the names that already exist) is handed in as
//! plain values, and the moves to perform are handed back.

pub mod config;
pub mod extension;
pub mod orientation;
pub mod path;
pub mod relocate;
pub mod resolve;
pub mod text;
pub mod unique;
pub mod walk;

pub use crate::config::{Mode, Opt};
pub use crate::extension::{has_image_extension, ExtensionMatcher};
pub use crate::orientation::{classify, image_orientation, Orientation};
pub use crate::relocate::{count_moved, plan_moves, Move};
pub use crate::resolve::{dst_path, get_dsts, orientation_dirs, prepend_orientation, Image};
pub use crate::unique::{dedupe, make_uniq};
pub use crate::walk::{image_paths, walk_depths, Entry};
