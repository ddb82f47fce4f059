//! A verified directory-navigation engine for a local file browser.
//!
//! The library owns the session state of a file-browsing shell: the list of
//! storage volumes, the active volume and directory, and an index-addressable
//! snapshot of the most recent directory listing.  It orders listings with a
//! stable policy (subdirectories first, each group sorted), classifies files
//! by extension into displayable images, and resolves positional indices from
//! a custom resource-fetch query back to paths for binary retrieval.
//!
//! All filesystem and network work stays outside: callers hand in directory
//! entries, volume accessibility answers and file bytes as plain values, and
//! take plain values back.

pub mod image;
pub mod nav;
pub mod paths;
pub mod resource;
pub mod text;
pub mod volumes;
