//! The verified core of an image dataset studio: path-keyed metadata stores,
//! the content-addressed thumbnail cache, the project inventory and its
//! duplicate groups, batch renames, caption sidecars and batch captioning.

pub mod text;
pub mod paths;
pub mod store;
pub mod rating;
pub mod metadata;
pub mod rename;
pub mod captions;
pub mod scan;
pub mod duplicates;
pub mod thumbnail;
pub mod captioner;
pub mod backends;
pub mod export;
pub mod images;
pub mod resources;
