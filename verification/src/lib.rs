//! Reader for the GTK icon-theme cache format.
//!
//! An icon-theme cache is a binary file that maps icon names to the set of
//! theme subdirectories that contain an image for that name.  The file holds
//! a fixed big-endian header, an on-disk hash table of singly linked bucket
//! chains, a directory list, and per-icon image lists.  All on-disk
//! references are absolute byte offsets into the file, used purely as
//! indices into one read-only arena; every read is bounds-checked.
//!
//! The cache is loaded once into an immutable [`cache::GtkIconCache`] value;
//! each [`cache::GtkIconCache::lookup`] call is independent and returns the
//! deduplicated set of directory names recorded for the queried icon name.

pub mod arena;
pub mod cache;
pub mod hash;

pub use arena::read_card16_from;
pub use arena::read_card32_from;
pub use arena::read_cstring_from;
pub use cache::CacheError;
pub use cache::GtkIconCache;
pub use hash::icon_name_hash;
