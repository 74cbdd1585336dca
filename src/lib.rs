//! A small virtual-filesystem layer that lists the entries of one directory.
//!
//! The library holds the logic of a listing: how the path of each entry is
//! formed from the directory and the entry's name, and the scan that turns
//! what the operating system reports while a directory is read into the
//! sequence of results handed to the consumer. Reading the directory itself
//! is left to the caller, which feeds each outcome to a [`scan::Scan`].
pub mod path;
pub mod scan;
pub mod listing;
