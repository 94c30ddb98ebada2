//! Repository package resolver.
//!
//! Given a repository identifier, the library resolves the current download
//! URLs of two tracked packages by reading the repository's metadata: the
//! top-level descriptor names a (gzip-compressed) package index and its
//! checksum, and the index names every package with its download location.
//! A checksum-gated cache avoids re-parsing the index when nothing changed.
//! A secondary feature lists the available repository identifiers found on a
//! directory-listing page.
//!
//! Remote fetching is abstracted behind the [`resolver::Fetcher`] trait; the
//! parsing of XML, gzip and the listing pattern is delegated to outside
//! crates behind a small set of trusted wrappers, and everything around them
//! is verified.

pub mod bytes;
pub mod descriptor;
pub mod errors;
pub mod index;
pub mod listing;
pub mod resolver;
pub mod web;
pub mod xml;

use vstd::prelude::*;

verus! {

} // verus!
