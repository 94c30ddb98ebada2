//! The error taxonomy of a resolution.
//!
//! Every variant is terminal for the current resolution; nothing is retried.
//! A missing tracked package inside a successfully parsed index is *not* an
//! error (it yields an empty URL), so no variant stands for it.

use vstd::prelude::*;
use vstd::string::StringSliceAdditionalSpecFns;

verus! {

/// Why a resolution failed.
#[derive(Debug)]
pub enum ResolveError {
    /// A remote fetch failed; holds the transport's message.
    Transport(Vec<u8>),
    /// The repository descriptor is not a well-formed XML document.
    MalformedDescriptor,
    /// No descriptor entry is typed as the package index.
    MissingIndexDescriptor,
    /// The index descriptor entry has no checksum text.
    MissingChecksum,
    /// The index descriptor entry has no location child.
    MissingLocation,
    /// The location child has no reference attribute.
    MissingLocationHref,
    /// The package index could not be gunzipped.
    DecompressionFailed,
    /// The decompressed package index is not a well-formed XML document.
    MalformedIndex,
}

/// Mathematical value of a [`ResolveError`].
pub enum ResolveErrorV {
    Transport(Seq<u8>),
    MalformedDescriptor,
    MissingIndexDescriptor,
    MissingChecksum,
    MissingLocation,
    MissingLocationHref,
    DecompressionFailed,
    MalformedIndex,
}

impl View for ResolveError {
    type V = ResolveErrorV;

    open spec fn view(&self) -> ResolveErrorV {
        match self {
            ResolveError::Transport(m) => ResolveErrorV::Transport(m@),
            ResolveError::MalformedDescriptor => ResolveErrorV::MalformedDescriptor,
            ResolveError::MissingIndexDescriptor => ResolveErrorV::MissingIndexDescriptor,
            ResolveError::MissingChecksum => ResolveErrorV::MissingChecksum,
            ResolveError::MissingLocation => ResolveErrorV::MissingLocation,
            ResolveError::MissingLocationHref => ResolveErrorV::MissingLocationHref,
            ResolveError::DecompressionFailed => ResolveErrorV::DecompressionFailed,
            ResolveError::MalformedIndex => ResolveErrorV::MalformedIndex,
        }
    }
}

/// The message text of an error, as surfaced to the adapter.
pub open spec fn spec_message(e: ResolveErrorV) -> Seq<u8> {
    match e {
        ResolveErrorV::Transport(m) => m,
        ResolveErrorV::MalformedDescriptor => "repomd.xml is not well-formed XML".spec_bytes(),
        ResolveErrorV::MissingIndexDescriptor => "Cannot find \"primary\" data in repomd.xml".spec_bytes(),
        ResolveErrorV::MissingChecksum => "\"primary\" data in repomd.xml has no \"checksum\"".spec_bytes(),
        ResolveErrorV::MissingLocation => "\"primary\" data in repomd.xml has no \"location\"".spec_bytes(),
        ResolveErrorV::MissingLocationHref => "\"location\" tag for \"primary\" data in repomd.xml has no \"href\" attribute".spec_bytes(),
        ResolveErrorV::DecompressionFailed => "primary data could not be decompressed".spec_bytes(),
        ResolveErrorV::MalformedIndex => "primary data is not well-formed XML".spec_bytes(),
    }
}

impl ResolveError {
    /// Render the message surfaced to the caller.
    pub fn message(&self) -> (r: Vec<u8>)
        ensures
            r@ == spec_message(self@),
    {
        match self {
            ResolveError::Transport(m) => crate::bytes::copy_bytes(m.as_slice()),
            ResolveError::MalformedDescriptor => crate::bytes::bytes_of(
                "repomd.xml is not well-formed XML",
            ),
            ResolveError::MissingIndexDescriptor => crate::bytes::bytes_of(
                "Cannot find \"primary\" data in repomd.xml",
            ),
            ResolveError::MissingChecksum => crate::bytes::bytes_of(
                "\"primary\" data in repomd.xml has no \"checksum\"",
            ),
            ResolveError::MissingLocation => crate::bytes::bytes_of(
                "\"primary\" data in repomd.xml has no \"location\"",
            ),
            ResolveError::MissingLocationHref => crate::bytes::bytes_of(
                "\"location\" tag for \"primary\" data in repomd.xml has no \"href\" attribute",
            ),
            ResolveError::DecompressionFailed => crate::bytes::bytes_of(
                "primary data could not be decompressed",
            ),
            ResolveError::MalformedIndex => crate::bytes::bytes_of(
                "primary data is not well-formed XML",
            ),
        }
    }
}

} // verus!
