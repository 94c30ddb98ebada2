//! The repository descriptor parser.
//!
//! The descriptor (`repomd.xml`) enumerates a repository's metadata files,
//! each tagged with a `type` attribute. The entry whose type is `primary` is
//! the package index: its checksum text is the staleness token, and its
//! location child's `href` attribute is where the index can be fetched.

use vstd::prelude::*;
use vstd::string::StringSliceAdditionalSpecFns;

use crate::errors::{ResolveError, ResolveErrorV};
use crate::xml::{
    attr, elems_view, find_child, parse_xml, spec_attr, spec_find_child, xml_elems_of, XmlElem,
    XmlElemV,
};

verus! {

/// What the descriptor says about the package index.
#[derive(Debug)]
pub struct Descriptor {
    /// Opaque staleness token; compared for equality only.
    pub checksum: Vec<u8>,
    /// Where the package index lives, relative to the repository base.
    pub index_location: Vec<u8>,
}

/// Mathematical value of a [`Descriptor`].
pub struct DescriptorV {
    pub checksum: Seq<u8>,
    pub index_location: Seq<u8>,
}

impl View for Descriptor {
    type V = DescriptorV;

    open spec fn view(&self) -> DescriptorV {
        DescriptorV { checksum: self.checksum@, index_location: self.index_location@ }
    }
}

/// The first element at or after `from` whose `type` attribute is `primary`.
pub open spec fn spec_primary_scan(elems: Seq<XmlElemV>, from: int) -> Option<int>
    decreases elems.len() - from,
{
    if from < 0 || from >= elems.len() {
        None
    } else if spec_attr(elems[from], "type".spec_bytes()) == Some("primary".spec_bytes()) {
        Some(from)
    } else {
        spec_primary_scan(elems, from + 1)
    }
}

/// What the descriptor extraction yields on a parsed document.
pub open spec fn spec_descriptor_of_elems(elems: Seq<XmlElemV>) -> Result<
    DescriptorV,
    ResolveErrorV,
> {
    match spec_primary_scan(elems, 0) {
        None => Err(ResolveErrorV::MissingIndexDescriptor),
        Some(p) => match spec_find_child(elems, p, "checksum".spec_bytes()) {
            None => Err(ResolveErrorV::MissingChecksum),
            Some(c) => match elems[c].text {
                None => Err(ResolveErrorV::MissingChecksum),
                Some(checksum) => match spec_find_child(elems, p, "location".spec_bytes()) {
                    None => Err(ResolveErrorV::MissingLocation),
                    Some(l) => match spec_attr(elems[l], "href".spec_bytes()) {
                        None => Err(ResolveErrorV::MissingLocationHref),
                        Some(href) => Ok(
                            DescriptorV { checksum: checksum, index_location: href },
                        ),
                    },
                },
            },
        },
    }
}

/// What parsing descriptor bytes yields: a malformed document is an error of
/// its own; everything else is decided by the extraction above.
pub open spec fn spec_descriptor_of(bytes: Seq<u8>) -> Result<DescriptorV, ResolveErrorV> {
    match xml_elems_of(bytes) {
        None => Err(ResolveErrorV::MalformedDescriptor),
        Some(elems) => spec_descriptor_of_elems(elems),
    }
}

/// The value of a descriptor extraction result.
pub open spec fn desc_result_view(r: Result<Descriptor, ResolveError>) -> Result<
    DescriptorV,
    ResolveErrorV,
> {
    match r {
        Ok(d) => Ok(d@),
        Err(e) => Err(e@),
    }
}

/// Find the first element whose `type` attribute is `primary`.
fn find_primary(elems: &Vec<XmlElem>) -> (r: Option<usize>)
    ensures
        match r {
            Some(p) => p < elems@.len() && spec_primary_scan(elems_view(elems@), 0) == Some(
                p as int,
            ),
            None => spec_primary_scan(elems_view(elems@), 0) is None,
        },
{
    let ghost ev = elems_view(elems@);
    let n = elems.len();
    let mut j: usize = 0;
    while j < n
        invariant
            j <= n,
            n == elems@.len(),
            ev == elems_view(elems@),
            ev.len() == elems@.len(),
            forall|k: int| 0 <= k < ev.len() ==> ev[k] == #[trigger] elems@[k]@,
            spec_primary_scan(ev, 0) == spec_primary_scan(ev, j as int),
        decreases n - j,
    {
        let matched = match attr(&elems[j], "type".as_bytes()) {
            Some(v) => crate::bytes::bytes_eq(v.as_slice(), "primary".as_bytes()),
            None => false,
        };
        if matched {
            assert(spec_primary_scan(ev, j as int) == Some(j as int));
            return Some(j);
        }
        proof {
            assert(spec_primary_scan(ev, j as int) == spec_primary_scan(ev, j + 1));
        }
        j += 1;
    }
    assert(spec_primary_scan(ev, j as int) is None);
    None
}

/// Extract the index descriptor from a parsed document.
pub fn extract_descriptor(elems: &Vec<XmlElem>) -> (r: Result<Descriptor, ResolveError>)
    ensures
        desc_result_view(r) == spec_descriptor_of_elems(elems_view(elems@)),
{
    let p = match find_primary(elems) {
        Some(p) => p,
        None => {
            return Err(ResolveError::MissingIndexDescriptor);
        },
    };
    let c = match find_child(elems, p, "checksum".as_bytes()) {
        Some(c) => c,
        None => {
            return Err(ResolveError::MissingChecksum);
        },
    };
    let checksum = match &elems[c].text {
        Some(t) => crate::bytes::copy_bytes(t.as_slice()),
        None => {
            return Err(ResolveError::MissingChecksum);
        },
    };
    let l = match find_child(elems, p, "location".as_bytes()) {
        Some(l) => l,
        None => {
            return Err(ResolveError::MissingLocation);
        },
    };
    let href = match attr(&elems[l], "href".as_bytes()) {
        Some(h) => crate::bytes::copy_bytes(h.as_slice()),
        None => {
            return Err(ResolveError::MissingLocationHref);
        },
    };
    Ok(Descriptor { checksum, index_location: href })
}

/// Parse descriptor bytes and extract the index descriptor.
pub fn parse_descriptor(bytes: &[u8]) -> (r: Result<Descriptor, ResolveError>)
    ensures
        desc_result_view(r) == spec_descriptor_of(bytes@),
{
    match parse_xml(bytes) {
        Some(elems) => extract_descriptor(&elems),
        None => Err(ResolveError::MalformedDescriptor),
    }
}

} // verus!
