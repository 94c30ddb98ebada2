//! The package index parser.
//!
//! The index is a gzip-compressed XML document whose root holds one
//! `package` element per package, each with a `name` child and a `location`
//! child carrying an `href` attribute. For each of the two tracked package
//! names the absolute download URL is the repository base location followed
//! by that reference; a tracked package that does not occur in the index
//! yields the empty URL, which is policy, not an error. The first element
//! matching a tracked name wins; later duplicates are ignored.

use vstd::prelude::*;
use vstd::string::StringSliceAdditionalSpecFns;

use crate::errors::{ResolveError, ResolveErrorV};
use crate::xml::{
    attr, elems_view, find_child, find_child_with_attr, parse_xml, spec_attr, spec_find_child,
    spec_find_child_with_attr, xml_elems_of, XmlElem, XmlElemV,
};

verus! {

/// The resolved download URL of each tracked package: the repository
/// configuration package and the graphical client package, in that order.
/// An empty URL means "not published in this index", never a failure.
#[derive(Debug)]
pub struct PackageUrlSet {
    pub chum_url: Vec<u8>,
    pub gui_url: Vec<u8>,
}

impl View for PackageUrlSet {
    type V = (Seq<u8>, Seq<u8>);

    open spec fn view(&self) -> (Seq<u8>, Seq<u8>) {
        (self.chum_url@, self.gui_url@)
    }
}

/// The name of the tracked repository-configuration package.
pub open spec fn chum_name() -> Seq<u8> {
    "sailfishos-chum-repo-config".spec_bytes()
}

/// The name of the tracked graphical-client package.
pub open spec fn gui_name() -> Seq<u8> {
    "sailfishos-chum-gui".spec_bytes()
}

/// What gunzipping a byte string yields, or `None` when the bytes are not a
/// valid gzip stream. The result is a function of the bytes alone.
pub uninterp spec fn gunzip_of(data: Seq<u8>) -> Option<Seq<u8>>;

/// Relies on `flate2::read::GzDecoder` (via `std::io::Read::read_to_end`):
/// decompresses a whole gzip stream held in memory, deterministically in the
/// input bytes; any decoding failure is reported as an error by the reader.
#[verifier::external_body]
pub(crate) fn gunzip(data: &[u8]) -> (r: Option<Vec<u8>>)
    ensures
        r is Some <==> gunzip_of(data@) is Some,
        r is Some ==> Some(r->0@) == gunzip_of(data@),
{
    let mut out: Vec<u8> = Vec::new();
    match std::io::Read::read_to_end(&mut flate2::read::GzDecoder::new(data), &mut out) {
        Ok(_) => Some(out),
        Err(_) => None,
    }
}

/// The text of the `name` child of the element at `j`.
pub open spec fn spec_pkg_name(elems: Seq<XmlElemV>, j: int) -> Option<Seq<u8>> {
    match spec_find_child(elems, j, "name".spec_bytes()) {
        None => None,
        Some(c) => elems[c].text,
    }
}

/// The first element at or after `from` that is a `package` named `name`.
pub open spec fn spec_pkg_scan(elems: Seq<XmlElemV>, from: int, name: Seq<u8>) -> Option<int>
    decreases elems.len() - from,
{
    if from < 0 || from >= elems.len() {
        None
    } else if elems[from].tag == "package".spec_bytes() && spec_pkg_name(elems, from) == Some(
        name,
    ) {
        Some(from)
    } else {
        spec_pkg_scan(elems, from + 1, name)
    }
}

/// The URL of the package at `j`: the base location followed by the `href`
/// of the first `location` child that carries one; empty when there is none.
pub open spec fn spec_pkg_url(elems: Seq<XmlElemV>, j: int, base: Seq<u8>) -> Seq<u8> {
    match spec_find_child_with_attr(elems, j, "location".spec_bytes(), "href".spec_bytes()) {
        None => Seq::empty(),
        Some(l) => base + spec_attr(elems[l], "href".spec_bytes())->0,
    }
}

/// The URL resolved for the tracked package `name`: that of its first
/// occurrence, or empty when the index does not hold it.
pub open spec fn spec_url_for(elems: Seq<XmlElemV>, name: Seq<u8>, base: Seq<u8>) -> Seq<u8> {
    match spec_pkg_scan(elems, 0, name) {
        None => Seq::empty(),
        Some(j) => spec_pkg_url(elems, j, base),
    }
}

/// Both tracked URLs of a parsed index.
pub open spec fn spec_urls_of_elems(elems: Seq<XmlElemV>, base: Seq<u8>) -> (Seq<u8>, Seq<u8>) {
    (spec_url_for(elems, chum_name(), base), spec_url_for(elems, gui_name(), base))
}

/// What parsing index bytes yields: decompression and document errors are
/// errors of their own; a missing tracked package is not.
pub open spec fn spec_index_urls(bytes: Seq<u8>, base: Seq<u8>) -> Result<
    (Seq<u8>, Seq<u8>),
    ResolveErrorV,
> {
    match gunzip_of(bytes) {
        None => Err(ResolveErrorV::DecompressionFailed),
        Some(xml) => match xml_elems_of(xml) {
            None => Err(ResolveErrorV::MalformedIndex),
            Some(elems) => Ok(spec_urls_of_elems(elems, base)),
        },
    }
}

/// The value of an index extraction result.
pub open spec fn urls_result_view(r: Result<PackageUrlSet, ResolveError>) -> Result<
    (Seq<u8>, Seq<u8>),
    ResolveErrorV,
> {
    match r {
        Ok(u) => Ok(u@),
        Err(e) => Err(e@),
    }
}

/// Find the first `package` element named `name`.
fn find_package(elems: &Vec<XmlElem>, name: &[u8]) -> (r: Option<usize>)
    ensures
        match r {
            Some(j) => j < elems@.len() && spec_pkg_scan(elems_view(elems@), 0, name@) == Some(
                j as int,
            ),
            None => spec_pkg_scan(elems_view(elems@), 0, name@) is None,
        },
{
    let ghost ev = elems_view(elems@);
    let n = elems.len();
    let mut j: usize = 0;
    while j < n
        invariant
            j <= n,
            n == elems@.len(),
            ev == elems_view(elems@),
            ev.len() == elems@.len(),
            forall|k: int| 0 <= k < ev.len() ==> ev[k] == #[trigger] elems@[k]@,
            spec_pkg_scan(ev, 0, name@) == spec_pkg_scan(ev, j as int, name@),
        decreases n - j,
    {
        let mut matched = false;
        if crate::bytes::bytes_eq(elems[j].tag.as_slice(), "package".as_bytes()) {
            matched = match find_child(elems, j, "name".as_bytes()) {
                Some(c) => match &elems[c].text {
                    Some(t) => crate::bytes::bytes_eq(t.as_slice(), name),
                    None => false,
                },
                None => false,
            };
        }
        if matched {
            assert(spec_pkg_scan(ev, j as int, name@) == Some(j as int));
            return Some(j);
        }
        proof {
            assert(spec_pkg_scan(ev, j as int, name@) == spec_pkg_scan(ev, j + 1, name@));
        }
        j += 1;
    }
    assert(spec_pkg_scan(ev, j as int, name@) is None);
    None
}

/// The download URL of the package at `j`.
fn package_url(elems: &Vec<XmlElem>, j: usize, base: &[u8]) -> (r: Vec<u8>)
    requires
        j < elems@.len(),
    ensures
        r@ == spec_pkg_url(elems_view(elems@), j as int, base@),
{
    match find_child_with_attr(elems, j, "location".as_bytes(), "href".as_bytes()) {
        None => Vec::new(),
        Some(l) => {
            proof {
                let ev = elems_view(elems@);
                crate::xml::lemma_child_tag_attr_scan_found(
                    ev,
                    ev[j as int].depth,
                    j + 1,
                    "location".spec_bytes(),
                    "href".spec_bytes(),
                    l as int,
                );
                assert(ev[l as int] == elems@[l as int]@);
            }
            let mut url = crate::bytes::copy_bytes(base);
            match attr(&elems[l], "href".as_bytes()) {
                Some(h) => {
                    crate::bytes::append_bytes(&mut url, h.as_slice());
                },
                None => {
                    // The child was found because it carries the attribute.
                    assert(false);
                },
            }
            url
        },
    }
}

/// The URL resolved for the tracked package `name` from a parsed index.
fn url_for(elems: &Vec<XmlElem>, name: &[u8], base: &[u8]) -> (r: Vec<u8>)
    ensures
        r@ == spec_url_for(elems_view(elems@), name@, base@),
{
    match find_package(elems, name) {
        None => Vec::new(),
        Some(j) => package_url(elems, j, base),
    }
}

/// Both tracked URLs of a parsed index document.
pub fn extract_urls(elems: &Vec<XmlElem>, base: &[u8]) -> (r: PackageUrlSet)
    ensures
        r@ == spec_urls_of_elems(elems_view(elems@), base@),
{
    let chum_url = url_for(elems, "sailfishos-chum-repo-config".as_bytes(), base);
    let gui_url = url_for(elems, "sailfishos-chum-gui".as_bytes(), base);
    PackageUrlSet { chum_url, gui_url }
}

/// Gunzip and parse index bytes, then extract the tracked URLs.
pub fn parse_index(bytes: &[u8], base: &[u8]) -> (r: Result<PackageUrlSet, ResolveError>)
    ensures
        urls_result_view(r) == spec_index_urls(bytes@, base@),
{
    let xml = match gunzip(bytes) {
        Some(x) => x,
        None => {
            return Err(ResolveError::DecompressionFailed);
        },
    };
    match parse_xml(xml.as_slice()) {
        Some(elems) => Ok(extract_urls(&elems, base)),
        None => Err(ResolveError::MalformedIndex),
    }
}

/// In an index that holds no `package` element named `name`, the resolved
/// URL for `name` is the empty byte string.
pub proof fn lemma_absent_package_yields_empty(elems: Seq<XmlElemV>, name: Seq<u8>, base: Seq<u8>)
    requires
        forall|j: int|
            0 <= j < elems.len() ==> !(elems[j].tag == "package".spec_bytes() && #[trigger] spec_pkg_name(
                elems,
                j,
            ) == Some(name)),
    ensures
        spec_url_for(elems, name, base) == Seq::<u8>::empty(),
{
    lemma_pkg_scan_none(elems, 0, name);
}

/// Helper induction: a scan over match-free positions finds nothing.
proof fn lemma_pkg_scan_none(elems: Seq<XmlElemV>, from: int, name: Seq<u8>)
    requires
        forall|j: int|
            0 <= j < elems.len() ==> !(elems[j].tag == "package".spec_bytes() && #[trigger] spec_pkg_name(
                elems,
                j,
            ) == Some(name)),
    ensures
        spec_pkg_scan(elems, from, name) is None,
    decreases elems.len() - from,
{
    if 0 <= from < elems.len() {
        lemma_pkg_scan_none(elems, from + 1, name);
    }
}

} // verus!
