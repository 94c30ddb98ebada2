//! A plain-data model of an XML document.
//!
//! An outside crate parses the document; the result is handed over as a flat
//! vector of elements in document (pre-)order, each with its depth in the
//! tree, so that all navigation — finding an element, finding a child —
//! is ordinary verified code over a `Vec`.

use vstd::prelude::*;

verus! {

/// One XML element: tag name, attributes in document order, the text held
/// directly at the start of the element (if its first child is a text node),
/// and the element's depth in the tree (the root element has depth 1).
pub struct XmlElem {
    pub tag: Vec<u8>,
    pub attrs: Vec<(Vec<u8>, Vec<u8>)>,
    pub text: Option<Vec<u8>>,
    pub depth: usize,
}

/// Mathematical value of an [`XmlElem`].
pub struct XmlElemV {
    pub tag: Seq<u8>,
    pub attrs: Seq<(Seq<u8>, Seq<u8>)>,
    pub text: Option<Seq<u8>>,
    pub depth: int,
}

impl View for XmlElem {
    type V = XmlElemV;

    open spec fn view(&self) -> XmlElemV {
        XmlElemV {
            tag: self.tag@,
            attrs: self.attrs@.map_values(|p: (Vec<u8>, Vec<u8>)| (p.0@, p.1@)),
            text: match self.text {
                Some(t) => Some(t@),
                None => None,
            },
            depth: self.depth as int,
        }
    }
}

/// The values of a sequence of elements.
pub open spec fn elems_view(elems: Seq<XmlElem>) -> Seq<XmlElemV> {
    elems.map_values(|e: XmlElem| e@)
}

/// What parsing a byte string as XML yields: the element tree flattened in
/// document order, or `None` when the bytes are not UTF-8 or not well-formed
/// XML. The result is a function of the bytes alone.
pub uninterp spec fn xml_elems_of(bytes: Seq<u8>) -> Option<Seq<XmlElemV>>;

/// Relies on `str::from_utf8` and `roxmltree::Document::parse`: the returned
/// vector holds the document's elements in document order; per element the
/// tag name, the attributes in order, the text when the element's first
/// child is a text node, and the depth (number of element ancestors,
/// the element itself included). Parsing is deterministic in the input.
#[verifier::external_body]
pub(crate) fn parse_xml(bytes: &[u8]) -> (r: Option<Vec<XmlElem>>)
    ensures
        r is Some <==> xml_elems_of(bytes@) is Some,
        r is Some ==> Some(elems_view(r->0@)) == xml_elems_of(bytes@),
{
    let text = std::str::from_utf8(bytes).ok()?;
    let doc = roxmltree::Document::parse(text).ok()?;
    Some(doc.descendants().filter(|n| n.is_element()).map(|n| XmlElem {
        tag: n.tag_name().name().as_bytes().to_vec(),
        attrs: n.attributes().map(
            |a| (a.name().as_bytes().to_vec(), a.value().as_bytes().to_vec()),
        ).collect(),
        text: n.text().map(|t| t.as_bytes().to_vec()),
        depth: n.ancestors().filter(|a| a.is_element()).count(),
    }).collect())
}

/// The value of the first attribute named `name`, scanning from position `i`.
pub open spec fn spec_attr_from(attrs: Seq<(Seq<u8>, Seq<u8>)>, i: int, name: Seq<u8>) -> Option<
    Seq<u8>,
>
    decreases attrs.len() - i,
{
    if i < 0 || i >= attrs.len() {
        None
    } else if attrs[i].0 == name {
        Some(attrs[i].1)
    } else {
        spec_attr_from(attrs, i + 1, name)
    }
}

/// The value of the element's first attribute named `name`.
pub open spec fn spec_attr(e: XmlElemV, name: Seq<u8>) -> Option<Seq<u8>> {
    spec_attr_from(e.attrs, 0, name)
}

/// Look up an attribute by name.
pub fn attr<'a>(e: &'a XmlElem, name: &[u8]) -> (r: Option<&'a Vec<u8>>)
    ensures
        match r {
            Some(v) => spec_attr(e@, name@) == Some(v@),
            None => spec_attr(e@, name@) is None,
        },
{
    let mut i: usize = 0;
    while i < e.attrs.len()
        invariant
            i <= e.attrs@.len(),
            spec_attr(e@, name@) == spec_attr_from(e@.attrs, i as int, name@),
        decreases e.attrs@.len() - i,
    {
        if crate::bytes::bytes_eq(e.attrs[i].0.as_slice(), name) {
            return Some(&e.attrs[i].1);
        }
        i += 1;
    }
    None
}

/// Whether the element at `j` is a direct child of the element at `p` that
/// matches: same subtree (every element strictly between them lies deeper
/// than `p`), depth exactly one below `p`, and tag `tag`.
pub open spec fn spec_child_tag_scan(
    elems: Seq<XmlElemV>,
    pdepth: int,
    from: int,
    tag: Seq<u8>,
) -> Option<int>
    decreases elems.len() - from,
{
    if from < 0 || from >= elems.len() {
        None
    } else if elems[from].depth <= pdepth {
        None
    } else if elems[from].depth == pdepth + 1 && elems[from].tag == tag {
        Some(from)
    } else {
        spec_child_tag_scan(elems, pdepth, from + 1, tag)
    }
}

/// As [`spec_child_tag_scan`], but the child must also carry an attribute
/// named `aname`.
pub open spec fn spec_child_tag_attr_scan(
    elems: Seq<XmlElemV>,
    pdepth: int,
    from: int,
    tag: Seq<u8>,
    aname: Seq<u8>,
) -> Option<int>
    decreases elems.len() - from,
{
    if from < 0 || from >= elems.len() {
        None
    } else if elems[from].depth <= pdepth {
        None
    } else if elems[from].depth == pdepth + 1 && elems[from].tag == tag && spec_attr(
        elems[from],
        aname,
    ) is Some {
        Some(from)
    } else {
        spec_child_tag_attr_scan(elems, pdepth, from + 1, tag, aname)
    }
}

/// An element found by [`spec_child_tag_attr_scan`] has the tag and carries
/// the attribute.
pub proof fn lemma_child_tag_attr_scan_found(
    elems: Seq<XmlElemV>,
    pdepth: int,
    from: int,
    tag: Seq<u8>,
    aname: Seq<u8>,
    l: int,
)
    requires
        spec_child_tag_attr_scan(elems, pdepth, from, tag, aname) == Some(l),
    ensures
        0 <= l < elems.len(),
        elems[l].tag == tag,
        elems[l].depth == pdepth + 1,
        spec_attr(elems[l], aname) is Some,
    decreases elems.len() - from,
{
    if 0 <= from < elems.len() && elems[from].depth > pdepth && !(elems[from].depth == pdepth + 1
        && elems[from].tag == tag && spec_attr(elems[from], aname) is Some) {
        lemma_child_tag_attr_scan_found(elems, pdepth, from + 1, tag, aname, l);
    }
}

/// The position of the first direct child of the element at `p` whose tag is
/// `tag`.
pub open spec fn spec_find_child(elems: Seq<XmlElemV>, p: int, tag: Seq<u8>) -> Option<int> {
    spec_child_tag_scan(elems, elems[p].depth, p + 1, tag)
}

/// The position of the first direct child of the element at `p` whose tag is
/// `tag` and which carries an attribute named `aname`.
pub open spec fn spec_find_child_with_attr(
    elems: Seq<XmlElemV>,
    p: int,
    tag: Seq<u8>,
    aname: Seq<u8>,
) -> Option<int> {
    spec_child_tag_attr_scan(elems, elems[p].depth, p + 1, tag, aname)
}

/// Find the first direct child of the element at `p` with tag `tag`.
pub fn find_child(elems: &Vec<XmlElem>, p: usize, tag: &[u8]) -> (r: Option<usize>)
    requires
        p < elems@.len(),
    ensures
        match r {
            Some(j) => j < elems@.len() && spec_find_child(elems_view(elems@), p as int, tag@)
                == Some(j as int),
            None => spec_find_child(elems_view(elems@), p as int, tag@) is None,
        },
{
    let ghost ev = elems_view(elems@);
    let n = elems.len();
    let pdepth = elems[p].depth;
    let mut j: usize = p + 1;
    while j < n && elems[j].depth > pdepth
        invariant
            p < j <= n,
            n == elems@.len(),
            p < elems@.len(),
            pdepth == ev[p as int].depth,
            ev == elems_view(elems@),
            ev.len() == elems@.len(),
            forall|k: int| 0 <= k < ev.len() ==> ev[k] == #[trigger] elems@[k]@,
            spec_child_tag_scan(ev, pdepth as int, p + 1, tag@) == spec_child_tag_scan(
                ev,
                pdepth as int,
                j as int,
                tag@,
            ),
        decreases elems@.len() - j,
    {
        if elems[j].depth == pdepth + 1 && crate::bytes::bytes_eq(elems[j].tag.as_slice(), tag) {
            assert(spec_child_tag_scan(ev, pdepth as int, j as int, tag@) == Some(j as int));
            return Some(j);
        }
        proof {
            assert(spec_child_tag_scan(ev, pdepth as int, j as int, tag@) == spec_child_tag_scan(
                ev,
                pdepth as int,
                j + 1,
                tag@,
            ));
        }
        j += 1;
    }
    assert(spec_child_tag_scan(ev, pdepth as int, j as int, tag@) is None);
    None
}

/// Find the first direct child of the element at `p` with tag `tag` and an
/// attribute named `aname`.
pub fn find_child_with_attr(elems: &Vec<XmlElem>, p: usize, tag: &[u8], aname: &[u8]) -> (r: Option<
    usize,
>)
    requires
        p < elems@.len(),
    ensures
        match r {
            Some(j) => j < elems@.len() && spec_find_child_with_attr(
                elems_view(elems@),
                p as int,
                tag@,
                aname@,
            ) == Some(j as int),
            None => spec_find_child_with_attr(elems_view(elems@), p as int, tag@, aname@) is None,
        },
{
    let ghost ev = elems_view(elems@);
    let n = elems.len();
    let pdepth = elems[p].depth;
    let mut j: usize = p + 1;
    while j < n && elems[j].depth > pdepth
        invariant
            p < j <= n,
            n == elems@.len(),
            p < elems@.len(),
            pdepth == ev[p as int].depth,
            ev == elems_view(elems@),
            ev.len() == elems@.len(),
            forall|k: int| 0 <= k < ev.len() ==> ev[k] == #[trigger] elems@[k]@,
            spec_child_tag_attr_scan(ev, pdepth as int, p + 1, tag@, aname@)
                == spec_child_tag_attr_scan(ev, pdepth as int, j as int, tag@, aname@),
        decreases elems@.len() - j,
    {
        if elems[j].depth == pdepth + 1 && crate::bytes::bytes_eq(elems[j].tag.as_slice(), tag) {
            if attr(&elems[j], aname).is_some() {
                assert(spec_child_tag_attr_scan(ev, pdepth as int, j as int, tag@, aname@) == Some(
                    j as int,
                ));
                return Some(j);
            }
        }
        proof {
            assert(spec_child_tag_attr_scan(ev, pdepth as int, j as int, tag@, aname@)
                == spec_child_tag_attr_scan(ev, pdepth as int, j + 1, tag@, aname@));
        }
        j += 1;
    }
    assert(spec_child_tag_attr_scan(ev, pdepth as int, j as int, tag@, aname@) is None);
    None
}

} // verus!
