//! The repository lister.
//!
//! A fixed pattern finds `version_architecture` tokens inside
//! directory-listing markup. Consecutive captures sharing a version form one
//! row; whenever the version changes from the immediately preceding capture
//! a new row starts, so a non-contiguous repeat of a version opens a new
//! row rather than merging. The rows are then sorted by version,
//! descending and lexicographic (plain string comparison, not a semantic
//! version order); the sort is stable, so rows with equal versions keep
//! their order.

use vstd::prelude::*;
use vstd::string::StringSliceAdditionalSpecFns;
use vstd::seq_lib::lemma_multiset_commutative;
use vstd::multiset::Multiset;

use crate::bytes::{lemma_lex_le_total, lemma_lex_le_trans, lex_le};

verus! {

/// The enumerated repositories: one row per version run, each with its
/// architecture tokens in order of first appearance.
pub struct Repositories {
    pub repositories: Vec<(Vec<u8>, Vec<Vec<u8>>)>,
}

/// The values of captured (version, architecture) pairs.
pub open spec fn pairs_view(pairs: Seq<(Vec<u8>, Vec<u8>)>) -> Seq<(Seq<u8>, Seq<u8>)> {
    pairs.map_values(|p: (Vec<u8>, Vec<u8>)| (p.0@, p.1@))
}

/// The values of listing rows.
pub open spec fn rows_view(rows: Seq<(Vec<u8>, Vec<Vec<u8>>)>) -> Seq<(Seq<u8>, Seq<Seq<u8>>)> {
    rows.map_values(|p: (Vec<u8>, Vec<Vec<u8>>)| (p.0@, p.1@.map_values(|a: Vec<u8>| a@)))
}

impl View for Repositories {
    type V = Seq<(Seq<u8>, Seq<Seq<u8>>)>;

    open spec fn view(&self) -> Seq<(Seq<u8>, Seq<Seq<u8>>)> {
        rows_view(self.repositories@)
    }
}

/// The pattern that finds repository tokens in directory-listing markup.
pub open spec fn spec_listing_pattern() -> Seq<char> {
    ">(\\d+\\.\\d+\\.\\d+\\.\\d+)_(\\w+)/<"@
}

/// The pattern, for the matcher.
fn listing_pattern() -> (r: &'static str)
    ensures
        r@ == spec_listing_pattern(),
{
    ">(\\d+\\.\\d+\\.\\d+\\.\\d+)_(\\w+)/<"
}

/// What matching `pattern` over `text` yields: the two captured groups of
/// each match, in order of appearance; `None` when the pattern is not a
/// valid expression or the text is not UTF-8. A function of the arguments
/// alone.
pub uninterp spec fn capture_pairs_of(pattern: Seq<char>, text: Seq<u8>) -> Option<
    Seq<(Seq<u8>, Seq<u8>)>,
>;

/// Relies on `regex::Regex::new` and `Regex::captures_iter` (and
/// `str::from_utf8` to view the page as text): the pairs of captured groups
/// of every non-overlapping match, in order of appearance, deterministic in
/// pattern and text; a group that did not participate is rendered empty.
#[verifier::external_body]
fn find_captures(pattern: &str, text: &[u8]) -> (r: Option<Vec<(Vec<u8>, Vec<u8>)>>)
    ensures
        r is Some <==> capture_pairs_of(pattern@, text@) is Some,
        r is Some ==> Some(pairs_view(r->0@)) == capture_pairs_of(pattern@, text@),
{
    let text = std::str::from_utf8(text).ok()?;
    let re = regex::Regex::new(pattern).ok()?;
    Some(re.captures_iter(text).map(|c| (
        c.get(1).map_or("", |m| m.as_str()).as_bytes().to_vec(),
        c.get(2).map_or("", |m| m.as_str()).as_bytes().to_vec(),
    )).collect())
}

/// Rows built from the captures: each capture appends its architecture to
/// the last row when its version equals that row's version, and opens a new
/// row otherwise.
pub open spec fn spec_group_rows(caps: Seq<(Seq<u8>, Seq<u8>)>) -> Seq<(Seq<u8>, Seq<Seq<u8>>)>
    decreases caps.len(),
{
    if caps.len() == 0 {
        Seq::empty()
    } else {
        let prev = spec_group_rows(caps.drop_last());
        let c = caps.last();
        if prev.len() > 0 && prev.last().0 == c.0 {
            prev.update(prev.len() - 1, (prev.last().0, prev.last().1.push(c.1)))
        } else {
            prev.push((c.0, seq![c.1]))
        }
    }
}

/// Group captures into rows.
fn group_rows(caps: &Vec<(Vec<u8>, Vec<u8>)>) -> (r: Vec<(Vec<u8>, Vec<Vec<u8>>)>)
    ensures
        rows_view(r@) == spec_group_rows(pairs_view(caps@)),
{
    let ghost cv = pairs_view(caps@);
    let n = caps.len();
    let mut out: Vec<(Vec<u8>, Vec<Vec<u8>>)> = Vec::new();
    let mut i: usize = 0;
    proof {
        assert(cv.take(0) =~= Seq::<(Seq<u8>, Seq<u8>)>::empty());
        assert(rows_view(out@) =~= spec_group_rows(cv.take(0)));
    }
    while i < n
        invariant
            i <= n,
            n == caps@.len(),
            cv == pairs_view(caps@),
            cv.len() == caps@.len(),
            forall|k: int| 0 <= k < cv.len() ==> cv[k] == (#[trigger] caps@[k].0@, caps@[k].1@),
            rows_view(out@) == spec_group_rows(cv.take(i as int)),
        decreases n - i,
    {
        proof {
            assert(cv.take(i + 1).drop_last() =~= cv.take(i as int));
            assert(cv.take(i + 1).last() == cv[i as int]);
        }
        let ghost prev = spec_group_rows(cv.take(i as int));
        let mut same = false;
        if out.len() > 0 {
            same = crate::bytes::bytes_eq(
                out[out.len() - 1].0.as_slice(),
                caps[i].0.as_slice(),
            );
        }
        if same {
            let last = match out.pop() {
                Some(row) => row,
                None => {
                    // `same` implies the row vector is not empty.
                    assert(false);
                    (Vec::new(), Vec::new())
                },
            };
            let mut archs = last.1;
            archs.push(crate::bytes::copy_bytes(caps[i].1.as_slice()));
            out.push((last.0, archs));
            proof {
                assert(rows_view(out@) =~~= prev.update(
                    prev.len() - 1,
                    (prev.last().0, prev.last().1.push(cv[i as int].1)),
                ));
            }
        } else {
            let version = crate::bytes::copy_bytes(caps[i].0.as_slice());
            let arch = crate::bytes::copy_bytes(caps[i].1.as_slice());
            let mut archs: Vec<Vec<u8>> = Vec::new();
            archs.push(arch);
            out.push((version, archs));
            proof {
                assert(rows_view(out@) =~~= prev.push((cv[i as int].0, seq![cv[i as int].1])));
            }
        }
        i += 1;
    }
    proof {
        assert(cv.take(n as int) =~= cv);
    }
    out
}

/// Descending lexicographic order on rows: every later row's version is at
/// most every earlier one's.
pub open spec fn spec_sorted_desc(rows: Seq<(Seq<u8>, Seq<Seq<u8>>)>) -> bool {
    forall|i: int, j: int|
        0 <= i < j < rows.len() ==> lex_le(#[trigger] rows[j].0, #[trigger] rows[i].0)
}

/// Where a row with version `v` is inserted into a descending row sequence:
/// after every row whose version is strictly above `v`, and before every row
/// whose version is `v` or below. The sort folds from the right, so a row
/// inserted later stands earlier in the original order; placing it before
/// the rows of equal version keeps the sort stable.
pub open spec fn spec_insert_pos(rows: Seq<(Seq<u8>, Seq<Seq<u8>>)>, v: Seq<u8>) -> int
    decreases rows.len(),
{
    if rows.len() == 0 {
        0
    } else if !lex_le(rows[0].0, v) {
        1 + spec_insert_pos(rows.drop_first(), v)
    } else {
        0
    }
}

/// One insertion step of the descending sort.
pub open spec fn spec_insert_desc(
    rows: Seq<(Seq<u8>, Seq<Seq<u8>>)>,
    x: (Seq<u8>, Seq<Seq<u8>>),
) -> Seq<(Seq<u8>, Seq<Seq<u8>>)> {
    rows.insert(spec_insert_pos(rows, x.0), x)
}

/// The stable descending sort of the rows, by insertion from the front.
pub open spec fn spec_sort_desc(rows: Seq<(Seq<u8>, Seq<Seq<u8>>)>) -> Seq<
    (Seq<u8>, Seq<Seq<u8>>),
>
    decreases rows.len(),
{
    if rows.len() == 0 {
        Seq::empty()
    } else {
        spec_insert_desc(spec_sort_desc(rows.drop_first()), rows[0])
    }
}

/// The insertion position is a boundary: everything before it is strictly
/// above `v`, and the row at it (if any) is at most `v`.
pub proof fn lemma_insert_pos_props(rows: Seq<(Seq<u8>, Seq<Seq<u8>>)>, v: Seq<u8>)
    ensures
        0 <= spec_insert_pos(rows, v) <= rows.len(),
        forall|k: int| 0 <= k < spec_insert_pos(rows, v) ==> !lex_le(#[trigger] rows[k].0, v),
        spec_insert_pos(rows, v) < rows.len() ==> lex_le(rows[spec_insert_pos(rows, v)].0, v),
    decreases rows.len(),
{
    if rows.len() > 0 && !lex_le(rows[0].0, v) {
        lemma_insert_pos_props(rows.drop_first(), v);
        assert forall|k: int| 0 <= k < spec_insert_pos(rows, v) implies !lex_le(
            #[trigger] rows[k].0,
            v,
        ) by {
            if k > 0 {
                assert(rows.drop_first()[k - 1] == rows[k]);
            }
        }
    }
}

/// Inserting into a sequence puts exactly the new element into its multiset.
proof fn lemma_seq_insert_to_multiset(
    s: Seq<(Seq<u8>, Seq<Seq<u8>>)>,
    p: int,
    x: (Seq<u8>, Seq<Seq<u8>>),
)
    requires
        0 <= p <= s.len(),
    ensures
        s.insert(p, x).to_multiset() == s.to_multiset().insert(x),
{
    broadcast use vstd::seq_lib::group_to_multiset_ensures;

    assert(s.insert(p, x) =~= s.take(p).push(x) + s.skip(p));
    lemma_multiset_commutative(s.take(p).push(x), s.skip(p));
    assert(s =~= s.take(p) + s.skip(p));
    lemma_multiset_commutative(s.take(p), s.skip(p));
    assert(s.insert(p, x).to_multiset() =~= s.to_multiset().insert(x));
}

/// Inserting keeps a descending sequence descending.
pub proof fn lemma_insert_desc_sorted(rows: Seq<(Seq<u8>, Seq<Seq<u8>>)>, x: (Seq<u8>, Seq<Seq<u8>>))
    requires
        spec_sorted_desc(rows),
    ensures
        spec_sorted_desc(spec_insert_desc(rows, x)),
{
    let p = spec_insert_pos(rows, x.0);
    lemma_insert_pos_props(rows, x.0);
    rows.insert_ensures(p, x);
    let r = rows.insert(p, x);
    assert forall|i: int, j: int| 0 <= i < j < r.len() implies lex_le(
        #[trigger] r[j].0,
        #[trigger] r[i].0,
    ) by {
        if j == p && i < p {
            lemma_lex_le_total(rows[i].0, x.0);
        }
        if i == p && j > p && j - 1 > p {
            lemma_lex_le_trans(rows[j - 1].0, rows[p].0, x.0);
        }
        if i < p && j > p {
            lemma_lex_le_total(rows[i].0, x.0);
        }
    }
}

/// The sorted rows are exactly the given rows, as a multiset.
pub proof fn lemma_sort_desc_permutes(rows: Seq<(Seq<u8>, Seq<Seq<u8>>)>)
    ensures
        spec_sort_desc(rows).to_multiset() == rows.to_multiset(),
    decreases rows.len(),
{
    broadcast use vstd::seq_lib::group_to_multiset_ensures;

    if rows.len() > 0 {
        lemma_sort_desc_permutes(rows.drop_first());
        let sorted = spec_sort_desc(rows.drop_first());
        lemma_insert_pos_props(sorted, rows[0].0);
        lemma_seq_insert_to_multiset(sorted, spec_insert_pos(sorted, rows[0].0), rows[0]);
        assert(rows =~= seq![rows[0]] + rows.drop_first());
        lemma_multiset_commutative(seq![rows[0]], rows.drop_first());
        assert(seq![rows[0]].to_multiset() =~= Multiset::<(Seq<u8>, Seq<Seq<u8>>)>::empty().insert(
            rows[0],
        )) by {
            assert(seq![rows[0]].drop_first() =~= Seq::<(Seq<u8>, Seq<Seq<u8>>)>::empty());
        }
        assert(spec_sort_desc(rows).to_multiset() =~= rows.to_multiset());
    }
}

/// The sorted rows are descending.
pub proof fn lemma_sort_desc_sorted(rows: Seq<(Seq<u8>, Seq<Seq<u8>>)>)
    ensures
        spec_sorted_desc(spec_sort_desc(rows)),
    decreases rows.len(),
{
    if rows.len() > 0 {
        lemma_sort_desc_sorted(rows.drop_first());
        lemma_insert_desc_sorted(spec_sort_desc(rows.drop_first()), rows[0]);
    }
}

/// Find where to insert a row with version `v`.
fn find_insert_pos(out: &Vec<(Vec<u8>, Vec<Vec<u8>>)>, v: &Vec<u8>) -> (p: usize)
    ensures
        p <= out@.len(),
        p as int == spec_insert_pos(rows_view(out@), v@),
{
    let ghost rv = rows_view(out@);
    let n = out.len();
    let mut i: usize = 0;
    proof {
        assert(rv.skip(0) =~= rv);
    }
    while i < n && !crate::bytes::bytes_lex_le(out[i].0.as_slice(), v.as_slice())
        invariant
            i <= n,
            n == out@.len(),
            rv == rows_view(out@),
            rv.len() == out@.len(),
            forall|k: int|
                0 <= k < rv.len() ==> rv[k].0 == #[trigger] out@[k].0@,
            spec_insert_pos(rv, v@) == i + spec_insert_pos(rv.skip(i as int), v@),
            forall|k: int| 0 <= k < i ==> !lex_le(#[trigger] rv[k].0, v@),
        decreases n - i,
    {
        proof {
            assert(rv.skip(i as int)[0] == rv[i as int]);
            assert(rv.skip(i as int).drop_first() =~= rv.skip(i + 1));
        }
        i += 1;
    }
    proof {
        if i < n {
            assert(rv.skip(i as int)[0] == rv[i as int]);
            assert(spec_insert_pos(rv.skip(i as int), v@) == 0);
        } else {
            assert(rv.skip(i as int) =~= Seq::<(Seq<u8>, Seq<Seq<u8>>)>::empty());
            assert(spec_insert_pos(rv.skip(i as int), v@) == 0);
        }
    }
    i
}

/// Sort rows by version, descending, lexicographic, stable.
fn sort_rows_desc(rows: Vec<(Vec<u8>, Vec<Vec<u8>>)>) -> (r: Vec<(Vec<u8>, Vec<Vec<u8>>)>)
    ensures
        rows_view(r@) == spec_sort_desc(rows_view(rows@)),
{
    let ghost all = rows_view(rows@);
    let mut rest = rows;
    let mut out: Vec<(Vec<u8>, Vec<Vec<u8>>)> = Vec::new();
    proof {
        assert(all.skip(rest@.len() as int) =~= Seq::<(Seq<u8>, Seq<Seq<u8>>)>::empty());
        assert(rows_view(out@) =~= spec_sort_desc(all.skip(rest@.len() as int)));
        assert(rows_view(rest@) =~~= all.take(rest@.len() as int));
    }
    while rest.len() > 0
        invariant
            rest@.len() <= all.len(),
            rows_view(rest@) == all.take(rest@.len() as int),
            rows_view(out@) == spec_sort_desc(all.skip(rest@.len() as int)),
        decreases rest@.len(),
    {
        let ghost m = rest@.len() as int;
        let ghost rest0 = rest@;
        let x = match rest.pop() {
            Some(x) => x,
            None => {
                // The loop condition rules this out.
                assert(false);
                (Vec::new(), Vec::new())
            },
        };
        let ghost xv = (x.0@, x.1@.map_values(|a: Vec<u8>| a@));
        proof {
            assert(rows_view(rest@) =~~= all.take(m - 1));
            assert(xv == rows_view(rest0)[m - 1]);
            assert(all.take(m)[m - 1] == all[m - 1]);
        }
        let p = find_insert_pos(&out, &x.0);
        let ghost ov = rows_view(out@);
        out.insert(p, x);
        proof {
            assert(rows_view(out@) =~~= ov.insert(p as int, xv));
            assert(all.take(m).last() == all[m - 1]);
            assert(all.skip(m - 1)[0] == all[m - 1]);
            assert(all.skip(m - 1).drop_first() =~= all.skip(m));
            assert(xv == all[m - 1]);
            assert(rows_view(out@) == spec_sort_desc(all.skip(m - 1)));
        }
    }
    proof {
        assert(all.skip(0) =~= all);
    }
    out
}

/// What the listing yields: the captures grouped into rows and sorted,
/// or no rows at all when the matcher could not run.
pub open spec fn spec_listing_of(caps: Option<Seq<(Seq<u8>, Seq<u8>)>>) -> Seq<
    (Seq<u8>, Seq<Seq<u8>>),
> {
    match caps {
        None => Seq::empty(),
        Some(c) => spec_sort_desc(spec_group_rows(c)),
    }
}

/// Enumerate the repositories named on a directory-listing page.
pub fn list_repositories(page: &[u8]) -> (r: Repositories)
    ensures
        r@ == spec_listing_of(capture_pairs_of(spec_listing_pattern(), page@)),
{
    let caps = match find_captures(listing_pattern(), page) {
        Some(c) => c,
        None => {
            let r = Repositories { repositories: Vec::new() };
            proof {
                assert(r@ =~= Seq::<(Seq<u8>, Seq<Seq<u8>>)>::empty());
            }
            return r;
        },
    };
    let rows = group_rows(&caps);
    let sorted = sort_rows_desc(rows);
    Repositories { repositories: sorted }
}

} // verus!
