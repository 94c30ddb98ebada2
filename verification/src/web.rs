//! The inbound boundary: routing, JSON rendering, responses.
//!
//! A request path is routed to the lister, to the resolver, or to a
//! not-found response; results and errors are rendered as JSON bytes. Data
//! values (URLs, versions, architectures) are escaped as JSON strings;
//! error messages are surfaced verbatim, as the adapter always did.

use vstd::prelude::*;
use vstd::string::StringSliceAdditionalSpecFns;

use crate::bytes::is_prefix_of;
use crate::errors::ResolveErrorV;
use crate::index::PackageUrlSet;
use crate::listing::{capture_pairs_of, list_repositories, spec_listing_of, spec_listing_pattern};
use crate::resolver::{resolve_post, Fetcher, Handler};

verus! {

/// A response at the inbound boundary: a status code and JSON body bytes.
pub struct Response {
    pub status: u16,
    pub body: Vec<u8>,
}

impl View for Response {
    type V = (int, Seq<u8>);

    open spec fn view(&self) -> (int, Seq<u8>) {
        (self.status as int, self.body@)
    }
}

/// The error payload: rendered as a JSON object with one `error` field.
pub struct Error {
    pub error: Vec<u8>,
}

/// The body of an error response: the message, verbatim, inside a fixed
/// JSON frame.
pub open spec fn spec_error_body(msg: Seq<u8>) -> Seq<u8> {
    "{\"error\": \"".spec_bytes() + msg + "\"}".spec_bytes()
}

impl Error {
    /// Render the payload.
    pub fn to_json(&self) -> (r: Vec<u8>)
        ensures
            r@ == spec_error_body(self.error@),
    {
        let mut out = crate::bytes::bytes_of("{\"error\": \"");
        crate::bytes::append_bytes(&mut out, self.error.as_slice());
        crate::bytes::append_bytes(&mut out, "\"}".as_bytes());
        proof {
            assert(out@ =~= spec_error_body(self.error@));
        }
        out
    }
}

/// A nibble as a lowercase hexadecimal digit.
pub open spec fn spec_hex(n: u8) -> u8 {
    if n < 10 {
        (n + 48) as u8  // '0'
    } else {
        (n + 87) as u8  // 'a' - 10
    }
}

/// How one byte appears inside a JSON string: quote and backslash escaped,
/// the common control characters in their two-character forms, other
/// control characters in the `\u00..` form, everything else as itself.
pub open spec fn spec_escape_byte(b: u8) -> Seq<u8> {
    if b == 34 {  // '"'
        seq![92u8, 34u8]
    } else if b == 92 {  // '\\'
        seq![92u8, 92u8]
    } else if b == 8 {
        seq![92u8, 98u8]  // \b
    } else if b == 9 {
        seq![92u8, 116u8]  // \t
    } else if b == 10 {
        seq![92u8, 110u8]  // \n
    } else if b == 12 {
        seq![92u8, 102u8]  // \f
    } else if b == 13 {
        seq![92u8, 114u8]  // \r
    } else if b < 32 {
        seq![92u8, 117u8, 48u8, 48u8, spec_hex(b / 16), spec_hex(b % 16)]
    } else {
        seq![b]
    }
}

/// A whole byte string, escaped.
pub open spec fn spec_escape(s: Seq<u8>) -> Seq<u8>
    decreases s.len(),
{
    if s.len() == 0 {
        Seq::empty()
    } else {
        spec_escape(s.drop_last()) + spec_escape_byte(s.last())
    }
}

/// A JSON string literal: the escaped bytes between quotes.
pub open spec fn spec_json_string(s: Seq<u8>) -> Seq<u8> {
    seq![34u8] + spec_escape(s) + seq![34u8]
}

/// Append the escape of one byte.
fn push_escape_byte(out: &mut Vec<u8>, b: u8)
    ensures
        final(out)@ == old(out)@ + spec_escape_byte(b),
{
    let ghost o = out@;
    if b == 34 || b == 92 {
        out.push(92);
        out.push(b);
        proof {
            assert(out@ =~= o + spec_escape_byte(b));
        }
    } else if b == 8 {
        out.push(92);
        out.push(98);
        proof {
            assert(out@ =~= o + spec_escape_byte(b));
        }
    } else if b == 9 {
        out.push(92);
        out.push(116);
        proof {
            assert(out@ =~= o + spec_escape_byte(b));
        }
    } else if b == 10 {
        out.push(92);
        out.push(110);
        proof {
            assert(out@ =~= o + spec_escape_byte(b));
        }
    } else if b == 12 {
        out.push(92);
        out.push(102);
        proof {
            assert(out@ =~= o + spec_escape_byte(b));
        }
    } else if b == 13 {
        out.push(92);
        out.push(114);
        proof {
            assert(out@ =~= o + spec_escape_byte(b));
        }
    } else if b < 32 {
        out.push(92);
        out.push(117);
        out.push(48);
        out.push(48);
        let hi = b / 16;
        let lo = b % 16;
        out.push(if hi < 10 { hi + 48 } else { hi + 87 });
        out.push(if lo < 10 { lo + 48 } else { lo + 87 });
        proof {
            assert(out@ =~= o + spec_escape_byte(b));
        }
    } else {
        out.push(b);
        proof {
            assert(out@ =~= o + spec_escape_byte(b));
        }
    }
}

/// Append a JSON string literal for `s`.
fn push_json_string(out: &mut Vec<u8>, s: &[u8])
    ensures
        final(out)@ == old(out)@ + spec_json_string(s@),
{
    let ghost o = out@;
    out.push(34);
    let mut i: usize = 0;
    while i < s.len()
        invariant
            i <= s@.len(),
            out@ == o + seq![34u8] + spec_escape(s@.take(i as int)),
        decreases s@.len() - i,
    {
        proof {
            assert(s@.take(i + 1).drop_last() =~= s@.take(i as int));
            assert(s@.take(i + 1).last() == s@[i as int]);
        }
        push_escape_byte(out, s[i]);
        proof {
            assert(out@ =~= o + seq![34u8] + spec_escape(s@.take(i + 1)));
        }
        i += 1;
    }
    out.push(34);
    proof {
        assert(s@.take(s@.len() as int) =~= s@);
        assert(out@ =~= o + spec_json_string(s@));
    }
}

/// The body of a successful package resolution: both URLs, under their
/// fixed field names.
pub open spec fn spec_urls_body(u: (Seq<u8>, Seq<u8>)) -> Seq<u8> {
    "{\"chum_url\":".spec_bytes() + spec_json_string(u.0) + ",\"gui_url\":".spec_bytes()
        + spec_json_string(u.1) + "}".spec_bytes()
}

/// Render the body of a successful package resolution.
pub fn urls_body(u: &PackageUrlSet) -> (r: Vec<u8>)
    ensures
        r@ == spec_urls_body(u@),
{
    let mut out = crate::bytes::bytes_of("{\"chum_url\":");
    push_json_string(&mut out, u.chum_url.as_slice());
    crate::bytes::append_bytes(&mut out, ",\"gui_url\":".as_bytes());
    push_json_string(&mut out, u.gui_url.as_slice());
    crate::bytes::append_bytes(&mut out, "}".as_bytes());
    proof {
        assert(out@ =~= spec_urls_body(u@));
    }
    out
}

/// The items of a JSON array of strings, comma-separated.
pub open spec fn spec_strings_items(items: Seq<Seq<u8>>) -> Seq<u8>
    decreases items.len(),
{
    if items.len() == 0 {
        Seq::empty()
    } else if items.len() == 1 {
        spec_json_string(items[0])
    } else {
        spec_strings_items(items.drop_last()) + ",".spec_bytes() + spec_json_string(items.last())
    }
}

/// One listing row as a JSON object.
pub open spec fn spec_row_obj(row: (Seq<u8>, Seq<Seq<u8>>)) -> Seq<u8> {
    "{\"version\":".spec_bytes() + spec_json_string(row.0) + ",\"architectures\":[".spec_bytes()
        + spec_strings_items(row.1) + "]}".spec_bytes()
}

/// The items of the listing array, comma-separated.
pub open spec fn spec_rows_items(rows: Seq<(Seq<u8>, Seq<Seq<u8>>)>) -> Seq<u8>
    decreases rows.len(),
{
    if rows.len() == 0 {
        Seq::empty()
    } else if rows.len() == 1 {
        spec_row_obj(rows[0])
    } else {
        spec_rows_items(rows.drop_last()) + ",".spec_bytes() + spec_row_obj(rows.last())
    }
}

/// The body of a listing response: a JSON array of row objects.
pub open spec fn spec_rows_body(rows: Seq<(Seq<u8>, Seq<Seq<u8>>)>) -> Seq<u8> {
    "[".spec_bytes() + spec_rows_items(rows) + "]".spec_bytes()
}

/// Append one row object.
fn push_row_obj(out: &mut Vec<u8>, version: &Vec<u8>, archs: &Vec<Vec<u8>>)
    ensures
        final(out)@ == old(out)@ + spec_row_obj(
            (version@, archs@.map_values(|a: Vec<u8>| a@)),
        ),
{
    let ghost o = out@;
    let ghost av = archs@.map_values(|a: Vec<u8>| a@);
    crate::bytes::append_bytes(out, "{\"version\":".as_bytes());
    push_json_string(out, version.as_slice());
    crate::bytes::append_bytes(out, ",\"architectures\":[".as_bytes());
    let ghost mid = out@;
    let n = archs.len();
    let mut i: usize = 0;
    while i < n
        invariant
            i <= n,
            n == archs@.len(),
            av == archs@.map_values(|a: Vec<u8>| a@),
            av.len() == archs@.len(),
            forall|k: int| 0 <= k < av.len() ==> av[k] == #[trigger] archs@[k]@,
            out@ == mid + spec_strings_items(av.take(i as int)),
        decreases n - i,
    {
        proof {
            assert(av.take(i + 1).drop_last() =~= av.take(i as int));
            assert(av.take(i + 1).last() == av[i as int]);
        }
        if i > 0 {
            crate::bytes::append_bytes(out, ",".as_bytes());
        }
        push_json_string(out, archs[i].as_slice());
        proof {
            assert(out@ =~= mid + spec_strings_items(av.take(i + 1)));
        }
        i += 1;
    }
    crate::bytes::append_bytes(out, "]}".as_bytes());
    proof {
        assert(av.take(av.len() as int) =~= av);
        assert(out@ =~= o + spec_row_obj((version@, av)));
    }
}

/// Render the body of a listing response.
pub fn rows_body(repos: &crate::listing::Repositories) -> (r: Vec<u8>)
    ensures
        r@ == spec_rows_body(repos@),
{
    let ghost rv = repos@;
    let mut out = crate::bytes::bytes_of("[");
    let ghost mid = out@;
    let n = repos.repositories.len();
    let mut i: usize = 0;
    while i < n
        invariant
            i <= n,
            n == repos.repositories@.len(),
            rv == repos@,
            rv.len() == repos.repositories@.len(),
            forall|k: int|
                0 <= k < rv.len() ==> rv[k] == (
                #[trigger] repos.repositories@[k].0@,
                repos.repositories@[k].1@.map_values(|a: Vec<u8>| a@),
            ),
            mid == "[".spec_bytes(),
            out@ == mid + spec_rows_items(rv.take(i as int)),
        decreases n - i,
    {
        proof {
            assert(rv.take(i + 1).drop_last() =~= rv.take(i as int));
            assert(rv.take(i + 1).last() == rv[i as int]);
        }
        if i > 0 {
            crate::bytes::append_bytes(&mut out, ",".as_bytes());
        }
        push_row_obj(&mut out, &repos.repositories[i].0, &repos.repositories[i].1);
        proof {
            assert(out@ =~= mid + spec_rows_items(rv.take(i + 1)));
        }
        i += 1;
    }
    crate::bytes::append_bytes(&mut out, "]".as_bytes());
    proof {
        assert(rv.take(rv.len() as int) =~= rv);
        assert(out@ =~= spec_rows_body(rv));
    }
    out
}

/// Where a request path leads.
pub enum Route {
    /// The repository listing.
    Repositories,
    /// Package resolution for the derived repository identifier.
    Packages(Vec<u8>),
    /// Nothing: answered with a not-found response.
    NotFound,
}

/// Mathematical value of a [`Route`].
pub enum RouteV {
    Repositories,
    Packages(Seq<u8>),
    NotFound,
}

impl View for Route {
    type V = RouteV;

    open spec fn view(&self) -> RouteV {
        match self {
            Route::Repositories => RouteV::Repositories,
            Route::Packages(id) => RouteV::Packages(id@),
            Route::NotFound => RouteV::NotFound,
        }
    }
}

/// The position of the last `/` before `end`, if any.
pub open spec fn spec_rfind_slash(t: Seq<u8>, end: int) -> Option<int>
    decreases end,
{
    if end <= 0 || end > t.len() {
        None
    } else if t[end - 1] == 47 {  // '/'
        Some(end - 1)
    } else {
        spec_rfind_slash(t, end - 1)
    }
}

/// The repository identifier derived from the tail of a packages path: its
/// trailing two segments joined with an underscore; nothing when there are
/// not two non-empty trailing segments.
pub open spec fn spec_packages_id(tail: Seq<u8>) -> Option<Seq<u8>> {
    match spec_rfind_slash(tail, tail.len() as int) {
        None => None,
        Some(k1) => {
            let arch = tail.skip(k1 + 1);
            let version = match spec_rfind_slash(tail, k1) {
                None => tail.take(k1),
                Some(k2) => tail.subrange(k2 + 1, k1),
            };
            if arch.len() == 0 || version.len() == 0 {
                None
            } else {
                Some(version + "_".spec_bytes() + arch)
            }
        },
    }
}

/// Where a path leads: under the routing prefix, `/repositories` is the
/// listing and `/packages/<...>/<version>/<architecture>` is a resolution;
/// everything else is not found.
pub open spec fn spec_route(p: Seq<u8>) -> RouteV {
    let pre = "/.netlify/functions/lambda".spec_bytes();
    let pkg = "/packages/".spec_bytes();
    if !is_prefix_of(pre, p) {
        RouteV::NotFound
    } else {
        let rest = p.skip(pre.len() as int);
        if rest == "/repositories".spec_bytes() {
            RouteV::Repositories
        } else if is_prefix_of(pkg, rest) {
            match spec_packages_id(rest.skip(pkg.len() as int)) {
                None => RouteV::NotFound,
                Some(id) => RouteV::Packages(id),
            }
        } else {
            RouteV::NotFound
        }
    }
}

/// The position of the last `/` strictly before `end`.
fn rfind_slash(t: &[u8], end: usize) -> (r: Option<usize>)
    requires
        end <= t@.len(),
    ensures
        match r {
            Some(k) => k < end && spec_rfind_slash(t@, end as int) == Some(k as int),
            None => spec_rfind_slash(t@, end as int) is None,
        },
{
    let mut e = end;
    while e > 0
        invariant
            e <= end <= t@.len(),
            spec_rfind_slash(t@, end as int) == spec_rfind_slash(t@, e as int),
        decreases e,
    {
        if t[e - 1] == 47 {
            assert(spec_rfind_slash(t@, e as int) == Some(e - 1));
            return Some(e - 1);
        }
        e -= 1;
    }
    None
}

/// Derive the repository identifier from the tail of a packages path.
fn packages_id(tail: &[u8]) -> (r: Option<Vec<u8>>)
    ensures
        match r {
            Some(id) => spec_packages_id(tail@) == Some(id@),
            None => spec_packages_id(tail@) is None,
        },
{
    let k1 = match rfind_slash(tail, tail.len()) {
        Some(k) => k,
        None => {
            return None;
        },
    };
    let arch = &tail[k1 + 1..tail.len()];
    let version: &[u8] = match rfind_slash(tail, k1) {
        Some(k2) => &tail[k2 + 1..k1],
        None => &tail[0..k1],
    };
    proof {
        assert(arch@ =~= tail@.skip(k1 + 1));
    }
    if arch.len() == 0 || version.len() == 0 {
        return None;
    }
    let mut id = crate::bytes::copy_bytes(version);
    crate::bytes::append_bytes(&mut id, "_".as_bytes());
    crate::bytes::append_bytes(&mut id, arch);
    proof {
        assert(tail@.take(k1 as int) =~= tail@.subrange(0, k1 as int));
    }
    Some(id)
}

/// Route a request path.
pub fn route(path: &[u8]) -> (r: Route)
    ensures
        r@ == spec_route(path@),
{
    let pre = "/.netlify/functions/lambda".as_bytes();
    let pkg = "/packages/".as_bytes();
    if !crate::bytes::bytes_starts_with(path, pre) {
        return Route::NotFound;
    }
    let rest = &path[pre.len()..path.len()];
    proof {
        assert(rest@ =~= path@.skip(pre@.len() as int));
    }
    if crate::bytes::bytes_eq(rest, "/repositories".as_bytes()) {
        return Route::Repositories;
    }
    if crate::bytes::bytes_starts_with(rest, pkg) {
        let tail = &rest[pkg.len()..rest.len()];
        proof {
            assert(tail@ =~= rest@.skip(pkg@.len() as int));
        }
        return match packages_id(tail) {
            Some(id) => Route::Packages(id),
            None => Route::NotFound,
        };
    }
    Route::NotFound
}

/// The body answered on an unknown route.
pub open spec fn spec_not_found_body() -> Seq<u8> {
    spec_error_body("Not found".spec_bytes())
}

/// What a packages response looks like for a resolution outcome: the URL
/// body with status 200 on success, the verbatim error message with status
/// 500 on failure.
pub open spec fn spec_packages_response(res: Result<(Seq<u8>, Seq<u8>), ResolveErrorV>) -> (
    int,
    Seq<u8>,
) {
    match res {
        Ok(u) => (200int, spec_urls_body(u)),
        Err(e) => (500int, spec_error_body(crate::errors::spec_message(e))),
    }
}

/// Everything `handle` guarantees for a path, relating caches, fetch logs
/// and the response.
pub open spec fn handle_post(
    c0: Seq<(Seq<u8>, crate::resolver::CacheEntryV)>,
    c1: Seq<(Seq<u8>, crate::resolver::CacheEntryV)>,
    l0: Seq<crate::resolver::FetchRecord>,
    l1: Seq<crate::resolver::FetchRecord>,
    path: Seq<u8>,
    r: (int, Seq<u8>),
) -> bool {
    match spec_route(path) {
        RouteV::NotFound => r == (404int, spec_not_found_body()) && c1 == c0 && l1 == l0,
        RouteV::Repositories => c1 == c0 && repositories_post(l0, l1, r),
        RouteV::Packages(id) => packages_post(c0, c1, l0, l1, id, r),
    }
}

/// The not-found response.
fn respond_not_found() -> (r: Response)
    ensures
        r@ == (404int, spec_not_found_body()),
{
    let body = Error { error: crate::bytes::bytes_of("Not found") }.to_json();
    Response { status: 404, body }
}

/// What a listing response guarantees about the fetch log and the response.
pub open spec fn repositories_post(
    l0: Seq<crate::resolver::FetchRecord>,
    l1: Seq<crate::resolver::FetchRecord>,
    r: (int, Seq<u8>),
) -> bool {
    let f = l1[l0.len() as int];
    &&& l1.len() == l0.len() + 1
    &&& l1.subrange(0, l0.len() as int) == l0
    &&& f.base == "https://repo.sailfishos.org/obs/sailfishos:/chum/".spec_bytes()
    &&& f.path == "".spec_bytes()
    &&& match f.response {
        Err(m) => r == (500int, spec_error_body(m)),
        Ok(page) => r == (
            200int,
            spec_rows_body(spec_listing_of(capture_pairs_of(spec_listing_pattern(), page))),
        ),
    }
}

/// Fetch the directory-listing page and enumerate the repositories.
pub fn respond_repositories<F: Fetcher>(fetcher: &mut F) -> (r: Response)
    ensures
        repositories_post(old(fetcher).log(), final(fetcher).log(), r@),
{
    let ghost l0 = fetcher.log();
    let fetched = fetcher.fetch(
        crate::bytes::bytes_of("https://repo.sailfishos.org/obs/sailfishos:/chum/").as_slice(),
        "".as_bytes(),
    );
    proof {
        assert(fetcher.log().subrange(0, l0.len() as int) =~= l0);
    }
    match fetched {
        Err(m) => {
            let body = Error { error: m }.to_json();
            Response { status: 500, body }
        },
        Ok(page) => {
            let repos = list_repositories(page.as_slice());
            let body = rows_body(&repos);
            Response { status: 200, body }
        },
    }
}

/// What a packages response guarantees: some resolution outcome satisfying
/// the resolver's contract was rendered. The caches and logs pin that
/// outcome down, so nothing is lost to the quantifier.
pub open spec fn packages_post(
    c0: Seq<(Seq<u8>, crate::resolver::CacheEntryV)>,
    c1: Seq<(Seq<u8>, crate::resolver::CacheEntryV)>,
    l0: Seq<crate::resolver::FetchRecord>,
    l1: Seq<crate::resolver::FetchRecord>,
    id: Seq<u8>,
    r: (int, Seq<u8>),
) -> bool {
    exists|res: Result<(Seq<u8>, Seq<u8>), ResolveErrorV>|
        #[trigger] resolve_post(c0, c1, l0, l1, id, res) && r == spec_packages_response(res)
}

/// Resolve the packages of `repo_id` and render the outcome.
pub fn respond_packages<F: Fetcher>(handler: &mut Handler, fetcher: &mut F, repo_id: &Vec<u8>) -> (r:
    Response)
    ensures
        packages_post(
            old(handler).cache(),
            final(handler).cache(),
            old(fetcher).log(),
            final(fetcher).log(),
            repo_id@,
            r@,
        ),
{
    let ghost c0 = handler.cache();
    let ghost l0 = fetcher.log();
    let res = handler.resolve(fetcher, repo_id.as_slice());
    let ghost resv = crate::index::urls_result_view(res);
    match res {
        Ok(u) => {
            let body = urls_body(&u);
            let r = Response { status: 200, body };
            proof {
                assert(resolve_post(c0, handler.cache(), l0, fetcher.log(), repo_id@, resv) && r@
                    == spec_packages_response(resv));
            }
            r
        },
        Err(e) => {
            let body = Error { error: e.message() }.to_json();
            let r = Response { status: 500, body };
            proof {
                assert(resolve_post(c0, handler.cache(), l0, fetcher.log(), repo_id@, resv) && r@
                    == spec_packages_response(resv));
            }
            r
        },
    }
}

/// Handle one request: route it, run the lister or the resolver, and render
/// the response.
#[verifier::rlimit(100)]
pub fn handle<F: Fetcher>(handler: &mut Handler, fetcher: &mut F, path: &[u8]) -> (r: Response)
    ensures
        handle_post(
            old(handler).cache(),
            final(handler).cache(),
            old(fetcher).log(),
            final(fetcher).log(),
            path@,
            r@,
        ),
{
    let ghost c0 = handler.cache();
    let ghost l0 = fetcher.log();
    match route(path) {
        Route::NotFound => {
            let r = respond_not_found();
            proof {
                assert(spec_route(path@) is NotFound);
                assert(handle_post(c0, handler.cache(), l0, fetcher.log(), path@, r@));
            }
            r
        },
        Route::Repositories => {
            let r = respond_repositories(fetcher);
            proof {
                assert(spec_route(path@) is Repositories);
                assert(handle_post(c0, handler.cache(), l0, fetcher.log(), path@, r@));
            }
            r
        },
        Route::Packages(id) => {
            let r = respond_packages(handler, fetcher, &id);
            proof {
                assert(spec_route(path@) == RouteV::Packages(id@));
                assert(handle_post(c0, handler.cache(), l0, fetcher.log(), path@, r@));
            }
            r
        },
    }
}

} // verus!
