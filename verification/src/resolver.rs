//! The resolution cache and the resolver.
//!
//! `resolve` always fetches the repository descriptor, because its checksum
//! is the staleness oracle. When the cache holds an entry for the identifier
//! with the same checksum, the cached URLs are returned and the (large)
//! package index is neither fetched nor parsed. Otherwise the index is
//! fetched and parsed, and a complete new entry replaces the old one. Any
//! failure on the refresh path aborts the resolution and leaves the cache
//! untouched.
//!
//! Remote fetching stands behind the [`Fetcher`] trait; its ghost log of
//! fetch records is what the resolver's contract — and the proved laws —
//! speak about.

use vstd::prelude::*;
use vstd::string::StringSliceAdditionalSpecFns;

use crate::descriptor::{parse_descriptor, spec_descriptor_of};
use crate::errors::{ResolveError, ResolveErrorV};
use crate::index::{parse_index, spec_index_urls, PackageUrlSet};

verus! {

/// One remote fetch as the resolver saw it: where it asked and what came
/// back (body bytes, or the transport's message).
pub struct FetchRecord {
    pub base: Seq<u8>,
    pub path: Seq<u8>,
    pub response: Result<Seq<u8>, Seq<u8>>,
}

/// An abstract "fetch bytes at a relative path" capability. `base` is the
/// location the path is relative to. The ghost log records every call and
/// its outcome; nothing else is assumed — a fetch may fail or return
/// anything, and may answer the same request differently across calls.
pub trait Fetcher {
    /// Every fetch performed so far, oldest first. The default stands for
    /// implementations outside the verified world, which track no log; a
    /// verified implementation overrides it.
    open spec fn log(&self) -> Seq<FetchRecord> {
        Seq::empty()
    }

    /// Fetch the body at `path`, relative to `base`.
    fn fetch(&mut self, base: &[u8], path: &[u8]) -> (r: Result<Vec<u8>, Vec<u8>>)
        ensures
            final(self).log() == old(self).log().push(
                FetchRecord {
                    base: base@,
                    path: path@,
                    response: match r {
                        Ok(b) => Ok(b@),
                        Err(m) => Err(m@),
                    },
                },
            ),
    ;
}

/// A fetcher that plays back a fixed script of responses, in order; once the
/// script is exhausted every further fetch fails. It ignores the requested
/// location, so a script must list the responses in the order the caller
/// will ask for them.
pub struct ScriptedFetcher {
    responses: Vec<Result<Vec<u8>, Vec<u8>>>,
    history: Ghost<Seq<FetchRecord>>,
}

impl ScriptedFetcher {
    /// How many scripted responses have not been served yet.
    pub closed spec fn script_len(&self) -> nat {
        self.responses@.len()
    }

    /// Build a fetcher that serves `responses` front to back.
    pub fn new(responses: Vec<Result<Vec<u8>, Vec<u8>>>) -> (r: Self)
        ensures
            r.log() == Seq::<FetchRecord>::empty(),
            r.script_len() == responses@.len(),
    {
        ScriptedFetcher { responses, history: Ghost(Seq::empty()) }
    }

    /// How many scripted responses are left to serve.
    pub fn remaining(&self) -> (n: usize)
        ensures
            n == self.script_len(),
    {
        self.responses.len()
    }
}

impl Fetcher for ScriptedFetcher {
    closed spec fn log(&self) -> Seq<FetchRecord> {
        self.history@
    }

    fn fetch(&mut self, base: &[u8], path: &[u8]) -> (r: Result<Vec<u8>, Vec<u8>>) {
        let r = if self.responses.len() > 0 {
            self.responses.remove(0)
        } else {
            Err(crate::bytes::bytes_of("no response scripted"))
        };
        let ghost rec = FetchRecord {
            base: base@,
            path: path@,
            response: match r {
                Ok(ref b) => Ok(b@),
                Err(ref m) => Err(m@),
            },
        };
        self.history = Ghost(self.history@.push(rec));
        r
    }
}

/// One cache entry: the checksum the URLs were parsed under. The URLs were
/// produced by parsing the index that carried this checksum; the two fields
/// are only ever replaced together.
pub struct CacheEntry {
    pub checksum: Vec<u8>,
    pub urls: PackageUrlSet,
}

/// Mathematical value of a [`CacheEntry`].
pub struct CacheEntryV {
    pub checksum: Seq<u8>,
    pub urls: (Seq<u8>, Seq<u8>),
}

impl View for CacheEntry {
    type V = CacheEntryV;

    open spec fn view(&self) -> CacheEntryV {
        CacheEntryV { checksum: self.checksum@, urls: self.urls@ }
    }
}

/// The position of the first entry keyed `key`, scanning from `from`.
pub open spec fn spec_find_pos_from(
    entries: Seq<(Seq<u8>, CacheEntryV)>,
    from: int,
    key: Seq<u8>,
) -> Option<int>
    decreases entries.len() - from,
{
    if from < 0 || from >= entries.len() {
        None
    } else if entries[from].0 == key {
        Some(from)
    } else {
        spec_find_pos_from(entries, from + 1, key)
    }
}

/// The entry stored under `key`.
pub open spec fn spec_lookup(entries: Seq<(Seq<u8>, CacheEntryV)>, key: Seq<u8>) -> Option<
    CacheEntryV,
> {
    match spec_find_pos_from(entries, 0, key) {
        None => None,
        Some(i) => Some(entries[i].1),
    }
}

/// The cache after storing `entry` under `key`: the first entry keyed `key`
/// is replaced in place, or a new entry is appended.
pub open spec fn spec_store(
    entries: Seq<(Seq<u8>, CacheEntryV)>,
    key: Seq<u8>,
    entry: CacheEntryV,
) -> Seq<(Seq<u8>, CacheEntryV)> {
    match spec_find_pos_from(entries, 0, key) {
        None => entries.push((key, entry)),
        Some(i) => entries.update(i, (key, entry)),
    }
}

/// Looking up right after storing yields the stored entry.
pub proof fn lemma_lookup_store(
    entries: Seq<(Seq<u8>, CacheEntryV)>,
    key: Seq<u8>,
    entry: CacheEntryV,
)
    ensures
        spec_lookup(spec_store(entries, key, entry), key) == Some(entry),
{
    lemma_lookup_store_from(entries, 0, key, entry);
}

proof fn lemma_lookup_store_from(
    entries: Seq<(Seq<u8>, CacheEntryV)>,
    from: int,
    key: Seq<u8>,
    entry: CacheEntryV,
)
    requires
        0 <= from <= entries.len(),
    ensures
        match spec_find_pos_from(entries, from, key) {
            Some(i) => from <= i < entries.len() && spec_find_pos_from(
                entries.update(i, (key, entry)),
                from,
                key,
            ) == Some(i) && entries.update(i, (key, entry))[i].1 == entry,
            None => spec_find_pos_from(entries.push((key, entry)), from, key) == Some(
                entries.len() as int,
            ) && entries.push((key, entry))[entries.len() as int].1 == entry,
        },
    decreases entries.len() - from,
{
    if from < entries.len() {
        if entries[from].0 == key {
        } else {
            lemma_lookup_store_from(entries, from + 1, key, entry);
        }
    }
}

/// The base location of a repository: the fixed host prefix, the repository
/// identifier, and a trailing delimiter.
pub open spec fn base_of(id: Seq<u8>) -> Seq<u8> {
    "https://repo.sailfishos.org/obs/sailfishos:/chum/".spec_bytes() + id + "/".spec_bytes()
}

/// Where the repository descriptor lives, relative to the base location.
pub open spec fn descriptor_path() -> Seq<u8> {
    "repodata/repomd.xml".spec_bytes()
}

/// Build the base location of a repository.
pub fn base_url_for(repo_id: &[u8]) -> (r: Vec<u8>)
    ensures
        r@ == base_of(repo_id@),
{
    let mut v = crate::bytes::bytes_of("https://repo.sailfishos.org/obs/sailfishos:/chum/");
    crate::bytes::append_bytes(&mut v, repo_id);
    crate::bytes::append_bytes(&mut v, "/".as_bytes());
    proof {
        assert(v@ =~= base_of(repo_id@));
    }
    v
}

/// Everything `resolve` guarantees, relating the cache before (`c0`) and
/// after (`c1`), the fetch log before (`l0`) and after (`l1`), the
/// repository identifier and the result.
///
/// The descriptor is always fetched, exactly once, first. A transport or
/// descriptor error ends the resolution there, with the cache untouched. On
/// a cache hit — an entry under this identifier with the descriptor's
/// checksum — the cached URLs are returned with no second fetch. Otherwise
/// exactly one index fetch follows; any failure of it leaves the cache
/// untouched, and success stores and returns the freshly parsed URLs.
pub open spec fn resolve_post(
    c0: Seq<(Seq<u8>, CacheEntryV)>,
    c1: Seq<(Seq<u8>, CacheEntryV)>,
    l0: Seq<FetchRecord>,
    l1: Seq<FetchRecord>,
    id: Seq<u8>,
    r: Result<(Seq<u8>, Seq<u8>), ResolveErrorV>,
) -> bool {
    let base = base_of(id);
    let f1 = l1[l0.len() as int];
    &&& l1.len() > l0.len()
    &&& l1.subrange(0, l0.len() as int) == l0
    &&& f1.base == base
    &&& f1.path == descriptor_path()
    &&& match f1.response {
        Err(m) => r == Result::<(Seq<u8>, Seq<u8>), ResolveErrorV>::Err(
            ResolveErrorV::Transport(m),
        ) && c1 == c0 && l1.len() == l0.len() + 1,
        Ok(d) => match spec_descriptor_of(d) {
            Err(e) => r == Result::<(Seq<u8>, Seq<u8>), ResolveErrorV>::Err(e) && c1 == c0
                && l1.len() == l0.len() + 1,
            Ok(desc) => {
                if spec_lookup(c0, id) is Some && spec_lookup(c0, id)->0.checksum
                    == desc.checksum {
                    r == Result::<(Seq<u8>, Seq<u8>), ResolveErrorV>::Ok(
                        spec_lookup(c0, id)->0.urls,
                    ) && c1 == c0 && l1.len() == l0.len() + 1
                } else {
                    let f2 = l1[l0.len() as int + 1];
                    &&& l1.len() == l0.len() + 2
                    &&& f2.base == base
                    &&& f2.path == desc.index_location
                    &&& match f2.response {
                        Err(m) => r == Result::<(Seq<u8>, Seq<u8>), ResolveErrorV>::Err(
                            ResolveErrorV::Transport(m),
                        ) && c1 == c0,
                        Ok(ib) => match spec_index_urls(ib, base) {
                            Err(e) => r == Result::<(Seq<u8>, Seq<u8>), ResolveErrorV>::Err(e)
                                && c1 == c0,
                            Ok(u) => r == Result::<(Seq<u8>, Seq<u8>), ResolveErrorV>::Ok(u) && c1
                                == spec_store(
                                c0,
                                id,
                                CacheEntryV { checksum: desc.checksum, urls: u },
                            ),
                        },
                    }
                }
            },
        },
    }
}

/// Cache short-circuit: a resolution whose descriptor carries the checksum
/// already cached for this identifier performs no second fetch — the log
/// grows by exactly the descriptor fetch — and returns the cached URLs,
/// leaving the cache as it was.
pub proof fn lemma_cache_short_circuit(
    c0: Seq<(Seq<u8>, CacheEntryV)>,
    c1: Seq<(Seq<u8>, CacheEntryV)>,
    l0: Seq<FetchRecord>,
    l1: Seq<FetchRecord>,
    id: Seq<u8>,
    r: Result<(Seq<u8>, Seq<u8>), ResolveErrorV>,
    d: Seq<u8>,
)
    requires
        resolve_post(c0, c1, l0, l1, id, r),
        l1[l0.len() as int].response == Result::<Seq<u8>, Seq<u8>>::Ok(d),
        spec_descriptor_of(d) is Ok,
        spec_lookup(c0, id) is Some,
        spec_lookup(c0, id)->0.checksum == spec_descriptor_of(d)->Ok_0.checksum,
    ensures
        l1.len() == l0.len() + 1,
        r == Result::<(Seq<u8>, Seq<u8>), ResolveErrorV>::Ok(spec_lookup(c0, id)->0.urls),
        c1 == c0,
{
}

/// Staleness triggers refresh: a resolution whose descriptor carries a
/// checksum other than the cached one fetches the index exactly once, at the
/// descriptor's location, and — when that fetch and parse succeed — returns
/// the freshly parsed URLs and caches them under the new checksum.
pub proof fn lemma_staleness_triggers_refresh(
    c0: Seq<(Seq<u8>, CacheEntryV)>,
    c1: Seq<(Seq<u8>, CacheEntryV)>,
    l0: Seq<FetchRecord>,
    l1: Seq<FetchRecord>,
    id: Seq<u8>,
    r: Result<(Seq<u8>, Seq<u8>), ResolveErrorV>,
    d: Seq<u8>,
    ib: Seq<u8>,
)
    requires
        resolve_post(c0, c1, l0, l1, id, r),
        l1[l0.len() as int].response == Result::<Seq<u8>, Seq<u8>>::Ok(d),
        spec_descriptor_of(d) is Ok,
        !(spec_lookup(c0, id) is Some && spec_lookup(c0, id)->0.checksum == spec_descriptor_of(
            d,
        )->Ok_0.checksum),
        l1.len() > l0.len() + 1,
        l1[l0.len() as int + 1].response == Result::<Seq<u8>, Seq<u8>>::Ok(ib),
        spec_index_urls(ib, base_of(id)) is Ok,
    ensures
        l1.len() == l0.len() + 2,
        l1[l0.len() as int + 1].path == spec_descriptor_of(d)->Ok_0.index_location,
        r == Result::<(Seq<u8>, Seq<u8>), ResolveErrorV>::Ok(
            spec_index_urls(ib, base_of(id))->Ok_0,
        ),
        spec_lookup(c1, id) == Some(
            CacheEntryV {
                checksum: spec_descriptor_of(d)->Ok_0.checksum,
                urls: spec_index_urls(ib, base_of(id))->Ok_0,
            },
        ),
{
    lemma_lookup_store(
        c0,
        id,
        CacheEntryV {
            checksum: spec_descriptor_of(d)->Ok_0.checksum,
            urls: spec_index_urls(ib, base_of(id))->Ok_0,
        },
    );
}

/// A failed refresh preserves the prior cache: when the refresh path was
/// taken and its fetch failed or its parse failed, the resolution surfaces
/// an error — it does not fall back to the old entry — and the cache is
/// exactly what it was.
pub proof fn lemma_failed_refresh_preserves_cache(
    c0: Seq<(Seq<u8>, CacheEntryV)>,
    c1: Seq<(Seq<u8>, CacheEntryV)>,
    l0: Seq<FetchRecord>,
    l1: Seq<FetchRecord>,
    id: Seq<u8>,
    r: Result<(Seq<u8>, Seq<u8>), ResolveErrorV>,
    d: Seq<u8>,
)
    requires
        resolve_post(c0, c1, l0, l1, id, r),
        l1[l0.len() as int].response == Result::<Seq<u8>, Seq<u8>>::Ok(d),
        spec_descriptor_of(d) is Ok,
        !(spec_lookup(c0, id) is Some && spec_lookup(c0, id)->0.checksum == spec_descriptor_of(
            d,
        )->Ok_0.checksum),
        l1.len() > l0.len() + 1,
        match l1[l0.len() as int + 1].response {
            Err(m) => true,
            Ok(ib) => spec_index_urls(ib, base_of(id)) is Err,
        },
    ensures
        r is Err,
        c1 == c0,
{
}

/// Idempotence: two consecutive resolutions of the same identifier that see
/// the same descriptor bytes return the same URL set when the first one
/// succeeded, and the second one fetches nothing but the descriptor and
/// leaves the cache untouched.
pub proof fn lemma_resolve_idempotent(
    c0: Seq<(Seq<u8>, CacheEntryV)>,
    c1: Seq<(Seq<u8>, CacheEntryV)>,
    c2: Seq<(Seq<u8>, CacheEntryV)>,
    l0: Seq<FetchRecord>,
    l1: Seq<FetchRecord>,
    l2: Seq<FetchRecord>,
    id: Seq<u8>,
    r1: Result<(Seq<u8>, Seq<u8>), ResolveErrorV>,
    r2: Result<(Seq<u8>, Seq<u8>), ResolveErrorV>,
    d: Seq<u8>,
)
    requires
        resolve_post(c0, c1, l0, l1, id, r1),
        resolve_post(c1, c2, l1, l2, id, r2),
        l1[l0.len() as int].response == Result::<Seq<u8>, Seq<u8>>::Ok(d),
        l2[l1.len() as int].response == Result::<Seq<u8>, Seq<u8>>::Ok(d),
        r1 is Ok,
    ensures
        r2 == r1,
        c2 == c1,
        l2.len() == l1.len() + 1,
{
    let desc = spec_descriptor_of(d)->Ok_0;
    if spec_lookup(c0, id) is Some && spec_lookup(c0, id)->0.checksum == desc.checksum {
    } else {
        let ib = l1[l0.len() as int + 1].response->Ok_0;
        let u = spec_index_urls(ib, base_of(id))->Ok_0;
        lemma_lookup_store(c0, id, CacheEntryV { checksum: desc.checksum, urls: u });
    }
}

/// The resolver, holding the resolution cache: at most one entry per
/// repository identifier, created on first successful resolution and
/// replaced whole when the checksum changes; never dropped.
pub struct Handler {
    entries: Vec<(Vec<u8>, CacheEntry)>,
}

impl Handler {
    /// The cache contents: identifier/entry pairs, oldest first.
    pub closed spec fn cache(&self) -> Seq<(Seq<u8>, CacheEntryV)> {
        self.entries@.map_values(|p: (Vec<u8>, CacheEntry)| (p.0@, p.1@))
    }

    /// A resolver with an empty cache.
    pub fn new() -> (r: Self)
        ensures
            r.cache() == Seq::<(Seq<u8>, CacheEntryV)>::empty(),
    {
        let r = Handler { entries: Vec::new() };
        proof {
            assert(r.cache() =~= Seq::<(Seq<u8>, CacheEntryV)>::empty());
        }
        r
    }

    /// The position of the entry for `key`, if any.
    fn cache_pos(&self, key: &[u8]) -> (r: Option<usize>)
        ensures
            match r {
                Some(i) => i < self.entries@.len() && spec_find_pos_from(self.cache(), 0, key@)
                    == Some(i as int),
                None => spec_find_pos_from(self.cache(), 0, key@) is None,
            },
    {
        let ghost cv = self.cache();
        let n = self.entries.len();
        let mut i: usize = 0;
        while i < n
            invariant
                i <= n,
                n == self.entries@.len(),
                cv == self.cache(),
                cv.len() == self.entries@.len(),
                forall|k: int|
                    0 <= k < cv.len() ==> cv[k] == (
                    #[trigger] self.entries@[k].0@,
                    self.entries@[k].1@,
                ),
                spec_find_pos_from(cv, 0, key@) == spec_find_pos_from(cv, i as int, key@),
            decreases n - i,
        {
            if crate::bytes::bytes_eq(self.entries[i].0.as_slice(), key) {
                assert(spec_find_pos_from(cv, i as int, key@) == Some(i as int));
                return Some(i);
            }
            proof {
                assert(spec_find_pos_from(cv, i as int, key@) == spec_find_pos_from(
                    cv,
                    i + 1,
                    key@,
                ));
            }
            i += 1;
        }
        assert(spec_find_pos_from(cv, i as int, key@) is None);
        None
    }

    /// Store `entry` under `key`, replacing the prior entry if there is one.
    fn cache_put(&mut self, key: &[u8], entry: CacheEntry)
        ensures
            final(self).cache() == spec_store(old(self).cache(), key@, entry@),
    {
        let ghost c0 = self.cache();
        match self.cache_pos(key) {
            Some(i) => {
                self.entries.remove(i);
                self.entries.insert(i, (crate::bytes::copy_bytes(key), entry));
                proof {
                    assert(self.cache() =~= c0.update(i as int, (key@, entry@)));
                }
            },
            None => {
                self.entries.push((crate::bytes::copy_bytes(key), entry));
                proof {
                    assert(self.cache() =~= c0.push((key@, entry@)));
                }
            },
        }
    }

    /// Resolve the download URLs of the tracked packages for `repo_id`.
    ///
    /// See [`resolve_post`] for the full guarantee: descriptor fetched
    /// first and always; cached URLs returned without an index fetch when
    /// the checksum is unchanged; otherwise one index fetch, whose success
    /// replaces the cache entry and whose failure leaves the cache as it
    /// was.
    pub fn resolve<F: Fetcher>(&mut self, fetcher: &mut F, repo_id: &[u8]) -> (r: Result<
        PackageUrlSet,
        ResolveError,
    >)
        ensures
            resolve_post(
                old(self).cache(),
                final(self).cache(),
                old(fetcher).log(),
                final(fetcher).log(),
                repo_id@,
                crate::index::urls_result_view(r),
            ),
    {
        let ghost c0 = self.cache();
        let ghost l0 = fetcher.log();
        let base = base_url_for(repo_id);
        let fetched = fetcher.fetch(base.as_slice(), "repodata/repomd.xml".as_bytes());
        proof {
            assert(fetcher.log().subrange(0, l0.len() as int) =~= l0);
        }
        let desc_bytes = match fetched {
            Ok(b) => b,
            Err(m) => {
                return Err(ResolveError::Transport(m));
            },
        };
        let desc = match parse_descriptor(desc_bytes.as_slice()) {
            Ok(d) => d,
            Err(e) => {
                return Err(e);
            },
        };
        match self.cache_pos(repo_id) {
            Some(i) => {
                proof {
                    assert(self.cache()[i as int] == (
                        self.entries@[i as int].0@,
                        self.entries@[i as int].1@,
                    ));
                    assert(spec_lookup(c0, repo_id@) == Some(self.cache()[i as int].1));
                }
                if crate::bytes::bytes_eq(
                    self.entries[i].1.checksum.as_slice(),
                    desc.checksum.as_slice(),
                ) {
                    let urls = PackageUrlSet {
                        chum_url: crate::bytes::copy_bytes(
                            self.entries[i].1.urls.chum_url.as_slice(),
                        ),
                        gui_url: crate::bytes::copy_bytes(
                            self.entries[i].1.urls.gui_url.as_slice(),
                        ),
                    };
                    return Ok(urls);
                }
            },
            None => {},
        };
        let fetched_idx = fetcher.fetch(base.as_slice(), desc.index_location.as_slice());
        proof {
            assert(fetcher.log().subrange(0, l0.len() as int) =~= l0);
        }
        let idx_bytes = match fetched_idx {
            Ok(b) => b,
            Err(m) => {
                return Err(ResolveError::Transport(m));
            },
        };
        let urls = match parse_index(idx_bytes.as_slice(), base.as_slice()) {
            Ok(u) => u,
            Err(e) => {
                return Err(e);
            },
        };
        let entry = CacheEntry {
            checksum: desc.checksum,
            urls: PackageUrlSet {
                chum_url: crate::bytes::copy_bytes(urls.chum_url.as_slice()),
                gui_url: crate::bytes::copy_bytes(urls.gui_url.as_slice()),
            },
        };
        self.cache_put(repo_id, entry);
        Ok(urls)
    }
}

} // verus!
