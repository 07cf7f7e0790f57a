//! The streaming cache for proxied downloads: a GET for an artifact
//! `(name, version)` is served from a deterministic cache path when a
//! file is already there, and is otherwise fetched once from the
//! templated upstream URL and written through the tee — client first,
//! cache file second — so the client sees the bytes whether or not the
//! cache write works out.
//!
//! Entries are immutable once fully written: no TTL, no eviction, no
//! update.

use vstd::prelude::*;
use vstd::slice::slice_to_vec;
use vstd::string::StringExecFns;

verus! {

/// The cache path a key maps to: `<cache-root>/<name>/<version>/download`.
pub open spec fn spec_download_path(root: Seq<char>, name: Seq<char>, version: Seq<char>) -> Seq<
    char,
> {
    root + "/"@ + name + "/"@ + version + "/download"@
}

/// The templated upstream URL a key maps to.
pub open spec fn spec_download_url(name: Seq<char>, version: Seq<char>) -> Seq<char> {
    "https://crates.io/api/v1/crates/"@ + name + "/"@ + version + "/download"@
}

/// Build the cache path of a key under `root`.
pub fn construct_download_path(root: &str, name: &str, version: &str) -> (r: String)
    ensures
        r@ == spec_download_path(root@, name@, version@),
{
    let mut p = root.to_owned();
    p.append("/");
    p.append(name);
    p.append("/");
    p.append(version);
    p.append("/download");
    p
}

/// Build the upstream URL of a key.
pub fn download_url(name: &str, version: &str) -> (r: String)
    ensures
        r@ == spec_download_url(name@, version@),
{
    let mut u = String::from_str("https://crates.io/api/v1/crates/");
    u.append(name);
    u.append("/");
    u.append(version);
    u.append("/download");
    u
}

/// The scratch path a fetch writes to before the atomic rename:
/// `<path>.partial`.  Writing to a temporary and renaming only a
/// complete file keeps a failed cache write from ever looking like an
/// entry, and keeps racing fetches for one key from interleaving
/// writes in the file that is served.
pub open spec fn spec_temp_path(root: Seq<char>, name: Seq<char>, version: Seq<char>) -> Seq<
    char,
> {
    spec_download_path(root, name, version) + ".partial"@
}

/// How a GET for a key is to be served.
pub enum DownloadPlan {
    /// Stream the cache file at `path`; no network access occurs.
    ServeCached { path: String },
    /// Fetch `url`, tee the stream into a fresh file at `temp_path`,
    /// and rename it to `path` only once it is complete.
    FetchAndCache { url: String, path: String, temp_path: String },
}

/// Decide how to serve a GET for `(name, version)` under `root`:
/// straight from the cache file when one exists, otherwise by fetching
/// upstream and caching on the way through.
pub fn plan_download(root: &str, name: &str, version: &str, cached: bool) -> (p: DownloadPlan)
    ensures
        cached ==> (p matches DownloadPlan::ServeCached { path } && path@ == spec_download_path(
            root@,
            name@,
            version@,
        )),
        !cached ==> (p matches DownloadPlan::FetchAndCache { url, path, temp_path } && url@
            == spec_download_url(name@, version@) && path@ == spec_download_path(
            root@,
            name@,
            version@,
        ) && temp_path@ == spec_temp_path(root@, name@, version@)),
{
    let path = construct_download_path(root, name, version);
    if cached {
        DownloadPlan::ServeCached { path }
    } else {
        let mut temp_path = path.clone();
        temp_path.append(".partial");
        DownloadPlan::FetchAndCache { url: download_url(name, version), path, temp_path }
    }
}

/// What serving a GET does to the cache mapping `m`: a present key is
/// served as it is with no fetch.  An absent one records exactly one
/// fetch of the upstream bytes, which reach the client either way; the
/// entry is created only when the cache sink took the whole stream
/// (`complete`) — a partial write is never renamed into place, so it
/// leaves no entry.
pub open spec fn spec_serve(
    m: Map<(Seq<char>, Seq<char>), Seq<u8>>,
    k: (Seq<char>, Seq<char>),
    upstream: Seq<u8>,
    complete: bool,
) -> (Map<(Seq<char>, Seq<char>), Seq<u8>>, Seq<u8>, bool) {
    if m.contains_key(k) {
        (m, m[k], false)
    } else {
        (
            if complete {
                m.insert(k, upstream)
            } else {
                m
            },
            upstream,
            true,
        )
    }
}

/// The mapping view of a raw entry sequence.
spec fn entries_map(entries: Seq<((String, String), Vec<u8>)>) -> Map<
    (Seq<char>, Seq<char>),
    Seq<u8>,
> {
    Map::new(
        |k: (Seq<char>, Seq<char>)|
            exists|i: int| 0 <= i < entries.len() && (entries[i].0.0@, entries[i].0.1@) == k,
        |k: (Seq<char>, Seq<char>)|
            {
                let i = choose|i: int|
                    0 <= i < entries.len() && (entries[i].0.0@, entries[i].0.1@) == k;
                entries[i].1@
            },
    )
}

/// The cache's ledger: which keys have a fully written file, and with
/// which bytes — the state the directory tree carries from one request
/// to the next, held as a value so that serving can be verified.
pub struct CacheDir {
    entries: Vec<((String, String), Vec<u8>)>,
}

/// What one GET yielded: the bytes served, and whether an upstream
/// fetch happened.
pub struct Served {
    pub body: Vec<u8>,
    pub fetched: bool,
}

impl View for CacheDir {
    type V = Map<(Seq<char>, Seq<char>), Seq<u8>>;

    closed spec fn view(&self) -> Map<(Seq<char>, Seq<char>), Seq<u8>> {
        entries_map(self.entries@)
    }
}

impl CacheDir {
    /// Keys are pairwise distinct, so the mapping view is unambiguous.
    pub closed spec fn wf(&self) -> bool {
        forall|i: int, j: int|
            0 <= i < j < self.entries@.len() ==> (
            self.entries@[i].0.0@,
            self.entries@[i].0.1@,
        ) != (self.entries@[j].0.0@, self.entries@[j].0.1@)
    }

    /// An empty cache: no key has a file.
    pub fn new() -> (c: CacheDir)
        ensures
            c.wf(),
            c@ == Map::<(Seq<char>, Seq<char>), Seq<u8>>::empty(),
    {
        let c = CacheDir { entries: Vec::new() };
        proof {
            assert(c@ =~= Map::<(Seq<char>, Seq<char>), Seq<u8>>::empty());
        }
        c
    }

    /// The index of the entry for a key, if any.
    fn find(&self, name: &String, version: &String) -> (r: Option<usize>)
        ensures
            match r {
                Some(i) => i < self.entries@.len() && (
                self.entries@[i as int].0.0@,
                self.entries@[i as int].0.1@,
                ) == (name@, version@),
                None => forall|i: int|
                    0 <= i < self.entries@.len() ==> (
                    self.entries@[i].0.0@,
                    self.entries@[i].0.1@,
                    ) != (name@, version@),
            },
    {
        let mut i: usize = 0;
        while i < self.entries.len()
            invariant
                i <= self.entries@.len(),
                forall|j: int|
                    0 <= j < i ==> (self.entries@[j].0.0@, self.entries@[j].0.1@) != (
                    name@,
                    version@,
                    ),
            decreases self.entries@.len() - i,
        {
            if self.entries[i].0.0.eq(name) && self.entries[i].0.1.eq(version) {
                return Some(i);
            }
            i = i + 1;
        }
        None
    }

    /// Serve one GET for `(name, version)`.  A present entry is served
    /// as it is and nothing is fetched.  An absent one triggers exactly
    /// one upstream fetch — modeled by taking the upstream bytes as an
    /// argument — whose bytes go to the client either way; the entry is
    /// created, with exactly those bytes, only when the cache sink took
    /// the whole stream (`cache_complete`) and the temp file could be
    /// renamed into place.
    pub fn serve(
        &mut self,
        name: &String,
        version: &String,
        upstream: &Vec<u8>,
        cache_complete: bool,
    ) -> (r: Served)
        requires
            old(self).wf(),
        ensures
            final(self).wf(),
            ({
                let s = spec_serve(old(self)@, (name@, version@), upstream@, cache_complete);
                &&& final(self)@ == s.0
                &&& r.body@ == s.1
                &&& r.fetched == s.2
            }),
    {
        match self.find(name, version) {
            Some(i) => {
                let body = slice_to_vec(self.entries[i].1.as_slice());
                proof {
                    let k = (name@, version@);
                    let w = choose|w: int|
                        0 <= w < self.entries@.len() && (
                        self.entries@[w].0.0@,
                        self.entries@[w].0.1@,
                        ) == k;
                    assert(w == i);
                    assert(self@.contains_key(k));
                }
                Served { body, fetched: false }
            },
            None => {
                let ghost pre = self.entries@;
                let body = slice_to_vec(upstream.as_slice());
                if !cache_complete {
                    // the partial temp file is never renamed into
                    // place: no entry, and the next GET fetches again
                    return Served { body, fetched: true };
                }
                self.entries.push(((name.clone(), version.clone()), slice_to_vec(
                    upstream.as_slice(),
                )));
                proof {
                    let k = (name@, version@);
                    assert forall|a: int, b: int|
                        0 <= a < b < self.entries@.len() implies (
                    self.entries@[a].0.0@,
                    self.entries@[a].0.1@,
                    ) != (self.entries@[b].0.0@, self.entries@[b].0.1@) by {
                        assert(self.entries@[a] == pre[a]);
                        if b < pre.len() {
                            assert(self.entries@[b] == pre[b]);
                        } else {
                            assert((self.entries@[b].0.0@, self.entries@[b].0.1@) == k);
                        }
                    }
                    lemma_entries_insert(pre, self.entries@, k, upstream@);
                }
                Served { body, fetched: true }
            },
        }
    }
}

/// Appending an entry under a fresh key shifts the mapping view by
/// exactly one `insert`.
proof fn lemma_entries_insert(
    pre: Seq<((String, String), Vec<u8>)>,
    post: Seq<((String, String), Vec<u8>)>,
    key: (Seq<char>, Seq<char>),
    value: Seq<u8>,
)
    requires
        post.len() == pre.len() + 1,
        forall|j: int| 0 <= j < pre.len() ==> post[j] == pre[j],
        forall|j: int| 0 <= j < pre.len() ==> (#[trigger] pre[j].0.0@, pre[j].0.1@) != key,
        (post[pre.len() as int].0.0@, post[pre.len() as int].0.1@) == key,
        post[pre.len() as int].1@ == value,
        forall|a: int, b: int|
            0 <= a < b < post.len() ==> (#[trigger] post[a].0.0@, post[a].0.1@) != (
            #[trigger] post[b].0.0@,
            post[b].0.1@,
            ),
    ensures
        entries_map(post) == entries_map(pre).insert(key, value),
{
    let m1 = entries_map(post);
    let m2 = entries_map(pre).insert(key, value);
    let n = pre.len() as int;
    assert forall|k: (Seq<char>, Seq<char>)| m1.contains_key(k) implies m2.contains_key(k) by {
        let w = choose|w: int| 0 <= w < post.len() && (post[w].0.0@, post[w].0.1@) == k;
        if w < n {
            assert((pre[w].0.0@, pre[w].0.1@) == k);
        }
    }
    assert forall|k: (Seq<char>, Seq<char>)| m2.contains_key(k) implies m1.contains_key(k) by {
        if k == key {
            assert((post[n].0.0@, post[n].0.1@) == k);
        } else {
            let w = choose|w: int| 0 <= w < pre.len() && (pre[w].0.0@, pre[w].0.1@) == k;
            assert((post[w].0.0@, post[w].0.1@) == k);
        }
    }
    assert forall|k: (Seq<char>, Seq<char>)| m1.contains_key(k) implies m1[k] == m2[k] by {
        let w = choose|w: int| 0 <= w < post.len() && (post[w].0.0@, post[w].0.1@) == k;
        if k == key {
            assert(w == n);
            assert(m1[k] == value);
        } else {
            assert(w != n);
            assert((pre[w].0.0@, pre[w].0.1@) == k);
            let v = choose|v: int| 0 <= v < pre.len() && (pre[v].0.0@, pre[v].0.1@) == k;
            assert((post[v].0.0@, post[v].0.1@) == k);
            assert(v == w);
            assert(m2[k] == pre[v].1@);
        }
    }
    assert(m1 =~= m2);
}

/// The first GET for a key with no cache file fetches upstream exactly
/// once and serves exactly the fetched bytes; once its cache write
/// completed, a second GET for the same key fetches zero times and
/// serves the same bytes again — whatever the upstream would say by
/// then — and leaves the cache as it was.
pub proof fn lemma_miss_then_hit(
    m: Map<(Seq<char>, Seq<char>), Seq<u8>>,
    k: (Seq<char>, Seq<char>),
    up1: Seq<u8>,
    up2: Seq<u8>,
)
    requires
        !m.contains_key(k),
    ensures
        ({
            let first = spec_serve(m, k, up1, true);
            let second = spec_serve(first.0, k, up2, true);
            &&& first.2
            &&& first.1 == up1
            &&& !second.2
            &&& second.1 == up1
            &&& second.0 == first.0
        }),
{
}

/// A fetch whose cache write failed partway still serves the client
/// every byte, but records nothing: the cache is exactly as it was,
/// and the next GET for the key fetches again.
pub proof fn lemma_partial_write_leaves_no_entry(
    m: Map<(Seq<char>, Seq<char>), Seq<u8>>,
    k: (Seq<char>, Seq<char>),
    up1: Seq<u8>,
    up2: Seq<u8>,
)
    requires
        !m.contains_key(k),
    ensures
        ({
            let first = spec_serve(m, k, up1, false);
            let second = spec_serve(first.0, k, up2, true);
            &&& first.2
            &&& first.1 == up1
            &&& first.0 == m
            &&& second.2
            &&& second.1 == up2
        }),
{
}

} // verus!
