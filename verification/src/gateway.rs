//! The gateway: the recursive, cross-channel, cross-platform traversal that
//! expands a seed set of package names into a closed set of records.
//!
//! The traversal is an explicit state machine: the embedding program asks
//! [`GatewayState::dispatch`] for the next package name, performs one fetch
//! per subdirectory, and hands each record list back through
//! [`GatewayState::on_records`], which extracts every dependency name and
//! queues the ones not yet seen. [`GatewayState::done`]'s contract states the
//! closure property: when nothing is pending or in flight, every dependency
//! name extractable from any collected record has been fetched from every
//! subdirectory.
//!
//! The per-subdirectory sources (a local sparse-index tree, or a remote one
//! behind its names and dependencies manifests) and the policy that a missing
//! subdirectory is fatal only for `NoArch` live here too.

use vstd::prelude::*;

use crate::manifest::{ManifestError, SparseIndexDependencies, SparseIndexNames};
use crate::names::{dependency_package_name, spec_dep_name, str_eq, PackageName};
use crate::platform::Platform;
use crate::records::RepoDataRecord;
use crate::sparse_index::{sparse_index_filename, sparse_index_filename_zst, shard_path};
use crate::channel::url_join;

verus! {

/// The cause of a failed per-subdirectory initialization.
#[derive(Debug, Clone, PartialEq, Eq)]
pub enum SubdirFailure {
    /// The subdirectory's required data is missing (a 404 or a missing
    /// file), with the path or URL.
    NotFound(String),
    /// A non-success response on a required resource: the status and URL.
    HttpStatus(u16, String),
    /// A transport failure, with its description.
    Http(String),
    /// A local filesystem failure, with its description.
    Io(String),
    /// A malformed manifest.
    Encoding,
}

/// An error of the gateway, by kind.
#[derive(Debug, Clone, PartialEq, Eq)]
pub enum GatewayError {
    /// A coalesced operation lost its producer or waiters.
    Cancelled,
    /// Malformed repodata: bad NDJSON, a bad manifest, invalid UTF-8.
    EncodingError,
    /// A local filesystem or cache failure, with its description.
    IoError(String),
    /// A transport failure, with its description.
    HttpError(String),
    /// A non-success response on a required resource: the status and URL.
    HttpStatus(u16, String),
    /// A missing file or a 404, with the path or URL, kept apart so a
    /// missing non-`NoArch` subdirectory can be tolerated.
    NotFound(String),
    /// A channel URL with an unsupported scheme.
    InvalidUrl(String),
    /// A failed per-subdirectory initialization, wrapping its cause.
    SubdirConstructionError(SubdirFailure),
}

/// The gateway's policy for a failed subdirectory construction: a missing
/// subdirectory is tolerated (it contributes nothing) exactly when the
/// error is a not-found and the platform is not `NoArch`; everything else,
/// including a missing `NoArch` subdirectory, is fatal.
pub fn tolerate_missing_subdir(platform: Platform, not_found: bool) -> (r: bool)
    ensures
        r == (not_found && platform != Platform::NoArch),
{
    not_found && !platform.is_noarch()
}

/// What to do with the response status when fetching a subdirectory's
/// names manifest: parse it on success; a `404` means the subdirectory is
/// not published, which [`tolerate_missing_subdir`] then judges; anything
/// else fails the subdirectory.
#[derive(Debug, Clone, Copy, PartialEq, Eq, Structural)]
pub enum NamesManifestStep {
    /// Parse the body as the names manifest.
    Parse,
    /// The subdirectory is missing: a not-found, fatal unless tolerated.
    NotFound,
    /// Surface the status.
    Fail,
}

/// Classifies the response status of a names-manifest fetch.
pub fn names_manifest_step(status: u16) -> (r: NamesManifestStep)
    ensures
        r == (if 200 <= status < 300 {
            NamesManifestStep::Parse
        } else if status == 404 {
            NamesManifestStep::NotFound
        } else {
            NamesManifestStep::Fail
        }),
{
    if 200 <= status && status < 300 {
        NamesManifestStep::Parse
    } else if status == 404 {
        NamesManifestStep::NotFound
    } else {
        NamesManifestStep::Fail
    }
}

/// What to do with the response status when fetching a subdirectory's
/// dependencies manifest: parse it on success; a `404` is acceptable (the
/// manifest is optional, prefetch hints will be empty); anything else fails.
#[derive(Debug, Clone, Copy, PartialEq, Eq, Structural)]
pub enum DepsManifestStep {
    /// Parse the body as the dependencies manifest.
    Parse,
    /// The optional manifest is absent: proceed without prefetch hints.
    Absent,
    /// Surface the status.
    Fail,
}

/// Classifies the response status of a dependencies-manifest fetch.
pub fn deps_manifest_step(status: u16) -> (r: DepsManifestStep)
    ensures
        r == (if 200 <= status < 300 {
            DepsManifestStep::Parse
        } else if status == 404 {
            DepsManifestStep::Absent
        } else {
            DepsManifestStep::Fail
        }),
{
    if 200 <= status && status < 300 {
        DepsManifestStep::Parse
    } else if status == 404 {
        DepsManifestStep::Absent
    } else {
        DepsManifestStep::Fail
    }
}

/// A local sparse-index tree rooted at `<channel>/<platform>/`.
#[derive(Debug, Clone, PartialEq, Eq)]
pub struct LocalSparseIndex {
    /// The root directory of the subdirectory's tree.
    pub root: String,
    /// The canonical name of the channel.
    pub channel_name: String,
}

/// A remote sparse index behind its names manifest (required) and its
/// dependencies manifest (optional).
#[derive(Debug, Clone, PartialEq, Eq)]
pub struct RemoteSparseIndex {
    /// The names manifest: every package present, with a shard digest.
    pub names: SparseIndexNames,
    /// The dependencies manifest, when the subdirectory publishes one.
    pub dependencies: Option<SparseIndexDependencies>,
    /// The root URL (`http(s)://channel/platform/`).
    pub root: String,
    /// The canonical name of the channel.
    pub channel_name: String,
}

impl RemoteSparseIndex {
    /// Constructs the source from the fetched manifest bytes: the names
    /// manifest is required, the dependencies manifest optional.
    pub fn new(
        names_bytes: &Vec<u8>,
        deps_bytes: Option<&Vec<u8>>,
        root: String,
        channel_name: String,
    ) -> (r: Result<RemoteSparseIndex, ManifestError>)
        ensures
            match r {
                Ok(s) => crate::manifest::parse_names_manifest(names_bytes@) == Some(
                    crate::manifest::names_byte_view(s.names@),
                ) && s.root == root && s.channel_name == channel_name && (match deps_bytes {
                    Some(db) => s.dependencies matches Some(d)
                        && crate::manifest::parse_deps_manifest(db@) == Some(
                        crate::manifest::deps_byte_view(d@),
                    ),
                    None => s.dependencies is None,
                }),
                Err(_) => crate::manifest::parse_names_manifest(names_bytes@) is None || (
                match deps_bytes {
                    Some(db) => crate::manifest::parse_deps_manifest(db@) is None,
                    None => false,
                }),
            },
    {
        let names = SparseIndexNames::from_bytes(names_bytes)?;
        let dependencies = match deps_bytes {
            Some(db) => Some(SparseIndexDependencies::from_bytes(db)?),
            None => None,
        };
        Ok(RemoteSparseIndex { names, dependencies, root, channel_name })
    }

    /// True when the subdirectory publishes the package.
    pub fn contains(&self, name: &str) -> (r: bool)
        ensures
            r == self.names.spec_contains(name@),
    {
        self.names.contains(name)
    }

    /// The dependency names to prefetch for a package: what the
    /// dependencies manifest records, or nothing without a manifest.
    pub fn prefetch_hints(&self, name: &str) -> (r: Vec<String>)
        ensures
            match self.dependencies {
                Some(deps) => (match crate::manifest::spec_lookup(deps@, name@) {
                    Some(ds) => r@.map_values(|d: String| d@) == ds,
                    None => r@.len() == 0,
                }),
                None => r@.len() == 0,
            },
    {
        match &self.dependencies {
            Some(deps) => deps.hints_for(name),
            None => Vec::new(),
        }
    }
}

/// What fetching a package from one subdirectory takes.
#[derive(Debug, Clone, PartialEq, Eq)]
pub enum FetchPlan {
    /// The package is known to be absent: no fetch, no records.
    Skip,
    /// Read this path under the local root; a missing file means no
    /// records.
    LocalFile(String),
    /// Fetch this URL; the body is a zstd-compressed shard.
    RemoteUrl(String),
}

/// A per-(channel, platform) source of records.
#[derive(Debug, Clone, PartialEq, Eq)]
pub enum SubdirSource {
    /// Shards in a local directory.
    LocalSparseIndex(LocalSparseIndex),
    /// Shards behind a remote sparse index.
    RemoteSparseIndex(RemoteSparseIndex),
}

impl SubdirSource {
    /// Constructs a local source from a directory path.
    pub fn from_path(path: String, channel_name: String) -> (r: SubdirSource)
        ensures
            r == SubdirSource::LocalSparseIndex(
                LocalSparseIndex { root: path, channel_name },
            ),
    {
        SubdirSource::LocalSparseIndex(LocalSparseIndex { root: path, channel_name })
    }

    /// The canonical channel name the source attributes records to.
    pub fn channel_name(&self) -> (r: &str)
        ensures
            r@ == (match self {
                SubdirSource::LocalSparseIndex(l) => l.channel_name@,
                SubdirSource::RemoteSparseIndex(m) => m.channel_name@,
            }),
    {
        match self {
            SubdirSource::LocalSparseIndex(l) => l.channel_name.as_str(),
            SubdirSource::RemoteSparseIndex(m) => m.channel_name.as_str(),
        }
    }

    /// How to fetch the records for a package name from this source: a
    /// local source derives the shard path under its root; a remote source
    /// first consults its names manifest and skips packages it does not
    /// publish, else derives the compressed shard's URL.
    pub fn fetch_plan(&self, name: &PackageName) -> (r: FetchPlan)
        requires
            name.wf(),
        ensures
            match self {
                SubdirSource::LocalSparseIndex(l) => r matches FetchPlan::LocalFile(p) && p@
                    == l.root@ + shard_path(name@),
                SubdirSource::RemoteSparseIndex(m) => if m.names.spec_contains(name@) {
                    r matches FetchPlan::RemoteUrl(u) && u@ == m.root@ + shard_path(name@)
                        + ".zst"@
                } else {
                    r == FetchPlan::Skip
                },
            },
    {
        match self {
            SubdirSource::LocalSparseIndex(l) => {
                let rel = match sparse_index_filename(name.as_normalized()) {
                    Ok(p) => p,
                    Err(_) => {
                        proof {
                            assert(false);
                        }
                        String::new()
                    },
                };
                FetchPlan::LocalFile(url_join(l.root.as_str(), rel.as_str()))
            },
            SubdirSource::RemoteSparseIndex(m) => {
                if m.names.contains(name.as_normalized()) {
                    let rel = match sparse_index_filename_zst(name.as_normalized()) {
                        Ok(p) => p,
                        Err(_) => {
                            proof {
                                assert(false);
                            }
                            String::new()
                        },
                    };
                    FetchPlan::RemoteUrl(url_join(m.root.as_str(), rel.as_str()))
                } else {
                    FetchPlan::Skip
                }
            },
        }
    }

    /// The prefetch hints of the source: only a remote source with a
    /// dependencies manifest offers any.
    pub fn prefetch_hints(&self, name: &str) -> (r: Vec<String>)
        ensures
            match self {
                SubdirSource::LocalSparseIndex(_) => r@.len() == 0,
                SubdirSource::RemoteSparseIndex(m) => (match m.dependencies {
                    Some(deps) => (match crate::manifest::spec_lookup(deps@, name@) {
                        Some(ds) => r@.map_values(|d: String| d@) == ds,
                        None => r@.len() == 0,
                    }),
                    None => r@.len() == 0,
                }),
            },
    {
        match self {
            SubdirSource::LocalSparseIndex(_) => Vec::new(),
            SubdirSource::RemoteSparseIndex(m) => m.prefetch_hints(name),
        }
    }
}

/// An error when fetching the records of one package from a subdirectory.
#[derive(Debug, Clone, PartialEq, Eq)]
pub enum FetchRecordsError {
    /// A filesystem or cache failure, with its description.
    IoError(String),
    /// The coalesced fetch lost its producer or waiters.
    Cancelled,
}

/// One (channel, platform) subdirectory: a source and a per-package-name
/// coalescing map over its record lists.
///
/// A lookup either returns the published records (whose storage never moves),
/// tells the caller to wait for the fetch in flight, or makes the caller the
/// producer: the caller then performs the source's [`FetchPlan`] and either
/// publishes the records or reports failure, which leaves the name ready to
/// be fetched again.
pub struct Subdir {
    source: SubdirSource,
    records: crate::coalesce::CoalescingMap<Vec<RepoDataRecord>>,
}

impl Subdir {
    /// The coalescing map's published and in-flight state.
    pub closed spec fn spec_records(&self) -> crate::coalesce::CoalescingMap<Vec<RepoDataRecord>> {
        self.records
    }

    /// The subdirectory's source.
    pub closed spec fn spec_source(&self) -> SubdirSource {
        self.source
    }

    /// Well-formedness of the coalescing map.
    pub open spec fn wf(&self) -> bool {
        self.spec_records().wf()
    }

    /// Wraps a source with an empty record cache.
    pub fn new(source: SubdirSource) -> (r: Subdir)
        ensures
            r.wf(),
            r.spec_source() == source,
            r.spec_records().spec_published().len() == 0,
    {
        Subdir { source, records: crate::coalesce::CoalescingMap::new() }
    }

    /// Looks a package up in the record cache; an absent name registers the
    /// caller as the producer of that name's records.
    pub fn lookup_records(&mut self, name: &str) -> (r: crate::coalesce::Lookup)
        requires
            old(self).wf(),
        ensures
            final(self).wf(),
            final(self).spec_source() == old(self).spec_source(),
            r == old(self).spec_records().spec_lookup(name@),
            final(self).spec_records().spec_published() == old(self).spec_records().spec_published(),
            r == crate::coalesce::Lookup::MustProduce ==> final(self).spec_records().spec_in_flight() == old(self).spec_records().spec_in_flight().push(
                name@,
            ) && crate::coalesce::spec_has_key(
                final(self).spec_records().spec_in_flight(),
                name@,
            ),
            r != crate::coalesce::Lookup::MustProduce ==> final(self).spec_records().spec_in_flight() == old(self).spec_records().spec_in_flight(),
    {
        let r = self.records.begin(name);
        proof {
            if r == crate::coalesce::Lookup::MustProduce {
                let fin = self.spec_records().spec_in_flight();
                assert(fin[fin.len() - 1] == name@);
            }
        }
        r
    }

    /// The published records for a name, when there are any.
    pub fn records_if_cached(&self, name: &str) -> (r: Option<&Vec<RepoDataRecord>>)
        requires
            self.wf(),
        ensures
            r is Some == self.spec_records().spec_is_published(name@),
    {
        self.records.get(name)
    }

    /// Publishes the fetched records for a name the caller was producing.
    pub fn publish_records(&mut self, name: &str, records: Vec<RepoDataRecord>)
        requires
            old(self).wf(),
            crate::coalesce::spec_has_key(old(self).spec_records().spec_in_flight(), name@),
        ensures
            final(self).wf(),
            final(self).spec_source() == old(self).spec_source(),
            final(self).spec_records().spec_published() == old(self).spec_records().spec_published().push((name@, records)),
    {
        self.records.publish(name, records);
    }

    /// Reports that the fetch for a name failed: the name stays absent, so
    /// the next lookup reruns the fetch.
    pub fn fail_records(&mut self, name: &str)
        requires
            old(self).wf(),
            crate::coalesce::spec_has_key(old(self).spec_records().spec_in_flight(), name@),
        ensures
            final(self).wf(),
            final(self).spec_source() == old(self).spec_source(),
            final(self).spec_records().spec_published() == old(self).spec_records().spec_published(),
            !final(self).spec_records().spec_is_published(name@),
            !crate::coalesce::spec_has_key(final(self).spec_records().spec_in_flight(), name@),
    {
        self.records.fail(name);
    }

    /// How to fetch a package's records from the wrapped source.
    pub fn fetch_plan(&self, name: &PackageName) -> (r: FetchPlan)
        requires
            name.wf(),
        ensures
            match self.spec_source() {
                SubdirSource::LocalSparseIndex(l) => r matches FetchPlan::LocalFile(p) && p@
                    == l.root@ + shard_path(name@),
                SubdirSource::RemoteSparseIndex(m) => if m.names.spec_contains(name@) {
                    r matches FetchPlan::RemoteUrl(u) && u@ == m.root@ + shard_path(name@)
                        + ".zst"@
                } else {
                    r == FetchPlan::Skip
                },
            },
    {
        self.source.fetch_plan(name)
    }

    /// The prefetch hints of the wrapped source.
    pub fn prefetch_hints(&self, name: &str) -> (r: Vec<String>)
        ensures
            match self.spec_source() {
                SubdirSource::LocalSparseIndex(_) => r@.len() == 0,
                SubdirSource::RemoteSparseIndex(m) => (match m.dependencies {
                    Some(deps) => (match crate::manifest::spec_lookup(deps@, name@) {
                        Some(ds) => r@.map_values(|d: String| d@) == ds,
                        None => r@.len() == 0,
                    }),
                    None => r@.len() == 0,
                }),
            },
    {
        self.source.prefetch_hints(name)
    }
}

/// Attaches the download URL and the channel name to parsed shard records:
/// each record's URL is the subdirectory URL joined with its filename.
pub fn records_from_shard(
    records: Vec<crate::sparse_index::SparseIndexRecord>,
    platform_url: &str,
    channel_name: &str,
) -> (r: Vec<RepoDataRecord>)
    ensures
        r@.len() == records@.len(),
        forall|i: int|
            0 <= i < r@.len() ==> {
                &&& (#[trigger] r@[i]).package_record == records@[i].package_record
                &&& r@[i].file_name@ == records@[i].file_name@
                &&& r@[i].url@ == platform_url@ + records@[i].file_name@
                &&& r@[i].channel@ == channel_name@
            },
{
    let mut out: Vec<RepoDataRecord> = Vec::new();
    let n = records.len();
    let mut recs = records;
    let mut i: usize = 0;
    // Consume from the back to move records out without cloning them, then
    // restore order.
    let ghost orig = recs@;
    while i < n
        invariant
            0 <= i <= n,
            n == orig.len(),
            recs@ == orig.take(n - i as int),
            out@.len() == i,
            forall|j: int|
                0 <= j < i ==> {
                    &&& (#[trigger] out@[j]).package_record == orig[n - 1 - j].package_record
                    &&& out@[j].file_name@ == orig[n - 1 - j].file_name@
                    &&& out@[j].url@ == platform_url@ + orig[n - 1 - j].file_name@
                    &&& out@[j].channel@ == channel_name@
                },
        decreases n - i,
    {
        let rec = recs.pop().unwrap();
        let url = url_join(platform_url, rec.file_name.as_str());
        out.push(
            RepoDataRecord {
                package_record: rec.package_record,
                file_name: rec.file_name,
                url,
                channel: channel_name.to_owned(),
            },
        );
        i += 1;
    }
    // Reverse to restore the input order.
    let mut rev: Vec<RepoDataRecord> = Vec::new();
    let mut k: usize = 0;
    let mut tmp = out;
    while k < n
        invariant
            0 <= k <= n,
            tmp@.len() == n - k,
            rev@.len() == k,
            n == orig.len(),
            forall|j: int|
                0 <= j < tmp@.len() ==> {
                    &&& (#[trigger] tmp@[j]).package_record == orig[n - 1 - j].package_record
                    &&& tmp@[j].file_name@ == orig[n - 1 - j].file_name@
                    &&& tmp@[j].url@ == platform_url@ + orig[n - 1 - j].file_name@
                    &&& tmp@[j].channel@ == channel_name@
                },
            forall|j: int|
                0 <= j < k ==> {
                    &&& (#[trigger] rev@[j]).package_record == orig[j].package_record
                    &&& rev@[j].file_name@ == orig[j].file_name@
                    &&& rev@[j].url@ == platform_url@ + orig[j].file_name@
                    &&& rev@[j].channel@ == channel_name@
                },
        decreases n - k,
    {
        let rec = tmp.pop().unwrap();
        rev.push(rec);
        k += 1;
    }
    rev
}

/// The traversal state of one `find_recursive_records` call.
///
/// `seen` holds every name ever queued; `pending` the names not yet
/// dispatched; `in_flight` the (subdirectory, name) fetches handed out and
/// not yet answered; `results` every collected record with its channel
/// index. A ghost set records the completed fetches for the closure
/// statement.
pub struct GatewayState {
    channel_count: usize,
    subdir_channel: Vec<usize>,
    seen: Vec<String>,
    pending: Vec<String>,
    in_flight: Vec<(usize, String)>,
    results: Vec<(usize, RepoDataRecord)>,
    completed: Ghost<Set<(int, Seq<char>)>>,
}

impl GatewayState {
    /// The names seen so far, as a set of character sequences.
    pub closed spec fn seen_set(&self) -> Set<Seq<char>> {
        self.seen@.map_values(|s: String| s@).to_set()
    }

    /// The names not yet dispatched.
    pub closed spec fn spec_pending(&self) -> Seq<Seq<char>> {
        self.pending@.map_values(|s: String| s@)
    }

    /// The dispatched fetches not yet answered.
    pub closed spec fn spec_in_flight(&self) -> Seq<(int, Seq<char>)> {
        self.in_flight@.map_values(|e: (usize, String)| (e.0 as int, e.1@))
    }

    /// The fetches already answered.
    pub closed spec fn spec_completed(&self) -> Set<(int, Seq<char>)> {
        self.completed@
    }

    /// The collected records, each with its channel index.
    pub closed spec fn spec_results(&self) -> Seq<(int, RepoDataRecord)> {
        self.results@.map_values(|e: (usize, RepoDataRecord)| (e.0 as int, e.1))
    }

    /// The number of subdirectories consulted.
    pub closed spec fn spec_subdir_count(&self) -> int {
        self.subdir_channel@.len() as int
    }

    /// The number of channels consulted.
    pub closed spec fn spec_channel_count(&self) -> int {
        self.channel_count as int
    }

    /// Every name of `seen` was dispatched to every subdirectory or is
    /// still pending; every dependency name extractable from a collected
    /// record is in `seen`; bookkeeping is internally consistent.
    pub open spec fn wf(&self) -> bool {
        &&& forall|i: int|
            0 <= i < self.spec_subdir_count() ==> 0 <= #[trigger] self.spec_subdir_channel()[i]
                < self.spec_channel_count()
        &&& forall|n: Seq<char>|
            #[trigger] self.seen_set().contains(n) ==> (self.spec_pending().contains(n) || forall|
                s: int,
            |
                0 <= s < self.spec_subdir_count() ==> (self.spec_in_flight().contains((s, n))
                    || self.spec_completed().contains((s, n))))
        &&& forall|i: int|
            0 <= i < self.spec_pending().len() ==> self.seen_set().contains(
                #[trigger] self.spec_pending()[i],
            )
        &&& forall|i: int|
            0 <= i < self.spec_in_flight().len() ==> 0 <= (#[trigger] self.spec_in_flight()[i]).0
                < self.spec_subdir_count() && self.seen_set().contains(self.spec_in_flight()[i].1)
        &&& forall|i: int, d: int|
            0 <= i < self.spec_results().len() && 0 <= d
                < self.spec_results()[i].1.package_record.depends@.len() ==> (
            match spec_dep_name(
                #[trigger] (#[trigger] self.spec_results()[i]).1.package_record.depends@[d]@,
            ) {
                Some(n) => self.seen_set().contains(n),
                None => true,
            })
        &&& forall|i: int|
            0 <= i < self.spec_results().len() ==> 0 <= (#[trigger] self.spec_results()[i]).0
                < self.spec_channel_count()
        &&& forall|i: int, j: int|
            0 <= i < j < self.spec_pending().len() ==> self.spec_pending()[i]
                != self.spec_pending()[j]
        &&& forall|i: int, j: int|
            0 <= i < self.spec_pending().len() && 0 <= j < self.spec_in_flight().len() ==> (
            #[trigger] self.spec_in_flight()[j]).1 != #[trigger] self.spec_pending()[i]
        &&& forall|i: int, s: int|
            0 <= i < self.spec_pending().len() ==> !(#[trigger] self.spec_completed().contains(
                (s, self.spec_pending()[i]),
            ))
        &&& forall|i: int, j: int|
            0 <= i < j < self.spec_in_flight().len() ==> self.spec_in_flight()[i]
                != self.spec_in_flight()[j]
        &&& forall|i: int|
            0 <= i < self.spec_in_flight().len() ==> !self.spec_completed().contains(
                #[trigger] self.spec_in_flight()[i],
            )
        &&& forall|p: (int, Seq<char>)|
            #[trigger] self.spec_completed().contains(p) ==> self.seen_set().contains(p.1)
    }

    /// The channel index of each subdirectory.
    pub closed spec fn spec_subdir_channel(&self) -> Seq<int> {
        self.subdir_channel@.map_values(|c: usize| c as int)
    }

    /// The closure property at quiescence: every dependency name
    /// extractable from any collected record has been seen and its fetch
    /// from every subdirectory has completed.
    pub open spec fn spec_closed(&self) -> bool {
        forall|i: int, d: int|
            0 <= i < self.spec_results().len() && 0 <= d
                < self.spec_results()[i].1.package_record.depends@.len() ==> (
            match spec_dep_name(
                #[trigger] (#[trigger] self.spec_results()[i]).1.package_record.depends@[d]@,
            ) {
                Some(n) => self.seen_set().contains(n) && forall|s: int|
                    0 <= s < self.spec_subdir_count() ==> self.spec_completed().contains(
                        (s, n),
                    ),
                None => true,
            })
    }

    /// Starts a traversal: the seen set and the pending queue hold exactly
    /// the root names, nothing is in flight, nothing was fetched, nothing
    /// collected.
    pub fn new(channel_count: usize, subdir_channel: Vec<usize>, roots: Vec<PackageName>) -> (r:
        GatewayState)
        requires
            forall|i: int|
                0 <= i < subdir_channel@.len() ==> #[trigger] subdir_channel@[i] < channel_count,
        ensures
            r.wf(),
            r.spec_results().len() == 0,
            r.spec_in_flight().len() == 0,
            r.spec_completed() == Set::<(int, Seq<char>)>::empty(),
            forall|n: Seq<char>|
                #[trigger] r.seen_set().contains(n) <==> exists|i: int|
                    0 <= i < roots@.len() && (#[trigger] roots@[i])@ == n,
            r.spec_pending().to_set() == r.seen_set(),
    {
        let mut st = GatewayState {
            channel_count,
            subdir_channel,
            seen: Vec::new(),
            pending: Vec::new(),
            in_flight: Vec::new(),
            results: Vec::new(),
            completed: Ghost(Set::empty()),
        };
        let n = roots.len();
        let mut i: usize = 0;
        proof {
            assert(st.seen_set() =~= Set::<Seq<char>>::empty());
            assert(st.spec_pending().to_set() =~= st.seen_set());
        }
        while i < n
            invariant
                0 <= i <= n,
                n == roots@.len(),
                st.wf(),
                st.spec_results().len() == 0,
                st.spec_in_flight().len() == 0,
                st.spec_completed() == Set::<(int, Seq<char>)>::empty(),
                forall|n2: Seq<char>|
                    #[trigger] st.seen_set().contains(n2) <==> exists|j: int|
                        0 <= j < i && (#[trigger] roots@[j])@ == n2,
                st.spec_pending().to_set() == st.seen_set(),
            decreases n - i,
        {
            let ghost pre = st;
            st.enqueue_if_unseen(roots[i].as_normalized());
            proof {
                let nm = roots@[i as int]@;
                assert(st.seen_set() == pre.seen_set().insert(nm));
                assert forall|n2: Seq<char>| #[trigger] st.seen_set().contains(n2) implies exists|
                    j: int,
                |
                    0 <= j < i + 1 && (#[trigger] roots@[j])@ == n2 by {
                    if n2 == nm {
                        assert(roots@[i as int]@ == n2);
                    } else {
                        assert(pre.seen_set().contains(n2));
                        let w = choose|j: int| 0 <= j < i && (#[trigger] roots@[j])@ == n2;
                        assert(roots@[w]@ == n2);
                    }
                }
                assert forall|n2: Seq<char>|
                    (exists|j: int| 0 <= j < i + 1 && (#[trigger] roots@[j])@ == n2) implies st
                    .seen_set().contains(n2) by {
                    let w = choose|j: int| 0 <= j < i + 1 && (#[trigger] roots@[j])@ == n2;
                    if w < i {
                        assert(pre.seen_set().contains(n2));
                    }
                }
                if pre.seen_set().contains(nm) {
                    assert(st.spec_pending() == pre.spec_pending());
                    assert(st.seen_set() =~= pre.seen_set());
                    assert(st.spec_pending().to_set() =~= st.seen_set());
                } else {
                    assert(st.spec_pending() == pre.spec_pending().push(nm));
                    assert forall|n2: Seq<char>|
                        #[trigger] st.spec_pending().to_set().contains(n2) implies st.seen_set()
                        .contains(n2) by {
                        let w = choose|w: int|
                            0 <= w < st.spec_pending().len() && st.spec_pending()[w] == n2;
                        if w < pre.spec_pending().len() {
                            assert(pre.spec_pending()[w] == n2);
                            assert(pre.spec_pending().contains(n2));
                            assert(pre.spec_pending().to_set().contains(n2));
                        }
                    }
                    assert forall|n2: Seq<char>|
                        #[trigger] st.seen_set().contains(n2) implies st.spec_pending().to_set()
                        .contains(n2) by {
                        if n2 == nm {
                            assert(st.spec_pending()[st.spec_pending().len() - 1] == nm);
                            assert(st.spec_pending().contains(n2));
                        } else {
                            assert(pre.spec_pending().to_set().contains(n2));
                            let w = choose|w: int|
                                0 <= w < pre.spec_pending().len() && pre.spec_pending()[w] == n2;
                            assert(st.spec_pending()[w] == n2);
                            assert(st.spec_pending().contains(n2));
                        }
                    }
                    assert(st.spec_pending().to_set() =~= st.seen_set());
                }
            }
            i += 1;
        }
        st
    }

    /// Transfers the record-related well-formedness clauses between two
    /// states that keep the subdirectory table and the collected records,
    /// while the seen set only grows.
    proof fn lemma_frame_clauses(pre: GatewayState, post: GatewayState)
        requires
            pre.wf(),
            post.spec_subdir_channel() == pre.spec_subdir_channel(),
            post.spec_channel_count() == pre.spec_channel_count(),
            post.spec_subdir_count() == pre.spec_subdir_count(),
            post.spec_results() == pre.spec_results(),
            forall|a: Seq<char>|
                pre.seen_set().contains(a) ==> #[trigger] post.seen_set().contains(a),
        ensures
            forall|i: int|
                0 <= i < post.spec_subdir_count() ==> 0 <= #[trigger] post.spec_subdir_channel()[i]
                    < post.spec_channel_count(),
            forall|i: int, d: int|
                0 <= i < post.spec_results().len() && 0 <= d
                    < post.spec_results()[i].1.package_record.depends@.len() ==> (
                match spec_dep_name(
                    #[trigger] (#[trigger] post.spec_results()[i]).1.package_record.depends@[d]@,
                ) {
                    Some(n) => post.seen_set().contains(n),
                    None => true,
                }),
            forall|i: int|
                0 <= i < post.spec_results().len() ==> 0 <= (#[trigger] post.spec_results()[i]).0
                    < post.spec_channel_count(),
    {
        assert forall|i: int|
            0 <= i < post.spec_subdir_count() implies 0 <= #[trigger] post.spec_subdir_channel()[i]
            < post.spec_channel_count() by {
            assert(0 <= pre.spec_subdir_channel()[i] < pre.spec_channel_count());
        }
        assert forall|i: int, d: int|
            0 <= i < post.spec_results().len() && 0 <= d
                < post.spec_results()[i].1.package_record.depends@.len() implies (
        match spec_dep_name(
            #[trigger] (#[trigger] post.spec_results()[i]).1.package_record.depends@[d]@,
        ) {
            Some(n) => post.seen_set().contains(n),
            None => true,
        }) by {
            assert(post.spec_results()[i] == pre.spec_results()[i]);
            match spec_dep_name(pre.spec_results()[i].1.package_record.depends@[d]@) {
                Some(n) => {
                    assert(pre.seen_set().contains(n));
                },
                None => {},
            }
        }
        assert forall|i: int|
            0 <= i < post.spec_results().len() implies 0 <= (#[trigger] post.spec_results()[i]).0
            < post.spec_channel_count() by {
            assert(post.spec_results()[i] == pre.spec_results()[i]);
            assert(0 <= pre.spec_results()[i].0 < pre.spec_channel_count());
        }
    }

    /// Transfers the in-flight clause between two states with the same
    /// in-flight fetches and a seen set that only grows.
    proof fn lemma_frame_in_flight(pre: GatewayState, post: GatewayState)
        requires
            pre.wf(),
            post.spec_in_flight() == pre.spec_in_flight(),
            post.spec_subdir_count() == pre.spec_subdir_count(),
            forall|a: Seq<char>|
                pre.seen_set().contains(a) ==> #[trigger] post.seen_set().contains(a),
        ensures
            forall|i: int|
                0 <= i < post.spec_in_flight().len() ==> 0 <= (
                #[trigger] post.spec_in_flight()[i]).0 < post.spec_subdir_count()
                    && post.seen_set().contains(post.spec_in_flight()[i].1),
    {
        assert forall|i: int|
            0 <= i < post.spec_in_flight().len() implies 0 <= (
        #[trigger] post.spec_in_flight()[i]).0 < post.spec_subdir_count()
            && post.seen_set().contains(post.spec_in_flight()[i].1) by {
            assert(post.spec_in_flight()[i] == pre.spec_in_flight()[i]);
            assert(0 <= pre.spec_in_flight()[i].0 < pre.spec_subdir_count());
            assert(pre.seen_set().contains(pre.spec_in_flight()[i].1));
        }
    }

    /// Collects one record whose dependency names were all queued.
    fn push_result(&mut self, channel: usize, rec: RepoDataRecord)
        requires
            old(self).wf(),
            0 <= channel < old(self).spec_channel_count(),
            forall|e: int|
                0 <= e < rec.package_record.depends@.len() ==> (match spec_dep_name(
                    #[trigger] rec.package_record.depends@[e]@,
                ) {
                    Some(nm) => old(self).seen_set().contains(nm),
                    None => true,
                }),
        ensures
            final(self).wf(),
            final(self).seen_set() == old(self).seen_set(),
            final(self).spec_pending() == old(self).spec_pending(),
            final(self).spec_in_flight() == old(self).spec_in_flight(),
            final(self).spec_completed() == old(self).spec_completed(),
            final(self).spec_subdir_count() == old(self).spec_subdir_count(),
            final(self).spec_channel_count() == old(self).spec_channel_count(),
            final(self).spec_subdir_channel() == old(self).spec_subdir_channel(),
            final(self).spec_results() == old(self).spec_results().push((channel as int, rec)),
    {
        self.results.push((channel, rec));
        proof {
            assert(self.spec_results() =~= old(self).spec_results().push((channel as int, rec)));
            Self::lemma_frame_in_flight(*old(self), *self);
            assert forall|n2: Seq<char>|
                #[trigger] self.seen_set().contains(n2) implies (self.spec_pending().contains(n2)
                || forall|t: int|
                0 <= t < self.spec_subdir_count() ==> (self.spec_in_flight().contains((t, n2))
                    || self.spec_completed().contains((t, n2)))) by {
                assert(old(self).seen_set().contains(n2));
            }
            assert forall|i: int|
                0 <= i < self.spec_pending().len() implies self.seen_set().contains(
                #[trigger] self.spec_pending()[i],
            ) by {
                assert(old(self).seen_set().contains(old(self).spec_pending()[i]));
            }
            assert forall|i: int|
                0 <= i < self.spec_subdir_count() implies 0 <= #[trigger] self.spec_subdir_channel()[i]
                < self.spec_channel_count() by {
                assert(0 <= old(self).spec_subdir_channel()[i] < old(self).spec_channel_count());
            }
            assert forall|i: int, d: int|
                0 <= i < self.spec_results().len() && 0 <= d
                    < self.spec_results()[i].1.package_record.depends@.len() implies (
            match spec_dep_name(
                #[trigger] (#[trigger] self.spec_results()[i]).1.package_record.depends@[d]@,
            ) {
                Some(n) => self.seen_set().contains(n),
                None => true,
            }) by {
                if i < old(self).spec_results().len() {
                    assert(self.spec_results()[i] == old(self).spec_results()[i]);
                    match spec_dep_name(
                        old(self).spec_results()[i].1.package_record.depends@[d]@,
                    ) {
                        Some(n) => {
                            assert(old(self).seen_set().contains(n));
                        },
                        None => {},
                    }
                } else {
                    assert(self.spec_results()[i] == (channel as int, rec));
                }
            }
            assert forall|i: int|
                0 <= i < self.spec_results().len() implies 0 <= (
            #[trigger] self.spec_results()[i]).0 < self.spec_channel_count() by {
                if i < old(self).spec_results().len() {
                    assert(self.spec_results()[i] == old(self).spec_results()[i]);
                    assert(0 <= old(self).spec_results()[i].0 < old(self).spec_channel_count());
                }
            }
            Self::lemma_frame_dispatch_clauses(*old(self), *self);
        }
    }

    /// Transfers the dispatch-bookkeeping clauses of well-formedness between
    /// two states whose queues, fetches and seen set are untouched.
    proof fn lemma_frame_dispatch_clauses(pre: GatewayState, post: GatewayState)
        requires
            pre.wf(),
            post.spec_pending() == pre.spec_pending(),
            post.spec_in_flight() == pre.spec_in_flight(),
            post.spec_completed() == pre.spec_completed(),
            post.seen_set() == pre.seen_set(),
        ensures
            forall|i: int, j: int|
                0 <= i < j < post.spec_pending().len() ==> post.spec_pending()[i]
                    != post.spec_pending()[j],
            forall|i: int, j: int|
                0 <= i < post.spec_pending().len() && 0 <= j < post.spec_in_flight().len() ==> (
                #[trigger] post.spec_in_flight()[j]).1 != #[trigger] post.spec_pending()[i],
            forall|i: int, s: int|
                0 <= i < post.spec_pending().len() ==> !(#[trigger] post.spec_completed().contains(
                    (s, post.spec_pending()[i]),
                )),
            forall|i: int, j: int|
                0 <= i < j < post.spec_in_flight().len() ==> post.spec_in_flight()[i]
                    != post.spec_in_flight()[j],
            forall|i: int|
                0 <= i < post.spec_in_flight().len() ==> !post.spec_completed().contains(
                    #[trigger] post.spec_in_flight()[i],
                ),
            forall|p: (int, Seq<char>)|
                #[trigger] post.spec_completed().contains(p) ==> post.seen_set().contains(p.1),
    {
        assert forall|i: int, j: int|
            0 <= i < j < post.spec_pending().len() implies post.spec_pending()[i]
            != post.spec_pending()[j] by {
            assert(pre.spec_pending()[i] != pre.spec_pending()[j]);
        }
        assert forall|i: int, j: int|
            0 <= i < post.spec_pending().len() && 0 <= j < post.spec_in_flight().len() implies (
        #[trigger] post.spec_in_flight()[j]).1 != #[trigger] post.spec_pending()[i] by {
            assert((pre.spec_in_flight()[j]).1 != pre.spec_pending()[i]);
        }
        assert forall|i: int, s: int|
            0 <= i < post.spec_pending().len() implies !(#[trigger] post.spec_completed().contains(
            (s, post.spec_pending()[i]),
        )) by {
            assert(!pre.spec_completed().contains((s, pre.spec_pending()[i])));
        }
        assert forall|i: int, j: int|
            0 <= i < j < post.spec_in_flight().len() implies post.spec_in_flight()[i]
            != post.spec_in_flight()[j] by {
            assert(pre.spec_in_flight()[i] != pre.spec_in_flight()[j]);
        }
        assert forall|i: int|
            0 <= i < post.spec_in_flight().len() implies !post.spec_completed().contains(
            #[trigger] post.spec_in_flight()[i],
        ) by {
            assert(!pre.spec_completed().contains(pre.spec_in_flight()[i]));
        }
        assert forall|p: (int, Seq<char>)|
            #[trigger] post.spec_completed().contains(p) implies post.seen_set().contains(p.1) by {
            assert(pre.spec_completed().contains(p));
            assert(pre.seen_set().contains(p.1));
        }
    }

    /// Queues a name not yet seen; a name already seen is left alone.
    fn enqueue_if_unseen(&mut self, name: &str)
        requires
            old(self).wf(),
        ensures
            final(self).wf(),
            final(self).seen_set() == old(self).seen_set().insert(name@),
            final(self).spec_results() == old(self).spec_results(),
            final(self).spec_in_flight() == old(self).spec_in_flight(),
            final(self).spec_completed() == old(self).spec_completed(),
            final(self).spec_subdir_count() == old(self).spec_subdir_count(),
            final(self).spec_channel_count() == old(self).spec_channel_count(),
            final(self).spec_subdir_channel() == old(self).spec_subdir_channel(),
            old(self).seen_set().contains(name@) ==> final(self).spec_pending() == old(self).spec_pending(),
            !old(self).seen_set().contains(name@) ==> final(self).spec_pending() == old(
                self,
            ).spec_pending().push(name@),
    {
        if self.contains_seen(name) {
            proof {
                assert(old(self).seen_set().contains(name@));
                assert(self.seen_set() =~= old(self).seen_set().insert(name@));
            }
            return ;
        }
        let ghost old_seen = self.seen_set();
        let ghost old_pending = self.spec_pending();
        self.seen.push(name.to_owned());
        self.pending.push(name.to_owned());
        proof {
            let m_old = old(self).seen@.map_values(|s: String| s@);
            let m_new = self.seen@.map_values(|s: String| s@);
            assert(m_new =~= m_old.push(name@));
            assert forall|a: Seq<char>| #[trigger] self.seen_set().contains(a) implies old_seen.insert(
                name@,
            ).contains(a) by {
                let w = choose|w: int| 0 <= w < m_new.len() && m_new[w] == a;
                if w < m_old.len() {
                    assert(m_old[w] == a);
                    assert(m_old.contains(a));
                } else {
                    assert(a == name@);
                }
            }
            assert forall|a: Seq<char>| #[trigger] old_seen.insert(name@).contains(a) implies self
                .seen_set().contains(a) by {
                if a == name@ {
                    assert(m_new[m_new.len() - 1] == a);
                    assert(m_new.contains(a));
                } else {
                    assert(m_old.contains(a));
                    let w = choose|w: int| 0 <= w < m_old.len() && m_old[w] == a;
                    assert(m_new[w] == a);
                    assert(m_new.contains(a));
                }
            }
            assert(self.seen_set() =~= old_seen.insert(name@));
            assert(self.spec_pending() =~= old_pending.push(name@));
            assert(self.spec_results() =~= old(self).spec_results());
            assert(self.spec_in_flight() =~= old(self).spec_in_flight());
            assert forall|n2: Seq<char>|
                #[trigger] self.seen_set().contains(n2) implies (self.spec_pending().contains(n2)
                || forall|s: int|
                0 <= s < self.spec_subdir_count() ==> (self.spec_in_flight().contains((s, n2))
                    || self.spec_completed().contains((s, n2)))) by {
                if n2 == name@ {
                    assert(self.spec_pending()[self.spec_pending().len() - 1] == name@);
                    assert(self.spec_pending().contains(name@));
                } else {
                    assert(old_seen.contains(n2));
                    if old(self).spec_pending().contains(n2) {
                        let w = choose|w: int|
                            0 <= w < old_pending.len() && old_pending[w] == n2;
                        assert(self.spec_pending()[w] == n2);
                        assert(self.spec_pending().contains(n2));
                    }
                }
            }
            assert forall|i: int|
                0 <= i < self.spec_pending().len() implies self.seen_set().contains(
                #[trigger] self.spec_pending()[i],
            ) by {
                if i < self.spec_pending().len() - 1 {
                    assert(old(self).seen_set().contains(old_pending[i]));
                }
            }
            Self::lemma_frame_clauses(*old(self), *self);
            Self::lemma_frame_in_flight(*old(self), *self);
            // The new pending entry is fresh: the name was unseen, while
            // every old pending, in-flight and completed name is seen.
            assert forall|a: int, b: int|
                0 <= a < b < self.spec_pending().len() implies self.spec_pending()[a]
                != self.spec_pending()[b] by {
                if b < self.spec_pending().len() - 1 {
                    assert(old(self).spec_pending()[a] != old(self).spec_pending()[b]);
                } else {
                    assert(self.spec_pending()[a] == old(self).spec_pending()[a]);
                    assert(old(self).seen_set().contains(old(self).spec_pending()[a]));
                }
            }
            assert forall|a: int, j: int|
                0 <= a < self.spec_pending().len() && 0 <= j < self.spec_in_flight().len() implies (
            #[trigger] self.spec_in_flight()[j]).1 != #[trigger] self.spec_pending()[a] by {
                if a < self.spec_pending().len() - 1 {
                    assert((old(self).spec_in_flight()[j]).1 != old(self).spec_pending()[a]);
                } else {
                    assert(old(self).seen_set().contains((old(self).spec_in_flight()[j]).1));
                }
            }
            assert forall|a: int, s: int|
                0 <= a < self.spec_pending().len() implies !(
            #[trigger] self.spec_completed().contains((s, self.spec_pending()[a]))) by {
                if a < self.spec_pending().len() - 1 {
                    assert(!old(self).spec_completed().contains(
                        (s, old(self).spec_pending()[a]),
                    ));
                } else {
                    assert(self.spec_pending()[a] == name@);
                    if self.spec_completed().contains((s, self.spec_pending()[a])) {
                        assert(old(self).spec_completed().contains((s, name@)));
                        assert(old(self).seen_set().contains(name@));
                        assert(false);
                    }
                }
            }
            assert forall|a: int, b: int|
                0 <= a < b < self.spec_in_flight().len() implies self.spec_in_flight()[a]
                != self.spec_in_flight()[b] by {
                assert(old(self).spec_in_flight()[a] != old(self).spec_in_flight()[b]);
            }
            assert forall|a: int|
                0 <= a < self.spec_in_flight().len() implies !self.spec_completed().contains(
                #[trigger] self.spec_in_flight()[a],
            ) by {
                assert(!old(self).spec_completed().contains(old(self).spec_in_flight()[a]));
            }
            assert forall|p: (int, Seq<char>)|
                #[trigger] self.spec_completed().contains(p) implies self.seen_set().contains(
                p.1,
            ) by {
                assert(old(self).spec_completed().contains(p));
                assert(old(self).seen_set().contains(p.1));
            }
        }
    }

    /// True when the name was seen already.
    fn contains_seen(&self, name: &str) -> (r: bool)
        ensures
            r == self.seen_set().contains(name@),
    {
        let n = self.seen.len();
        let mut i: usize = 0;
        while i < n
            invariant
                0 <= i <= n,
                n == self.seen@.len(),
                forall|j: int| 0 <= j < i ==> (#[trigger] self.seen@[j])@ != name@,
            decreases n - i,
        {
            if str_eq(self.seen[i].as_str(), name) {
                proof {
                    assert(self.seen@.map_values(|s: String| s@)[i as int] == name@);
                    assert(self.seen@.map_values(|s: String| s@).contains(name@));
                }
                return true;
            }
            i += 1;
        }
        proof {
            if self.seen_set().contains(name@) {
                let m = self.seen@.map_values(|s: String| s@);
                assert(m.contains(name@));
                let w = choose|w: int| 0 <= w < m.len() && m[w] == name@;
                assert((self.seen@[w])@ == name@);
            }
        }
        false
    }

    /// Takes the next pending name and registers one fetch per
    /// subdirectory; the caller performs those fetches and answers each
    /// through [`GatewayState::on_records`]. Yields nothing when no name is
    /// pending.
    pub fn dispatch(&mut self) -> (r: Option<String>)
        requires
            old(self).wf(),
        ensures
            final(self).wf(),
            final(self).spec_results() == old(self).spec_results(),
            final(self).spec_completed() == old(self).spec_completed(),
            final(self).spec_subdir_count() == old(self).spec_subdir_count(),
            final(self).spec_channel_count() == old(self).spec_channel_count(),
            final(self).seen_set() == old(self).seen_set(),
            match r {
                Some(name) => old(self).spec_pending().len() > 0 && final(self).spec_pending().len() == old(self).spec_pending().len() - 1 && (forall|s: int|
                    0 <= s < final(self).spec_subdir_count() ==> final(self).spec_in_flight().contains((s, name@))) && (forall|s: int|
                    !(#[trigger] old(self).spec_completed().contains((s, name@)))) && (forall|
                    j: int,
                |
                    0 <= j < old(self).spec_in_flight().len() ==> (#[trigger] old(
                        self,
                    ).spec_in_flight()[j]).1 != name@),
                None => old(self).spec_pending().len() == 0 && *final(self) == *old(self),
            },
    {
        if self.pending.len() == 0 {
            return None;
        }
        let name = match self.pending.pop() {
            Some(n) => n,
            None => {
                proof {
                    assert(false);
                }
                return None;
            },
        };
        let ghost popped = name@;
        let ghost old_pending_full = old(self).spec_pending();
        proof {
            assert(self.spec_pending() =~= old(self).spec_pending().take(
                old(self).spec_pending().len() - 1,
            ));
            assert(old(self).spec_pending()[old(self).spec_pending().len() - 1] == popped);
            assert(old(self).seen_set().contains(popped));
        }
        let count = self.subdir_channel.len();
        let mut s: usize = 0;
        while s < count
            invariant
                0 <= s <= count,
                count == self.subdir_channel@.len(),
                self.channel_count == old(self).channel_count,
                self.subdir_channel == old(self).subdir_channel,
                self.seen == old(self).seen,
                self.results == old(self).results,
                self.completed == old(self).completed,
                self.spec_pending() == old(self).spec_pending().take(
                    old(self).spec_pending().len() - 1,
                ),
                old(self).spec_pending().len() > 0,
                popped == old(self).spec_pending()[old(self).spec_pending().len() - 1],
                name@ == popped,
                self.spec_in_flight() == old(self).spec_in_flight() + Seq::new(
                    s as nat,
                    |k: int| (k, popped),
                ),
            decreases count - s,
        {
            let ghost before_if = self.spec_in_flight();
            self.in_flight.push((s, name.clone()));
            proof {
                assert(self.spec_in_flight() =~= before_if.push((s as int, popped)));
                assert(self.spec_in_flight() =~= old(self).spec_in_flight() + Seq::new(
                    s as nat + 1,
                    |k: int| (k, popped),
                ));
            }
            s += 1;
        }
        proof {
            let fin = self.spec_in_flight();
            let base = old(self).spec_in_flight();
            assert forall|t: int|
                0 <= t < self.spec_subdir_count() implies fin.contains((t, popped)) by {
                assert(fin[base.len() + t] == (t, popped));
            }
            // Well-formedness is preserved: the popped name is now in
            // flight for every subdirectory, other names keep their old
            // status.
            assert forall|n2: Seq<char>|
                #[trigger] self.seen_set().contains(n2) implies (self.spec_pending().contains(n2)
                || forall|t: int|
                0 <= t < self.spec_subdir_count() ==> (self.spec_in_flight().contains((t, n2))
                    || self.spec_completed().contains((t, n2)))) by {
                if n2 == popped {
                    assert(forall|t: int|
                        0 <= t < self.spec_subdir_count() ==> self.spec_in_flight().contains(
                            (t, n2),
                        ));
                } else {
                    assert(old(self).seen_set().contains(n2));
                    if old(self).spec_pending().contains(n2) {
                        let w = choose|w: int|
                            0 <= w < old_pending_full.len() && old_pending_full[w] == n2;
                        assert(w < old_pending_full.len() - 1);
                        assert(self.spec_pending()[w] == n2);
                        assert(self.spec_pending().contains(n2));
                    } else {
                        assert forall|t: int|
                            0 <= t < self.spec_subdir_count() implies (self.spec_in_flight()
                                .contains((t, n2)) || self.spec_completed().contains(
                                (t, n2),
                            )) by {
                            if old(self).spec_in_flight().contains((t, n2)) {
                                let w = choose|w: int|
                                    0 <= w < base.len() && base[w] == (t, n2);
                                assert(fin[w] == (t, n2));
                            }
                        }
                    }
                }
            }
            assert forall|i: int|
                0 <= i < self.spec_pending().len() implies self.seen_set().contains(
                #[trigger] self.spec_pending()[i],
            ) by {
                assert(old(self).spec_pending()[i] == self.spec_pending()[i]);
                assert(old(self).seen_set().contains(old(self).spec_pending()[i]));
            }
            assert forall|i: int|
                0 <= i < self.spec_in_flight().len() implies 0 <= (
            #[trigger] self.spec_in_flight()[i]).0 < self.spec_subdir_count()
                && self.seen_set().contains(self.spec_in_flight()[i].1) by {
                if i < base.len() {
                    assert(self.spec_in_flight()[i] == base[i]);
                    assert(0 <= old(self).spec_in_flight()[i].0 < old(self).spec_subdir_count());
                    assert(old(self).seen_set().contains(old(self).spec_in_flight()[i].1));
                } else {
                    assert(self.spec_in_flight()[i] == (i - base.len(), popped));
                }
            }
            Self::lemma_frame_clauses(*old(self), *self);
            // Bookkeeping clauses: the popped name was fresh, so the new
            // in-flight pairs collide with nothing.
            let plast = old_pending_full.len() - 1;
            assert forall|a: int, b: int|
                0 <= a < b < self.spec_pending().len() implies self.spec_pending()[a]
                != self.spec_pending()[b] by {
                assert(old(self).spec_pending()[a] != old(self).spec_pending()[b]);
            }
            assert forall|a: int, j: int|
                0 <= a < self.spec_pending().len() && 0 <= j < fin.len() implies (
            #[trigger] fin[j]).1 != #[trigger] self.spec_pending()[a] by {
                assert(self.spec_pending()[a] == old(self).spec_pending()[a]);
                if j < base.len() {
                    assert(fin[j] == base[j]);
                    assert((old(self).spec_in_flight()[j]).1 != old(self).spec_pending()[a]);
                } else {
                    assert(fin[j] == (j - base.len(), popped));
                    assert(old(self).spec_pending()[a] != old(self).spec_pending()[plast]);
                }
            }
            assert forall|a: int, s: int|
                0 <= a < self.spec_pending().len() implies !(
            #[trigger] self.spec_completed().contains((s, self.spec_pending()[a]))) by {
                assert(self.spec_pending()[a] == old(self).spec_pending()[a]);
                assert(!old(self).spec_completed().contains((s, old(self).spec_pending()[a])));
            }
            assert forall|a: int, b: int|
                0 <= a < b < fin.len() implies fin[a] != fin[b] by {
                if b < base.len() {
                    assert(fin[a] == base[a]);
                    assert(fin[b] == base[b]);
                    assert(old(self).spec_in_flight()[a] != old(self).spec_in_flight()[b]);
                } else if a < base.len() {
                    assert(fin[a] == base[a]);
                    assert(fin[b] == (b - base.len(), popped));
                    assert((old(self).spec_in_flight()[a]).1 != old(self).spec_pending()[plast]);
                } else {
                    assert(fin[a] == (a - base.len(), popped));
                    assert(fin[b] == (b - base.len(), popped));
                }
            }
            assert forall|a: int|
                0 <= a < fin.len() implies !self.spec_completed().contains(
                #[trigger] fin[a],
            ) by {
                if a < base.len() {
                    assert(fin[a] == base[a]);
                    assert(!old(self).spec_completed().contains(old(self).spec_in_flight()[a]));
                } else {
                    assert(fin[a] == (a - base.len(), popped));
                    assert(!old(self).spec_completed().contains(
                        (a - base.len(), old(self).spec_pending()[plast]),
                    ));
                }
            }
            assert forall|p: (int, Seq<char>)|
                #[trigger] self.spec_completed().contains(p) implies self.seen_set().contains(
                p.1,
            ) by {
                assert(old(self).spec_completed().contains(p));
                assert(old(self).seen_set().contains(p.1));
            }
            // The dispatched name had no completed and no in-flight fetch.
            assert forall|s: int| !(#[trigger] old(self).spec_completed().contains(
                (s, popped),
            )) by {
                assert(!old(self).spec_completed().contains(
                    (s, old(self).spec_pending()[plast]),
                ));
            }
            assert forall|j: int|
                0 <= j < old(self).spec_in_flight().len() implies (#[trigger] old(
                self,
            ).spec_in_flight()[j]).1 != popped by {
                assert((old(self).spec_in_flight()[j]).1 != old(self).spec_pending()[plast]);
            }
        }
        Some(name)
    }

    /// Adds prefetch hints: every hint that normalizes to a name not yet
    /// seen is queued. Hints only start work earlier; the records of a
    /// hinted package are fetched and inspected like any other.
    pub fn add_hints(&mut self, hints: &Vec<String>)
        requires
            old(self).wf(),
        ensures
            final(self).wf(),
            final(self).spec_results() == old(self).spec_results(),
            final(self).spec_completed() == old(self).spec_completed(),
            final(self).spec_subdir_count() == old(self).spec_subdir_count(),
            final(self).spec_channel_count() == old(self).spec_channel_count(),
            forall|n2: Seq<char>|
                #[trigger] final(self).seen_set().contains(n2) ==> old(self).seen_set().contains(
                    n2,
                ) || (exists|i: int|
                    0 <= i < hints@.len() && crate::names::spec_lower((#[trigger] hints@[i])@)
                        == n2),
    {
        let n = hints.len();
        let mut i: usize = 0;
        while i < n
            invariant
                0 <= i <= n,
                n == hints@.len(),
                self.wf(),
                self.spec_results() == old(self).spec_results(),
                self.spec_completed() == old(self).spec_completed(),
                self.spec_subdir_count() == old(self).spec_subdir_count(),
                self.spec_channel_count() == old(self).spec_channel_count(),
                forall|n2: Seq<char>|
                    #[trigger] self.seen_set().contains(n2) ==> old(self).seen_set().contains(n2)
                        || (exists|j: int|
                        0 <= j < hints@.len() && crate::names::spec_lower(
                            (#[trigger] hints@[j])@,
                        ) == n2),
            decreases n - i,
        {
            let ghost pre = *self;
            match PackageName::normalize(hints[i].as_str()) {
                Some(name) => {
                    self.enqueue_if_unseen(name.as_normalized());
                    proof {
                        assert forall|n2: Seq<char>|
                            #[trigger] self.seen_set().contains(n2) implies pre.seen_set()
                            .contains(n2) || n2 == crate::names::spec_lower(
                            hints@[i as int]@,
                        ) by {
                            assert(self.seen_set() == pre.seen_set().insert(name@));
                        }
                    }
                },
                None => {},
            }
            i += 1;
        }
    }

    /// Answers one dispatched fetch: the records a subdirectory returned
    /// for a name. Every dependency name extractable from the records is
    /// queued when unseen; the records are collected under the
    /// subdirectory's channel. An unparsable dependency spec contributes no
    /// name but the record is still kept.
    pub fn on_records(&mut self, subdir: usize, name: &str, records: Vec<RepoDataRecord>)
        requires
            old(self).wf(),
            old(self).spec_in_flight().contains((subdir as int, name@)),
        ensures
            final(self).wf(),
            final(self).spec_subdir_count() == old(self).spec_subdir_count(),
            final(self).spec_channel_count() == old(self).spec_channel_count(),
            final(self).spec_completed() == old(self).spec_completed().insert(
                (subdir as int, name@),
            ),
            !old(self).spec_completed().contains((subdir as int, name@)),
            final(self).spec_results().len() == old(self).spec_results().len()
                + records@.len(),
            forall|j: int|
                0 <= j < old(self).spec_results().len() ==> #[trigger] final(self).spec_results()[j] == old(self).spec_results()[j],
            forall|j: int|
                0 <= j < records@.len() ==> (#[trigger] final(self).spec_results()[old(self).spec_results().len() + j]).1 == records@[records@.len() - 1 - j] && final(self).spec_results()[old(self).spec_results().len() + j].0 == old(self).spec_subdir_channel()[subdir as int],
            forall|n2: Seq<char>|
                #[trigger] final(self).seen_set().contains(n2) ==> old(self).seen_set().contains(
                    n2,
                ) || (exists|a: int, e: int|
                    0 <= a < records@.len() && 0 <= e
                        < records@[a].package_record.depends@.len() && spec_dep_name(
                        #[trigger] (#[trigger] records@[a]).package_record.depends@[e]@,
                    ) == Some(n2)),
    {
        proof {
            let w = choose|w: int|
                0 <= w < old(self).spec_in_flight().len() && old(self).spec_in_flight()[w] == (
                subdir as int, name@);
            assert(0 <= subdir < old(self).spec_subdir_count());
            // A fetch is answered at most once: the pair was in flight, and
            // in-flight fetches are never already completed.
            assert(!old(self).spec_completed().contains(old(self).spec_in_flight()[w]));
        }
        // Remove the answered fetch and record its completion.
        self.remove_in_flight(subdir, name);
        // Queue the dependencies of each record, then collect the record;
        // insertion order within a channel is not part of the contract.
        let channel = self.subdir_channel[subdir];
        proof {
            assert(channel as int == self.spec_subdir_channel()[subdir as int]);
            assert(0 <= self.spec_subdir_channel()[subdir as int] < self.spec_channel_count());
        }
        let n = records.len();
        let mut recs = records;
        let ghost orig = recs@;
        let ghost base = self.spec_results().len() as int;
        let mut i: usize = 0;
        while i < n
            invariant
                0 <= i <= n,
                n == orig.len(),
                recs@ == orig.take(n - i as int),
                self.wf(),
                channel as int == old(self).spec_subdir_channel()[subdir as int],
                0 <= channel < self.spec_channel_count(),
                self.spec_subdir_count() == old(self).spec_subdir_count(),
                self.spec_channel_count() == old(self).spec_channel_count(),
                self.spec_completed() == old(self).spec_completed().insert(
                    (subdir as int, name@),
                ),
                self.spec_results().len() == base + i,
                base == old(self).spec_results().len(),
                forall|j: int|
                    0 <= j < base ==> #[trigger] self.spec_results()[j] == old(self).spec_results()[j],
                forall|j: int|
                    0 <= j < i ==> (#[trigger] self.spec_results()[base + j]).1 == orig[n - 1 - j]
                        && self.spec_results()[base + j].0 == channel as int,
                forall|n2: Seq<char>|
                    #[trigger] self.seen_set().contains(n2) ==> old(self).seen_set().contains(n2)
                        || (exists|a: int, e: int|
                        0 <= a < orig.len() && 0 <= e < orig[a].package_record.depends@.len()
                            && spec_dep_name(
                            #[trigger] (#[trigger] orig[a]).package_record.depends@[e]@,
                        ) == Some(n2)),
            decreases n - i,
        {
            let rec = match recs.pop() {
                Some(rec) => rec,
                None => {
                    proof {
                        assert(false);
                    }
                    return ;
                },
            };
            proof {
                assert(rec == orig[n - 1 - i as int]);
                assert(recs@ =~= orig.take(n - i as int - 1));
            }
            // First queue this record's dependency names, so the record's
            // deps are seen before it is collected.
            let dep_count = rec.package_record.depends.len();
            let mut d: usize = 0;
            while d < dep_count
                invariant
                    0 <= d <= dep_count,
                    i < n,
                    n == orig.len(),
                    rec == orig[n - 1 - i as int],
                    dep_count == rec.package_record.depends@.len(),
                    self.wf(),
                    channel as int == old(self).spec_subdir_channel()[subdir as int],
                    0 <= channel < self.spec_channel_count(),
                    self.spec_subdir_count() == old(self).spec_subdir_count(),
                    self.spec_channel_count() == old(self).spec_channel_count(),
                    self.spec_completed() == old(self).spec_completed().insert(
                        (subdir as int, name@),
                    ),
                    self.spec_results().len() == base + i,
                    base == old(self).spec_results().len(),
                    forall|j: int|
                        0 <= j < base ==> #[trigger] self.spec_results()[j] == old(self).spec_results()[j],
                    forall|j: int|
                        0 <= j < i ==> (#[trigger] self.spec_results()[base + j]).1 == orig[n - 1
                            - j] && self.spec_results()[base + j].0 == channel as int,
                    forall|e: int|
                        0 <= e < d ==> (match spec_dep_name(
                            #[trigger] rec.package_record.depends@[e]@,
                        ) {
                            Some(nm) => self.seen_set().contains(nm),
                            None => true,
                        }),
                    forall|n2: Seq<char>|
                        #[trigger] self.seen_set().contains(n2) ==> old(self).seen_set().contains(
                            n2,
                        ) || (exists|a: int, e: int|
                            0 <= a < orig.len() && 0 <= e < orig[a].package_record.depends@.len()
                                && spec_dep_name(
                                #[trigger] (#[trigger] orig[a]).package_record.depends@[e]@,
                            ) == Some(n2)),
                decreases dep_count - d,
            {
                let ghost seen_before = self.seen_set();
                match dependency_package_name(rec.package_record.depends[d].as_str()) {
                    Some(dep) => {
                        self.enqueue_if_unseen(dep.as_normalized());
                        proof {
                            assert(self.seen_set().contains(dep@));
                            assert forall|n2: Seq<char>|
                                #[trigger] self.seen_set().contains(n2) implies seen_before
                                .contains(n2) || n2 == dep@ by {
                                assert(self.seen_set() == seen_before.insert(dep@));
                            }
                            assert(spec_dep_name(
                                orig[n - 1 - i as int].package_record.depends@[d as int]@,
                            ) == Some(dep@));
                        }
                    },
                    None => {},
                }
                proof {
                    assert forall|e: int|
                        0 <= e < d + 1 implies (match spec_dep_name(
                        #[trigger] rec.package_record.depends@[e]@,
                    ) {
                        Some(nm) => self.seen_set().contains(nm),
                        None => true,
                    }) by {
                        if e < d {
                            match spec_dep_name(rec.package_record.depends@[e]@) {
                                Some(nm) => {
                                    assert(seen_before.contains(nm));
                                    assert(self.seen_set().contains(nm));
                                },
                                None => {},
                            }
                        }
                    }
                }
                d += 1;
            }
            // Now collect the record.
            self.push_result(channel, rec);
            i += 1;
        }
    }

    /// Removes one answered fetch from the in-flight list and marks it
    /// completed.
    fn remove_in_flight(&mut self, subdir: usize, name: &str)
        requires
            old(self).wf(),
            old(self).spec_in_flight().contains((subdir as int, name@)),
        ensures
            final(self).wf(),
            final(self).seen_set() == old(self).seen_set(),
            final(self).spec_pending() == old(self).spec_pending(),
            final(self).spec_results() == old(self).spec_results(),
            final(self).spec_subdir_count() == old(self).spec_subdir_count(),
            final(self).spec_channel_count() == old(self).spec_channel_count(),
            final(self).spec_subdir_channel() == old(self).spec_subdir_channel(),
            final(self).spec_completed() == old(self).spec_completed().insert(
                (subdir as int, name@),
            ),
    {
        let n = self.in_flight.len();
        let mut i: usize = 0;
        while i < n
            invariant
                0 <= i <= n,
                n == self.in_flight@.len(),
                old(self).wf(),
                self == old(self),
                old(self).spec_in_flight().contains((subdir as int, name@)),
                forall|j: int|
                    0 <= j < i ==> #[trigger] self.spec_in_flight()[j] != (
                    subdir as int, name@),
            decreases n - i,
        {
            if self.in_flight[i].0 == subdir && str_eq(self.in_flight[i].1.as_str(), name) {
                let ghost old_if = self.spec_in_flight();
                proof {
                    assert(old_if[i as int] == (subdir as int, name@));
                }
                self.in_flight.remove(i);
                proof {
                    self.completed@ = old(self).spec_completed().insert((subdir as int, name@));
                }
                proof {
                    assert(self.spec_in_flight() =~= old_if.subrange(0, i as int)
                        + old_if.subrange(i as int + 1, old_if.len() as int));
                    assert(self.seen_set() =~= old(self).seen_set());
                    assert(self.spec_pending() =~= old(self).spec_pending());
                    assert(self.spec_results() =~= old(self).spec_results());
                    let fin = self.spec_in_flight();
                    assert forall|n2: Seq<char>|
                        #[trigger] self.seen_set().contains(n2) implies (self.spec_pending()
                        .contains(n2) || forall|t: int|
                        0 <= t < self.spec_subdir_count() ==> (fin.contains((t, n2))
                            || self.spec_completed().contains((t, n2)))) by {
                        assert(old(self).seen_set().contains(n2));
                        if !old(self).spec_pending().contains(n2) {
                            assert forall|t: int|
                                0 <= t < self.spec_subdir_count() implies (fin.contains((t, n2))
                                || self.spec_completed().contains((t, n2))) by {
                                if old(self).spec_in_flight().contains((t, n2)) {
                                    let w = choose|w: int|
                                        0 <= w < old_if.len() && old_if[w] == (t, n2);
                                    if w < i {
                                        assert(fin[w] == (t, n2));
                                    } else if w > i {
                                        assert(fin[w - 1] == (t, n2));
                                    } else {
                                        assert(self.spec_completed().contains((t, n2)));
                                    }
                                }
                            }
                        }
                    }
                    assert forall|j: int|
                        0 <= j < fin.len() implies 0 <= (#[trigger] fin[j]).0
                        < self.spec_subdir_count() && self.seen_set().contains(fin[j].1) by {
                        let w2 = if j < i {
                            j
                        } else {
                            j + 1
                        };
                        assert(fin[j] == old_if[w2]);
                        assert(0 <= old(self).spec_in_flight()[w2].0 < old(self).spec_subdir_count());
                        assert(old(self).seen_set().contains(old(self).spec_in_flight()[w2].1));
                    }
                    assert forall|j: int|
                        0 <= j < self.spec_pending().len() implies self.seen_set().contains(
                        #[trigger] self.spec_pending()[j],
                    ) by {
                        assert(old(self).seen_set().contains(old(self).spec_pending()[j]));
                    }
                    Self::lemma_frame_clauses(*old(self), *self);
                }
                return ;
            }
            i += 1;
        }
        proof {
            let w = choose|w: int|
                0 <= w < old(self).spec_in_flight().len() && old(self).spec_in_flight()[w] == (
                subdir as int, name@);
            assert(false);
        }
    }

    /// True when the traversal is finished: nothing pending, nothing in
    /// flight. At that point the result set is closed: every dependency
    /// name extractable from any collected record has been fetched from
    /// every subdirectory.
    pub fn done(&self) -> (r: bool)
        requires
            self.wf(),
        ensures
            r == (self.spec_pending().len() == 0 && self.spec_in_flight().len() == 0),
            r ==> self.spec_closed(),
    {
        let r = self.pending.len() == 0 && self.in_flight.len() == 0;
        proof {
            if r {
                assert forall|i: int, d: int|
                    0 <= i < self.spec_results().len() && 0 <= d
                        < self.spec_results()[i].1.package_record.depends@.len()
                    implies (match spec_dep_name(
                    #[trigger] (#[trigger] self.spec_results()[i]).1.package_record.depends@[d]@,
                ) {
                    Some(n) => self.seen_set().contains(n) && forall|s: int|
                        0 <= s < self.spec_subdir_count() ==> self.spec_completed().contains(
                            (s, n),
                        ),
                    None => true,
                }) by {
                    match spec_dep_name(self.spec_results()[i].1.package_record.depends@[d]@) {
                        Some(n) => {
                            assert(self.seen_set().contains(n));
                            assert forall|s: int|
                                0 <= s < self.spec_subdir_count() implies self.spec_completed()
                                .contains((s, n)) by {
                                assert(!self.spec_pending().contains(n));
                                assert(!self.spec_in_flight().contains((s, n)));
                            }
                        },
                        None => {},
                    }
                }
            }
        }
        r
    }

    /// Hands the collected records out, each with the index of the channel
    /// it came from.
    pub fn into_results(self) -> (r: Vec<(usize, RepoDataRecord)>)
        ensures
            r@.map_values(|e: (usize, RepoDataRecord)| (e.0 as int, e.1)) == self.spec_results(),
    {
        self.results
    }
}

} // verus!
