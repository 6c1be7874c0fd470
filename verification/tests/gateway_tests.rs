//! The gateway traversal, the coalescing map, the fetcher decisions, the
//! channel model, and placeholder rendering.

use rattler::channel::{Channel, UrlScheme};
use rattler::coalesce::{CoalescingMap, Lookup};
use rattler::fetcher::{
    encode_cache_entry, on_conditional_response, on_unconditional_response, parse_cache_entry,
    plan_fetch, shard_disposition, CacheLookup, FetchAction, FetchOutcome, Freshness,
    ResponseEvent, ShardDisposition,
};
use rattler::gateway::{
    deps_manifest_step, names_manifest_step, records_from_shard, tolerate_missing_subdir,
    DepsManifestStep, FetchPlan, GatewayState, NamesManifestStep, RemoteSparseIndex, Subdir,
    SubdirSource,
};
use rattler::manifest::{SparseIndexDependencies, SparseIndexNames};
use rattler::names::{dependency_package_name, PackageName};
use rattler::platform::Platform;
use rattler::records::{PackageRecord, RepoDataRecord};
use rattler::render::{BaseMenuItemPlaceholders, PlaceholderString};
use rattler::sparse_index::SparseIndexRecord;

fn mk_record(name: &str, subdir: &str, depends: &[&str]) -> RepoDataRecord {
    let mut record = PackageRecord::new(
        PackageName::normalize(name).unwrap(),
        "1.0".to_string(),
        "0".to_string(),
        subdir.to_string(),
    );
    record.depends = depends.iter().map(|d| d.to_string()).collect();
    RepoDataRecord {
        package_record: record,
        file_name: format!("{}-1.0-0.conda", name),
        url: format!("https://example.test/{}/{}-1.0-0.conda", subdir, name),
        channel: "test-channel".to_string(),
    }
}

type Shards = Vec<(&'static str, Vec<RepoDataRecord>)>;

/// Drives a traversal against in-memory subdirectory contents, returning the
/// collected records and the log of (subdir, name) fetches performed.
fn run_traversal(
    subdirs: &[(usize, Shards)],
    roots: &[&str],
) -> (Vec<(usize, RepoDataRecord)>, Vec<(usize, String)>) {
    let subdir_channels: Vec<usize> = subdirs.iter().map(|s| s.0).collect();
    let channel_count = subdir_channels.iter().max().map(|m| m + 1).unwrap_or(0);
    let root_names: Vec<PackageName> =
        roots.iter().map(|r| PackageName::normalize(r).unwrap()).collect();
    let mut state = GatewayState::new(channel_count, subdir_channels, root_names);
    let mut fetch_log: Vec<(usize, String)> = Vec::new();
    loop {
        match state.dispatch() {
            Some(name) => {
                for (s, (_channel, shards)) in subdirs.iter().enumerate() {
                    fetch_log.push((s, name.clone()));
                    let records: Vec<RepoDataRecord> = shards
                        .iter()
                        .find(|(n, _)| *n == name.as_str())
                        .map(|(_, r)| r.clone())
                        .unwrap_or_default();
                    state.on_records(s, name.as_str(), records);
                }
            }
            None => break,
        }
    }
    assert!(state.done());
    (state.into_results(), fetch_log)
}

#[test]
fn test_traversal_local_single_channel() {
    // One channel with a concrete platform and noarch; python pulls in libc
    // and openssl transitively.
    let linux: Shards = vec![
        ("python", vec![mk_record("python", "linux-64", &["libc >=2.17", "openssl"])]),
        ("libc", vec![mk_record("libc", "linux-64", &[])]),
    ];
    let noarch: Shards = vec![("openssl", vec![mk_record("openssl", "noarch", &[])])];
    let (results, fetch_log) = run_traversal(&[(0, linux), (0, noarch)], &["python"]);

    let names: Vec<&str> =
        results.iter().map(|(_, r)| r.package_record.name.as_normalized()).collect();
    assert_eq!(results.len(), 3);
    assert!(names.contains(&"python"));
    assert!(names.contains(&"libc"));
    assert!(names.contains(&"openssl"));
    for (channel, record) in &results {
        assert_eq!(*channel, 0);
        let subdir = record.package_record.subdir.as_str();
        assert!(subdir == "linux-64" || subdir == "noarch");
    }

    // The closure property: every dependency name of every collected record
    // was fetched from every subdirectory.
    for (_, record) in &results {
        for dep in &record.package_record.depends {
            let dep_name = dependency_package_name(dep).unwrap();
            for s in 0..2 {
                assert!(fetch_log
                    .iter()
                    .any(|(sub, n)| *sub == s && n == dep_name.as_normalized()));
            }
        }
    }

    // Single flight per (subdirectory, name): no fetch is repeated.
    for (i, a) in fetch_log.iter().enumerate() {
        for b in &fetch_log[i + 1..] {
            assert_ne!(a, b);
        }
    }
}

#[test]
fn test_traversal_missing_concrete_subdir() {
    // The channel publishes only noarch; the traversal still succeeds.
    let noarch: Shards = vec![("pkg-a", vec![mk_record("pkg-a", "noarch", &[])])];
    let (results, _) = run_traversal(&[(0, noarch)], &["pkg-a"]);
    assert_eq!(results.len(), 1);
    assert_eq!(results[0].1.package_record.subdir, "noarch");
}

#[test]
fn test_missing_subdir_policy() {
    // A missing concrete platform is tolerated; a missing noarch is fatal.
    assert!(tolerate_missing_subdir(Platform::Linux64, true));
    assert!(tolerate_missing_subdir(Platform::OsxArm64, true));
    assert!(!tolerate_missing_subdir(Platform::NoArch, true));
    // Other errors are never tolerated.
    assert!(!tolerate_missing_subdir(Platform::Linux64, false));
    assert!(!tolerate_missing_subdir(Platform::NoArch, false));
}

#[test]
fn test_prefetch_hint_starts_before_completion() {
    // A dependencies-manifest hint queues the dependency before the hinted
    // package's records ever arrive.
    let mut state = GatewayState::new(
        1,
        vec![0],
        vec![PackageName::normalize("a").unwrap()],
    );
    let first = state.dispatch().unwrap();
    assert_eq!(first, "a");
    // The hint arrives while the fetch of `a` is still in flight.
    state.add_hints(&vec!["b".to_string()]);
    let second = state.dispatch().unwrap();
    assert_eq!(second, "b");
    // Only afterwards does the fetch of `a` complete.
    state.on_records(0, "a", vec![mk_record("a", "noarch", &["b"])]);
    state.on_records(0, "b", vec![mk_record("b", "noarch", &[])]);
    assert!(state.done());
}

#[test]
fn test_unparsable_dependency_is_kept() {
    // A dependency spec with no extractable name contributes no new fetch,
    // but the record carrying it is still collected.
    let shards: Shards = vec![("pkg-b", vec![mk_record("pkg-b", "noarch", &[" leading-space"])])];
    let (results, fetch_log) = run_traversal(&[(0, shards)], &["pkg-b"]);
    assert_eq!(results.len(), 1);
    assert_eq!(fetch_log.len(), 1);
}

#[test]
fn test_coalescing_single_flight_and_hit() {
    let mut map: CoalescingMap<u64> = CoalescingMap::new();
    // The first caller produces; concurrent callers wait.
    assert_eq!(map.begin("python"), Lookup::MustProduce);
    assert_eq!(map.begin("python"), Lookup::Wait);
    assert_eq!(map.begin("python"), Lookup::Wait);
    // Publishing makes the value visible to everyone at a stable index.
    map.publish("python", 42);
    assert_eq!(map.begin("python"), Lookup::Hit(0));
    assert_eq!(map.get("python"), Some(&42));
    // A second key coexists without touching the first.
    assert_eq!(map.begin("libc"), Lookup::MustProduce);
    map.publish("libc", 7);
    assert_eq!(map.get("python"), Some(&42));
    assert_eq!(map.get("libc"), Some(&7));
    assert_eq!(map.begin("python"), Lookup::Hit(0));
    assert_eq!(map.begin("libc"), Lookup::Hit(1));
}

#[test]
fn test_coalescing_no_poisoning() {
    let mut map: CoalescingMap<u64> = CoalescingMap::new();
    assert_eq!(map.begin("flaky"), Lookup::MustProduce);
    // The producer fails: the key is left absent, not poisoned.
    map.fail("flaky");
    assert_eq!(map.get("flaky"), None);
    // The next call runs the producer again.
    assert_eq!(map.begin("flaky"), Lookup::MustProduce);
    map.publish("flaky", 1);
    assert_eq!(map.get("flaky"), Some(&1));
}

#[test]
fn test_fetch_plan_decisions() {
    // A fresh cache entry is served without any network traffic.
    let fresh = plan_fetch(CacheLookup::Hit {
        policy: vec![1, 2],
        body: vec![9, 9, 9],
        freshness: Freshness::Fresh,
    });
    assert_eq!(fresh, FetchAction::ServeCached { body: vec![9, 9, 9] });
    // A stale entry is revalidated with its stored policy.
    let stale = plan_fetch(CacheLookup::Hit {
        policy: vec![1, 2],
        body: vec![9, 9, 9],
        freshness: Freshness::Stale,
    });
    assert_eq!(stale, FetchAction::SendConditional { policy: vec![1, 2], body: vec![9, 9, 9] });
    // A miss is fetched unconditionally.
    assert_eq!(plan_fetch(CacheLookup::Miss), FetchAction::SendUnconditional);
}

#[test]
fn test_revalidation_not_modified_keeps_body() {
    // On a 304 the delivered bytes equal the cached bytes and the refreshed
    // policy is stored with the cached body kept.
    let cached = vec![5, 6, 7];
    let refreshed = vec![80, 81];
    let outcome =
        on_conditional_response(cached.clone(), &refreshed, &vec![], ResponseEvent::NotModified);
    match outcome {
        FetchOutcome::Deliver { body, store } => {
            assert_eq!(body, cached);
            let entry = store.unwrap();
            let (policy_back, body_back) = parse_cache_entry(&entry).unwrap();
            assert_eq!(policy_back, refreshed);
            assert_eq!(body_back, cached);
        }
        FetchOutcome::Error { .. } => panic!("a 304 must deliver the cached body"),
    }
}

#[test]
fn test_fetch_success_and_failure() {
    let new_policy = vec![1];
    let ok = on_unconditional_response(
        &new_policy,
        ResponseEvent::Success { body: vec![2, 3], storable: true },
    );
    match ok {
        FetchOutcome::Deliver { body, store } => {
            assert_eq!(body, vec![2, 3]);
            let (p, b) = parse_cache_entry(&store.unwrap()).unwrap();
            assert_eq!(p, new_policy);
            assert_eq!(b, vec![2, 3]);
        }
        FetchOutcome::Error { .. } => panic!("a success must deliver"),
    }
    let not_storable = on_unconditional_response(
        &new_policy,
        ResponseEvent::Success { body: vec![2], storable: false },
    );
    assert_eq!(not_storable, FetchOutcome::Deliver { body: vec![2], store: None });
    let failed =
        on_conditional_response(vec![], &vec![], &new_policy, ResponseEvent::Failure {
            status: 503,
        });
    assert_eq!(failed, FetchOutcome::Error { status: 503 });
}

#[test]
fn test_cache_entry_framing() {
    let policy = vec![10, 20, 30];
    let body = vec![40, 50];
    let entry = encode_cache_entry(&policy, &body);
    assert_eq!(entry.len(), 8 + 3 + 2);
    let (p, b) = parse_cache_entry(&entry).unwrap();
    assert_eq!(p, policy);
    assert_eq!(b, body);
    // Truncated entries are rejected.
    assert!(parse_cache_entry(&vec![1, 2, 3]).is_none());
    assert!(parse_cache_entry(&entry[0..9].to_vec()).is_none());
}

#[test]
fn test_shard_status_disposition() {
    assert_eq!(shard_disposition(200), ShardDisposition::Parse);
    assert_eq!(shard_disposition(206), ShardDisposition::Parse);
    assert_eq!(shard_disposition(404), ShardDisposition::Empty);
    assert_eq!(shard_disposition(500), ShardDisposition::Fail);
    assert_eq!(shard_disposition(304), ShardDisposition::Fail);
}

#[test]
fn test_channel_urls() {
    let channel = Channel::from_url("https://conda.example.org/conda-forge", "conda-forge")
        .unwrap();
    assert_eq!(channel.canonical_name(), "conda-forge");
    assert_eq!(channel.base_url(), "https://conda.example.org/conda-forge/");
    assert_eq!(channel.scheme(), UrlScheme::Https);
    assert_eq!(
        channel.platform_url(Platform::Linux64),
        "https://conda.example.org/conda-forge/linux-64/"
    );
    assert_eq!(
        channel.platform_url(Platform::NoArch),
        "https://conda.example.org/conda-forge/noarch/"
    );
    let file = Channel::from_url("file:///tmp/channel/", "local").unwrap();
    assert_eq!(file.scheme(), UrlScheme::File);
    assert!(Channel::from_url("ftp://nope/", "nope").is_none());
}

#[test]
fn test_remote_source_plan() {
    let mut names = SparseIndexNames::new();
    names.insert("python".to_string(), &vec![0; 8]);
    let mut deps = SparseIndexDependencies::new();
    deps.insert("python".to_string(), vec!["libc".to_string()]);
    let source = SubdirSource::RemoteSparseIndex(
        RemoteSparseIndex::new(
            &names.to_bytes(),
            Some(&deps.to_bytes()),
            "https://conda.example.org/conda-forge/linux-64/".to_string(),
            "conda-forge".to_string(),
        )
        .unwrap(),
    );
    // A published package resolves to its compressed shard URL.
    let plan = source.fetch_plan(&PackageName::normalize("python").unwrap());
    assert_eq!(
        plan,
        FetchPlan::RemoteUrl(
            "https://conda.example.org/conda-forge/linux-64/py/th/python.json.zst".to_string()
        )
    );
    // An unpublished package is skipped without any fetch.
    let absent = source.fetch_plan(&PackageName::normalize("absent").unwrap());
    assert_eq!(absent, FetchPlan::Skip);
    // The hints come from the dependencies manifest.
    assert_eq!(source.prefetch_hints("python"), vec!["libc".to_string()]);
    assert_eq!(source.prefetch_hints("libc"), Vec::<String>::new());
}

#[test]
fn test_local_source_plan() {
    let source = SubdirSource::from_path("/tmp/channel/linux-64/".to_string(), "local".to_string());
    let plan = source.fetch_plan(&PackageName::normalize("foo").unwrap());
    assert_eq!(plan, FetchPlan::LocalFile("/tmp/channel/linux-64/3/f/foo.json".to_string()));
}

#[test]
fn test_records_from_shard_attaches_url_and_channel() {
    let records = vec![
        SparseIndexRecord::from_record(
            PackageRecord::new(
                PackageName::normalize("foo").unwrap(),
                "1.0".to_string(),
                "0".to_string(),
                "linux-64".to_string(),
            ),
            "foo-1.0-0.conda".to_string(),
        ),
    ];
    let out = records_from_shard(records, "https://c.example.org/ch/linux-64/", "ch");
    assert_eq!(out.len(), 1);
    assert_eq!(out[0].url, "https://c.example.org/ch/linux-64/foo-1.0-0.conda");
    assert_eq!(out[0].channel, "ch");
    assert_eq!(out[0].file_name, "foo-1.0-0.conda");
}

#[test]
fn test_dependency_name_extraction() {
    assert_eq!(
        dependency_package_name("python >=3.9").unwrap().as_normalized(),
        "python"
    );
    assert_eq!(dependency_package_name("libc").unwrap().as_normalized(), "libc");
    assert_eq!(dependency_package_name("NumPy 1.21.*").unwrap().as_normalized(), "numpy");
    assert!(dependency_package_name("").is_none());
    assert!(dependency_package_name(" leading").is_none());
    assert!(dependency_package_name("bad\u{7}name").is_none());
}

#[test]
fn test_placeholder_rendering() {
    let base = BaseMenuItemPlaceholders::from_entries(vec![
        ("PREFIX".to_string(), "/opt/env".to_string()),
        ("ICON_EXT".to_string(), "png".to_string()),
    ]);
    let refined = base.refine("/menu/item.lnk");
    let text = PlaceholderString("{{ PREFIX }}/icon.{{ ICON_EXT }} at {{ MENU_ITEM_LOCATION }}".to_string());
    assert_eq!(text.resolve(&refined), "/opt/env/icon.png at /menu/item.lnk");
    // An unknown placeholder is left alone.
    let unknown = PlaceholderString("{{ MISSING }}".to_string());
    assert_eq!(unknown.resolve(&refined), "{{ MISSING }}");
    assert_eq!(
        rattler::render::resolve(&None, &refined, "fallback"),
        "fallback"
    );
    assert_eq!(rattler::render::replace_all("aaa", "aa", "b"), "ba");
}

#[test]
fn test_subdir_single_fetch() {
    // The per-subdirectory record cache: repeated lookups for the same name
    // make exactly one caller the producer; everyone else gets the published
    // records.
    let source = SubdirSource::from_path("/tmp/ch/noarch/".to_string(), "ch".to_string());
    let mut subdir = Subdir::new(source);
    let mut fetch_count = 0;
    for _ in 0..3 {
        match subdir.lookup_records("foo") {
            Lookup::MustProduce => {
                fetch_count += 1;
                subdir.publish_records("foo", vec![mk_record("foo", "noarch", &[])]);
            }
            Lookup::Wait => panic!("no concurrent producer here"),
            Lookup::Hit(_) => {}
        }
    }
    assert_eq!(fetch_count, 1);
    assert!(subdir.records_if_cached("foo").is_some());

    // A failed fetch leaves the name absent, not poisoned.
    match subdir.lookup_records("bar") {
        Lookup::MustProduce => subdir.fail_records("bar"),
        _ => panic!("bar was never fetched before"),
    }
    assert!(subdir.records_if_cached("bar").is_none());
    assert!(matches!(subdir.lookup_records("bar"), Lookup::MustProduce));
}

#[test]
fn test_traversal_two_channels() {
    // Two channels: each record lands under the channel its subdirectory
    // belongs to, and every name is fetched from both.
    let first: Shards = vec![("tool", vec![mk_record("tool", "noarch", &["dep-x"])])];
    let second: Shards = vec![("dep-x", vec![mk_record("dep-x", "noarch", &[])])];
    let (results, fetch_log) = run_traversal(&[(0, first), (1, second)], &["tool"]);
    assert_eq!(results.len(), 2);
    for (channel, record) in &results {
        match record.package_record.name.as_normalized() {
            "tool" => assert_eq!(*channel, 0),
            "dep-x" => assert_eq!(*channel, 1),
            other => panic!("unexpected record {other}"),
        }
    }
    // Both names were fetched from both subdirectories.
    for name in ["tool", "dep-x"] {
        for s in 0..2 {
            assert!(fetch_log.iter().any(|(sub, n)| *sub == s && n == name));
        }
    }
}

#[test]
fn test_manifest_fetch_steps() {
    // The names manifest is required: its 404 is a not-found, judged by the
    // NoArch policy; the dependencies manifest is optional: its 404 just
    // means no prefetch hints.
    assert_eq!(names_manifest_step(200), NamesManifestStep::Parse);
    assert_eq!(names_manifest_step(404), NamesManifestStep::NotFound);
    assert_eq!(names_manifest_step(500), NamesManifestStep::Fail);
    assert_eq!(deps_manifest_step(200), DepsManifestStep::Parse);
    assert_eq!(deps_manifest_step(404), DepsManifestStep::Absent);
    assert_eq!(deps_manifest_step(503), DepsManifestStep::Fail);
}

#[test]
fn test_refine_overwrites_prior_location() {
    // A pre-existing MENU_ITEM_LOCATION binding is replaced, so the new
    // location is the one a placeholder resolves to.
    let base = BaseMenuItemPlaceholders::from_entries(vec![
        ("MENU_ITEM_LOCATION".to_string(), "/old/location".to_string()),
        ("PREFIX".to_string(), "/opt/env".to_string()),
    ]);
    let refined = base.refine("/new/location");
    let text = PlaceholderString("{{ MENU_ITEM_LOCATION }}".to_string());
    assert_eq!(text.resolve(&refined), "/new/location");
}
