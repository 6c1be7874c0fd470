//! Sparse-index paths, the binary manifests, and the shard codec.

use rattler::manifest::{SparseIndexDependencies, SparseIndexNames};
use rattler::names::PackageName;
use rattler::records::PackageRecord;
use rattler::sparse_index::{
    sparse_index_filename, sparse_index_filename_zst, SparseIndex, SparseIndexPackage,
    SparseIndexRecord,
};
use rattler::shard::{
    decode_local_shard, decode_shard, decode_shard_checked, parse_record_line,
    parse_record_line_canonical,
};

#[test]
fn test_sparse_index_filename() {
    assert_eq!(sparse_index_filename("a").unwrap(), "1/a.json".to_string());
    assert_eq!(sparse_index_filename("ab").unwrap(), "2/ab.json".to_string());
    assert_eq!(sparse_index_filename("foo").unwrap(), "3/f/foo.json".to_string());
    assert_eq!(sparse_index_filename("foobar").unwrap(), "fo/ob/foobar.json".to_string());
    assert_eq!(sparse_index_filename("foobar.conda").unwrap(), "fo/ob/foobar.conda.json".to_string());
}

#[test]
fn test_sparse_index_filename_empty_and_zst() {
    assert!(sparse_index_filename("").is_err());
    assert!(sparse_index_filename_zst("").is_err());
    assert_eq!(sparse_index_filename_zst("python").unwrap(), "py/th/python.json.zst".to_string());
}

fn sample_record(name: &str, version: &str, depends: Vec<String>) -> SparseIndexRecord {
    let mut record = PackageRecord::new(
        PackageName::normalize(name).unwrap(),
        version.to_string(),
        "h000_0".to_string(),
        "linux-64".to_string(),
    );
    record.depends = depends;
    record.build_number = 3;
    record.size = Some(123456);
    record.license = Some("BSD-3-Clause".to_string());
    SparseIndexRecord::from_record(record, format!("{}-{}-h000_0.conda", name, version))
}

#[test]
fn test_names_manifest_round_trip() {
    let mut names = SparseIndexNames::new();
    names.insert("python".to_string(), &vec![1, 2, 3, 4, 5, 6, 7, 8, 9, 10]);
    names.insert("libc".to_string(), &vec![8, 7, 6, 5, 4, 3, 2, 1]);
    let bytes = names.to_bytes();
    // Magic, version, then the entries.
    assert_eq!(&bytes[0..4], b"NAME");
    assert_eq!(&bytes[4..6], &[1, 0]);
    let back = SparseIndexNames::from_bytes(&bytes).unwrap();
    assert_eq!(back, names);
    assert!(back.contains("python"));
    assert!(back.contains("libc"));
    assert!(!back.contains("openssl"));
}

#[test]
fn test_names_manifest_rejects_bad_magic_and_version() {
    let mut names = SparseIndexNames::new();
    names.insert("a".to_string(), &vec![0, 0, 0, 0, 0, 0, 0, 0]);
    let good = names.to_bytes();

    let mut bad_magic = good.clone();
    bad_magic[0] = b'X';
    assert!(SparseIndexNames::from_bytes(&bad_magic).is_err());

    let mut bad_version = good.clone();
    bad_version[4] = 2;
    assert!(SparseIndexNames::from_bytes(&bad_version).is_err());

    // An entry cut short is rejected too.
    let mut truncated = good.clone();
    truncated.pop();
    assert!(SparseIndexNames::from_bytes(&truncated).is_err());
}

#[test]
fn test_deps_manifest_round_trip() {
    let mut deps = SparseIndexDependencies::new();
    deps.insert("python".to_string(), vec!["libc".to_string(), "openssl".to_string()]);
    deps.insert("libc".to_string(), vec![]);
    let bytes = deps.to_bytes();
    assert_eq!(&bytes[0..4], b"DEPS");
    assert_eq!(&bytes[4..6], &[1, 0]);
    let back = SparseIndexDependencies::from_bytes(&bytes).unwrap();
    assert_eq!(back, deps);
    assert_eq!(back.hints_for("python"), vec!["libc".to_string(), "openssl".to_string()]);
    assert_eq!(back.hints_for("libc"), Vec::<String>::new());
    assert_eq!(back.hints_for("absent"), Vec::<String>::new());
}

#[test]
fn test_deps_manifest_rejects_bad_magic_and_version() {
    let deps = SparseIndexDependencies::new();
    let good = deps.to_bytes();

    let mut bad_magic = good.clone();
    bad_magic[3] = b'Z';
    assert!(SparseIndexDependencies::from_bytes(&bad_magic).is_err());

    let mut bad_version = good.clone();
    bad_version[5] = 9;
    assert!(SparseIndexDependencies::from_bytes(&bad_version).is_err());

    // An unterminated dep list is rejected.
    let mut unterminated = good.clone();
    unterminated.push(b'x');
    assert!(SparseIndexDependencies::from_bytes(&unterminated).is_err());
}

#[test]
fn test_record_json_round_trip() {
    let rec = sample_record("python", "3.11.4", vec![
        "libc >=2.17".to_string(),
        "openssl 3.*".to_string(),
    ]);
    let line = rec.json();
    let back = parse_record_line(line.as_str()).unwrap();
    assert_eq!(back, rec);
}

#[test]
fn test_record_json_escapes() {
    let mut rec = sample_record("weird", "1.0", vec![]);
    rec.package_record.license = Some("Quote \" backslash \\ newline \n tab \t".to_string());
    let line = rec.json();
    let back = parse_record_line(line.as_str()).unwrap();
    assert_eq!(back, rec);
}

#[test]
fn test_parse_record_line_unknown_fields_ignored() {
    let line = "{\"file_name\":\"p-1-0.conda\",\"name\":\"p\",\"version\":\"1\",\"build\":\"0\",\"subdir\":\"noarch\",\"mystery\":{\"deep\":[1,2,{\"x\":null}]},\"depends\":[\"q\"],\"extra_flag\":true}";
    let rec = parse_record_line(line).unwrap();
    assert_eq!(rec.package_record.name.as_normalized(), "p");
    assert_eq!(rec.package_record.depends, vec!["q".to_string()]);
}

#[test]
fn test_parse_record_line_rejects_malformed() {
    assert!(parse_record_line("").is_none());
    assert!(parse_record_line("{").is_none());
    assert!(parse_record_line("{\"name\":\"p\"}").is_none());
    assert!(parse_record_line("not json").is_none());
    assert!(parse_record_line("{\"file_name\":\"f\",\"name\":\"p\",\"version\":\"1\",\"build\":\"0\",\"subdir\":\"noarch\"} trailing").is_none());
}

#[test]
fn test_shard_write_and_decode_round_trip() {
    let records = vec![
        sample_record("python", "3.11.4", vec!["libc >=2.17".to_string()]),
        sample_record("python", "3.12.0", vec!["libc >=2.17".to_string(), "openssl".to_string()]),
    ];
    let package = SparseIndexPackage { records: records.clone() };
    let (compressed, digest) = package.write().unwrap();
    assert_eq!(digest.len(), 32);
    let back = decode_shard(&compressed, true).unwrap();
    assert_eq!(back, records);

    // The digest is the SHA-256 of the compressed file.
    let expected = <sha2::Sha256 as sha2::Digest>::digest(compressed.as_slice()).to_vec();
    assert_eq!(digest, expected);
}

#[test]
fn test_index_files_round_trip() {
    let index = SparseIndex {
        packages: vec![
            (
                "python".to_string(),
                SparseIndexPackage {
                    records: vec![sample_record("python", "3.11.4", vec![
                        "libc >=2.17".to_string(),
                        "openssl 3.*".to_string(),
                    ])],
                },
            ),
            (
                "libc".to_string(),
                SparseIndexPackage { records: vec![sample_record("libc", "2.17", vec![])] },
            ),
        ],
    };
    let files = index.index_files().unwrap();
    assert_eq!(files.shards.len(), 2);
    assert_eq!(files.shards[0].0, "py/th/python.json.zst");
    assert_eq!(files.shards[1].0, "li/bc/libc.json.zst");

    // Each shard decodes back to its records.
    let python = decode_shard(&files.shards[0].1, true).unwrap();
    assert_eq!(python, index.packages[0].1.records);

    // The manifests parse back to what was built.
    let names = SparseIndexNames::from_bytes(&files.names_bytes).unwrap();
    assert_eq!(names, files.names);
    assert!(names.contains("python"));
    assert!(names.contains("libc"));
    let deps = SparseIndexDependencies::from_bytes(&files.deps_bytes).unwrap();
    assert_eq!(deps, files.dependencies);
    assert_eq!(deps.hints_for("python"), vec!["libc".to_string(), "openssl".to_string()]);

    // The recorded hash prefixes match each shard's digest.
    let digest = <sha2::Sha256 as sha2::Digest>::digest(files.shards[0].1.as_slice());
    assert_eq!(&files.names.entries[0].hash[..], &digest[0..8]);
}

#[test]
fn test_checked_decode_accepts_written_shards() {
    // The checked decoder accepts exactly the writer's rendering, pinning
    // the read-back records to the written bytes.
    let records = vec![
        sample_record("python", "3.11.4", vec!["libc >=2.17".to_string()]),
        sample_record("python", "3.12.0", vec![]),
    ];
    let package = SparseIndexPackage { records: records.clone() };
    let (compressed, _) = package.write().unwrap();
    let back = decode_shard_checked(&compressed, true).unwrap();
    assert_eq!(back, records);
}

#[test]
fn test_checked_decode_rejects_noncanonical() {
    // A semantically fine but differently rendered body is parsed by the
    // permissive decoder yet rejected by the checked one.
    let line = "{\"name\":\"p\",\"file_name\":\"p-1-0.conda\",\"version\":\"1\",\"build\":\"0\",\"subdir\":\"noarch\",\"depends\":[],\"constrains\":[],\"track_features\":[],\"purls\":[]}\n";
    let bytes = line.as_bytes().to_vec();
    assert!(decode_shard(&bytes, false).is_ok());
    assert!(decode_shard_checked(&bytes, false).is_err());
}

#[test]
fn test_parse_record_line_canonical() {
    let rec = sample_record("tool", "2.0", vec!["dep-a".to_string()]);
    let line = rec.json();
    // The canonical line is accepted and pinned to the record.
    assert_eq!(parse_record_line_canonical(line.as_str()).unwrap(), rec);
    // A field permutation still parses permissively but is not canonical.
    let permuted = "{\"name\":\"q\",\"file_name\":\"f\",\"version\":\"1\",\"build\":\"0\",\"subdir\":\"noarch\"}";
    assert!(parse_record_line(permuted).is_some());
    assert!(parse_record_line_canonical(permuted).is_none());
}

#[test]
fn test_decode_local_shard_missing_file_is_empty() {
    // A missing local shard file yields no records and no error.
    assert_eq!(decode_local_shard(None).unwrap(), Vec::<SparseIndexRecord>::new());
    // A present file decodes like an uncompressed shard body.
    let records = vec![sample_record("tool", "2.0", vec![])];
    let body = SparseIndexPackage { records: records.clone() }.body();
    let decoded = decode_local_shard(Some(body.into_bytes())).unwrap();
    assert_eq!(decoded, records);
}
