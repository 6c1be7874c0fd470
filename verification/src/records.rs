//! The record model: one build of one package, and the decorated form a
//! gateway returns.

use vstd::prelude::*;

use crate::names::PackageName;

verus! {

/// A record describing one build of one package. Records are content; they
/// are never mutated after construction.
///
/// The `depends` and `constrains` fields hold free-form dependency specs of
/// the form `<name>[ <constraint>...]`.
#[derive(Debug, Clone, PartialEq, Eq)]
pub struct PackageRecord {
    /// The canonical package name.
    pub name: PackageName,
    /// The version string of the package.
    pub version: String,
    /// The build string of the package.
    pub build: String,
    /// The build number of the package.
    pub build_number: u64,
    /// The subdirectory (platform name) the package was published under.
    pub subdir: String,
    /// Dependency specs.
    pub depends: Vec<String>,
    /// Optional constraint specs.
    pub constrains: Vec<String>,
    /// The MD5 hash of the archive, as a hex string.
    pub md5: Option<String>,
    /// The SHA-256 hash of the archive, as a hex string.
    pub sha256: Option<String>,
    /// The size of the archive in bytes.
    pub size: Option<u64>,
    /// The publication timestamp, in milliseconds since the epoch.
    pub timestamp: Option<u64>,
    /// The noarch kind, when the package is platform-agnostic.
    pub noarch: Option<String>,
    /// The platform part of the subdirectory.
    pub platform: Option<String>,
    /// The architecture part of the subdirectory.
    pub arch: Option<String>,
    /// The license of the package.
    pub license: Option<String>,
    /// The license family of the package.
    pub license_family: Option<String>,
    /// Track features of the package.
    pub track_features: Vec<String>,
    /// Features of the package.
    pub features: Option<String>,
    /// Package URLs.
    pub purls: Vec<String>,
}

/// A [`PackageRecord`] decorated with the archive's filename, the resolved
/// download URL, and the originating channel's canonical name.
#[derive(Debug, Clone, PartialEq, Eq)]
pub struct RepoDataRecord {
    /// The record itself.
    pub package_record: PackageRecord,
    /// The filename of the archive within its subdirectory.
    pub file_name: String,
    /// The URL the archive can be downloaded from.
    pub url: String,
    /// The canonical name of the channel the record came from.
    pub channel: String,
}

impl PackageRecord {
    /// A minimal record: the given name, version and build in the given
    /// subdirectory, everything optional absent.
    pub fn new(name: PackageName, version: String, build: String, subdir: String) -> (r:
        PackageRecord)
        ensures
            r.name == name,
            r.version == version,
            r.build == build,
            r.subdir == subdir,
            r.build_number == 0,
            r.depends@.len() == 0,
            r.constrains@.len() == 0,
            r.md5 is None,
            r.sha256 is None,
            r.size is None,
            r.timestamp is None,
            r.noarch is None,
            r.platform is None,
            r.arch is None,
            r.license is None,
            r.license_family is None,
            r.track_features@.len() == 0,
            r.features is None,
            r.purls@.len() == 0,
    {
        PackageRecord {
            name,
            version,
            build,
            build_number: 0,
            subdir,
            depends: Vec::new(),
            constrains: Vec::new(),
            md5: None,
            sha256: None,
            size: None,
            timestamp: None,
            noarch: None,
            platform: None,
            arch: None,
            license: None,
            license_family: None,
            track_features: Vec::new(),
            features: None,
            purls: Vec::new(),
        }
    }
}

} // verus!
