//! The sparse index: repodata split into one shard file per package name,
//! placed at a short path derived from the name to bound directory fan-out.

use vstd::prelude::*;

use vstd::utf8::encode_utf8;

use crate::manifest::{deps_manifest_bytes, names_manifest_bytes, SparseIndexDependencies,
    SparseIndexNames};
use crate::names::{dependency_package_name, valid_name};
use crate::outside::{sha256_of, zstd_frame_of};
use crate::records::PackageRecord;
use crate::shard::{shard_body, SHARD_ZSTD_LEVEL};

verus! {

/// An error when deriving a sparse index shard path.
#[derive(Debug, Clone, Copy, PartialEq, Eq, Structural)]
pub enum SparseIndexFilenameError {
    /// The package name is empty.
    EmptyFilename,
    /// The filename has no package-name component.
    NoFileNameComponent,
    /// The filename is not valid UTF-8.
    Utf8Error,
}

/// The relative shard path derived from a package name, without an
/// extension:
/// a one-character name `a` lies at `1/a`, a two-character name `ab` at
/// `2/ab`, a three-character name `abc` at `3/a/abc`, and a longer name
/// `abcd...` at `ab/cd/abcd...`.
pub open spec fn shard_stem(name: Seq<char>) -> Seq<char>
    recommends
        name.len() > 0,
{
    if name.len() == 1 {
        "1/"@ + name
    } else if name.len() == 2 {
        "2/"@ + name
    } else if name.len() == 3 {
        "3/"@ + name.subrange(0, 1) + "/"@ + name
    } else {
        name.subrange(0, 2) + "/"@ + name.subrange(2, 4) + "/"@ + name
    }
}

/// The relative path of the shard for a package name: the derived stem with
/// the `.json` extension.
pub open spec fn shard_path(name: Seq<char>) -> Seq<char>
    recommends
        name.len() > 0,
{
    shard_stem(name) + ".json"@
}

/// Derives the relative path of the sparse-index shard file for a package
/// name, following the fan-out rules of [`shard_stem`], with a `.json`
/// extension. An empty name is rejected.
pub fn sparse_index_filename(package_name: &str) -> (r: Result<String, SparseIndexFilenameError>)
    ensures
        match r {
            Ok(path) => package_name@.len() > 0 && path@ == shard_path(package_name@),
            Err(e) => package_name@.len() == 0 && e == SparseIndexFilenameError::EmptyFilename,
        },
{
    let stem = shard_stem_exec(package_name)?;
    let mut path = stem;
    path.append(".json");
    Ok(path)
}

/// Derives the relative path of the zstd-compressed sparse-index shard file
/// for a package name: the derived stem with the `.json.zst` extension.
pub fn sparse_index_filename_zst(package_name: &str) -> (r: Result<
    String,
    SparseIndexFilenameError,
>)
    ensures
        match r {
            Ok(path) => package_name@.len() > 0 && path@ == shard_path(package_name@) + ".zst"@,
            Err(e) => package_name@.len() == 0 && e == SparseIndexFilenameError::EmptyFilename,
        },
{
    let stem = shard_stem_exec(package_name)?;
    let mut path = stem;
    path.append(".json.zst");
    proof {
        reveal_strlit(".json.zst");
        reveal_strlit(".json");
        reveal_strlit(".zst");
        assert(path@ =~= shard_path(package_name@) + ".zst"@);
    }
    Ok(path)
}

/// Derives the extension-free shard path stem for a package name.
fn shard_stem_exec(package_name: &str) -> (r: Result<String, SparseIndexFilenameError>)
    ensures
        match r {
            Ok(stem) => package_name@.len() > 0 && stem@ == shard_stem(package_name@),
            Err(e) => package_name@.len() == 0 && e == SparseIndexFilenameError::EmptyFilename,
        },
{
    let len = package_name.unicode_len();
    let mut out = String::new();
    if len == 0 {
        return Err(SparseIndexFilenameError::EmptyFilename);
    } else if len == 1 {
        out.append("1/");
        out.append(package_name);
    } else if len == 2 {
        out.append("2/");
        out.append(package_name);
    } else if len == 3 {
        out.append("3/");
        out.append(package_name.substring_char(0, 1));
        out.append("/");
        out.append(package_name);
    } else {
        out.append(package_name.substring_char(0, 2));
        out.append("/");
        out.append(package_name.substring_char(2, 4));
        out.append("/");
        out.append(package_name);
    }
    proof {
        assert(out@ =~= shard_stem(package_name@));
    }
    Ok(out)
}

/// A record in a sparse index: a package record together with the filename
/// that addresses the archive.
#[derive(Debug, Clone, PartialEq, Eq)]
pub struct SparseIndexRecord {
    /// Filename to address the package with.
    pub file_name: String,
    /// The record itself.
    pub package_record: PackageRecord,
}

impl SparseIndexRecord {
    /// Pairs a package record with the filename of its archive.
    pub fn from_record(package_record: PackageRecord, filename: String) -> (r: SparseIndexRecord)
        ensures
            r.package_record == package_record,
            r.file_name == filename,
    {
        SparseIndexRecord { package_record, file_name: filename }
    }
}

/// The shard for a single package name: every record of every build of that
/// package in one subdirectory.
#[derive(Debug, Clone, PartialEq, Eq)]
pub struct SparseIndexPackage {
    /// Sparse index records.
    pub records: Vec<SparseIndexRecord>,
}

/// An entire sparse index: one shard per package name.
///
/// Keys are unique: there is at most one shard per name.
#[derive(Debug, Clone, PartialEq, Eq)]
pub struct SparseIndex {
    /// Package name (normalized) with its shard, one entry per name.
    pub packages: Vec<(String, SparseIndexPackage)>,
}


/// An error when producing a sparse index.
#[derive(Debug, Clone, Copy, PartialEq, Eq, Structural)]
pub enum WriteSparseIndexError {
    /// A package name yields no valid shard path.
    FileNameError(SparseIndexFilenameError),
    /// The shard encoder failed.
    IoError,
}

/// The files of one subdirectory's sparse index, ready to be written out:
/// the per-package shard files and the two manifests.
#[derive(Debug, Clone, PartialEq, Eq)]
pub struct SparseIndexFiles {
    /// Each shard's relative path and its compressed bytes.
    pub shards: Vec<(String, Vec<u8>)>,
    /// The names manifest.
    pub names: SparseIndexNames,
    /// The names manifest, encoded.
    pub names_bytes: Vec<u8>,
    /// The dependencies manifest.
    pub dependencies: SparseIndexDependencies,
    /// The dependencies manifest, encoded.
    pub deps_bytes: Vec<u8>,
}

impl SparseIndex {
    /// Well-formedness: every package name is a valid normalized name and
    /// names are mutually distinct.
    pub open spec fn wf(&self) -> bool {
        &&& forall|i: int|
            0 <= i < self.packages@.len() ==> valid_name((#[trigger] self.packages@[i]).0@)
        &&& forall|i: int, j: int|
            0 <= i < j < self.packages@.len() ==> self.packages@[i].0@ != self.packages@[j].0@
    }

    /// Renders the entire index: one compressed shard per package at its
    /// derived path, a names manifest carrying each shard's digest prefix,
    /// and a dependencies manifest listing each package's dependency names.
    /// The embedding program writes the files; their bytes are pinned here.
    pub fn index_files(&self) -> (r: Result<SparseIndexFiles, WriteSparseIndexError>)
        requires
            self.wf(),
        ensures
            r matches Ok(f) ==> {
                &&& f.names.wf()
                &&& f.names@.len() == self.packages@.len()
                &&& forall|i: int|
                    0 <= i < self.packages@.len() ==> (#[trigger] f.names@[i]).0
                        == self.packages@[i].0@ && f.names@[i].1 == sha256_of(
                        zstd_frame_of(
                            SHARD_ZSTD_LEVEL as int,
                            encode_utf8(shard_body(self.packages@[i].1.records@)),
                        ),
                    ).subrange(0, 8)
                &&& f.shards@.len() == self.packages@.len()
                &&& forall|i: int|
                    0 <= i < self.packages@.len() ==> (#[trigger] f.shards@[i]).0@ == shard_path(
                        self.packages@[i].0@,
                    ) + ".zst"@ && f.shards@[i].1@ == zstd_frame_of(
                        SHARD_ZSTD_LEVEL as int,
                        encode_utf8(shard_body(self.packages@[i].1.records@)),
                    )
                &&& f.names_bytes@ == names_manifest_bytes(f.names@)
                &&& f.dependencies.wf()
                &&& f.dependencies@.len() == self.packages@.len()
                &&& forall|i: int|
                    0 <= i < self.packages@.len() ==> (#[trigger] f.dependencies@[i]).0
                        == self.packages@[i].0@ && f.dependencies@[i].1 == spec_dep_union(
                        self.packages@[i].1.records@,
                    )
                &&& f.deps_bytes@ == deps_manifest_bytes(f.dependencies@)
            },
    {
        let mut shards: Vec<(String, Vec<u8>)> = Vec::new();
        let mut names = SparseIndexNames::new();
        let mut dependencies = SparseIndexDependencies::new();
        let n = self.packages.len();
        let mut i: usize = 0;
        while i < n
            invariant
                0 <= i <= n,
                n == self.packages@.len(),
                self.wf(),
                names.wf(),
                dependencies.wf(),
                names@.len() == i,
                dependencies@.len() == i,
                shards@.len() == i,
                forall|j: int|
                    0 <= j < i ==> (#[trigger] names@[j]).0 == self.packages@[j].0@ && names@[j].1
                        == sha256_of(
                        zstd_frame_of(
                            SHARD_ZSTD_LEVEL as int,
                            encode_utf8(shard_body(self.packages@[j].1.records@)),
                        ),
                    ).subrange(0, 8),
                forall|j: int|
                    0 <= j < i ==> (#[trigger] shards@[j]).0@ == shard_path(self.packages@[j].0@)
                        + ".zst"@ && shards@[j].1@ == zstd_frame_of(
                        SHARD_ZSTD_LEVEL as int,
                        encode_utf8(shard_body(self.packages@[j].1.records@)),
                    ),
                forall|j: int|
                    0 <= j < i ==> (#[trigger] dependencies@[j]).0 == self.packages@[j].0@
                        && dependencies@[j].1 == spec_dep_union(self.packages@[j].1.records@),
            decreases n - i,
        {
            proof {
                assert(valid_name(self.packages@[i as int].0@));
            }
            let name_str = self.packages[i].0.as_str();
            let rel = match sparse_index_filename_zst(name_str) {
                Ok(p) => p,
                Err(e) => {
                    return Err(WriteSparseIndexError::FileNameError(e));
                },
            };
            let (bytes, digest) = match self.packages[i].1.write() {
                Ok(v) => v,
                Err(_) => {
                    return Err(WriteSparseIndexError::IoError);
                },
            };
            // The package is new: its name differs from every earlier one.
            proof {
                assert forall|j: int| 0 <= j < names@.len() implies (#[trigger] names@[j]).0
                    != self.packages@[i as int].0@ by {
                    assert(names@[j].0 == self.packages@[j].0@);
                }
                assert(!names.spec_contains(self.packages@[i as int].0@));
                assert forall|j: int| 0 <= j < dependencies@.len() implies (
                #[trigger] dependencies@[j]).0 != self.packages@[i as int].0@ by {
                    assert(dependencies@[j].0 == self.packages@[j].0@);
                }
                assert(!dependencies.spec_contains(self.packages@[i as int].0@));
            }
            names.insert(self.packages[i].0.clone(), &digest);
            let deps = dep_union(&self.packages[i].1);
            let ghost dv = deps@;
            dependencies.insert(self.packages[i].0.clone(), deps);
            proof {
                assert(dv.map_values(|d: String| d@) =~= names_view(dv));
                assert(dependencies@[dependencies@.len() - 1].1 == spec_dep_union(
                    self.packages@[i as int].1.records@,
                ));
            }
            shards.push((rel, bytes));
            i += 1;
        }
        proof {
            assert(names.wf());
            assert(dependencies.wf());
        }
        let names_bytes = names.to_bytes();
        let deps_bytes = dependencies.to_bytes();
        Ok(SparseIndexFiles { shards, names, names_bytes, dependencies, deps_bytes })
    }
}

/// A list of names at the character level.
pub open spec fn names_view(v: Seq<String>) -> Seq<Seq<char>> {
    v.map_values(|d: String| d@)
}

/// Pushing a name pushes its view.
proof fn lemma_names_view_push(v: Seq<String>, s: String)
    ensures
        names_view(v.push(s)) == names_view(v).push(s@),
{
    assert(names_view(v.push(s)) =~= names_view(v).push(s@));
}

/// Adds one dependency spec's extracted name to an accumulated union:
/// nothing when the spec has no valid name or the name is already there.
pub open spec fn add_dep(acc: Seq<Seq<char>>, dep: Seq<char>) -> Seq<Seq<char>> {
    match crate::names::spec_dep_name(dep) {
        Some(n) => if acc.contains(n) {
            acc
        } else {
            acc.push(n)
        },
        None => acc,
    }
}

/// Adds the first `k` dependency specs of one record.
pub open spec fn add_deps(acc: Seq<Seq<char>>, deps: Seq<String>, k: int) -> Seq<Seq<char>>
    decreases k,
{
    if k <= 0 {
        acc
    } else {
        add_dep(add_deps(acc, deps, k - 1), deps[k - 1]@)
    }
}

/// The dependency-name union of the first `i` records.
pub open spec fn union_up_to(records: Seq<SparseIndexRecord>, i: int) -> Seq<Seq<char>>
    decreases i,
{
    if i <= 0 {
        Seq::<Seq<char>>::empty()
    } else {
        add_deps(
            union_up_to(records, i - 1),
            records[i - 1].package_record.depends@,
            records[i - 1].package_record.depends@.len() as int,
        )
    }
}

/// The union of the dependency names across a shard's records: each spec's
/// name extracted and normalized, kept in first-occurrence order without
/// repeats; a spec without a valid name contributes nothing.
pub open spec fn spec_dep_union(records: Seq<SparseIndexRecord>) -> Seq<Seq<char>> {
    union_up_to(records, records.len() as int)
}

/// The union of the dependency names across a shard's records, first
/// occurrence first, each name normalized; specs without a valid name are
/// ignored.
pub fn dep_union(package: &SparseIndexPackage) -> (r: Vec<String>)
    ensures
        names_view(r@) == spec_dep_union(package.records@),
        forall|j: int| 0 <= j < r@.len() ==> valid_name((#[trigger] r@[j])@),
{
    let ghost rv = package.records@;
    let mut out: Vec<String> = Vec::new();
    let n = package.records.len();
    let mut i: usize = 0;
    proof {
        assert(names_view(out@) =~= union_up_to(rv, 0));
    }
    while i < n
        invariant
            0 <= i <= n,
            n == rv.len(),
            rv == package.records@,
            names_view(out@) == union_up_to(rv, i as int),
            forall|j: int| 0 <= j < out@.len() ==> valid_name((#[trigger] out@[j])@),
        decreases n - i,
    {
        let m = package.records[i].package_record.depends.len();
        let mut d: usize = 0;
        while d < m
            invariant
                0 <= d <= m,
                i < n,
                n == rv.len(),
                rv == package.records@,
                m == rv[i as int].package_record.depends@.len(),
                names_view(out@) == add_deps(
                    union_up_to(rv, i as int),
                    rv[i as int].package_record.depends@,
                    d as int,
                ),
                forall|j: int| 0 <= j < out@.len() ==> valid_name((#[trigger] out@[j])@),
            decreases m - d,
        {
            let ghost deps = rv[i as int].package_record.depends@;
            match dependency_package_name(
                package.records[i].package_record.depends[d].as_str(),
            ) {
                Some(dep) => {
                    proof {
                        assert(crate::names::spec_dep_name(deps[d as int]@) == Some(dep@));
                    }
                    if !contains_string(&out, dep.as_normalized()) {
                        let owned = dep.as_normalized().to_owned();
                        let ghost ow = owned;
                        let ghost before_out = out@;
                        out.push(owned);
                        proof {
                            assert(valid_name(ow@));
                            lemma_names_view_push(before_out, ow);
                            assert(names_view(out@) == add_deps(
                                union_up_to(rv, i as int),
                                deps,
                                d as int + 1,
                            ));
                            assert forall|j: int| 0 <= j < out@.len() implies valid_name(
                                (#[trigger] out@[j])@,
                            ) by {
                                if j < out@.len() - 1 {
                                    assert(out@[j] == before_out[j]);
                                    assert(valid_name((before_out[j])@));
                                } else {
                                    assert(out@[j] == ow);
                                }
                            }
                        }
                    } else {
                        proof {
                            assert(names_view(out@).contains(dep@));
                            assert(names_view(out@) == add_deps(
                                union_up_to(rv, i as int),
                                deps,
                                d as int + 1,
                            ));
                        }
                    }
                },
                None => {
                    proof {
                        assert(crate::names::spec_dep_name(deps[d as int]@) is None);
                        assert(names_view(out@) == add_deps(
                            union_up_to(rv, i as int),
                            deps,
                            d as int + 1,
                        ));
                    }
                },
            }
            d += 1;
        }
        proof {
            assert(names_view(out@) == union_up_to(rv, i as int + 1));
        }
        i += 1;
    }
    proof {
        assert(names_view(out@) == spec_dep_union(rv));
    }
    out
}

/// True when the list holds the name.
fn contains_string(xs: &Vec<String>, s: &str) -> (r: bool)
    ensures
        r == names_view(xs@).contains(s@),
{
    let n = xs.len();
    let mut i: usize = 0;
    while i < n
        invariant
            0 <= i <= n,
            n == xs@.len(),
            forall|j: int| 0 <= j < i ==> (#[trigger] xs@[j])@ != s@,
        decreases n - i,
    {
        if crate::names::str_eq(xs[i].as_str(), s) {
            proof {
                assert(names_view(xs@)[i as int] == s@);
            }
            return true;
        }
        i += 1;
    }
    proof {
        if names_view(xs@).contains(s@) {
            let w = choose|w: int|
                0 <= w < names_view(xs@).len() && names_view(xs@)[w] == s@;
            assert((xs@[w])@ == s@);
        }
    }
    false
}

} // verus!
