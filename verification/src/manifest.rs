//! The binary sidecar manifests of a remote sparse-index subdirectory.
//!
//! The names manifest lists every package name present together with an
//! 8-byte prefix of the SHA-256 digest of its shard file; it lets a client
//! answer "does this package exist here?" without a network round-trip. The
//! dependencies manifest lists, per package name, the union of dependency
//! names across its shard, enabling prefetch.
//!
//! Both formats open with a four-byte magic and a little-endian `u16` version
//! and then repeat entries until the end of the input; parsing is strict:
//! wrong magic or version is invalid data. The encoders and parsers here are
//! mutual inverses, proved in [`lemma_names_manifest_round_trip`] and
//! [`lemma_deps_manifest_round_trip`].

use vstd::prelude::*;

use vstd::utf8::{encode_utf8, encode_utf8_valid_utf8, is_ascii_chars_encode_utf8, valid_utf8};

use crate::names::valid_name;
use crate::outside::string_from_utf8;

verus! {

/// An error when parsing a manifest.
#[derive(Debug, Clone, Copy, PartialEq, Eq, Structural)]
pub enum ManifestError {
    /// The input does not open with the expected magic.
    BadMagic,
    /// The version is not the supported one.
    BadVersion,
    /// The input ends inside an entry.
    Truncated,
    /// A name is not valid UTF-8.
    InvalidText,
}

/// The bytes of an ASCII character sequence, one byte per character.
pub open spec fn ascii_bytes(s: Seq<char>) -> Seq<u8> {
    Seq::new(s.len(), |i: int| s[i] as u8)
}

/// The little-endian bytes of the version word.
pub open spec fn version_bytes() -> Seq<u8> {
    seq![1u8, 0u8]
}

/// The magic that opens a names manifest.
pub open spec fn names_magic() -> Seq<u8> {
    seq!['N' as u8, 'A' as u8, 'M' as u8, 'E' as u8]
}

/// The magic that opens a dependencies manifest.
pub open spec fn deps_magic() -> Seq<u8> {
    seq!['D' as u8, 'E' as u8, 'P' as u8, 'S' as u8]
}

/// One entry of a names manifest: the name bytes, a NUL, the hash prefix.
pub open spec fn names_entry_bytes(name: Seq<char>, hash: Seq<u8>) -> Seq<u8> {
    ascii_bytes(name) + seq![0u8] + hash
}

/// The payload of a names manifest: its entries in order.
pub open spec fn names_payload(entries: Seq<(Seq<char>, Seq<u8>)>) -> Seq<u8>
    decreases entries.len(),
{
    if entries.len() == 0 {
        Seq::<u8>::empty()
    } else {
        names_entry_bytes(entries[0].0, entries[0].1) + names_payload(entries.drop_first())
    }
}

/// The complete encoding of a names manifest.
pub open spec fn names_manifest_bytes(entries: Seq<(Seq<char>, Seq<u8>)>) -> Seq<u8> {
    names_magic() + version_bytes() + names_payload(entries)
}

/// The index of the first NUL byte of `b`, or its length when it holds
/// none.
pub open spec fn first_zero(b: Seq<u8>) -> nat
    decreases b.len(),
{
    if b.len() == 0 {
        0
    } else if b[0] == 0 {
        0
    } else {
        1 + first_zero(b.drop_first())
    }
}

/// A sequence whose bytes are nonzero up to an in-range NUL has its first
/// zero exactly there.
pub proof fn lemma_first_zero_at(b: Seq<u8>, k: int)
    requires
        0 <= k <= b.len(),
        forall|j: int| 0 <= j < k ==> b[j] != 0,
        k < b.len() ==> b[k] == 0,
    ensures
        first_zero(b) == if k < b.len() {
            k as nat
        } else {
            b.len()
        },
    decreases b.len(),
{
    if b.len() == 0 {
    } else if b[0] == 0 {
        assert(k == 0);
    } else {
        assert(k >= 1);
        lemma_first_zero_at(b.drop_first(), k - 1);
    }
}

/// Parses the payload of a names manifest into entries of (name bytes, hash
/// prefix); `None` on truncated entries, a missing terminator, or a name
/// that is not valid UTF-8.
pub open spec fn parse_names_payload(b: Seq<u8>) -> Option<Seq<(Seq<u8>, Seq<u8>)>>
    decreases b.len(),
{
    if b.len() == 0 {
        Some(Seq::<(Seq<u8>, Seq<u8>)>::empty())
    } else {
        let z = first_zero(b) as int;
        if z + 9 > b.len() {
            None
        } else if !valid_utf8(b.subrange(0, z)) {
            None
        } else {
            match parse_names_payload(b.skip(z + 9)) {
                Some(rest) => Some(
                    seq![(b.subrange(0, z), b.subrange(z + 1, z + 9))] + rest,
                ),
                None => None,
            }
        }
    }
}

/// Parses a complete names manifest: magic, version, then the payload.
pub open spec fn parse_names_manifest(b: Seq<u8>) -> Option<Seq<(Seq<u8>, Seq<u8>)>> {
    if b.len() < 6 || b.subrange(0, 4) != names_magic() {
        None
    } else if b.subrange(4, 6) != version_bytes() {
        None
    } else {
        parse_names_payload(b.skip(6))
    }
}

/// The entries of a names or dependencies structure at the byte level: each
/// name replaced by its UTF-8 encoding.
pub open spec fn names_byte_view(entries: Seq<(Seq<char>, Seq<u8>)>) -> Seq<(Seq<u8>, Seq<u8>)> {
    entries.map_values(|e: (Seq<char>, Seq<u8>)| (encode_utf8(e.0), e.1))
}

/// One entry of a names manifest: a package name and the first eight bytes
/// of the SHA-256 digest of its shard file.
#[derive(Debug, Clone, PartialEq, Eq)]
pub struct NamesEntry {
    /// The package name, in normalized form.
    pub name: String,
    /// The first eight bytes of the SHA-256 digest of the shard file.
    pub hash: [u8; 8],
}

/// The names manifest of one subdirectory: the names of all packages stored
/// there, each with a short digest of its shard file.
#[derive(Debug, Clone, PartialEq, Eq)]
pub struct SparseIndexNames {
    /// The entries, one per package name.
    pub entries: Vec<NamesEntry>,
}

impl SparseIndexNames {
    /// The entries as (name characters, hash bytes) pairs.
    pub open spec fn view(&self) -> Seq<(Seq<char>, Seq<u8>)> {
        self.entries@.map_values(|e: NamesEntry| (e.name@, e.hash@))
    }

    /// Well-formedness: every name is a valid normalized package name, and
    /// names are mutually distinct.
    pub open spec fn wf(&self) -> bool {
        &&& forall|i: int| 0 <= i < self@.len() ==> valid_name(#[trigger] self@[i].0)
        &&& forall|i: int, j: int| 0 <= i < j < self@.len() ==> self@[i].0 != self@[j].0
    }

    /// An empty names manifest.
    pub fn new() -> (r: SparseIndexNames)
        ensures
            r@ =~= Seq::<(Seq<char>, Seq<u8>)>::empty(),
            r.wf(),
    {
        SparseIndexNames { entries: Vec::new() }
    }

    /// True when the manifest holds the given name.
    pub open spec fn spec_contains(&self, name: Seq<char>) -> bool {
        exists|i: int| 0 <= i < self@.len() && #[trigger] self@[i].0 == name
    }

    /// Looks a name up.
    pub fn contains(&self, name: &str) -> (r: bool)
        ensures
            r == self.spec_contains(name@),
    {
        let n = self.entries.len();
        let mut i: usize = 0;
        while i < n
            invariant
                0 <= i <= n,
                n == self.entries@.len(),
                forall|j: int| 0 <= j < i ==> self@[j].0 != name@,
            decreases n - i,
        {
            if crate::names::str_eq(self.entries[i].name.as_str(), name) {
                assert(self@[i as int].0 == name@);
                return true;
            }
            i += 1;
        }
        false
    }

    /// Adds a package and the first eight bytes of its shard digest.
    pub fn insert(&mut self, name: String, hash: &Vec<u8>)
        requires
            valid_name(name@),
            hash@.len() >= 8,
            !old(self).spec_contains(name@),
            old(self).wf(),
        ensures
            final(self)@ =~= old(self)@.push((name@, hash@.subrange(0, 8))),
            final(self).wf(),
    {
        let prefix: [u8; 8] = [hash[0], hash[1], hash[2], hash[3], hash[4], hash[5], hash[6], hash[7]];
        proof {
            assert(prefix@ =~= hash@.subrange(0, 8));
        }
        self.entries.push(NamesEntry { name, hash: prefix });
        proof {
            assert(self@ =~= old(self)@.push((self.entries@.last().name@, prefix@)));
            assert forall|i: int, j: int| 0 <= i < j < self@.len() implies self@[i].0
                != self@[j].0 by {
                if j < self@.len() - 1 {
                    assert(old(self)@[i].0 != old(self)@[j].0);
                } else {
                    assert(!old(self).spec_contains(self@[j].0));
                }
            }
        }
    }

    /// Encodes the manifest: magic, version, then each entry as the UTF-8
    /// bytes of its name, a NUL, and the eight hash bytes.
    pub fn to_bytes(&self) -> (r: Vec<u8>)
        requires
            self.wf(),
        ensures
            r@ == names_manifest_bytes(self@),
    {
        let mut out: Vec<u8> = Vec::new();
        out.push('N' as u8);
        out.push('A' as u8);
        out.push('M' as u8);
        out.push('E' as u8);
        out.push(1u8);
        out.push(0u8);
        proof {
            assert(out@ =~= names_magic() + version_bytes());
        }
        let n = self.entries.len();
        let mut i: usize = 0;
        while i < n
            invariant
                0 <= i <= n,
                n == self.entries@.len(),
                self.wf(),
                out@ == names_magic() + version_bytes() + names_payload(self@.take(i as int)),
            decreases n - i,
        {
            proof {
                assert(valid_name(self@[i as int].0));
            }
            push_ascii_name(&mut out, self.entries[i].name.as_str());
            out.push(0u8);
            let ghost before_hash = out@;
            let mut k: usize = 0;
            while k < 8
                invariant
                    0 <= k <= 8,
                    i < self.entries@.len(),
                    out@ == before_hash + self.entries@[i as int].hash@.take(k as int),
                decreases 8 - k,
            {
                out.push(self.entries[i].hash[k]);
                proof {
                    assert(out@ =~= before_hash + self.entries@[i as int].hash@.take(
                        k as int + 1,
                    ));
                }
                k += 1;
            }
            proof {
                let es = self@;
                assert(es[i as int].1.take(8) =~= es[i as int].1);
                lemma_names_payload_snoc(es, i as int);
                assert(out@ =~= names_magic() + version_bytes() + names_payload(
                    es.take(i as int + 1),
                ));
            }
            i += 1;
        }
        proof {
            assert(self@.take(n as int) =~= self@);
        }
        out
    }
}

/// Prepends already-parsed entries to the outcome of parsing the rest.
pub open spec fn opt_prepend(a: Seq<(Seq<u8>, Seq<u8>)>, o: Option<Seq<(Seq<u8>, Seq<u8>)>>) -> Option<
    Seq<(Seq<u8>, Seq<u8>)>,
> {
    match o {
        Some(t) => Some(a + t),
        None => None,
    }
}

impl SparseIndexNames {
    /// Parses a names manifest. Rejects a wrong magic or version, an entry
    /// cut short, and a name that is not valid UTF-8.
    pub fn from_bytes(bytes: &Vec<u8>) -> (r: Result<SparseIndexNames, ManifestError>)
        ensures
            match r {
                Ok(m) => parse_names_manifest(bytes@) == Some(names_byte_view(m@)),
                Err(_) => parse_names_manifest(bytes@) is None,
            },
    {
        let n = bytes.len();
        if n < 4 || !(bytes[0] == 'N' as u8 && bytes[1] == 'A' as u8 && bytes[2] == 'M' as u8
            && bytes[3] == 'E' as u8) {
            proof {
                if bytes@.len() >= 4 && bytes@.subrange(0, 4) == names_magic() {
                    assert(bytes@.subrange(0, 4)[0] == 'N' as u8);
                    assert(bytes@.subrange(0, 4)[1] == 'A' as u8);
                    assert(bytes@.subrange(0, 4)[2] == 'M' as u8);
                    assert(bytes@.subrange(0, 4)[3] == 'E' as u8);
                }
            }
            return Err(ManifestError::BadMagic);
        }
        proof {
            assert(bytes@.subrange(0, 4) =~= names_magic());
        }
        if n < 6 {
            return Err(ManifestError::BadVersion);
        }
        if !(bytes[4] == 1 && bytes[5] == 0) {
            proof {
                if bytes@.subrange(4, 6) == version_bytes() {
                    assert(bytes@.subrange(4, 6)[0] == 1u8);
                    assert(bytes@.subrange(4, 6)[1] == 0u8);
                }
            }
            return Err(ManifestError::BadVersion);
        }
        proof {
            assert(bytes@.subrange(4, 6) =~= version_bytes());
        }
        let mut entries: Vec<NamesEntry> = Vec::new();
        let mut pos: usize = 6;
        while pos < n
            invariant
                6 <= pos <= n,
                n == bytes@.len(),
                parse_names_payload(bytes@.skip(6)) == opt_prepend(
                    names_byte_view(entries@.map_values(|e: NamesEntry| (e.name@, e.hash@))),
                    parse_names_payload(bytes@.skip(pos as int)),
                ),
            decreases n - pos,
        {
            let ghost suffix = bytes@.skip(pos as int);
            // Scan for the NUL that ends the name.
            let mut z: usize = pos;
            while z < n
                invariant
                    pos <= z <= n,
                    n == bytes@.len(),
                    forall|j: int| pos <= j < z ==> bytes@[j] != 0,
                ensures
                    pos <= z <= n,
                    z < n ==> bytes@[z as int] == 0,
                    forall|j: int| pos <= j < z ==> bytes@[j] != 0,
                decreases n - z,
            {
                if bytes[z] == 0 {
                    break;
                }
                z += 1;
            }
            proof {
                assert forall|j: int| 0 <= j < z - pos implies suffix[j] != 0 by {
                    assert(bytes@[pos + j] != 0);
                }
                if z < n {
                    assert(suffix[z - pos] == 0);
                }
                lemma_first_zero_at(suffix, z - pos);
            }
            if z == n || n - z < 9 {
                // The terminator or the hash is missing: the suffix fails to
                // parse, so the whole input does.
                proof {
                    assert(suffix.len() > 0);
                    assert(first_zero(suffix) + 9 > suffix.len());
                    assert(parse_names_payload(suffix) is None);
                }
                return Err(ManifestError::Truncated);
            }
            // Collect the name bytes.
            let mut nb: Vec<u8> = Vec::new();
            let mut q: usize = pos;
            while q < z
                invariant
                    pos <= q <= z,
                    z < n,
                    n == bytes@.len(),
                    nb@ == bytes@.subrange(pos as int, q as int),
                decreases z - q,
            {
                nb.push(bytes[q]);
                proof {
                    assert(nb@ =~= bytes@.subrange(pos as int, q + 1));
                }
                q += 1;
            }
            proof {
                assert(nb@ =~= suffix.subrange(0, z - pos));
            }
            let ghost name_bytes = nb@;
            let name = match string_from_utf8(nb) {
                Some(s) => s,
                None => {
                    proof {
                        assert(parse_names_payload(suffix) is None);
                    }
                    return Err(ManifestError::InvalidText);
                },
            };
            let hash: [u8; 8] = [
                bytes[z + 1],
                bytes[z + 2],
                bytes[z + 3],
                bytes[z + 4],
                bytes[z + 5],
                bytes[z + 6],
                bytes[z + 7],
                bytes[z + 8],
            ];
            proof {
                assert(hash@ =~= suffix.subrange(z - pos + 1, z - pos + 9));
            }
            let ghost old_entries = entries@;
            entries.push(NamesEntry { name, hash });
            proof {
                let fz = (z - pos) as int;
                assert(suffix.skip(fz + 9) =~= bytes@.skip(z as int + 9));
                assert(parse_names_payload(suffix) == (match parse_names_payload(
                    bytes@.skip(z as int + 9),
                ) {
                    Some(rest) => Some(
                        seq![(suffix.subrange(0, fz), suffix.subrange(fz + 1, fz + 9))] + rest,
                    ),
                    None => None,
                }));
                let new_view = names_byte_view(
                    entries@.map_values(|e: NamesEntry| (e.name@, e.hash@)),
                );
                let old_view = names_byte_view(
                    old_entries.map_values(|e: NamesEntry| (e.name@, e.hash@)),
                );
                assert(new_view =~= old_view + seq![(name_bytes, suffix.subrange(fz + 1, fz + 9))]);
                match parse_names_payload(bytes@.skip(z as int + 9)) {
                    Some(rest) => {
                        assert(old_view + (seq![
                            (suffix.subrange(0, fz), suffix.subrange(fz + 1, fz + 9)),
                        ] + rest) =~= new_view + rest);
                    },
                    None => {},
                }
            }
            pos = z + 9;
        }
        proof {
            assert(bytes@.skip(pos as int).len() == 0);
            assert(parse_names_payload(bytes@.skip(pos as int)) == Some(
                Seq::<(Seq<u8>, Seq<u8>)>::empty(),
            ));
            let v = names_byte_view(entries@.map_values(|e: NamesEntry| (e.name@, e.hash@)));
            assert(v + Seq::<(Seq<u8>, Seq<u8>)>::empty() =~= v);
        }
        let result = SparseIndexNames { entries };
        proof {
            assert(names_byte_view(result@) == names_byte_view(
                result.entries@.map_values(|e: NamesEntry| (e.name@, e.hash@)),
            ));
        }
        Ok(result)
    }
}

/// The encoder and the parser of the names manifest are mutual inverses: a
/// well-formed names manifest, encoded and parsed again, yields exactly its
/// own entries (names at the byte level).
pub proof fn lemma_names_manifest_round_trip(entries: Seq<(Seq<char>, Seq<u8>)>)
    requires
        forall|i: int|
            0 <= i < entries.len() ==> valid_name(#[trigger] entries[i].0) && entries[i].1.len()
                == 8,
    ensures
        parse_names_manifest(names_manifest_bytes(entries)) == Some(names_byte_view(entries)),
{
    let b = names_manifest_bytes(entries);
    assert(b.subrange(0, 4) =~= names_magic());
    assert(b.subrange(4, 6) =~= version_bytes());
    assert(b.skip(6) =~= names_payload(entries));
    lemma_names_payload_round_trip(entries);
}

/// The payload encoder and parser are mutual inverses.
pub proof fn lemma_names_payload_round_trip(entries: Seq<(Seq<char>, Seq<u8>)>)
    requires
        forall|i: int|
            0 <= i < entries.len() ==> valid_name(#[trigger] entries[i].0) && entries[i].1.len()
                == 8,
    ensures
        parse_names_payload(names_payload(entries)) == Some(names_byte_view(entries)),
    decreases entries.len(),
{
    let b = names_payload(entries);
    if entries.len() == 0 {
        assert(names_byte_view(entries) =~= Seq::<(Seq<u8>, Seq<u8>)>::empty());
    } else {
        let e0 = entries[0];
        let rest = entries.drop_first();
        lemma_valid_name_ascii(e0.0);
        let nb = ascii_bytes(e0.0);
        let nl = nb.len() as int;
        assert(b == names_entry_bytes(e0.0, e0.1) + names_payload(rest));
        assert(b.len() == nl + 9 + names_payload(rest).len());
        assert forall|j: int| 0 <= j < nl implies b[j] != 0 by {
            assert(b[j] == encode_utf8(e0.0)[j]);
        }
        assert(b[nl] == 0);
        lemma_first_zero_at(b, nl);
        assert(first_zero(b) == nl);
        assert(b.subrange(0, nl) =~= nb);
        assert(b.subrange(0, nl) =~= encode_utf8(e0.0));
        assert(valid_utf8(b.subrange(0, nl)));
        assert(b.subrange(nl + 1, nl + 9) =~= e0.1);
        assert(b.skip(nl + 9) =~= names_payload(rest));
        assert forall|i: int|
            0 <= i < rest.len() implies valid_name(#[trigger] rest[i].0) && rest[i].1.len()
            == 8 by {
            assert(rest[i] == entries[i + 1]);
        }
        lemma_names_payload_round_trip(rest);
        assert(parse_names_payload(b) == Some(
            seq![(b.subrange(0, nl), b.subrange(nl + 1, nl + 9))] + names_byte_view(rest),
        ));
        assert(seq![(b.subrange(0, nl), b.subrange(nl + 1, nl + 9))] + names_byte_view(rest)
            =~= names_byte_view(entries));
    }
}

/// One item of a dependencies-manifest list: the dep-name bytes and a NUL.
pub open spec fn deps_list_bytes(ds: Seq<Seq<char>>) -> Seq<u8>
    decreases ds.len(),
{
    if ds.len() == 0 {
        Seq::<u8>::empty()
    } else {
        ascii_bytes(ds[0]) + seq![0u8] + deps_list_bytes(ds.drop_first())
    }
}

/// One entry of a dependencies manifest: the name, a NUL, the dep names each
/// followed by a NUL, and an empty NUL that terminates the entry.
pub open spec fn deps_entry_bytes(name: Seq<char>, ds: Seq<Seq<char>>) -> Seq<u8> {
    ascii_bytes(name) + seq![0u8] + deps_list_bytes(ds) + seq![0u8]
}

/// The payload of a dependencies manifest: its entries in order.
pub open spec fn deps_payload(entries: Seq<(Seq<char>, Seq<Seq<char>>)>) -> Seq<u8>
    decreases entries.len(),
{
    if entries.len() == 0 {
        Seq::<u8>::empty()
    } else {
        deps_entry_bytes(entries[0].0, entries[0].1) + deps_payload(entries.drop_first())
    }
}

/// The complete encoding of a dependencies manifest.
pub open spec fn deps_manifest_bytes(entries: Seq<(Seq<char>, Seq<Seq<char>>)>) -> Seq<u8> {
    deps_magic() + version_bytes() + deps_payload(entries)
}

/// Parses one NUL-terminated list of names: the parsed name bytes and the
/// number of bytes consumed, `None` when the input ends before the
/// terminating empty name or a name is not valid UTF-8.
pub open spec fn parse_deps_list(b: Seq<u8>) -> Option<(Seq<Seq<u8>>, int)>
    decreases b.len(),
{
    if b.len() == 0 {
        None
    } else if b[0] == 0 {
        Some((Seq::<Seq<u8>>::empty(), 1))
    } else {
        let z = first_zero(b) as int;
        if z >= b.len() {
            None
        } else if !valid_utf8(b.subrange(0, z)) {
            None
        } else {
            match parse_deps_list(b.skip(z + 1)) {
                Some((ds, c)) => Some((seq![b.subrange(0, z)] + ds, z + 1 + c)),
                None => None,
            }
        }
    }
}

/// Parses the payload of a dependencies manifest.
pub open spec fn parse_deps_payload(b: Seq<u8>) -> Option<Seq<(Seq<u8>, Seq<Seq<u8>>)>>
    decreases b.len(),
{
    if b.len() == 0 {
        Some(Seq::<(Seq<u8>, Seq<Seq<u8>>)>::empty())
    } else {
        let z = first_zero(b) as int;
        if z >= b.len() {
            None
        } else if !valid_utf8(b.subrange(0, z)) {
            None
        } else {
            match parse_deps_list(b.skip(z + 1)) {
                None => None,
                Some((ds, c)) => if c < 1 || z + 1 + c > b.len() {
                    None
                } else {
                    match parse_deps_payload(b.skip(z + 1 + c)) {
                        Some(rest) => Some(seq![(b.subrange(0, z), ds)] + rest),
                        None => None,
                    }
                },
            }
        }
    }
}

/// Parses a complete dependencies manifest: magic, version, then the
/// payload.
pub open spec fn parse_deps_manifest(b: Seq<u8>) -> Option<Seq<(Seq<u8>, Seq<Seq<u8>>)>> {
    if b.len() < 6 || b.subrange(0, 4) != deps_magic() {
        None
    } else if b.subrange(4, 6) != version_bytes() {
        None
    } else {
        parse_deps_payload(b.skip(6))
    }
}

/// The dep names of a list at the byte level.
pub open spec fn deps_list_byte_view(ds: Seq<Seq<char>>) -> Seq<Seq<u8>> {
    ds.map_values(|d: Seq<char>| encode_utf8(d))
}

/// The entries of a dependencies manifest at the byte level.
pub open spec fn deps_byte_view(entries: Seq<(Seq<char>, Seq<Seq<char>>)>) -> Seq<
    (Seq<u8>, Seq<Seq<u8>>),
> {
    entries.map_values(|e: (Seq<char>, Seq<Seq<char>>)| (encode_utf8(e.0), deps_list_byte_view(e.1)))
}

/// Prepends already-parsed dependency entries to the outcome of parsing the
/// rest.
pub open spec fn deps_opt_prepend(
    a: Seq<(Seq<u8>, Seq<Seq<u8>>)>,
    o: Option<Seq<(Seq<u8>, Seq<Seq<u8>>)>>,
) -> Option<Seq<(Seq<u8>, Seq<Seq<u8>>)>> {
    match o {
        Some(t) => Some(a + t),
        None => None,
    }
}

/// One entry of a dependencies manifest: a package name and the union of the
/// dependency names across its shard's records.
#[derive(Debug, Clone, PartialEq, Eq)]
pub struct DepsEntry {
    /// The package name, in normalized form.
    pub name: String,
    /// The dependency names.
    pub deps: Vec<String>,
}

/// The dependencies manifest of one subdirectory, enabling prefetch of
/// likely-needed shards before any record is parsed.
#[derive(Debug, Clone, PartialEq, Eq)]
pub struct SparseIndexDependencies {
    /// The entries, one per package name.
    pub entries: Vec<DepsEntry>,
}

impl SparseIndexDependencies {
    /// The entries as (name characters, dep-name characters) pairs.
    pub open spec fn view(&self) -> Seq<(Seq<char>, Seq<Seq<char>>)> {
        self.entries@.map_values(
            |e: DepsEntry| (e.name@, e.deps@.map_values(|d: String| d@)),
        )
    }

    /// Well-formedness: every name and dep name is a valid normalized
    /// package name, and entry names are mutually distinct.
    pub open spec fn wf(&self) -> bool {
        &&& forall|i: int| 0 <= i < self@.len() ==> valid_name(#[trigger] self@[i].0)
        &&& forall|i: int, j: int|
            0 <= i < self@.len() && 0 <= j < self@[i].1.len() ==> valid_name(
                #[trigger] self@[i].1[j],
            )
        &&& forall|i: int, j: int| 0 <= i < j < self@.len() ==> self@[i].0 != self@[j].0
    }

    /// An empty dependencies manifest.
    pub fn new() -> (r: SparseIndexDependencies)
        ensures
            r@ =~= Seq::<(Seq<char>, Seq<Seq<char>>)>::empty(),
            r.wf(),
    {
        SparseIndexDependencies { entries: Vec::new() }
    }

    /// The dependency names recorded for the given package, or an empty list
    /// when the package has no entry. This is what prefetching consults.
    pub fn hints_for(&self, name: &str) -> (r: Vec<String>)
        ensures
            match spec_lookup(self@, name@) {
                Some(ds) => r@.map_values(|d: String| d@) == ds,
                None => r@.len() == 0,
            },
    {
        let n = self.entries.len();
        let mut i: usize = 0;
        while i < n
            invariant
                0 <= i <= n,
                n == self.entries@.len(),
                forall|j: int| 0 <= j < i ==> self@[j].0 != name@,
            decreases n - i,
        {
            if crate::names::str_eq(self.entries[i].name.as_str(), name) {
                proof {
                    lemma_spec_lookup_at(self@, name@, i as int);
                }
                return self.entries[i].deps.clone();
            }
            i += 1;
        }
        proof {
            lemma_spec_lookup_none(self@, name@);
        }
        Vec::new()
    }

    /// Adds a package and its dependency names.
    pub fn insert(&mut self, name: String, deps: Vec<String>)
        requires
            valid_name(name@),
            forall|j: int| 0 <= j < deps@.len() ==> valid_name(#[trigger] deps@[j]@),
            !old(self).spec_contains(name@),
            old(self).wf(),
        ensures
            final(self)@ =~= old(self)@.push((name@, deps@.map_values(|d: String| d@))),
            final(self).wf(),
    {
        self.entries.push(DepsEntry { name, deps });
        proof {
            assert(self@ =~= old(self)@.push(
                (self.entries@.last().name@, self.entries@.last().deps@.map_values(
                    |d: String| d@,
                )),
            ));
            assert forall|i: int, j: int| 0 <= i < j < self@.len() implies self@[i].0
                != self@[j].0 by {
                if j < self@.len() - 1 {
                    assert(old(self)@[i].0 != old(self)@[j].0);
                } else {
                    assert(!old(self).spec_contains(self@[j].0));
                }
            }
        }
    }

    /// True when the manifest holds an entry for the given name.
    pub open spec fn spec_contains(&self, name: Seq<char>) -> bool {
        exists|i: int| 0 <= i < self@.len() && #[trigger] self@[i].0 == name
    }

    /// Encodes the manifest.
    pub fn to_bytes(&self) -> (r: Vec<u8>)
        requires
            self.wf(),
        ensures
            r@ == deps_manifest_bytes(self@),
    {
        let mut out: Vec<u8> = Vec::new();
        out.push('D' as u8);
        out.push('E' as u8);
        out.push('P' as u8);
        out.push('S' as u8);
        out.push(1u8);
        out.push(0u8);
        proof {
            assert(out@ =~= deps_magic() + version_bytes());
        }
        let n = self.entries.len();
        let mut i: usize = 0;
        while i < n
            invariant
                0 <= i <= n,
                n == self.entries@.len(),
                self.wf(),
                out@ == deps_magic() + version_bytes() + deps_payload(self@.take(i as int)),
            decreases n - i,
        {
            proof {
                assert(valid_name(self@[i as int].0));
            }
            push_ascii_name(&mut out, self.entries[i].name.as_str());
            out.push(0u8);
            let ghost list_start = out@;
            let m = self.entries[i].deps.len();
            let ghost dvs = self@[i as int].1;
            proof {
                assert forall|j: int| 0 <= j < dvs.len() implies valid_name(
                    #[trigger] dvs[j],
                ) by {
                    assert(valid_name(self@[i as int].1[j]));
                }
            }
            let mut k: usize = 0;
            while k < m
                invariant
                    0 <= k <= m,
                    i < self.entries@.len(),
                    m == self.entries@[i as int].deps@.len(),
                    dvs == self@[i as int].1,
                    forall|j: int| 0 <= j < dvs.len() ==> valid_name(#[trigger] dvs[j]),
                    m == dvs.len(),
                    forall|j: int|
                        0 <= j < m ==> self.entries@[i as int].deps@[j]@ == dvs[j],
                    out@ == list_start + deps_list_bytes(dvs.take(k as int)),
                decreases m - k,
            {
                proof {
                    assert(self.entries@[i as int].deps@[k as int]@ == dvs[k as int]);
                    assert(valid_name(dvs[k as int]));
                }
                push_ascii_name(&mut out, self.entries[i].deps[k].as_str());
                out.push(0u8);
                proof {
                    lemma_deps_list_snoc(dvs, k as int);
                    assert(out@ =~= list_start + deps_list_bytes(dvs.take(k as int + 1)));
                }
                k += 1;
            }
            out.push(0u8);
            proof {
                assert(dvs.take(m as int) =~= dvs);
                lemma_deps_payload_snoc(self@, i as int);
                assert(out@ =~= deps_magic() + version_bytes() + deps_payload(
                    self@.take(i as int + 1),
                ));
            }
            i += 1;
        }
        proof {
            assert(self@.take(n as int) =~= self@);
        }
        out
    }

    /// Parses a dependencies manifest. Rejects a wrong magic or version, an
    /// entry or list cut short, and a name that is not valid UTF-8.
    pub fn from_bytes(bytes: &Vec<u8>) -> (r: Result<SparseIndexDependencies, ManifestError>)
        ensures
            match r {
                Ok(m) => parse_deps_manifest(bytes@) == Some(deps_byte_view(m@)),
                Err(_) => parse_deps_manifest(bytes@) is None,
            },
    {
        let n = bytes.len();
        if n < 4 || !(bytes[0] == 'D' as u8 && bytes[1] == 'E' as u8 && bytes[2] == 'P' as u8
            && bytes[3] == 'S' as u8) {
            proof {
                if bytes@.len() >= 4 && bytes@.subrange(0, 4) == deps_magic() {
                    assert(bytes@.subrange(0, 4)[0] == 'D' as u8);
                    assert(bytes@.subrange(0, 4)[1] == 'E' as u8);
                    assert(bytes@.subrange(0, 4)[2] == 'P' as u8);
                    assert(bytes@.subrange(0, 4)[3] == 'S' as u8);
                }
            }
            return Err(ManifestError::BadMagic);
        }
        proof {
            assert(bytes@.subrange(0, 4) =~= deps_magic());
        }
        if n < 6 {
            return Err(ManifestError::BadVersion);
        }
        if !(bytes[4] == 1 && bytes[5] == 0) {
            proof {
                if bytes@.subrange(4, 6) == version_bytes() {
                    assert(bytes@.subrange(4, 6)[0] == 1u8);
                    assert(bytes@.subrange(4, 6)[1] == 0u8);
                }
            }
            return Err(ManifestError::BadVersion);
        }
        proof {
            assert(bytes@.subrange(4, 6) =~= version_bytes());
        }
        let mut entries: Vec<DepsEntry> = Vec::new();
        let mut pos: usize = 6;
        while pos < n
            invariant
                6 <= pos <= n,
                n == bytes@.len(),
                parse_deps_payload(bytes@.skip(6)) == deps_opt_prepend(
                    deps_byte_view(
                        entries@.map_values(
                            |e: DepsEntry| (e.name@, e.deps@.map_values(|d: String| d@)),
                        ),
                    ),
                    parse_deps_payload(bytes@.skip(pos as int)),
                ),
            decreases n - pos,
        {
            let ghost entry_start = pos as int;
            let ghost suffix = bytes@.skip(entry_start);
            // Read the entry's package name.
            let (name, name_end) = match read_name(bytes, pos, n) {
                Ok(v) => v,
                Err(e) => {
                    proof {
                        if e == ManifestError::Truncated {
                            assert forall|j: int| 0 <= j < suffix.len() implies suffix[j]
                                != 0 by {
                                assert(bytes@[entry_start + j] != 0);
                            }
                            lemma_first_zero_at(suffix, suffix.len() as int);
                        } else {
                            let z = choose|z: int|
                                pos as int <= z < n && #[trigger] bytes@[z] == 0 && (forall|
                                    j: int,
                                |
                                    pos as int <= j < z ==> bytes@[j] != 0) && !valid_utf8(
                                    bytes@.subrange(pos as int, z),
                                );
                            assert forall|j: int| 0 <= j < z - entry_start implies suffix[j]
                                != 0 by {
                                assert(bytes@[entry_start + j] != 0);
                            }
                            assert(suffix[z - entry_start] == 0);
                            lemma_first_zero_at(suffix, z - entry_start);
                            assert(suffix.subrange(0, z - entry_start) =~= bytes@.subrange(
                                entry_start,
                                z,
                            ));
                        }
                        assert(parse_deps_payload(suffix) is None);
                    }
                    return Err(e);
                },
            };
            let ghost z_abs = name_end as int;
            let list_start = name_end + 1;
            // Read the dep list, up to and including its empty terminator.
            let (deps, list_end) = match read_dep_list(bytes, list_start, n) {
                Ok(v) => v,
                Err(e) => {
                    proof {
                        lemma_deps_entry_shape(bytes@, entry_start, z_abs, n as int);
                        assert(suffix.skip(z_abs - entry_start + 1) =~= bytes@.skip(
                            list_start as int,
                        ));
                        assert(parse_deps_payload(suffix) is None);
                    }
                    return Err(e);
                },
            };
            let pos2 = list_end;
            let ghost namev = name@;
            let ghost dv = deps@;
            let ghost old_entries = entries@;
            entries.push(DepsEntry { name, deps });
            proof {
                lemma_deps_entry_shape(bytes@, entry_start, z_abs, n as int);
                let z = z_abs - entry_start;
                let c = pos2 as int - list_start as int;
                assert(suffix.subrange(0, z) =~= bytes@.subrange(entry_start, z_abs));
                assert(valid_utf8(suffix.subrange(0, z)));
                assert(suffix.skip(z + 1) =~= bytes@.skip(list_start as int));
                assert(parse_deps_list(suffix.skip(z + 1)) == Some(
                    (dv.map_values(|d: String| encode_utf8(d@)), c),
                ));
                assert(1 <= c);
                assert(z + 1 + c <= suffix.len());
                assert(suffix.skip(z + 1 + c) =~= bytes@.skip(pos2 as int));
                assert(parse_deps_payload(suffix) == (match parse_deps_payload(
                    bytes@.skip(pos2 as int),
                ) {
                    Some(rest) => Some(
                        seq![
                            (suffix.subrange(0, z), dv.map_values(|d: String| encode_utf8(d@))),
                        ] + rest,
                    ),
                    None => None::<Seq<(Seq<u8>, Seq<Seq<u8>>)>>,
                }));
                let new_view = deps_byte_view(
                    entries@.map_values(
                        |e: DepsEntry| (e.name@, e.deps@.map_values(|d: String| d@)),
                    ),
                );
                let old_view = deps_byte_view(
                    old_entries.map_values(
                        |e: DepsEntry| (e.name@, e.deps@.map_values(|d: String| d@)),
                    ),
                );
                assert(dv.map_values(|d: String| encode_utf8(d@)) =~= deps_list_byte_view(
                    dv.map_values(|d: String| d@),
                ));
                assert(encode_utf8(namev) == suffix.subrange(0, z));
                assert(new_view =~= old_view + seq![
                    (suffix.subrange(0, z), dv.map_values(|d: String| encode_utf8(d@))),
                ]);
                match parse_deps_payload(bytes@.skip(pos2 as int)) {
                    Some(rest) => {
                        assert(old_view + (seq![
                            (suffix.subrange(0, z), dv.map_values(|d: String| encode_utf8(d@))),
                        ] + rest) =~= new_view + rest);
                    },
                    None => {},
                }
            }
            pos = pos2;
        }
        proof {
            assert(bytes@.skip(pos as int).len() == 0);
            let v = deps_byte_view(
                entries@.map_values(|e: DepsEntry| (e.name@, e.deps@.map_values(|d: String| d@))),
            );
            assert(v + Seq::<(Seq<u8>, Seq<Seq<u8>>)>::empty() =~= v);
        }
        Ok(SparseIndexDependencies { entries })
    }
}

/// Reads one NUL-terminated list of dep names starting at `start`: the
/// decoded names and the position just past the list's empty terminator.
fn read_dep_list(bytes: &Vec<u8>, start: usize, n: usize) -> (r: Result<
    (Vec<String>, usize),
    ManifestError,
>)
    requires
        start <= n,
        n == bytes@.len(),
    ensures
        match r {
            Ok((deps, end)) => start < end <= n && parse_deps_list(bytes@.skip(start as int))
                == Some((deps@.map_values(|d: String| encode_utf8(d@)), end - start)),
            Err(_) => parse_deps_list(bytes@.skip(start as int)) is None,
        },
{
    let mut pos2: usize = start;
    let mut deps: Vec<String> = Vec::new();
    proof {
        let l0 = parse_deps_list(bytes@.skip(start as int));
        match l0 {
            Some(p) => {
                assert(deps@.map_values(|d: String| encode_utf8(d@)) + p.0 =~= p.0);
            },
            None => {},
        }
    }
    loop
        invariant_except_break
            parse_deps_list(bytes@.skip(start as int)) == (match parse_deps_list(
                bytes@.skip(pos2 as int),
            ) {
                Some((ds, c)) => Some(
                    (deps@.map_values(|d: String| encode_utf8(d@)) + ds, pos2 - start + c),
                ),
                None => None::<(Seq<Seq<u8>>, int)>,
            }),
        invariant
            start <= pos2 <= n,
            n == bytes@.len(),
        ensures
            start < pos2 <= n,
            parse_deps_list(bytes@.skip(start as int)) == Some(
                (deps@.map_values(|d: String| encode_utf8(d@)), pos2 - start),
            ),
        decreases n - pos2,
    {
        if pos2 == n {
            proof {
                assert(bytes@.skip(pos2 as int).len() == 0);
                assert(parse_deps_list(bytes@.skip(start as int)) is None);
            }
            return Err(ManifestError::Truncated);
        }
        if bytes[pos2] == 0 {
            proof {
                let s2 = bytes@.skip(pos2 as int);
                assert(s2.len() > 0 && s2[0] == 0);
                assert(parse_deps_list(s2) == Some((Seq::<Seq<u8>>::empty(), 1int)));
                let dv = deps@.map_values(|d: String| encode_utf8(d@));
                assert(dv + Seq::<Seq<u8>>::empty() =~= dv);
            }
            pos2 += 1;
            break;
        }
        let (dep, dep_end) = match read_name(bytes, pos2, n) {
            Ok(v) => v,
            Err(e) => {
                proof {
                    let s2 = bytes@.skip(pos2 as int);
                    if e == ManifestError::Truncated {
                        assert forall|j: int| 0 <= j < s2.len() implies s2[j] != 0 by {
                            assert(bytes@[pos2 + j] != 0);
                        }
                        lemma_first_zero_at(s2, s2.len() as int);
                    } else {
                        let z = choose|z: int|
                            pos2 as int <= z < n && #[trigger] bytes@[z] == 0 && (forall|j: int|
                                pos2 as int <= j < z ==> bytes@[j] != 0) && !valid_utf8(
                                bytes@.subrange(pos2 as int, z),
                            );
                        assert forall|j: int| 0 <= j < z - pos2 implies s2[j] != 0 by {
                            assert(bytes@[pos2 + j] != 0);
                        }
                        assert(s2[z - pos2] == 0);
                        lemma_first_zero_at(s2, z - pos2);
                        assert(s2.subrange(0, z - pos2) =~= bytes@.subrange(pos2 as int, z));
                    }
                    assert(parse_deps_list(s2) is None);
                    assert(parse_deps_list(bytes@.skip(start as int)) is None);
                }
                return Err(e);
            },
        };
        let ghost old_pos2 = pos2 as int;
        let ghost old_deps = deps@;
        deps.push(dep);
        proof {
            let s2 = bytes@.skip(old_pos2);
            let z = dep_end - old_pos2;
            assert forall|j: int| 0 <= j < z implies s2[j] != 0 by {
                assert(bytes@[old_pos2 + j] != 0);
            }
            assert(s2[z] == 0);
            lemma_first_zero_at(s2, z);
            assert(s2.subrange(0, z) =~= bytes@.subrange(old_pos2, dep_end as int));
            assert(valid_utf8(s2.subrange(0, z)));
            assert(s2.skip(z + 1) =~= bytes@.skip(dep_end + 1));
            assert(parse_deps_list(s2) == (match parse_deps_list(bytes@.skip(dep_end + 1)) {
                Some((ds, c)) => Some((seq![s2.subrange(0, z)] + ds, z + 1 + c)),
                None => None::<(Seq<Seq<u8>>, int)>,
            }));
            let ndv = deps@.map_values(|d: String| encode_utf8(d@));
            let odv = old_deps.map_values(|d: String| encode_utf8(d@));
            assert(ndv =~= odv + seq![bytes@.subrange(old_pos2, dep_end as int)]);
            match parse_deps_list(bytes@.skip(dep_end + 1)) {
                Some(p) => {
                    assert(odv + (seq![s2.subrange(0, z)] + p.0) =~= ndv + p.0);
                },
                None => {},
            }
        }
        pos2 = dep_end + 1;
    }
    Ok((deps, pos2))
}

/// How the first steps of parsing an entry of the dependencies payload
/// unfold, given the outcome of scanning for the NUL that ends the entry's
/// name.
proof fn lemma_deps_entry_shape(bytes: Seq<u8>, entry_start: int, z_abs: int, n: int)
    requires
        n == bytes.len(),
        0 <= entry_start <= z_abs <= n,
        entry_start < n,
        forall|j: int| entry_start <= j < z_abs ==> bytes[j] != 0,
        z_abs < n ==> bytes[z_abs] == 0,
    ensures
        z_abs < n ==> first_zero(bytes.skip(entry_start)) == z_abs - entry_start,
        z_abs == n ==> first_zero(bytes.skip(entry_start)) == bytes.skip(entry_start).len(),
        z_abs < n ==> parse_deps_payload(bytes.skip(entry_start)) == ({
            let s = bytes.skip(entry_start);
            let z = z_abs - entry_start;
            if !valid_utf8(s.subrange(0, z)) {
                None
            } else {
                match parse_deps_list(s.skip(z + 1)) {
                    None => None,
                    Some((ds, c)) => if c < 1 || z + 1 + c > s.len() {
                        None
                    } else {
                        match parse_deps_payload(s.skip(z + 1 + c)) {
                            Some(rest) => Some(seq![(s.subrange(0, z), ds)] + rest),
                            None => None,
                        }
                    },
                }
            }
        }),
        z_abs == n ==> parse_deps_payload(bytes.skip(entry_start)) is None,
        z_abs < n ==> bytes.skip(entry_start).skip(z_abs - entry_start + 1) =~= bytes.skip(
            z_abs + 1,
        ),
{
    let s = bytes.skip(entry_start);
    assert forall|j: int| 0 <= j < z_abs - entry_start implies s[j] != 0 by {
        assert(bytes[entry_start + j] != 0);
    }
    if z_abs < n {
        assert(s[z_abs - entry_start] == 0);
        assert(s.skip(z_abs - entry_start + 1) =~= bytes.skip(z_abs + 1));
    }
    lemma_first_zero_at(s, z_abs - entry_start);
}

/// Reads a NUL-terminated UTF-8 name starting at `pos`: the decoded string
/// and the index of its NUL. Fails when the input ends first or the bytes
/// are not valid UTF-8.
fn read_name(bytes: &Vec<u8>, pos: usize, n: usize) -> (r: Result<
    (String, usize),
    ManifestError,
>)
    requires
        pos <= n,
        n == bytes@.len(),
    ensures
        match r {
            Ok((name, z)) => pos <= z < n && bytes@[z as int] == 0 && (forall|j: int|
                pos <= j < z ==> bytes@[j] != 0) && valid_utf8(
                bytes@.subrange(pos as int, z as int),
            ) && encode_utf8(name@) == bytes@.subrange(pos as int, z as int),
            Err(e) => {
                ||| (e == ManifestError::Truncated && forall|j: int|
                    pos <= j < n ==> bytes@[j] != 0)
                ||| (e == ManifestError::InvalidText && exists|z: int|
                    pos <= z < n && #[trigger] bytes@[z] == 0 && (forall|j: int|
                        pos <= j < z ==> bytes@[j] != 0) && !valid_utf8(
                        bytes@.subrange(pos as int, z),
                    ))
            },
        },
{
    let mut z: usize = pos;
    while z < n
        invariant
            pos <= z <= n,
            n == bytes@.len(),
            forall|j: int| pos <= j < z ==> bytes@[j] != 0,
        ensures
            pos <= z <= n,
            z < n ==> bytes@[z as int] == 0,
            forall|j: int| pos <= j < z ==> bytes@[j] != 0,
        decreases n - z,
    {
        if bytes[z] == 0 {
            break;
        }
        z += 1;
    }
    if z == n {
        return Err(ManifestError::Truncated);
    }
    let mut nb: Vec<u8> = Vec::new();
    let mut q: usize = pos;
    while q < z
        invariant
            pos <= q <= z,
            z < n,
            n == bytes@.len(),
            nb@ == bytes@.subrange(pos as int, q as int),
        decreases z - q,
    {
        nb.push(bytes[q]);
        proof {
            assert(nb@ =~= bytes@.subrange(pos as int, q + 1));
        }
        q += 1;
    }
    match string_from_utf8(nb) {
        Some(s) => Ok((s, z)),
        None => {
            proof {
                assert(pos <= z < n && bytes@[z as int] == 0 && (forall|j: int|
                    pos <= j < z ==> bytes@[j] != 0) && !valid_utf8(
                    bytes@.subrange(pos as int, z as int),
                ));
            }
            Err(ManifestError::InvalidText)
        },
    }
}

/// Extending a dep list extends its bytes by the new name and its NUL.
pub proof fn lemma_deps_list_snoc(ds: Seq<Seq<char>>, i: int)
    requires
        0 <= i < ds.len(),
    ensures
        deps_list_bytes(ds.take(i + 1)) == deps_list_bytes(ds.take(i)) + ascii_bytes(ds[i])
            + seq![0u8],
    decreases i,
{
    let a = ds.take(i + 1);
    let b = ds.take(i);
    if i == 0 {
        assert(a.drop_first() =~= Seq::<Seq<char>>::empty());
        assert(b =~= Seq::<Seq<char>>::empty());
        assert(deps_list_bytes(b) =~= Seq::<u8>::empty());
        assert(deps_list_bytes(a.drop_first()) =~= Seq::<u8>::empty());
        assert(a[0] == ds[0]);
        assert(deps_list_bytes(a) =~= deps_list_bytes(b) + ascii_bytes(ds[0]) + seq![0u8]);
    } else {
        lemma_deps_list_snoc(ds.drop_first(), i - 1);
        assert(a.drop_first() =~= ds.drop_first().take(i));
        assert(b.drop_first() =~= ds.drop_first().take(i - 1));
        assert(ds.drop_first()[i - 1] == ds[i]);
        assert(deps_list_bytes(a) =~= deps_list_bytes(b) + ascii_bytes(ds[i]) + seq![0u8]);
    }
}

/// Extending the entries extends the payload by the new entry's bytes.
pub proof fn lemma_deps_payload_snoc(entries: Seq<(Seq<char>, Seq<Seq<char>>)>, i: int)
    requires
        0 <= i < entries.len(),
    ensures
        deps_payload(entries.take(i + 1)) == deps_payload(entries.take(i)) + deps_entry_bytes(
            entries[i].0,
            entries[i].1,
        ),
    decreases i,
{
    let a = entries.take(i + 1);
    let b = entries.take(i);
    if i == 0 {
        assert(a.drop_first() =~= Seq::<(Seq<char>, Seq<Seq<char>>)>::empty());
        assert(b =~= Seq::<(Seq<char>, Seq<Seq<char>>)>::empty());
        assert(deps_payload(b) =~= Seq::<u8>::empty());
        assert(deps_payload(a.drop_first()) =~= Seq::<u8>::empty());
        assert(a[0] == entries[0]);
        assert(deps_payload(a) =~= deps_payload(b) + deps_entry_bytes(
            entries[0].0,
            entries[0].1,
        ));
    } else {
        lemma_deps_payload_snoc(entries.drop_first(), i - 1);
        assert(a.drop_first() =~= entries.drop_first().take(i));
        assert(b.drop_first() =~= entries.drop_first().take(i - 1));
        assert(entries.drop_first()[i - 1] == entries[i]);
        assert(deps_payload(a) =~= deps_payload(b) + deps_entry_bytes(
            entries[i].0,
            entries[i].1,
        ));
    }
}

/// The entry lookup behind [`SparseIndexDependencies::hints_for`]: the dep
/// names of the first entry with the given name.
pub open spec fn spec_lookup(entries: Seq<(Seq<char>, Seq<Seq<char>>)>, name: Seq<char>) -> Option<
    Seq<Seq<char>>,
>
    decreases entries.len(),
{
    if entries.len() == 0 {
        None
    } else if entries[0].0 == name {
        Some(entries[0].1)
    } else {
        spec_lookup(entries.drop_first(), name)
    }
}

/// A scan that found the name at index `i`, with no earlier match, returns
/// that entry's deps.
proof fn lemma_spec_lookup_at(entries: Seq<(Seq<char>, Seq<Seq<char>>)>, name: Seq<char>, i: int)
    requires
        0 <= i < entries.len(),
        entries[i].0 == name,
        forall|j: int| 0 <= j < i ==> entries[j].0 != name,
    ensures
        spec_lookup(entries, name) == Some(entries[i].1),
    decreases i,
{
    if i == 0 {
    } else {
        lemma_spec_lookup_at(entries.drop_first(), name, i - 1);
    }
}

/// A scan that found no match returns nothing.
proof fn lemma_spec_lookup_none(entries: Seq<(Seq<char>, Seq<Seq<char>>)>, name: Seq<char>)
    requires
        forall|j: int| 0 <= j < entries.len() ==> entries[j].0 != name,
    ensures
        spec_lookup(entries, name) is None,
    decreases entries.len(),
{
    if entries.len() == 0 {
    } else {
        lemma_spec_lookup_none(entries.drop_first(), name);
    }
}

/// The encoder and the parser of the dependencies manifest are mutual
/// inverses: a well-formed dependencies manifest, encoded and parsed again,
/// yields exactly its own entries (names at the byte level).
pub proof fn lemma_deps_manifest_round_trip(entries: Seq<(Seq<char>, Seq<Seq<char>>)>)
    requires
        forall|i: int| 0 <= i < entries.len() ==> valid_name(#[trigger] entries[i].0),
        forall|i: int, j: int|
            0 <= i < entries.len() && 0 <= j < entries[i].1.len() ==> valid_name(
                #[trigger] entries[i].1[j],
            ),
    ensures
        parse_deps_manifest(deps_manifest_bytes(entries)) == Some(deps_byte_view(entries)),
{
    let b = deps_manifest_bytes(entries);
    assert(b.subrange(0, 4) =~= deps_magic());
    assert(b.subrange(4, 6) =~= version_bytes());
    assert(b.skip(6) =~= deps_payload(entries));
    lemma_deps_payload_round_trip(entries);
}

/// The payload encoder and parser of the dependencies manifest are mutual
/// inverses.
pub proof fn lemma_deps_payload_round_trip(entries: Seq<(Seq<char>, Seq<Seq<char>>)>)
    requires
        forall|i: int| 0 <= i < entries.len() ==> valid_name(#[trigger] entries[i].0),
        forall|i: int, j: int|
            0 <= i < entries.len() && 0 <= j < entries[i].1.len() ==> valid_name(
                #[trigger] entries[i].1[j],
            ),
    ensures
        parse_deps_payload(deps_payload(entries)) == Some(deps_byte_view(entries)),
    decreases entries.len(),
{
    let b = deps_payload(entries);
    if entries.len() == 0 {
        assert(deps_byte_view(entries) =~= Seq::<(Seq<u8>, Seq<Seq<u8>>)>::empty());
    } else {
        let e0 = entries[0];
        let rest = entries.drop_first();
        lemma_valid_name_ascii(e0.0);
        let nb = ascii_bytes(e0.0);
        let nl = nb.len() as int;
        assert(b == deps_entry_bytes(e0.0, e0.1) + deps_payload(rest));
        assert forall|j: int| 0 <= j < nl implies b[j] != 0 by {
            assert(b[j] == encode_utf8(e0.0)[j]);
        }
        assert(b[nl] == 0);
        lemma_first_zero_at(b, nl);
        assert(b.subrange(0, nl) =~= encode_utf8(e0.0));
        assert(valid_utf8(b.subrange(0, nl)));
        assert(b.skip(nl + 1) =~= deps_list_bytes(e0.1) + seq![0u8] + deps_payload(rest));
        lemma_deps_list_round_trip(e0.1, deps_payload(rest));
        let c = deps_list_bytes(e0.1).len() as int + 1;
        assert(parse_deps_list(b.skip(nl + 1)) == Some((deps_list_byte_view(e0.1), c)));
        assert(1 <= c);
        assert(nl + 1 + c <= b.len());
        assert(b.skip(nl + 1 + c) =~= deps_payload(rest));
        assert forall|i: int|
            0 <= i < rest.len() implies valid_name(#[trigger] rest[i].0) by {
            assert(rest[i] == entries[i + 1]);
        }
        assert forall|i: int, j: int|
            0 <= i < rest.len() && 0 <= j < rest[i].1.len() implies valid_name(
            #[trigger] rest[i].1[j],
        ) by {
            assert(rest[i] == entries[i + 1]);
        }
        lemma_deps_payload_round_trip(rest);
        assert(parse_deps_payload(b) == Some(
            seq![(b.subrange(0, nl), deps_list_byte_view(e0.1))] + deps_byte_view(rest),
        ));
        assert(seq![(b.subrange(0, nl), deps_list_byte_view(e0.1))] + deps_byte_view(rest)
            =~= deps_byte_view(entries));
    }
}

/// The encoded bytes of a dep list parse back to the list's names, consuming
/// the list and its terminator, whatever follows.
pub proof fn lemma_deps_list_round_trip(ds: Seq<Seq<char>>, tail: Seq<u8>)
    requires
        forall|j: int| 0 <= j < ds.len() ==> valid_name(#[trigger] ds[j]),
    ensures
        parse_deps_list(deps_list_bytes(ds) + seq![0u8] + tail) == Some(
            (deps_list_byte_view(ds), deps_list_bytes(ds).len() as int + 1),
        ),
    decreases ds.len(),
{
    let b = deps_list_bytes(ds) + seq![0u8] + tail;
    if ds.len() == 0 {
        assert(deps_list_bytes(ds) =~= Seq::<u8>::empty());
        assert(b[0] == 0);
        assert(deps_list_byte_view(ds) =~= Seq::<Seq<u8>>::empty());
    } else {
        let d0 = ds[0];
        let rest = ds.drop_first();
        lemma_valid_name_ascii(d0);
        let nl = d0.len() as int;
        assert(deps_list_bytes(ds) == ascii_bytes(d0) + seq![0u8] + deps_list_bytes(rest));
        assert(b[0] != 0) by {
            assert(b[0] == encode_utf8(d0)[0]);
        }
        assert forall|j: int| 0 <= j < nl implies b[j] != 0 by {
            assert(b[j] == encode_utf8(d0)[j]);
        }
        assert(b[nl] == 0);
        lemma_first_zero_at(b, nl);
        assert(b.subrange(0, nl) =~= encode_utf8(d0));
        assert(valid_utf8(b.subrange(0, nl)));
        assert(b.skip(nl + 1) =~= deps_list_bytes(rest) + seq![0u8] + tail);
        assert forall|j: int| 0 <= j < rest.len() implies valid_name(#[trigger] rest[j]) by {
            assert(rest[j] == ds[j + 1]);
        }
        lemma_deps_list_round_trip(rest, tail);
        assert(parse_deps_list(b) == Some(
            (
                seq![b.subrange(0, nl)] + deps_list_byte_view(rest),
                nl + 1 + (deps_list_bytes(rest).len() as int + 1),
            ),
        ));
        assert(seq![b.subrange(0, nl)] + deps_list_byte_view(rest) =~= deps_list_byte_view(ds));
        assert(deps_list_bytes(ds).len() == nl + 1 + deps_list_bytes(rest).len());
    }
}

/// Appends the bytes of a valid (hence ASCII) package name.
fn push_ascii_name(out: &mut Vec<u8>, name: &str) -> (unit: ())
    requires
        valid_name(name@),
    ensures
        final(out)@ == old(out)@ + ascii_bytes(name@),
        final(out)@ == old(out)@ + encode_utf8(name@),
{
    proof {
        lemma_valid_name_ascii(name@);
    }
    let bytes = name.as_bytes();
    let m = bytes.len();
    let mut k: usize = 0;
    while k < m
        invariant
            0 <= k <= m,
            m == name@.len(),
            bytes@ == encode_utf8(name@),
            bytes@ =~= ascii_bytes(name@),
            out@ == old(out)@ + ascii_bytes(name@).take(k as int),
        decreases m - k,
    {
        out.push(bytes[k]);
        proof {
            assert(out@ =~= old(out)@ + ascii_bytes(name@).take(k as int + 1));
        }
        k += 1;
    }
    proof {
        assert(ascii_bytes(name@).take(m as int) =~= ascii_bytes(name@));
    }
}

/// A valid package name is ASCII, its UTF-8 encoding is one byte per
/// character, and none of its bytes is NUL.
pub proof fn lemma_valid_name_ascii(s: Seq<char>)
    requires
        valid_name(s),
    ensures
        vstd::utf8::is_ascii_chars(s),
        encode_utf8(s) =~= ascii_bytes(s),
        valid_utf8(encode_utf8(s)),
        forall|i: int| 0 <= i < encode_utf8(s).len() ==> encode_utf8(s)[i] != 0,
{
    assert(vstd::utf8::is_ascii_chars(s)) by {
        assert forall|i: int| 0 <= i < s.len() implies '\0' <= #[trigger] s[i] <= '\u{7f}' by {
            assert(crate::names::valid_name_char(s[i]));
        }
    }
    is_ascii_chars_encode_utf8(s);
    encode_utf8_valid_utf8(s);
    assert forall|i: int| 0 <= i < encode_utf8(s).len() implies encode_utf8(s)[i] != 0 by {
        assert(crate::names::valid_name_char(s[i]));
        assert(s[i] > ' ');
        assert(encode_utf8(s)[i] == s[i] as u8);
    }
}

/// Extending the entries extends the payload by the new entry's bytes.
pub proof fn lemma_names_payload_snoc(entries: Seq<(Seq<char>, Seq<u8>)>, i: int)
    requires
        0 <= i < entries.len(),
    ensures
        names_payload(entries.take(i + 1)) == names_payload(entries.take(i)) + names_entry_bytes(
            entries[i].0,
            entries[i].1,
        ),
    decreases i,
{
    let a = entries.take(i + 1);
    let b = entries.take(i);
    if i == 0 {
        assert(a.drop_first() =~= Seq::<(Seq<char>, Seq<u8>)>::empty());
        assert(b =~= Seq::<(Seq<char>, Seq<u8>)>::empty());
        assert(names_payload(b) =~= Seq::<u8>::empty());
        assert(names_payload(a.drop_first()) =~= Seq::<u8>::empty());
        assert(a[0] == entries[0]);
        assert(names_payload(a) == names_entry_bytes(a[0].0, a[0].1) + names_payload(
            a.drop_first(),
        ));
        assert(names_payload(b) + names_entry_bytes(entries[0].0, entries[0].1) =~= names_payload(
            a,
        ));
    } else {
        lemma_names_payload_snoc(entries.drop_first(), i - 1);
        assert(a.drop_first() =~= entries.drop_first().take(i));
        assert(b.drop_first() =~= entries.drop_first().take(i - 1));
        assert(entries.drop_first()[i - 1] == entries[i]);
        assert(names_payload(a) == names_entry_bytes(entries[0].0, entries[0].1) + names_payload(
            entries.drop_first().take(i),
        ));
        assert(names_payload(entries.drop_first().take(i)) == names_payload(
            entries.drop_first().take(i - 1),
        ) + names_entry_bytes(entries[i].0, entries[i].1));
        assert(names_payload(a) =~= names_payload(b) + names_entry_bytes(
            entries[i].0,
            entries[i].1,
        ));
    }
}

} // verus!
