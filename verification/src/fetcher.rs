//! The HTTP-with-cache layer, as data and decisions.
//!
//! A stored cache entry is one blob: the serialized cache policy's length as
//! a little-endian `u64`, the policy bytes, then the response body. The
//! framing here is exact and proved invertible.
//!
//! The fetch flow itself is a decision function: given what the cache held
//! and how fresh its policy is, [`plan_fetch`] decides between serving the
//! cached body without any network traffic, revalidating with conditional
//! headers, and fetching unconditionally; the response handlers state
//! exactly which body is delivered and what entry is stored. Computing
//! freshness from the stored policy headers and building the new policy are
//! the embedding program's job (it holds the HTTP types); every decision on
//! those plain values is verified here.

use vstd::prelude::*;

verus! {

/// The little-endian bytes of a `u64`.
pub open spec fn le64(x: u64) -> Seq<u8> {
    seq![
        (x & 0xff) as u8,
        ((x >> 8) & 0xff) as u8,
        ((x >> 16) & 0xff) as u8,
        ((x >> 24) & 0xff) as u8,
        ((x >> 32) & 0xff) as u8,
        ((x >> 40) & 0xff) as u8,
        ((x >> 48) & 0xff) as u8,
        ((x >> 56) & 0xff) as u8,
    ]
}

/// The `u64` with the given little-endian bytes.
pub open spec fn u64_of_le(b: Seq<u8>) -> u64
    recommends
        b.len() == 8,
{
    (b[0] as u64) | ((b[1] as u64) << 8) | ((b[2] as u64) << 16) | ((b[3] as u64) << 24) | (
    (b[4] as u64) << 32) | ((b[5] as u64) << 40) | ((b[6] as u64) << 48) | ((b[7] as u64) << 56)
}

/// The two framings invert each other.
pub proof fn lemma_le64_round_trip(x: u64)
    ensures
        u64_of_le(le64(x)) == x,
{
    assert(((x & 0xff) as u8 as u64) | ((((x >> 8) & 0xff) as u8 as u64) << 8) | ((((x >> 16)
        & 0xff) as u8 as u64) << 16) | ((((x >> 24) & 0xff) as u8 as u64) << 24) | ((((x >> 32)
        & 0xff) as u8 as u64) << 32) | ((((x >> 40) & 0xff) as u8 as u64) << 40) | ((((x >> 48)
        & 0xff) as u8 as u64) << 48) | ((((x >> 56) & 0xff) as u8 as u64) << 56) == x)
        by (bit_vector);
}

/// A stored cache entry: the policy's length, the policy, then the body.
pub open spec fn cache_entry_bytes(policy: Seq<u8>, body: Seq<u8>) -> Seq<u8>
    recommends
        policy.len() <= u64::MAX,
{
    le64(policy.len() as u64) + policy + body
}

/// Frames a policy and a body as one cache entry.
pub fn encode_cache_entry(policy: &Vec<u8>, body: &Vec<u8>) -> (r: Vec<u8>)
    ensures
        r@ == cache_entry_bytes(policy@, body@),
{
    let mut out: Vec<u8> = Vec::new();
    let plen: u64 = policy.len() as u64;
    out.push((plen & 0xff) as u8);
    out.push(((plen >> 8) & 0xff) as u8);
    out.push(((plen >> 16) & 0xff) as u8);
    out.push(((plen >> 24) & 0xff) as u8);
    out.push(((plen >> 32) & 0xff) as u8);
    out.push(((plen >> 40) & 0xff) as u8);
    out.push(((plen >> 48) & 0xff) as u8);
    out.push(((plen >> 56) & 0xff) as u8);
    proof {
        assert(out@ =~= le64(policy@.len() as u64));
    }
    push_bytes(&mut out, policy);
    push_bytes(&mut out, body);
    proof {
        assert(out@ =~= cache_entry_bytes(policy@, body@));
    }
    out
}

/// Appends the bytes of `src` to `out`.
fn push_bytes(out: &mut Vec<u8>, src: &Vec<u8>) -> (unit: ())
    ensures
        final(out)@ == old(out)@ + src@,
{
    let n = src.len();
    let mut i: usize = 0;
    while i < n
        invariant
            0 <= i <= n,
            n == src@.len(),
            out@ == old(out)@ + src@.take(i as int),
        decreases n - i,
    {
        out.push(src[i]);
        proof {
            assert(out@ =~= old(out)@ + src@.take(i as int + 1));
        }
        i += 1;
    }
    proof {
        assert(src@.take(n as int) =~= src@);
    }
}

/// Splits a cache entry into its policy and body: exactly the framing's
/// parts on a well-formed entry. An entry shorter than its own length word,
/// or whose policy runs past its end, is rejected.
pub fn parse_cache_entry(bytes: &Vec<u8>) -> (r: Option<(Vec<u8>, Vec<u8>)>)
    ensures
        match r {
            Some(pair) => bytes@ == cache_entry_bytes(pair.0@, pair.1@),
            None => true,
        },
        forall|p: Seq<u8>, b: Seq<u8>|
            bytes@ == #[trigger] cache_entry_bytes(p, b) && p.len() <= u64::MAX ==> (
            r matches Some(pair) && pair.0@ == p && pair.1@ == b),
{
    let n = bytes.len();
    if n < 8 {
        proof {
            assert forall|p: Seq<u8>, b: Seq<u8>|
                bytes@ == #[trigger] cache_entry_bytes(p, b) && p.len()
                    <= u64::MAX implies false by {
                assert(cache_entry_bytes(p, b).len() >= 8);
            }
        }
        return None;
    }
    let plen_u64: u64 = (bytes[0] as u64) | ((bytes[1] as u64) << 8) | ((bytes[2] as u64) << 16) | (
    (bytes[3] as u64) << 24) | ((bytes[4] as u64) << 32) | ((bytes[5] as u64) << 40) | ((
    bytes[6] as u64) << 48) | ((bytes[7] as u64) << 56);
    proof {
        assert forall|p: Seq<u8>, b: Seq<u8>|
            bytes@ == #[trigger] cache_entry_bytes(p, b) && p.len() <= u64::MAX implies plen_u64
            == p.len() && n == 8 + p.len() + b.len() by {
            lemma_le64_round_trip(p.len() as u64);
            assert(bytes@.subrange(0, 8) =~= le64(p.len() as u64));
            assert(bytes@.subrange(0, 8)[0] == bytes@[0]);
            assert(bytes@.subrange(0, 8)[1] == bytes@[1]);
            assert(bytes@.subrange(0, 8)[2] == bytes@[2]);
            assert(bytes@.subrange(0, 8)[3] == bytes@[3]);
            assert(bytes@.subrange(0, 8)[4] == bytes@[4]);
            assert(bytes@.subrange(0, 8)[5] == bytes@[5]);
            assert(bytes@.subrange(0, 8)[6] == bytes@[6]);
            assert(bytes@.subrange(0, 8)[7] == bytes@[7]);
            assert(plen_u64 == u64_of_le(le64(p.len() as u64)));
        }
    }
    if plen_u64 > (n - 8) as u64 {
        proof {
            assert forall|p: Seq<u8>, b: Seq<u8>|
                bytes@ == #[trigger] cache_entry_bytes(p, b) && p.len()
                    <= u64::MAX implies false by {
                assert(plen_u64 == p.len() && n == 8 + p.len() + b.len());
            }
        }
        return None;
    }
    proof {
        assert(plen_u64 <= n as u64) by (bit_vector)
            requires
                plen_u64 <= (n - 8) as u64 && n >= 8,
        ;
    }
    let plen: usize = plen_u64 as usize;
    let mut policy: Vec<u8> = Vec::new();
    let mut i: usize = 8;
    while i < 8 + plen
        invariant
            8 <= i <= 8 + plen,
            8 + plen <= n,
            n == bytes@.len(),
            policy@ == bytes@.subrange(8, i as int),
        decreases 8 + plen - i,
    {
        policy.push(bytes[i]);
        proof {
            assert(policy@ =~= bytes@.subrange(8, i as int + 1));
        }
        i += 1;
    }
    let mut body: Vec<u8> = Vec::new();
    let mut k: usize = 8 + plen;
    while k < n
        invariant
            8 + plen <= k <= n,
            n == bytes@.len(),
            body@ == bytes@.subrange(8 + plen as int, k as int),
        decreases n - k,
    {
        body.push(bytes[k]);
        proof {
            assert(body@ =~= bytes@.subrange(8 + plen as int, k as int + 1));
        }
        k += 1;
    }
    proof {
        // The first eight bytes are exactly the length's encoding.
        let p = policy@;
        let b = body@;
        assert(p.len() == plen);
        lemma_le64_round_trip(p.len() as u64);
        assert(plen_u64 == u64_of_le(bytes@.subrange(0, 8))) by {
            assert(bytes@.subrange(0, 8)[0] == bytes@[0]);
            assert(bytes@.subrange(0, 8)[1] == bytes@[1]);
            assert(bytes@.subrange(0, 8)[2] == bytes@[2]);
            assert(bytes@.subrange(0, 8)[3] == bytes@[3]);
            assert(bytes@.subrange(0, 8)[4] == bytes@[4]);
            assert(bytes@.subrange(0, 8)[5] == bytes@[5]);
            assert(bytes@.subrange(0, 8)[6] == bytes@[6]);
            assert(bytes@.subrange(0, 8)[7] == bytes@[7]);
        }
        assert(le64(plen_u64) =~= bytes@.subrange(0, 8)) by {
            lemma_le64_of_u64_of_le(bytes@.subrange(0, 8));
        }
        assert(bytes@ =~= le64(p.len() as u64) + p + b);
        assert forall|p2: Seq<u8>, b2: Seq<u8>|
            bytes@ == #[trigger] cache_entry_bytes(p2, b2) && p2.len()
                <= u64::MAX implies p == p2 && b == b2 by {
            assert(plen_u64 == p2.len() && n == 8 + p2.len() + b2.len());
            assert(p =~= p2) by {
                assert(p =~= bytes@.subrange(8, 8 + plen as int));
                assert(p2 =~= cache_entry_bytes(p2, b2).subrange(8, 8 + p2.len() as int));
            }
            assert(b =~= b2) by {
                assert(b =~= bytes@.subrange(8 + plen as int, n as int));
                assert(b2 =~= cache_entry_bytes(p2, b2).subrange(
                    8 + p2.len() as int,
                    cache_entry_bytes(p2, b2).len() as int,
                ));
            }
        }
    }
    Some((policy, body))
}

/// Re-encoding the `u64` read from eight bytes gives those bytes back.
proof fn lemma_le64_of_u64_of_le(b: Seq<u8>)
    requires
        b.len() == 8,
    ensures
        le64(u64_of_le(b)) =~= b,
{
    let b0 = b[0];
    let b1 = b[1];
    let b2 = b[2];
    let b3 = b[3];
    let b4 = b[4];
    let b5 = b[5];
    let b6 = b[6];
    let b7 = b[7];
    let x = u64_of_le(b);
    assert({
        let y = (b0 as u64) | ((b1 as u64) << 8) | ((b2 as u64) << 16) | ((b3 as u64) << 24) | (
        (b4 as u64) << 32) | ((b5 as u64) << 40) | ((b6 as u64) << 48) | ((b7 as u64) << 56);
        (y & 0xff) as u8 == b0 && ((y >> 8) & 0xff) as u8 == b1 && ((y >> 16) & 0xff) as u8 == b2
            && ((y >> 24) & 0xff) as u8 == b3 && ((y >> 32) & 0xff) as u8 == b4 && ((y >> 40)
            & 0xff) as u8 == b5 && ((y >> 48) & 0xff) as u8 == b6 && ((y >> 56) & 0xff) as u8 == b7
    }) by (bit_vector);
}

/// How fresh a cached policy is for the current request, as decided by the
/// policy's own HTTP semantics.
#[derive(Debug, Clone, Copy, PartialEq, Eq, Structural)]
pub enum Freshness {
    /// The cached response may be served as is.
    Fresh,
    /// The cached response must be revalidated with conditional headers.
    Stale,
}

/// What the cache held for a URL.
#[derive(Debug, Clone, PartialEq, Eq)]
pub enum CacheLookup {
    /// No entry.
    Miss,
    /// An entry, already split into its parts, with its freshness.
    Hit { policy: Vec<u8>, body: Vec<u8>, freshness: Freshness },
}

/// The fetcher's next step for a URL.
#[derive(Debug, Clone, PartialEq, Eq)]
pub enum FetchAction {
    /// Serve this body from the cache; no network traffic at all.
    ServeCached { body: Vec<u8> },
    /// Send a conditional request with validators derived from this stored
    /// policy, keeping this cached body for a possible `304`.
    SendConditional { policy: Vec<u8>, body: Vec<u8> },
    /// Send an unconditional request.
    SendUnconditional,
}

/// Decides the fetch step from the cache lookup: a fresh hit is served with
/// no request, a stale hit is revalidated, a miss is fetched.
pub fn plan_fetch(lookup: CacheLookup) -> (r: FetchAction)
    ensures
        match lookup {
            CacheLookup::Miss => r == FetchAction::SendUnconditional,
            CacheLookup::Hit { policy, body, freshness } => if freshness == Freshness::Fresh {
                r == (FetchAction::ServeCached { body })
            } else {
                r == (FetchAction::SendConditional { policy, body })
            },
        },
{
    match lookup {
        CacheLookup::Miss => FetchAction::SendUnconditional,
        CacheLookup::Hit { policy, body, freshness } => match freshness {
            Freshness::Fresh => FetchAction::ServeCached { body },
            Freshness::Stale => FetchAction::SendConditional { policy, body },
        },
    }
}

/// What came back on the wire, reduced to plain values.
#[derive(Debug, Clone, PartialEq, Eq)]
pub enum ResponseEvent {
    /// `304`: the cached body is still valid.
    NotModified,
    /// A `2xx` with this body; `storable` is the new policy's verdict.
    Success { body: Vec<u8>, storable: bool },
    /// Any other status.
    Failure { status: u16 },
}

/// The fetcher's conclusion: the body to hand to the caller and the entry
/// to store, or an error status.
#[derive(Debug, Clone, PartialEq, Eq)]
pub enum FetchOutcome {
    /// Deliver this body; when `store` is set, commit that entry.
    Deliver { body: Vec<u8>, store: Option<Vec<u8>> },
    /// Surface this status to the caller.
    Error { status: u16 },
}

/// Concludes a conditional fetch. On `304` the delivered bytes equal the
/// cached bytes and the stored entry keeps the cached body under the
/// refreshed policy; on a success the new body replaces the entry when the
/// new policy is storable; any other status is surfaced.
pub fn on_conditional_response(
    cached_body: Vec<u8>,
    refreshed_policy: &Vec<u8>,
    new_policy: &Vec<u8>,
    event: ResponseEvent,
) -> (r: FetchOutcome)
    ensures
        match event {
            ResponseEvent::NotModified => r matches FetchOutcome::Deliver { body, store } && (
            body@ == cached_body@ && (store matches Some(e) && e@ == cache_entry_bytes(
                refreshed_policy@,
                cached_body@,
            ))),
            ResponseEvent::Success { body: rb, storable } => r matches FetchOutcome::Deliver {
                body,
                store,
            } && (body@ == rb@ && (if storable {
                store matches Some(e) && e@ == cache_entry_bytes(new_policy@, rb@)
            } else {
                store is None
            })),
            ResponseEvent::Failure { status } => r == (FetchOutcome::Error { status }),
        },
{
    match event {
        ResponseEvent::NotModified => {
            let entry = encode_cache_entry(refreshed_policy, &cached_body);
            FetchOutcome::Deliver { body: cached_body, store: Some(entry) }
        },
        ResponseEvent::Success { body, storable } => {
            if storable {
                let entry = encode_cache_entry(new_policy, &body);
                FetchOutcome::Deliver { body, store: Some(entry) }
            } else {
                FetchOutcome::Deliver { body, store: None }
            }
        },
        ResponseEvent::Failure { status } => FetchOutcome::Error { status },
    }
}

/// Concludes an unconditional fetch: a success delivers (storing when the
/// policy allows), everything else is surfaced, a bare `304` included.
pub fn on_unconditional_response(new_policy: &Vec<u8>, event: ResponseEvent) -> (r: FetchOutcome)
    ensures
        match event {
            ResponseEvent::NotModified => r == (FetchOutcome::Error { status: 304u16 }),
            ResponseEvent::Success { body: rb, storable } => r matches FetchOutcome::Deliver {
                body,
                store,
            } && (body@ == rb@ && (if storable {
                store matches Some(e) && e@ == cache_entry_bytes(new_policy@, rb@)
            } else {
                store is None
            })),
            ResponseEvent::Failure { status } => r == (FetchOutcome::Error { status }),
        },
{
    match event {
        ResponseEvent::NotModified => FetchOutcome::Error { status: 304 },
        ResponseEvent::Success { body, storable } => {
            if storable {
                let entry = encode_cache_entry(new_policy, &body);
                FetchOutcome::Deliver { body, store: Some(entry) }
            } else {
                FetchOutcome::Deliver { body, store: None }
            }
        },
        ResponseEvent::Failure { status } => FetchOutcome::Error { status },
    }
}

/// True exactly on the HTTP success statuses.
pub fn is_success_status(status: u16) -> (r: bool)
    ensures
        r == (200 <= status < 300),
{
    200 <= status && status < 300
}

/// What to do with a shard fetch's status: parse the body on success, treat
/// a `404` as an empty record list (the package simply does not exist in
/// this subdirectory), and fail on anything else.
#[derive(Debug, Clone, Copy, PartialEq, Eq, Structural)]
pub enum ShardDisposition {
    /// Parse the body as records.
    Parse,
    /// The shard is absent: no records, not an error.
    Empty,
    /// Surface the status.
    Fail,
}

/// Classifies a shard fetch's response status.
pub fn shard_disposition(status: u16) -> (r: ShardDisposition)
    ensures
        r == (if 200 <= status < 300 {
            ShardDisposition::Parse
        } else if status == 404 {
            ShardDisposition::Empty
        } else {
            ShardDisposition::Fail
        }),
{
    if 200 <= status && status < 300 {
        ShardDisposition::Parse
    } else if status == 404 {
        ShardDisposition::Empty
    } else {
        ShardDisposition::Fail
    }
}

} // verus!
