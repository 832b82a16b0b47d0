//! Classic VNC authentication: a 16-byte challenge answered with two
//! DES blocks under the bit-reversed password key.

use vstd::prelude::*;
use crate::des::{spec_des_encrypt, des_encrypt_block};

verus! {

/// The length of the server challenge and of the client response.
pub const CHALLENGE_LEN: usize = 16;

/// A byte with its bits mirrored, as the VNC key schedule wants them.
pub open spec fn spec_bitrev8(b: u8) -> u8 {
    ((b & 1) << 7u8) | ((b & 2) << 5u8) | ((b & 4) << 3u8) | ((b & 8) << 1u8) | ((b & 16) >> 1u8)
        | ((b & 32) >> 3u8) | ((b & 64) >> 5u8) | ((b & 128) >> 7u8)
}

/// Mirror the bits of a byte.
pub fn bitrev8(b: u8) -> (r: u8)
    ensures
        r == spec_bitrev8(b),
{
    ((b & 1) << 7u8) | ((b & 2) << 5u8) | ((b & 4) << 3u8) | ((b & 8) << 1u8) | ((b & 16) >> 1u8)
        | ((b & 32) >> 3u8) | ((b & 64) >> 5u8) | ((b & 128) >> 7u8)
}

/// The eight DES key bytes of a password: truncated or NUL-padded to
/// eight bytes, each byte bit-reversed per VNC convention.
pub open spec fn spec_vnc_key_bytes(password: Seq<u8>) -> Seq<u8> {
    Seq::new(8, |i: int| if i < password.len() {
        spec_bitrev8(password[i])
    } else {
        0
    })
}

/// The 64-bit big-endian value of eight bytes at `off`.
pub open spec fn spec_u64_be_at(s: Seq<u8>, off: int) -> u64 {
    (((((((s[off] * 256 + s[off + 1]) * 256 + s[off + 2]) * 256 + s[off + 3]) * 256 + s[off + 4])
        * 256 + s[off + 5]) * 256 + s[off + 6]) * 256 + s[off + 7]) as u64
}

/// The eight big-endian bytes of a 64-bit value.
pub open spec fn spec_u64_be_bytes(v: u64) -> Seq<u8> {
    Seq::new(8, |i: int| ((v >> (((7 - i) * 8) as u64)) & 0xFF) as u8)
}

/// The response a correct client sends: each half of the challenge
/// DES-encrypted under the bit-reversed password key.
pub open spec fn spec_vnc_response(password: Seq<u8>, challenge: Seq<u8>) -> Seq<u8> {
    let key = spec_u64_be_at(spec_vnc_key_bytes(password), 0);
    spec_u64_be_bytes(spec_des_encrypt(key, spec_u64_be_at(challenge, 0))) + spec_u64_be_bytes(
        spec_des_encrypt(key, spec_u64_be_at(challenge, 8)),
    )
}

/// Read eight big-endian bytes at `off`.
fn u64_be_at(s: &[u8], off: usize) -> (r: u64)
    requires
        off + 8 <= s@.len(),
    ensures
        r == spec_u64_be_at(s@, off as int),
{
    let mut v: u64 = s[off] as u64;
    v = v * 256 + s[off + 1] as u64;
    v = v * 256 + s[off + 2] as u64;
    v = v * 256 + s[off + 3] as u64;
    v = v * 256 + s[off + 4] as u64;
    v = v * 256 + s[off + 5] as u64;
    v = v * 256 + s[off + 6] as u64;
    v = v * 256 + s[off + 7] as u64;
    v
}

/// Append the eight big-endian bytes of a value.
fn push_u64_be(buf: &mut Vec<u8>, v: u64)
    ensures
        final(buf)@ == old(buf)@ + spec_u64_be_bytes(v),
{
    buf.push(((v >> 56u64) & 0xFF) as u8);
    buf.push(((v >> 48u64) & 0xFF) as u8);
    buf.push(((v >> 40u64) & 0xFF) as u8);
    buf.push(((v >> 32u64) & 0xFF) as u8);
    buf.push(((v >> 24u64) & 0xFF) as u8);
    buf.push(((v >> 16u64) & 0xFF) as u8);
    buf.push(((v >> 8u64) & 0xFF) as u8);
    buf.push((v & 0xFF) as u8);
    assert(buf@ =~= old(buf)@ + spec_u64_be_bytes(v)) by {
        assert(v & 0xFF == (v >> 0u64) & 0xFF) by (bit_vector);
    }
}

/// The expected response to a challenge under a password.
pub fn vnc_challenge_response(password: &Vec<u8>, challenge: &[u8]) -> (r: Vec<u8>)
    requires
        challenge@.len() == CHALLENGE_LEN,
    ensures
        r@ == spec_vnc_response(password@, challenge@),
        r@.len() == CHALLENGE_LEN,
{
    let mut keyb: Vec<u8> = Vec::new();
    let mut i: usize = 0;
    while i < 8
        invariant
            i <= 8,
            keyb@.len() == i,
            forall|j: int| 0 <= j < i ==> keyb@[j] == spec_vnc_key_bytes(password@)[j],
        decreases 8 - i,
    {
        let b: u8 = if i < password.len() {
            bitrev8(password[i])
        } else {
            0
        };
        keyb.push(b);
        i += 1;
    }
    proof {
        assert(keyb@ =~= spec_vnc_key_bytes(password@));
    }
    let key: u64 = u64_be_at(keyb.as_slice(), 0);
    let c0: u64 = u64_be_at(challenge, 0);
    let c1: u64 = u64_be_at(challenge, 8);
    let mut out: Vec<u8> = Vec::new();
    push_u64_be(&mut out, des_encrypt_block(key, c0));
    push_u64_be(&mut out, des_encrypt_block(key, c1));
    assert(out@ =~= spec_vnc_response(password@, challenge@));
    out
}

/// Consecutive failures from one peer that close its connections.
pub const MAX_AUTH_FAILURES: u8 = 3;

/// The consecutive-failure count recorded for a peer; zero when the
/// peer has no entry.
pub open spec fn spec_fail_count(entries: Seq<(Vec<u8>, u8)>, peer: Seq<u8>) -> u8
    decreases entries.len(),
{
    if entries.len() == 0 {
        0
    } else if entries[0].0@ == peer {
        entries[0].1
    } else {
        spec_fail_count(entries.skip(1), peer)
    }
}

/// Consecutive authentication failures per peer.  A success clears the
/// peer; from the third consecutive failure on, the peer is blocked
/// and its connections close without revealing more.
pub struct AuthThrottle {
    pub entries: Vec<(Vec<u8>, u8)>,
}

impl AuthThrottle {
    /// Peers are listed at most once.
    pub open spec fn wf(&self) -> bool {
        forall|i: int, j: int|
            0 <= i < j < self.entries@.len() ==> self.entries@[i].0@ != self.entries@[j].0@
    }

    /// An empty record: no peer has failed.
    pub fn new() -> (r: AuthThrottle)
        ensures
            r.wf(),
            forall|p: Seq<u8>| spec_fail_count(r.entries@, p) == 0,
    {
        AuthThrottle { entries: Vec::new() }
    }

    /// The consecutive failures recorded for a peer.
    pub fn failures(&self, peer: &Vec<u8>) -> (r: u8)
        requires
            self.wf(),
        ensures
            r == spec_fail_count(self.entries@, peer@),
    {
        let mut i: usize = 0;
        while i < self.entries.len()
            invariant
                self.wf(),
                i <= self.entries@.len(),
                forall|j: int| 0 <= j < i ==> self.entries@[j].0@ != peer@,
            decreases self.entries@.len() - i,
        {
            if bytes_eq(&self.entries[i].0, peer) {
                proof {
                    lemma_fail_count_at(self.entries@, peer@, i as int);
                }
                return self.entries[i].1;
            }
            i += 1;
        }
        proof {
            lemma_fail_count_absent(self.entries@, peer@);
        }
        0
    }

    /// Whether the peer has reached the failure limit.
    pub fn blocked(&self, peer: &Vec<u8>) -> (r: bool)
        requires
            self.wf(),
        ensures
            r == (spec_fail_count(self.entries@, peer@) >= MAX_AUTH_FAILURES),
    {
        self.failures(peer) >= MAX_AUTH_FAILURES
    }

    /// Record one more failure for the peer; the count saturates.
    pub fn record_failure(&mut self, peer: &Vec<u8>)
        requires
            old(self).wf(),
        ensures
            final(self).wf(),
            spec_fail_count(final(self).entries@, peer@) == (if spec_fail_count(
                old(self).entries@,
                peer@,
            ) < 255 {
                spec_fail_count(old(self).entries@, peer@) + 1
            } else {
                255
            }),
            forall|q: Seq<u8>|
                q != peer@ ==> spec_fail_count(final(self).entries@, q) == spec_fail_count(
                    old(self).entries@,
                    q,
                ),
    {
        let n: u8 = self.failures(peer);
        let nn: u8 = if n < 255 {
            n + 1
        } else {
            255
        };
        self.set_count(peer, nn);
    }

    /// Clear the peer after a success.
    pub fn record_success(&mut self, peer: &Vec<u8>)
        requires
            old(self).wf(),
        ensures
            final(self).wf(),
            spec_fail_count(final(self).entries@, peer@) == 0,
            forall|q: Seq<u8>|
                q != peer@ ==> spec_fail_count(final(self).entries@, q) == spec_fail_count(
                    old(self).entries@,
                    q,
                ),
    {
        self.set_count(peer, 0);
    }

    /// Store a count for the peer, keeping every other peer's count.
    fn set_count(&mut self, peer: &Vec<u8>, count: u8)
        requires
            old(self).wf(),
        ensures
            final(self).wf(),
            spec_fail_count(final(self).entries@, peer@) == count,
            forall|q: Seq<u8>|
                q != peer@ ==> spec_fail_count(final(self).entries@, q) == spec_fail_count(
                    old(self).entries@,
                    q,
                ),
    {
        let mut i: usize = 0;
        while i < self.entries.len()
            invariant
                self == old(self),
                self.wf(),
                i <= self.entries@.len(),
                forall|j: int| 0 <= j < i ==> self.entries@[j].0@ != peer@,
            decreases self.entries@.len() - i,
        {
            if bytes_eq(&self.entries[i].0, peer) {
                let ghost prev = self.entries@;
                self.entries[i].1 = count;
                proof {
                    assert(self.entries@[i as int].0@ == peer@);
                    assert forall|j: int|
                        0 <= j < self.entries@.len() && j != i implies self.entries@[j] == prev[j]
                        by {}
                    lemma_fail_count_at(self.entries@, peer@, i as int);
                    assert forall|q: Seq<u8>|
                        q != peer@ implies spec_fail_count(self.entries@, q) == spec_fail_count(
                        prev,
                        q,
                    ) by {
                        lemma_fail_count_update_other(prev, self.entries@, q, i as int);
                    }
                }
                return ;
            }
            i += 1;
        }
        let ghost prev = self.entries@;
        let keyv: Vec<u8> = crate::wire::byte_copy(peer);
        self.entries.push((keyv, count));
        proof {
            assert(self.entries@[prev.len() as int].0@ == peer@);
            lemma_fail_count_at(self.entries@, peer@, prev.len() as int);
            assert forall|q: Seq<u8>|
                q != peer@ implies spec_fail_count(self.entries@, q) == spec_fail_count(prev, q)
                by {
                lemma_fail_count_push_other(prev, peer@, q);
            }
            assert forall|i2: int, j2: int|
                0 <= i2 < j2 < self.entries@.len() implies self.entries@[i2].0@
                != self.entries@[j2].0@ by {
                if j2 < prev.len() {
                } else {
                    assert(self.entries@[i2].0@ != peer@);
                }
            }
        }
    }
}

/// The count sits at the peer's entry: with unique peers, a match at
/// index `n` decides the count.
proof fn lemma_fail_count_at(entries: Seq<(Vec<u8>, u8)>, peer: Seq<u8>, n: int)
    requires
        0 <= n < entries.len(),
        entries[n].0@ == peer,
        forall|j: int| 0 <= j < n ==> entries[j].0@ != peer,
    ensures
        spec_fail_count(entries, peer) == entries[n].1,
    decreases n,
{
    if n > 0 {
        lemma_fail_count_at(entries.skip(1), peer, n - 1);
    }
}

/// A peer with no entry has count zero.
proof fn lemma_fail_count_absent(entries: Seq<(Vec<u8>, u8)>, peer: Seq<u8>)
    requires
        forall|j: int| 0 <= j < entries.len() ==> entries[j].0@ != peer,
    ensures
        spec_fail_count(entries, peer) == 0,
    decreases entries.len(),
{
    if entries.len() > 0 {
        lemma_fail_count_absent(entries.skip(1), peer);
    }
}

/// Updating one entry leaves every other peer's count alone.
proof fn lemma_fail_count_update_other(
    prev: Seq<(Vec<u8>, u8)>,
    cur: Seq<(Vec<u8>, u8)>,
    q: Seq<u8>,
    n: int,
)
    requires
        prev.len() == cur.len(),
        0 <= n < prev.len(),
        forall|j: int| 0 <= j < prev.len() && j != n ==> cur[j] == prev[j],
        cur[n].0@ == prev[n].0@,
        cur[n].0@ != q,
    ensures
        spec_fail_count(cur, q) == spec_fail_count(prev, q),
    decreases prev.len(),
{
    if prev.len() > 0 {
        if n == 0 {
            assert(cur.skip(1) =~= prev.skip(1));
        } else {
            assert(cur[0] == prev[0]);
            lemma_fail_count_update_other(prev.skip(1), cur.skip(1), q, n - 1);
        }
    }
}

/// Appending an entry for one peer leaves every other peer's count
/// alone.
proof fn lemma_fail_count_push_other(
    prev: Seq<(Vec<u8>, u8)>,
    peer: Seq<u8>,
    q: Seq<u8>,
)
    requires
        q != peer,
    ensures
        forall|kv: (Vec<u8>, u8)|
            kv.0@ == peer ==> spec_fail_count(prev.push(kv), q) == spec_fail_count(prev, q),
    decreases prev.len(),
{
    assert forall|kv: (Vec<u8>, u8)|
        kv.0@ == peer implies spec_fail_count(prev.push(kv), q) == spec_fail_count(prev, q) by {
        lemma_fail_count_push_one(prev, kv, q);
    }
}

/// One appended entry with a different peer does not change the count.
proof fn lemma_fail_count_push_one(prev: Seq<(Vec<u8>, u8)>, kv: (Vec<u8>, u8), q: Seq<u8>)
    requires
        kv.0@ != q,
    ensures
        spec_fail_count(prev.push(kv), q) == spec_fail_count(prev, q),
    decreases prev.len(),
{
    if prev.len() == 0 {
        assert(prev.push(kv)[0] == kv);
        assert(prev.push(kv).skip(1) =~= Seq::<(Vec<u8>, u8)>::empty());
        assert(spec_fail_count(Seq::<(Vec<u8>, u8)>::empty(), q) == 0);
        assert(spec_fail_count(prev.push(kv), q) == 0);
    } else {
        assert(prev.push(kv)[0] == prev[0]);
        if prev[0].0@ == q {
            assert(spec_fail_count(prev.push(kv), q) == prev[0].1);
            assert(spec_fail_count(prev, q) == prev[0].1);
        } else {
            assert(prev.push(kv).skip(1) =~~= prev.skip(1).push(kv));
            lemma_fail_count_push_one(prev.skip(1), kv, q);
            assert(spec_fail_count(prev.push(kv), q) == spec_fail_count(
                prev.push(kv).skip(1),
                q,
            ));
            assert(spec_fail_count(prev, q) == spec_fail_count(prev.skip(1), q));
        }
    }
}

/// Byte-wise equality of two byte strings.
fn bytes_eq(a: &Vec<u8>, b: &Vec<u8>) -> (r: bool)
    ensures
        r == (a@ == b@),
{
    if a.len() != b.len() {
        return false;
    }
    let mut i: usize = 0;
    while i < a.len()
        invariant
            a@.len() == b@.len(),
            i <= a@.len(),
            forall|j: int| 0 <= j < i ==> a@[j] == b@[j],
        decreases a@.len() - i,
    {
        if a[i] != b[i] {
            return false;
        }
        i += 1;
    }
    proof {
        assert(a@ =~= b@);
    }
    true
}

/// Whether a client's response answers the challenge under the
/// password: true exactly when the bytes equal the expected response.
pub fn vnc_auth_verify(password: &Vec<u8>, challenge: &[u8], response: &[u8]) -> (r: bool)
    requires
        challenge@.len() == CHALLENGE_LEN,
    ensures
        r == (response@ == spec_vnc_response(password@, challenge@)),
{
    let expected = vnc_challenge_response(password, challenge);
    if response.len() != expected.len() {
        proof {
            assert(response@ != spec_vnc_response(password@, challenge@));
        }
        return false;
    }
    let mut i: usize = 0;
    while i < expected.len()
        invariant
            expected@ == spec_vnc_response(password@, challenge@),
            response@.len() == expected@.len(),
            i <= expected@.len(),
            forall|j: int| 0 <= j < i ==> response@[j] == expected@[j],
        decreases expected@.len() - i,
    {
        if response[i] != expected[i] {
            proof {
                assert(response@ != spec_vnc_response(password@, challenge@));
            }
            return false;
        }
        i += 1;
    }
    proof {
        assert(response@ =~= expected@);
    }
    true
}

} // verus!
