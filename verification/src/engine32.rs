//! The 32-bit engine: the block-mixing algorithm over four accumulator
//! lanes, the tail and avalanche finalization, the one-shot `hash32`, and
//! the incremental `State32` hasher.
//!
//! The spec functions in this module are the mathematical definition of the
//! digest: `xxh32(s, seed)` gives the hash of any byte sequence `s`. Both
//! the one-shot function and the incremental hasher are proved to return
//! exactly that value, which makes the digest independent of how the input
//! was chunked across `update` calls.

use vstd::prelude::*;

use crate::bits::{le_u32_at, rotl32};
use crate::bits::{push_range, read_le_u32, rotate_left32};

verus! {

/// First odd prime of the 32-bit variant; all five are fixed by the
/// published algorithm and have no semantic meaning of their own.
pub const PRIME32_1: u32 = 0x9E3779B1;

pub const PRIME32_2: u32 = 0x85EBCA77;

pub const PRIME32_3: u32 = 0xC2B2AE3D;

pub const PRIME32_4: u32 = 0x27D4EB2F;

pub const PRIME32_5: u32 = 0x165667B1;

/// One round of the per-lane mix: fold a 32-bit input word into a lane.
#[verifier::opaque]
pub open spec fn round32(acc: u32, w: u32) -> u32 {
    rotl32(acc.wrapping_add(w.wrapping_mul(PRIME32_2)), 13).wrapping_mul(PRIME32_1)
}

/// The four lanes derived from the seed before any block is mixed.
pub open spec fn init_lanes32(seed: u32) -> (u32, u32, u32, u32) {
    (
        seed.wrapping_add(PRIME32_1).wrapping_add(PRIME32_2),
        seed.wrapping_add(PRIME32_2),
        seed,
        seed.wrapping_sub(PRIME32_1),
    )
}

/// Mix the 16-byte block at offset `off` of `s` into the four lanes.
pub open spec fn mix_block32(v: (u32, u32, u32, u32), s: Seq<u8>, off: int) -> (u32, u32, u32, u32)
    recommends
        0 <= off,
        off + 16 <= s.len(),
{
    (
        round32(v.0, le_u32_at(s, off)),
        round32(v.1, le_u32_at(s, off + 4)),
        round32(v.2, le_u32_at(s, off + 8)),
        round32(v.3, le_u32_at(s, off + 12)),
    )
}

/// The four lanes after mixing the first `k` whole blocks of `s`.
pub open spec fn lanes32(seed: u32, s: Seq<u8>, k: int) -> (u32, u32, u32, u32)
    recommends
        16 * k <= s.len(),
    decreases k,
{
    if k <= 0 {
        init_lanes32(seed)
    } else {
        mix_block32(lanes32(seed, s, k - 1), s, 16 * (k - 1))
    }
}

/// Converge the four lanes into a single accumulator.
#[verifier::opaque]
pub open spec fn converge32(v: (u32, u32, u32, u32)) -> u32 {
    rotl32(v.0, 1).wrapping_add(rotl32(v.1, 7)).wrapping_add(rotl32(v.2, 12)).wrapping_add(
        rotl32(v.3, 18),
    )
}

/// Fold one remaining 32-bit word of the tail into the accumulator.
#[verifier::opaque]
pub open spec fn tail_word32(acc: u32, w: u32) -> u32 {
    rotl32(acc.wrapping_add(w.wrapping_mul(PRIME32_3)), 17).wrapping_mul(PRIME32_4)
}

/// Fold one remaining byte of the tail into the accumulator.
#[verifier::opaque]
pub open spec fn tail_byte32(acc: u32, b: u8) -> u32 {
    rotl32(acc.wrapping_add((b as u32).wrapping_mul(PRIME32_5)), 11).wrapping_mul(PRIME32_1)
}

/// Fold the tail bytes of `s`, from offset `i` to the end, into `acc`:
/// word-sized steps while four bytes remain, then byte-sized steps.
pub open spec fn tail32(acc: u32, s: Seq<u8>, i: int) -> u32
    decreases s.len() - i,
{
    if 0 <= i && i + 4 <= s.len() {
        tail32(tail_word32(acc, le_u32_at(s, i)), s, i + 4)
    } else if 0 <= i && i < s.len() {
        tail32(tail_byte32(acc, s[i]), s, i + 1)
    } else {
        acc
    }
}

/// The final shift/XOR/multiply scramble of the accumulator.
#[verifier::opaque]
pub open spec fn avalanche32(h: u32) -> u32 {
    let h1 = (h ^ (h >> 15)).wrapping_mul(PRIME32_2);
    let h2 = (h1 ^ (h1 >> 13)).wrapping_mul(PRIME32_3);
    h2 ^ (h2 >> 16)
}

/// The 32-bit digest of the byte sequence `s` under `seed`. Inputs shorter
/// than one 16-byte block never touch the lanes: their accumulator starts
/// directly from the seed.
pub open spec fn xxh32(s: Seq<u8>, seed: u32) -> u32 {
    let nb = s.len() as int / 16;
    let start = if s.len() >= 16 {
        converge32(lanes32(seed, s, nb))
    } else {
        seed.wrapping_add(PRIME32_5)
    };
    let folded = start.wrapping_add(((s.len() as int) % 0x1_0000_0000) as u32);
    avalanche32(tail32(folded, s, 16 * nb))
}

fn round32_exec(acc: u32, w: u32) -> (r: u32)
    ensures
        r == round32(acc, w),
{
    proof {
        reveal(round32);
    }
    rotate_left32(acc.wrapping_add(w.wrapping_mul(PRIME32_2)), 13).wrapping_mul(PRIME32_1)
}

fn tail_word32_exec(acc: u32, w: u32) -> (r: u32)
    ensures
        r == tail_word32(acc, w),
{
    proof {
        reveal(tail_word32);
    }
    rotate_left32(acc.wrapping_add(w.wrapping_mul(PRIME32_3)), 17).wrapping_mul(PRIME32_4)
}

fn tail_byte32_exec(acc: u32, b: u8) -> (r: u32)
    ensures
        r == tail_byte32(acc, b),
{
    proof {
        reveal(tail_byte32);
    }
    rotate_left32(acc.wrapping_add((b as u32).wrapping_mul(PRIME32_5)), 11).wrapping_mul(PRIME32_1)
}

fn avalanche32_exec(h: u32) -> (r: u32)
    ensures
        r == avalanche32(h),
{
    proof {
        reveal(avalanche32);
    }
    let h1 = (h ^ (h >> 15u32)).wrapping_mul(PRIME32_2);
    let h2 = (h1 ^ (h1 >> 13u32)).wrapping_mul(PRIME32_3);
    h2 ^ (h2 >> 16u32)
}

fn mix_block32_exec(v: (u32, u32, u32, u32), data: &[u8], off: usize) -> (r: (u32, u32, u32, u32))
    requires
        off + 16 <= data@.len(),
    ensures
        r == mix_block32(v, data@, off as int),
{
    // data.len() is a usize, so the block offsets below stay in range
    let n = data.len();
    let w0 = read_le_u32(data, off);
    let w1 = read_le_u32(data, off + 4);
    let w2 = read_le_u32(data, off + 8);
    let w3 = read_le_u32(data, off + 12);
    (round32_exec(v.0, w0), round32_exec(v.1, w1), round32_exec(v.2, w2), round32_exec(v.3, w3))
}

fn init_lanes32_exec(seed: u32) -> (r: (u32, u32, u32, u32))
    ensures
        r == init_lanes32(seed),
{
    (
        seed.wrapping_add(PRIME32_1).wrapping_add(PRIME32_2),
        seed.wrapping_add(PRIME32_2),
        seed,
        seed.wrapping_sub(PRIME32_1),
    )
}

fn converge32_exec(v: (u32, u32, u32, u32)) -> (r: u32)
    ensures
        r == converge32(v),
{
    proof {
        reveal(converge32);
    }
    rotate_left32(v.0, 1).wrapping_add(rotate_left32(v.1, 7)).wrapping_add(
        rotate_left32(v.2, 12),
    ).wrapping_add(rotate_left32(v.3, 18))
}

/// Run the tail and avalanche steps over `data[i..]`, starting from an
/// accumulator that already has the lanes and total length folded in.
fn finalize32_exec(acc: u32, data: &[u8], i: usize) -> (r: u32)
    requires
        i <= data@.len(),
    ensures
        r == avalanche32(tail32(acc, data@, i as int)),
{
    let mut h = acc;
    let mut j = i;
    while data.len() - j >= 4
        invariant
            j <= data@.len(),
            tail32(acc, data@, i as int) == tail32(h, data@, j as int),
        decreases data@.len() - j,
    {
        let w = read_le_u32(data, j);
        h = tail_word32_exec(h, w);
        j = j + 4;
    }
    while j < data.len()
        invariant
            j <= data@.len(),
            data@.len() < j + 4,
            tail32(acc, data@, i as int) == tail32(h, data@, j as int),
        decreases data@.len() - j,
    {
        let b = data[j];
        h = tail_byte32_exec(h, b);
        j = j + 1;
    }
    avalanche32_exec(h)
}

/// Hash a whole buffer with the given seed, returning the 32-bit digest.
///
/// One-shot form of the engine: the result is `xxh32` of the buffer's
/// bytes, so two calls on equal `(data, seed)` always agree, and the result
/// equals what `State32` returns after feeding the same bytes in any chunks.
pub fn hash32(data: &[u8], seed: u32) -> (r: u32)
    ensures
        r == xxh32(data@, seed),
{
    let ghost s = data@;
    let len = data.len();
    let mut i: usize = 0;
    let mut acc: u32;
    if len >= 16 {
        let mut v = init_lanes32_exec(seed);
        while len - i >= 16
            invariant
                data@ == s,
                len == s.len(),
                i % 16 == 0,
                i <= len,
                v == lanes32(seed, s, i as int / 16),
            decreases len - i,
        {
            proof {
                assert((i + 16) as int / 16 == i as int / 16 + 1 && 16 * ((i + 16) as int / 16 - 1)
                    == i as int) by (nonlinear_arith)
                    requires
                        i as int % 16 == 0,
                        i >= 0,
                ;
            }
            v = mix_block32_exec(v, data, i);
            i = i + 16;
        }
        proof {
            assert(i as int / 16 == len as int / 16 && 16 * (len as int / 16) == i as int)
                by (nonlinear_arith)
                requires
                    i as int % 16 == 0,
                    i <= len,
                    len < i + 16,
                    i >= 0,
            ;
        }
        acc = converge32_exec(v);
    } else {
        acc = seed.wrapping_add(PRIME32_5);
    }
    let len_folded: u32 = #[verifier::truncate] (len as u32);
    proof {
        assert(len as u32 == ((len as int) % 0x1_0000_0000) as u32) by (bit_vector);
    }
    acc = acc.wrapping_add(len_folded);
    finalize32_exec(acc, data, i)
}

/// Mixing the first `k` blocks reads only the first `16 * k` bytes, so two
/// sequences that agree there give equal lanes.
proof fn lemma_lanes32_prefix(seed: u32, s1: Seq<u8>, s2: Seq<u8>, k: int)
    requires
        0 <= k,
        16 * k <= s1.len(),
        16 * k <= s2.len(),
        forall|i: int| 0 <= i < 16 * k ==> s1[i] == s2[i],
    ensures
        lanes32(seed, s1, k) == lanes32(seed, s2, k),
    decreases k,
{
    if k > 0 {
        lemma_lanes32_prefix(seed, s1, s2, k - 1);
        let off = 16 * (k - 1);
        assert forall|i: int| off <= i < off + 16 implies s1[i] == s2[i] by {
            assert(0 <= i < 16 * k);
        }
        assert(le_u32_at(s1, off) == le_u32_at(s2, off));
        assert(le_u32_at(s1, off + 4) == le_u32_at(s2, off + 4));
        assert(le_u32_at(s1, off + 8) == le_u32_at(s2, off + 8));
        assert(le_u32_at(s1, off + 12) == le_u32_at(s2, off + 12));
    }
}

/// The tail fold reads only the bytes from its start offset to the end, so
/// it is the same over a sequence and over a copy of that suffix.
proof fn lemma_tail32_shift(acc: u32, s1: Seq<u8>, i1: int, s2: Seq<u8>, i2: int)
    requires
        0 <= i1 <= s1.len(),
        0 <= i2 <= s2.len(),
        s1.len() - i1 == s2.len() - i2,
        forall|j: int| i1 <= j < s1.len() ==> s1[j] == s2[j - i1 + i2],
    ensures
        tail32(acc, s1, i1) == tail32(acc, s2, i2),
    decreases s1.len() - i1,
{
    if i1 + 4 <= s1.len() {
        assert(le_u32_at(s1, i1) == le_u32_at(s2, i2));
        lemma_tail32_shift(tail_word32(acc, le_u32_at(s1, i1)), s1, i1 + 4, s2, i2 + 4);
    } else if i1 < s1.len() {
        assert(s1[i1] == s2[i2]);
        lemma_tail32_shift(tail_byte32(acc, s1[i1]), s1, i1 + 1, s2, i2 + 1);
    }
}

/// An incremental 32-bit hasher.
///
/// The hasher remembers, in ghost form, the whole byte stream fed to it
/// since the last `reset`; `finish` is proved to return exactly `xxh32` of
/// that stream under the current seed, however the stream was split across
/// `update` calls. A fresh hasher starts out identical to one that was
/// `reset` with seed `0`, so a digest may be taken at any point in its life.
#[derive(Clone)]
pub struct State32 {
    v1: u32,
    v2: u32,
    v3: u32,
    v4: u32,
    buf: Vec<u8>,
    total_len: u64,
    seed: u32,
    stream: Ghost<Seq<u8>>,
}

impl State32 {
    /// The bytes fed since the last reset.
    pub closed spec fn inputs(self) -> Seq<u8> {
        self.stream@
    }

    /// The seed given to the last reset.
    pub closed spec fn seed_value(self) -> u32 {
        self.seed
    }

    /// Internal consistency: the buffer holds exactly the trailing partial
    /// block of the stream, and the lanes have mixed every whole block.
    pub closed spec fn wf(self) -> bool {
        let s = self.stream@;
        &&& self.total_len == s.len()
        &&& self.buf@ == s.skip(s.len() - (s.len() % 16))
        &&& (self.v1, self.v2, self.v3, self.v4) == lanes32(
            self.seed,
            s,
            s.len() as int / 16,
        )
    }

    /// Creates a fresh hasher, in the same state as after `reset(0)`.
    pub fn new() -> (r: State32)
        ensures
            r.wf(),
            r.inputs() == Seq::<u8>::empty(),
            r.seed_value() == 0,
    {
        let mut r = State32 {
            v1: 0,
            v2: 0,
            v3: 0,
            v4: 0,
            buf: Vec::new(),
            total_len: 0,
            seed: 0,
            stream: Ghost(Seq::empty()),
        };
        r.reset(0);
        r
    }

    /// Discards all accumulated input and restarts the hasher with `seed`.
    pub fn reset(&mut self, seed: u32)
        ensures
            final(self).wf(),
            final(self).inputs() == Seq::<u8>::empty(),
            final(self).seed_value() == seed,
    {
        let v = init_lanes32_exec(seed);
        self.v1 = v.0;
        self.v2 = v.1;
        self.v3 = v.2;
        self.v4 = v.3;
        self.buf.clear();
        self.total_len = 0;
        self.seed = seed;
        self.stream = Ghost(Seq::empty());
        proof {
            assert(self.stream@.skip(0) =~= Seq::<u8>::empty());
        }
    }

    /// Feeds `data` to the hasher. Whole blocks are mixed into the lanes
    /// as soon as they are available; at most a partial block stays
    /// buffered. Splitting an input across calls in any way leaves the
    /// hasher in the same state as feeding it whole.
    #[verifier::rlimit(30)]
    pub fn update(&mut self, data: &[u8])
        requires
            old(self).wf(),
            old(self).inputs().len() + data@.len() <= u64::MAX,
        ensures
            final(self).wf(),
            final(self).inputs() == old(self).inputs().add(data@),
            final(self).seed_value() == old(self).seed_value(),
    {
        let ghost os = self.stream@;
        let ghost ns = os + data@;
        let ghost q = os.len() as int / 16;
        let ghost r0 = os.len() as int % 16;
        let len = data.len();
        let seed = self.seed;
        let mut v = (self.v1, self.v2, self.v3, self.v4);
        let mut buf: Vec<u8> = Vec::new();
        core::mem::swap(&mut buf, &mut self.buf);
        proof {
            assert(16 * q + r0 == os.len() && 0 <= r0 < 16) by (nonlinear_arith)
                requires
                    q == os.len() as int / 16,
                    r0 == os.len() as int % 16,
                    os.len() >= 0,
            ;
        }
        let new_total = self.total_len + (len as u64);
        let mut p: usize = 0;
        if len < 16 - buf.len() {
            // everything fits beside the buffered tail: no block completes
            push_range(&mut buf, data, 0, len);
            proof {
                assert(ns.len() as int % 16 == r0 + len && ns.len() as int / 16 == q)
                    by (nonlinear_arith)
                    requires
                        ns.len() == 16 * q + r0 + len,
                        0 <= r0,
                        0 <= len,
                        r0 + len < 16,
                        0 <= q,
                ;
                lemma_lanes32_prefix(seed, os, ns, q);
                assert(buf@ =~= ns.skip(ns.len() - (ns.len() % 16)));
            }
        } else {
            if buf.len() > 0 {
                // complete the buffered block first and mix it
                let fill = 16 - buf.len();
                push_range(&mut buf, data, 0, fill);
                p = fill;
                proof {
                    assert(buf@ =~= ns.subrange(16 * q, 16 * q + 16));
                    assert(le_u32_at(buf@, 0) == le_u32_at(ns, 16 * q) && le_u32_at(buf@, 4)
                        == le_u32_at(ns, 16 * q + 4) && le_u32_at(buf@, 8) == le_u32_at(
                        ns,
                        16 * q + 8,
                    ) && le_u32_at(buf@, 12) == le_u32_at(ns, 16 * q + 12));
                    lemma_lanes32_prefix(seed, os, ns, q);
                }
                v = mix_block32_exec(v, buf.as_slice(), 0);
                proof {
                    assert(v == lanes32(seed, ns, q + 1));
                    assert((os.len() + p) as int % 16 == 0 && (os.len() + p) as int / 16 == q
                        + 1) by (nonlinear_arith)
                        requires
                            os.len() == 16 * q + r0,
                            p == 16 - r0,
                            0 <= r0 < 16,
                            0 <= q,
                    ;
                }
                buf.clear();
            } else {
                proof {
                    assert(r0 == 0);
                    assert((os.len() + p) as int % 16 == 0 && (os.len() + p) as int / 16 == q)
                        by (nonlinear_arith)
                        requires
                            os.len() == 16 * q + r0,
                            r0 == 0,
                            p == 0,
                            0 <= q,
                    ;
                    lemma_lanes32_prefix(seed, os, ns, q);
                }
            }
            while len - p >= 16
                invariant
                    p <= len,
                    len == data@.len(),
                    ns == os + data@,
                    (os.len() + p) as int % 16 == 0,
                    v == lanes32(seed, ns, (os.len() + p) as int / 16),
                    buf@.len() == 0,
                decreases len - p,
            {
                let ghost k = (os.len() + p) as int / 16;
                proof {
                    assert(16 * k == os.len() + p) by (nonlinear_arith)
                        requires
                            k == (os.len() + p) as int / 16,
                            (os.len() + p) as int % 16 == 0,
                            os.len() + p >= 0,
                    ;
                    assert(le_u32_at(data@, p as int) == le_u32_at(ns, 16 * k) && le_u32_at(
                        data@,
                        p + 4,
                    ) == le_u32_at(ns, 16 * k + 4) && le_u32_at(data@, p + 8) == le_u32_at(
                        ns,
                        16 * k + 8,
                    ) && le_u32_at(data@, p + 12) == le_u32_at(ns, 16 * k + 12));
                }
                v = mix_block32_exec(v, data, p);
                proof {
                    assert(v == lanes32(seed, ns, k + 1));
                    assert((os.len() + p + 16) as int % 16 == 0 && (os.len() + p + 16) as int
                        / 16 == k + 1) by (nonlinear_arith)
                        requires
                            16 * k == os.len() + p,
                            0 <= k,
                    ;
                }
                p = p + 16;
            }
            push_range(&mut buf, data, p, len);
            proof {
                let k = (os.len() + p) as int / 16;
                assert(16 * k == os.len() + p) by (nonlinear_arith)
                    requires
                        k == (os.len() + p) as int / 16,
                        (os.len() + p) as int % 16 == 0,
                        os.len() + p >= 0,
                ;
                assert(ns.len() as int % 16 == len - p && ns.len() as int / 16 == k)
                    by (nonlinear_arith)
                    requires
                        ns.len() == 16 * k + (len - p),
                        0 <= len - p < 16,
                        0 <= k,
                ;
                assert(buf@ =~= ns.skip(ns.len() - (ns.len() % 16)));
            }
        }
        self.v1 = v.0;
        self.v2 = v.1;
        self.v3 = v.2;
        self.v4 = v.3;
        self.buf = buf;
        self.total_len = new_total;
        self.stream = Ghost(ns);
    }

    /// Returns the digest of everything fed since the last reset: exactly
    /// `xxh32` of that stream. Reads the state without changing it, so
    /// repeated calls agree and `update` may continue afterwards.
    pub fn finish(&self) -> (r: u32)
        requires
            self.wf(),
        ensures
            r == xxh32(self.inputs(), self.seed_value()),
    {
        let ghost s = self.stream@;
        let ghost nb = s.len() as int / 16;
        proof {
            assert(16 * nb == s.len() - (s.len() as int % 16) && 0 <= s.len() as int % 16 < 16)
                by (nonlinear_arith)
                requires
                    nb == s.len() as int / 16,
                    s.len() >= 0,
            ;
        }
        let mut acc: u32;
        if self.total_len < 16 {
            acc = self.seed.wrapping_add(PRIME32_5);
        } else {
            acc = converge32_exec((self.v1, self.v2, self.v3, self.v4));
        }
        let len_folded: u32 = #[verifier::truncate] (self.total_len as u32);
        proof {
            let tl: u64 = self.total_len;
            assert(tl as u32 == ((tl as int) % 0x1_0000_0000) as u32) by (bit_vector);
        }
        acc = acc.wrapping_add(len_folded);
        let r = finalize32_exec(acc, self.buf.as_slice(), 0);
        proof {
            lemma_tail32_shift(acc, s, 16 * nb, self.buf@, 0);
        }
        r
    }
}

impl Default for State32 {
    /// Same as `new`: a fresh hasher, in the state left by `reset(0)`.
    fn default() -> (r: State32)
        ensures
            r.wf(),
            r.inputs() == Seq::<u8>::empty(),
            r.seed_value() == 0,
    {
        State32::new()
    }
}

} // verus!
