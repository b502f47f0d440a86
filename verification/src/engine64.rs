//! The 64-bit engine: the block-mixing algorithm over four accumulator
//! lanes, the tail and avalanche finalization, the one-shot `hash64`, and
//! the incremental `State64` hasher.
//!
//! Mirror of the 32-bit engine at twice the word width: blocks are 32
//! bytes, lane convergence adds a merge round per lane, and the tail
//! processes one optional 32-bit word between the 64-bit words and the
//! trailing bytes. `xxh64(s, seed)` is the mathematical definition of the
//! digest that the executable functions are proved to return.

use vstd::prelude::*;

use crate::bits::{le_u32_at, le_u64_at, rotl64};
use crate::bits::{push_range, read_le_u32, read_le_u64, rotate_left64};

verus! {

/// First odd prime of the 64-bit variant; all five are fixed by the
/// published algorithm and have no semantic meaning of their own.
pub const PRIME64_1: u64 = 0x9E3779B185EBCA87;

pub const PRIME64_2: u64 = 0xC2B2AE3D27D4EB4F;

pub const PRIME64_3: u64 = 0x165667B19E3779F9;

pub const PRIME64_4: u64 = 0x85EBCA77C2B2AE63;

pub const PRIME64_5: u64 = 0x27D4EB2F165667C5;

/// One round of the per-lane mix: fold a 64-bit input word into a lane.
#[verifier::opaque]
pub open spec fn round64(acc: u64, w: u64) -> u64 {
    rotl64(acc.wrapping_add(w.wrapping_mul(PRIME64_2)), 31).wrapping_mul(PRIME64_1)
}

/// The four lanes derived from the seed before any block is mixed.
pub open spec fn init_lanes64(seed: u64) -> (u64, u64, u64, u64) {
    (
        seed.wrapping_add(PRIME64_1).wrapping_add(PRIME64_2),
        seed.wrapping_add(PRIME64_2),
        seed,
        seed.wrapping_sub(PRIME64_1),
    )
}

/// Mix the 32-byte block at offset `off` of `s` into the four lanes.
pub open spec fn mix_block64(v: (u64, u64, u64, u64), s: Seq<u8>, off: int) -> (u64, u64, u64, u64)
    recommends
        0 <= off,
        off + 32 <= s.len(),
{
    (
        round64(v.0, le_u64_at(s, off)),
        round64(v.1, le_u64_at(s, off + 8)),
        round64(v.2, le_u64_at(s, off + 16)),
        round64(v.3, le_u64_at(s, off + 24)),
    )
}

/// The four lanes after mixing the first `k` whole blocks of `s`.
pub open spec fn lanes64(seed: u64, s: Seq<u8>, k: int) -> (u64, u64, u64, u64)
    recommends
        32 * k <= s.len(),
    decreases k,
{
    if k <= 0 {
        init_lanes64(seed)
    } else {
        mix_block64(lanes64(seed, s, k - 1), s, 32 * (k - 1))
    }
}

/// Fold one converged lane back into the accumulator.
#[verifier::opaque]
pub open spec fn merge_round64(acc: u64, lane: u64) -> u64 {
    (acc ^ round64(0, lane)).wrapping_mul(PRIME64_1).wrapping_add(PRIME64_4)
}

/// Converge the four lanes into a single accumulator.
#[verifier::opaque]
pub open spec fn converge64(v: (u64, u64, u64, u64)) -> u64 {
    let h = rotl64(v.0, 1).wrapping_add(rotl64(v.1, 7)).wrapping_add(rotl64(v.2, 12)).wrapping_add(
        rotl64(v.3, 18),
    );
    merge_round64(merge_round64(merge_round64(merge_round64(h, v.0), v.1), v.2), v.3)
}

/// Fold one remaining 64-bit word of the tail into the accumulator.
#[verifier::opaque]
pub open spec fn tail_word64(acc: u64, w: u64) -> u64 {
    rotl64(acc ^ round64(0, w), 27).wrapping_mul(PRIME64_1).wrapping_add(PRIME64_4)
}

/// Fold one remaining 32-bit word of the tail into the accumulator.
#[verifier::opaque]
pub open spec fn tail_half64(acc: u64, w: u32) -> u64 {
    rotl64(acc ^ (w as u64).wrapping_mul(PRIME64_1), 23).wrapping_mul(PRIME64_2).wrapping_add(
        PRIME64_3,
    )
}

/// Fold one remaining byte of the tail into the accumulator.
#[verifier::opaque]
pub open spec fn tail_byte64(acc: u64, b: u8) -> u64 {
    rotl64(acc ^ (b as u64).wrapping_mul(PRIME64_5), 11).wrapping_mul(PRIME64_1)
}

/// Fold the tail bytes of `s`, from offset `i` to the end, into `acc`:
/// 64-bit steps while eight bytes remain, one 32-bit step if four remain,
/// then byte-sized steps.
pub open spec fn tail64(acc: u64, s: Seq<u8>, i: int) -> u64
    decreases s.len() - i,
{
    if 0 <= i && i + 8 <= s.len() {
        tail64(tail_word64(acc, le_u64_at(s, i)), s, i + 8)
    } else if 0 <= i && i + 4 <= s.len() {
        tail64(tail_half64(acc, le_u32_at(s, i)), s, i + 4)
    } else if 0 <= i && i < s.len() {
        tail64(tail_byte64(acc, s[i]), s, i + 1)
    } else {
        acc
    }
}

/// The final shift/XOR/multiply scramble of the accumulator.
#[verifier::opaque]
pub open spec fn avalanche64(h: u64) -> u64 {
    let h1 = (h ^ (h >> 33)).wrapping_mul(PRIME64_2);
    let h2 = (h1 ^ (h1 >> 29)).wrapping_mul(PRIME64_3);
    h2 ^ (h2 >> 32)
}

/// The 64-bit digest of the byte sequence `s` under `seed`. Inputs shorter
/// than one 32-byte block never touch the lanes: their accumulator starts
/// directly from the seed.
pub open spec fn xxh64(s: Seq<u8>, seed: u64) -> u64 {
    let nb = s.len() as int / 32;
    let start = if s.len() >= 32 {
        converge64(lanes64(seed, s, nb))
    } else {
        seed.wrapping_add(PRIME64_5)
    };
    let folded = start.wrapping_add(((s.len() as int) % 0x1_0000_0000_0000_0000) as u64);
    avalanche64(tail64(folded, s, 32 * nb))
}

fn round64_exec(acc: u64, w: u64) -> (r: u64)
    ensures
        r == round64(acc, w),
{
    proof {
        reveal(round64);
    }
    rotate_left64(acc.wrapping_add(w.wrapping_mul(PRIME64_2)), 31).wrapping_mul(PRIME64_1)
}

fn merge_round64_exec(acc: u64, lane: u64) -> (r: u64)
    ensures
        r == merge_round64(acc, lane),
{
    proof {
        reveal(merge_round64);
    }
    let folded = round64_exec(0, lane);
    (acc ^ folded).wrapping_mul(PRIME64_1).wrapping_add(PRIME64_4)
}

fn tail_word64_exec(acc: u64, w: u64) -> (r: u64)
    ensures
        r == tail_word64(acc, w),
{
    proof {
        reveal(tail_word64);
    }
    let folded = round64_exec(0, w);
    rotate_left64(acc ^ folded, 27).wrapping_mul(PRIME64_1).wrapping_add(PRIME64_4)
}

fn tail_half64_exec(acc: u64, w: u32) -> (r: u64)
    ensures
        r == tail_half64(acc, w),
{
    proof {
        reveal(tail_half64);
    }
    rotate_left64(acc ^ (w as u64).wrapping_mul(PRIME64_1), 23).wrapping_mul(
        PRIME64_2,
    ).wrapping_add(PRIME64_3)
}

fn tail_byte64_exec(acc: u64, b: u8) -> (r: u64)
    ensures
        r == tail_byte64(acc, b),
{
    proof {
        reveal(tail_byte64);
    }
    rotate_left64(acc ^ (b as u64).wrapping_mul(PRIME64_5), 11).wrapping_mul(PRIME64_1)
}

fn avalanche64_exec(h: u64) -> (r: u64)
    ensures
        r == avalanche64(h),
{
    proof {
        reveal(avalanche64);
    }
    let h1 = (h ^ (h >> 33u64)).wrapping_mul(PRIME64_2);
    let h2 = (h1 ^ (h1 >> 29u64)).wrapping_mul(PRIME64_3);
    h2 ^ (h2 >> 32u64)
}

fn mix_block64_exec(v: (u64, u64, u64, u64), data: &[u8], off: usize) -> (r: (u64, u64, u64, u64))
    requires
        off + 32 <= data@.len(),
    ensures
        r == mix_block64(v, data@, off as int),
{
    // data.len() is a usize, so the block offsets below stay in range
    let n = data.len();
    let w0 = read_le_u64(data, off);
    let w1 = read_le_u64(data, off + 8);
    let w2 = read_le_u64(data, off + 16);
    let w3 = read_le_u64(data, off + 24);
    (round64_exec(v.0, w0), round64_exec(v.1, w1), round64_exec(v.2, w2), round64_exec(v.3, w3))
}

fn init_lanes64_exec(seed: u64) -> (r: (u64, u64, u64, u64))
    ensures
        r == init_lanes64(seed),
{
    (
        seed.wrapping_add(PRIME64_1).wrapping_add(PRIME64_2),
        seed.wrapping_add(PRIME64_2),
        seed,
        seed.wrapping_sub(PRIME64_1),
    )
}

fn converge64_exec(v: (u64, u64, u64, u64)) -> (r: u64)
    ensures
        r == converge64(v),
{
    proof {
        reveal(converge64);
    }
    let h = rotate_left64(v.0, 1).wrapping_add(rotate_left64(v.1, 7)).wrapping_add(
        rotate_left64(v.2, 12),
    ).wrapping_add(rotate_left64(v.3, 18));
    let h = merge_round64_exec(h, v.0);
    let h = merge_round64_exec(h, v.1);
    let h = merge_round64_exec(h, v.2);
    merge_round64_exec(h, v.3)
}

/// Run the tail and avalanche steps over `data[i..]`, starting from an
/// accumulator that already has the lanes and total length folded in.
fn finalize64_exec(acc: u64, data: &[u8], i: usize) -> (r: u64)
    requires
        i <= data@.len(),
    ensures
        r == avalanche64(tail64(acc, data@, i as int)),
{
    let mut h = acc;
    let mut j = i;
    while data.len() - j >= 8
        invariant
            j <= data@.len(),
            tail64(acc, data@, i as int) == tail64(h, data@, j as int),
        decreases data@.len() - j,
    {
        let w = read_le_u64(data, j);
        h = tail_word64_exec(h, w);
        j = j + 8;
    }
    if data.len() - j >= 4 {
        let w = read_le_u32(data, j);
        h = tail_half64_exec(h, w);
        j = j + 4;
    }
    while j < data.len()
        invariant
            j <= data@.len(),
            data@.len() < j + 4,
            tail64(acc, data@, i as int) == tail64(h, data@, j as int),
        decreases data@.len() - j,
    {
        let b = data[j];
        h = tail_byte64_exec(h, b);
        j = j + 1;
    }
    avalanche64_exec(h)
}

/// Hash a whole buffer with the given seed, returning the 64-bit digest.
///
/// One-shot form of the engine: the result is `xxh64` of the buffer's
/// bytes, so two calls on equal `(data, seed)` always agree, and the result
/// equals what `State64` returns after feeding the same bytes in any chunks.
pub fn hash64(data: &[u8], seed: u64) -> (r: u64)
    ensures
        r == xxh64(data@, seed),
{
    let ghost s = data@;
    let len = data.len();
    let mut i: usize = 0;
    let mut acc: u64;
    if len >= 32 {
        let mut v = init_lanes64_exec(seed);
        while len - i >= 32
            invariant
                data@ == s,
                len == s.len(),
                i % 32 == 0,
                i <= len,
                v == lanes64(seed, s, i as int / 32),
            decreases len - i,
        {
            proof {
                assert((i + 32) as int / 32 == i as int / 32 + 1 && 32 * ((i + 32) as int / 32 - 1)
                    == i as int) by (nonlinear_arith)
                    requires
                        i as int % 32 == 0,
                        i >= 0,
                ;
            }
            v = mix_block64_exec(v, data, i);
            i = i + 32;
        }
        proof {
            assert(i as int / 32 == len as int / 32 && 32 * (len as int / 32) == i as int)
                by (nonlinear_arith)
                requires
                    i as int % 32 == 0,
                    i <= len,
                    len < i + 32,
                    i >= 0,
            ;
        }
        acc = converge64_exec(v);
    } else {
        acc = seed.wrapping_add(PRIME64_5);
    }
    let len_folded: u64 = len as u64;
    proof {
        assert(len as u64 == ((len as int) % 0x1_0000_0000_0000_0000) as u64) by (bit_vector);
    }
    acc = acc.wrapping_add(len_folded);
    finalize64_exec(acc, data, i)
}

/// Mixing the first `k` blocks reads only the first `32 * k` bytes, so two
/// sequences that agree there give equal lanes.
proof fn lemma_lanes64_prefix(seed: u64, s1: Seq<u8>, s2: Seq<u8>, k: int)
    requires
        0 <= k,
        32 * k <= s1.len(),
        32 * k <= s2.len(),
        forall|i: int| 0 <= i < 32 * k ==> s1[i] == s2[i],
    ensures
        lanes64(seed, s1, k) == lanes64(seed, s2, k),
    decreases k,
{
    if k > 0 {
        lemma_lanes64_prefix(seed, s1, s2, k - 1);
        let off = 32 * (k - 1);
        assert forall|i: int| off <= i < off + 32 implies s1[i] == s2[i] by {
            assert(0 <= i < 32 * k);
        }
        assert(le_u64_at(s1, off) == le_u64_at(s2, off));
        assert(le_u64_at(s1, off + 8) == le_u64_at(s2, off + 8));
        assert(le_u64_at(s1, off + 16) == le_u64_at(s2, off + 16));
        assert(le_u64_at(s1, off + 24) == le_u64_at(s2, off + 24));
    }
}

/// The tail fold reads only the bytes from its start offset to the end, so
/// it is the same over a sequence and over a copy of that suffix.
proof fn lemma_tail64_shift(acc: u64, s1: Seq<u8>, i1: int, s2: Seq<u8>, i2: int)
    requires
        0 <= i1 <= s1.len(),
        0 <= i2 <= s2.len(),
        s1.len() - i1 == s2.len() - i2,
        forall|j: int| i1 <= j < s1.len() ==> s1[j] == s2[j - i1 + i2],
    ensures
        tail64(acc, s1, i1) == tail64(acc, s2, i2),
    decreases s1.len() - i1,
{
    if i1 + 8 <= s1.len() {
        assert(le_u64_at(s1, i1) == le_u64_at(s2, i2));
        lemma_tail64_shift(tail_word64(acc, le_u64_at(s1, i1)), s1, i1 + 8, s2, i2 + 8);
    } else if i1 + 4 <= s1.len() {
        assert(le_u32_at(s1, i1) == le_u32_at(s2, i2));
        lemma_tail64_shift(tail_half64(acc, le_u32_at(s1, i1)), s1, i1 + 4, s2, i2 + 4);
    } else if i1 < s1.len() {
        assert(s1[i1] == s2[i2]);
        lemma_tail64_shift(tail_byte64(acc, s1[i1]), s1, i1 + 1, s2, i2 + 1);
    }
}

/// An incremental 64-bit hasher.
///
/// The hasher remembers, in ghost form, the whole byte stream fed to it
/// since the last `reset`; `finish` is proved to return exactly `xxh64` of
/// that stream under the current seed, however the stream was split across
/// `update` calls. A fresh hasher starts out identical to one that was
/// `reset` with seed `0`, so a digest may be taken at any point in its life.
#[derive(Clone)]
pub struct State64 {
    v1: u64,
    v2: u64,
    v3: u64,
    v4: u64,
    buf: Vec<u8>,
    total_len: u64,
    seed: u64,
    stream: Ghost<Seq<u8>>,
}

impl State64 {
    /// The bytes fed since the last reset.
    pub closed spec fn inputs(self) -> Seq<u8> {
        self.stream@
    }

    /// The seed given to the last reset.
    pub closed spec fn seed_value(self) -> u64 {
        self.seed
    }

    /// Internal consistency: the buffer holds exactly the trailing partial
    /// block of the stream, and the lanes have mixed every whole block.
    pub closed spec fn wf(self) -> bool {
        let s = self.stream@;
        &&& self.total_len == s.len()
        &&& self.buf@ == s.skip(s.len() - (s.len() % 32))
        &&& (self.v1, self.v2, self.v3, self.v4) == lanes64(self.seed, s, s.len() as int / 32)
    }

    /// Creates a fresh hasher, in the same state as after `reset(0)`.
    pub fn new() -> (r: State64)
        ensures
            r.wf(),
            r.inputs() == Seq::<u8>::empty(),
            r.seed_value() == 0,
    {
        let mut r = State64 {
            v1: 0,
            v2: 0,
            v3: 0,
            v4: 0,
            buf: Vec::new(),
            total_len: 0,
            seed: 0,
            stream: Ghost(Seq::empty()),
        };
        r.reset(0);
        r
    }

    /// Discards all accumulated input and restarts the hasher with `seed`.
    pub fn reset(&mut self, seed: u64)
        ensures
            final(self).wf(),
            final(self).inputs() == Seq::<u8>::empty(),
            final(self).seed_value() == seed,
    {
        let v = init_lanes64_exec(seed);
        self.v1 = v.0;
        self.v2 = v.1;
        self.v3 = v.2;
        self.v4 = v.3;
        self.buf.clear();
        self.total_len = 0;
        self.seed = seed;
        self.stream = Ghost(Seq::empty());
        proof {
            assert(self.stream@.skip(0) =~= Seq::<u8>::empty());
        }
    }

    /// Feeds `data` to the hasher. Whole blocks are mixed into the lanes
    /// as soon as they are available; at most a partial block stays
    /// buffered. Splitting an input across calls in any way leaves the
    /// hasher in the same state as feeding it whole.
    #[verifier::rlimit(30)]
    pub fn update(&mut self, data: &[u8])
        requires
            old(self).wf(),
            old(self).inputs().len() + data@.len() <= u64::MAX,
        ensures
            final(self).wf(),
            final(self).inputs() == old(self).inputs().add(data@),
            final(self).seed_value() == old(self).seed_value(),
    {
        let ghost os = self.stream@;
        let ghost ns = os + data@;
        let ghost q = os.len() as int / 32;
        let ghost r0 = os.len() as int % 32;
        let len = data.len();
        let seed = self.seed;
        let mut v = (self.v1, self.v2, self.v3, self.v4);
        let mut buf: Vec<u8> = Vec::new();
        core::mem::swap(&mut buf, &mut self.buf);
        proof {
            assert(32 * q + r0 == os.len() && 0 <= r0 < 32) by (nonlinear_arith)
                requires
                    q == os.len() as int / 32,
                    r0 == os.len() as int % 32,
                    os.len() >= 0,
            ;
        }
        let new_total = self.total_len + (len as u64);
        let mut p: usize = 0;
        if len < 32 - buf.len() {
            // everything fits beside the buffered tail: no block completes
            push_range(&mut buf, data, 0, len);
            proof {
                assert(ns.len() as int % 32 == r0 + len && ns.len() as int / 32 == q)
                    by (nonlinear_arith)
                    requires
                        ns.len() == 32 * q + r0 + len,
                        0 <= r0,
                        0 <= len,
                        r0 + len < 32,
                        0 <= q,
                ;
                lemma_lanes64_prefix(seed, os, ns, q);
                assert(buf@ =~= ns.skip(ns.len() - (ns.len() % 32)));
            }
        } else {
            if buf.len() > 0 {
                // complete the buffered block first and mix it
                let fill = 32 - buf.len();
                push_range(&mut buf, data, 0, fill);
                p = fill;
                proof {
                    assert(buf@ =~= ns.subrange(32 * q, 32 * q + 32));
                    assert(le_u64_at(buf@, 0) == le_u64_at(ns, 32 * q) && le_u64_at(buf@, 8)
                        == le_u64_at(ns, 32 * q + 8) && le_u64_at(buf@, 16) == le_u64_at(
                        ns,
                        32 * q + 16,
                    ) && le_u64_at(buf@, 24) == le_u64_at(ns, 32 * q + 24));
                    lemma_lanes64_prefix(seed, os, ns, q);
                }
                v = mix_block64_exec(v, buf.as_slice(), 0);
                proof {
                    assert(v == lanes64(seed, ns, q + 1));
                    assert((os.len() + p) as int % 32 == 0 && (os.len() + p) as int / 32 == q
                        + 1) by (nonlinear_arith)
                        requires
                            os.len() == 32 * q + r0,
                            p == 32 - r0,
                            0 <= r0 < 32,
                            0 <= q,
                    ;
                }
                buf.clear();
            } else {
                proof {
                    assert(r0 == 0);
                    assert((os.len() + p) as int % 32 == 0 && (os.len() + p) as int / 32 == q)
                        by (nonlinear_arith)
                        requires
                            os.len() == 32 * q + r0,
                            r0 == 0,
                            p == 0,
                            0 <= q,
                    ;
                    lemma_lanes64_prefix(seed, os, ns, q);
                }
            }
            while len - p >= 32
                invariant
                    p <= len,
                    len == data@.len(),
                    ns == os + data@,
                    (os.len() + p) as int % 32 == 0,
                    v == lanes64(seed, ns, (os.len() + p) as int / 32),
                    buf@.len() == 0,
                decreases len - p,
            {
                let ghost k = (os.len() + p) as int / 32;
                proof {
                    assert(32 * k == os.len() + p) by (nonlinear_arith)
                        requires
                            k == (os.len() + p) as int / 32,
                            (os.len() + p) as int % 32 == 0,
                            os.len() + p >= 0,
                    ;
                    assert(le_u64_at(data@, p as int) == le_u64_at(ns, 32 * k) && le_u64_at(
                        data@,
                        p + 8,
                    ) == le_u64_at(ns, 32 * k + 8) && le_u64_at(data@, p + 16) == le_u64_at(
                        ns,
                        32 * k + 16,
                    ) && le_u64_at(data@, p + 24) == le_u64_at(ns, 32 * k + 24));
                }
                v = mix_block64_exec(v, data, p);
                proof {
                    assert(v == lanes64(seed, ns, k + 1));
                    assert((os.len() + p + 32) as int % 32 == 0 && (os.len() + p + 32) as int / 32
                        == k + 1) by (nonlinear_arith)
                        requires
                            32 * k == os.len() + p,
                            0 <= k,
                    ;
                }
                p = p + 32;
            }
            push_range(&mut buf, data, p, len);
            proof {
                let k = (os.len() + p) as int / 32;
                assert(32 * k == os.len() + p) by (nonlinear_arith)
                    requires
                        k == (os.len() + p) as int / 32,
                        (os.len() + p) as int % 32 == 0,
                        os.len() + p >= 0,
                ;
                assert(ns.len() as int % 32 == len - p && ns.len() as int / 32 == k)
                    by (nonlinear_arith)
                    requires
                        ns.len() == 32 * k + (len - p),
                        0 <= len - p < 32,
                        0 <= k,
                ;
                assert(buf@ =~= ns.skip(ns.len() - (ns.len() % 32)));
            }
        }
        self.v1 = v.0;
        self.v2 = v.1;
        self.v3 = v.2;
        self.v4 = v.3;
        self.buf = buf;
        self.total_len = new_total;
        self.stream = Ghost(ns);
    }

    /// Returns the digest of everything fed since the last reset: exactly
    /// `xxh64` of that stream. Reads the state without changing it, so
    /// repeated calls agree and `update` may continue afterwards.
    pub fn finish(&self) -> (r: u64)
        requires
            self.wf(),
        ensures
            r == xxh64(self.inputs(), self.seed_value()),
    {
        let ghost s = self.stream@;
        let ghost nb = s.len() as int / 32;
        proof {
            assert(32 * nb == s.len() - (s.len() as int % 32) && 0 <= s.len() as int % 32 < 32)
                by (nonlinear_arith)
                requires
                    nb == s.len() as int / 32,
                    s.len() >= 0,
            ;
        }
        let mut acc: u64;
        if self.total_len < 32 {
            acc = self.seed.wrapping_add(PRIME64_5);
        } else {
            acc = converge64_exec((self.v1, self.v2, self.v3, self.v4));
        }
        let len_folded: u64 = self.total_len;
        proof {
            let tl: u64 = self.total_len;
            assert(tl == ((tl as int) % 0x1_0000_0000_0000_0000) as u64) by (bit_vector);
        }
        acc = acc.wrapping_add(len_folded);
        let r = finalize64_exec(acc, self.buf.as_slice(), 0);
        proof {
            lemma_tail64_shift(acc, s, 32 * nb, self.buf@, 0);
        }
        r
    }
}

impl Default for State64 {
    /// Same as `new`: a fresh hasher, in the state left by `reset(0)`.
    fn default() -> (r: State64)
        ensures
            r.wf(),
            r.inputs() == Seq::<u8>::empty(),
            r.seed_value() == 0,
    {
        State64::new()
    }
}

} // verus!
