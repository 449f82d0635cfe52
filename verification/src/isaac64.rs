//! The ISAAC-64 random number generator: the 64-bit word variant of the
//! ISAAC algorithm.
//!
//! Structurally parallel to the 32-bit variant but numerically distinct: a
//! pool of 256 64-bit words, its own golden-ratio constant, its own mixing
//! round, and its own shift amounts in the permutation round, whose first
//! sub-step of every group of four complements the mixing value. The native
//! output is `next_u64`; `next_u32` truncates a fresh 64-bit word, and byte
//! filling is derived from `next_u64`.
//!
//! The specification functions in this module are the mathematical model of
//! the algorithm; every method's contract ties the executable state to it.

use vstd::prelude::*;
use vstd::wrapping::u64_specs;
use crate::error::Error;
use crate::source::{Rng, SeedFromRng, SeedableRng};
use crate::source::{combine_u64, combine_u64_spec};
use crate::source::{le_bytes_u64, write_u64_le};

verus! {

/// The golden-ratio-derived constant that seeds the mixing variables.
pub const GOLDEN_RATIO_64: u64 = 0x9e3779b97f4a7c13;

/// Addition on 64-bit words, wrapping on overflow.
pub open spec fn wadd(x: u64, y: u64) -> u64 {
    u64_specs::wrapping_add(x, y)
}

/// Subtraction on 64-bit words, wrapping on underflow.
pub open spec fn wsub(x: u64, y: u64) -> u64 {
    u64_specs::wrapping_sub(x, y)
}

/// The eight mixing variables scrambled during initialisation.
#[derive(Clone, Copy)]
pub struct Mix64 {
    pub a: u64,
    pub b: u64,
    pub c: u64,
    pub d: u64,
    pub e: u64,
    pub f: u64,
    pub g: u64,
    pub h: u64,
}

/// One eight-variable mixing round: a fixed sequence of subtract/XOR/shift/
/// add steps across all eight variables.
pub open spec fn mix(m: Mix64) -> Mix64 {
    let a = m.a;
    let b = m.b;
    let c = m.c;
    let d = m.d;
    let e = m.e;
    let f = m.f;
    let g = m.g;
    let h = m.h;
    let a = wsub(a, e);
    let f = f ^ (h >> 9u64);
    let h = wadd(h, a);
    let b = wsub(b, f);
    let g = g ^ (a << 9u64);
    let a = wadd(a, b);
    let c = wsub(c, g);
    let h = h ^ (b >> 23u64);
    let b = wadd(b, c);
    let d = wsub(d, h);
    let a = a ^ (c << 15u64);
    let c = wadd(c, d);
    let e = wsub(e, a);
    let b = b ^ (d >> 14u64);
    let d = wadd(d, e);
    let f = wsub(f, b);
    let c = c ^ (e << 20u64);
    let e = wadd(e, f);
    let g = wsub(g, c);
    let d = d ^ (f >> 17u64);
    let f = wadd(f, g);
    let h = wsub(h, d);
    let e = e ^ (g << 14u64);
    let g = wadd(g, h);
    Mix64 { a, b, c, d, e, f, g, h }
}

/// The mixing variables at the start of initialisation: every variable holds
/// the golden-ratio constant, scrambled by four mixing rounds.
pub open spec fn init_vars() -> Mix64 {
    let m = Mix64 {
        a: GOLDEN_RATIO_64,
        b: GOLDEN_RATIO_64,
        c: GOLDEN_RATIO_64,
        d: GOLDEN_RATIO_64,
        e: GOLDEN_RATIO_64,
        f: GOLDEN_RATIO_64,
        g: GOLDEN_RATIO_64,
        h: GOLDEN_RATIO_64,
    };
    mix(mix(mix(mix(m))))
}

/// The mixing variables with the eight entries of `arr` at `i .. i + 8`
/// added in.
pub open spec fn add_block(m: Mix64, arr: Seq<u64>, i: int) -> Mix64 {
    Mix64 {
        a: wadd(m.a, arr[i]),
        b: wadd(m.b, arr[i + 1]),
        c: wadd(m.c, arr[i + 2]),
        d: wadd(m.d, arr[i + 3]),
        e: wadd(m.e, arr[i + 4]),
        f: wadd(m.f, arr[i + 5]),
        g: wadd(m.g, arr[i + 6]),
        h: wadd(m.h, arr[i + 7]),
    }
}

/// `mem` with the eight mixing variables written at `i .. i + 8`.
pub open spec fn write_block(mem: Seq<u64>, i: int, m: Mix64) -> Seq<u64> {
    mem.update(i, m.a).update(i + 1, m.b).update(i + 2, m.c).update(i + 3, m.d).update(
        i + 4,
        m.e,
    ).update(i + 5, m.f).update(i + 6, m.g).update(i + 7, m.h)
}

/// The first seeding pass after `k` blocks: for each block of eight pool
/// entries, the corresponding eight entries of the seed buffer `arr` are
/// added into the variables, one mixing round runs, and the variables are
/// written into that pool block.
pub open spec fn seed_pass(vars: Mix64, arr: Seq<u64>, mem: Seq<u64>, k: nat) -> (Mix64, Seq<u64>)
    decreases k,
{
    if k == 0 {
        (vars, mem)
    } else {
        let prev = seed_pass(vars, arr, mem, (k - 1) as nat);
        let m2 = mix(add_block(prev.0, arr, 8 * (k - 1)));
        (m2, write_block(prev.1, 8 * (k - 1), m2))
    }
}

/// The second seeding pass after `k` blocks: as the first, but the additive
/// input is the pool itself, block values from the first pass feeding the
/// second.
pub open spec fn seed_pass_mem(vars: Mix64, mem: Seq<u64>, k: nat) -> (Mix64, Seq<u64>)
    decreases k,
{
    if k == 0 {
        (vars, mem)
    } else {
        let prev = seed_pass_mem(vars, mem, (k - 1) as nat);
        let m2 = mix(add_block(prev.0, prev.1, 8 * (k - 1)));
        (m2, write_block(prev.1, 8 * (k - 1), m2))
    }
}

/// The unseeded pass after `k` blocks: one mixing round per pool block with
/// no external input, the variables written into the block.
pub open spec fn plain_pass(vars: Mix64, mem: Seq<u64>, k: nat) -> (Mix64, Seq<u64>)
    decreases k,
{
    if k == 0 {
        (vars, mem)
    } else {
        let prev = plain_pass(vars, mem, (k - 1) as nat);
        let m2 = mix(prev.0);
        (m2, write_block(prev.1, 8 * (k - 1), m2))
    }
}

/// A pool of 256 zero words.
pub open spec fn zero_seq() -> Seq<u64> {
    Seq::new(256, |i: int| 0u64)
}

/// The pool produced by initialisation from the seed buffer `rsl`: the
/// scrambled golden-ratio variables drive the unseeded pass, or, when a seed
/// is used, the two seeding passes.
pub open spec fn init_mem(rsl: Seq<u64>, use_seed: bool) -> Seq<u64> {
    let vars = init_vars();
    if use_seed {
        let first = seed_pass(vars, rsl, zero_seq(), 32);
        let second = seed_pass_mem(first.0, first.1, 32);
        second.1
    } else {
        plain_pass(vars, zero_seq(), 32).1
    }
}

/// The mathematical state of an ISAAC-64 generator: the entropy pool `mem`,
/// the output buffer `rsl`, the accumulators `a`, `b`, `c`, and the count
/// `cnt` of unconsumed output entries.
pub struct Isaac64State {
    /// Count of unconsumed entries remaining in the output buffer.
    pub cnt: u32,
    /// The output buffer.
    pub rsl: Seq<u64>,
    /// The entropy pool.
    pub mem: Seq<u64>,
    /// Accumulator mixed into every pool entry.
    pub a: u64,
    /// Accumulator mixed into every output word.
    pub b: u64,
    /// Round counter.
    pub c: u64,
}

/// Well-formedness of a generator state: full-size pool and output buffer,
/// and a count within the buffer.
pub open spec fn inv(s: Isaac64State) -> bool {
    &&& s.cnt <= 256
    &&& s.rsl.len() == 256
    &&& s.mem.len() == 256
}

/// The indirect pool fetch that gives ISAAC its nonlinear character: the
/// entry indexed by the middle bits of `x`.
pub open spec fn ind(mem: Seq<u64>, x: u64) -> u64 {
    mem[((x >> 3u64) % 256) as int]
}

/// One step of the permutation round at position `p`: mix the accumulator
/// with a position-dependent shift (the value complemented on the first
/// sub-step of every group of four), add the pool entry across the midpoint,
/// write the new pool entry and output word, and update `b` from a second
/// indirect fetch.
pub open spec fn round_step(p: int, a: u64, b: u64, mem: Seq<u64>, rsl: Seq<u64>) -> (
    u64,
    u64,
    Seq<u64>,
    Seq<u64>,
) {
    let mx = if p % 4 == 0 {
        !(a ^ (a << 21u64))
    } else if p % 4 == 1 {
        a ^ (a >> 5u64)
    } else if p % 4 == 2 {
        a ^ (a << 12u64)
    } else {
        a ^ (a >> 33u64)
    };
    let x = mem[p];
    let a2 = wadd(mx, mem[(p + 128) % 256]);
    let y = wadd(wadd(ind(mem, x), a2), b);
    let mem2 = mem.update(p, y);
    let b2 = wadd(ind(mem2, y >> 8u64), x);
    let rsl2 = rsl.update(p, b2);
    (a2, b2, mem2, rsl2)
}

/// The first `k` steps of the permutation round.
pub open spec fn rounds(k: nat, a: u64, b: u64, mem: Seq<u64>, rsl: Seq<u64>) -> (
    u64,
    u64,
    Seq<u64>,
    Seq<u64>,
)
    decreases k,
{
    if k == 0 {
        (a, b, mem, rsl)
    } else {
        let prev = rounds((k - 1) as nat, a, b, mem, rsl);
        round_step(k - 1, prev.0, prev.1, prev.2, prev.3)
    }
}

/// The permutation round: increment the round counter, fold it into `b`,
/// run the 256 steps over the pool, and mark all output entries fresh.
pub open spec fn refill(s: Isaac64State) -> Isaac64State {
    let c2 = wadd(s.c, 1);
    let b1 = wadd(s.b, c2);
    let r = rounds(256, s.a, b1, s.mem, s.rsl);
    Isaac64State { cnt: 256, rsl: r.3, mem: r.2, a: r.0, b: r.1, c: c2 }
}

/// The output protocol: refill first if the buffer is exhausted, then
/// consume one entry, returning the buffer word at the decremented count.
pub open spec fn next64(s: Isaac64State) -> (u64, Isaac64State) {
    let s1 = if s.cnt == 0 {
        refill(s)
    } else {
        s
    };
    (
        s1.rsl[(s1.cnt - 1) % 256],
        Isaac64State {
            cnt: (s1.cnt - 1) as u32,
            rsl: s1.rsl,
            mem: s1.mem,
            a: s1.a,
            b: s1.b,
            c: s1.c,
        },
    )
}

/// The generator state after `n` words have been drawn.
pub open spec fn after(s: Isaac64State, n: nat) -> Isaac64State
    decreases n,
{
    if n == 0 {
        s
    } else {
        next64(after(s, (n - 1) as nat)).1
    }
}

/// The first `n` words drawn from state `s`.
pub open spec fn stream(s: Isaac64State, n: nat) -> Seq<u64>
    decreases n,
{
    if n == 0 {
        Seq::empty()
    } else {
        stream(s, (n - 1) as nat).push(next64(after(s, (n - 1) as nat)).0)
    }
}

/// The seed buffer made from a caller-supplied seed: truncated to pool
/// capacity, or zero-padded up to it.
pub open spec fn padded(seed: Seq<u64>) -> Seq<u64> {
    Seq::new(
        256,
        |i: int|
            if i < seed.len() {
                seed[i]
            } else {
                0u64
            },
    )
}

/// The state of a generator freshly seeded with `seed`: the padded seed
/// fills the output buffer, initialisation mixes it into the pool, and one
/// permutation round produces the first batch of output.
pub open spec fn seeded_state(seed: Seq<u64>) -> Isaac64State {
    let rsl0 = padded(seed);
    refill(Isaac64State { cnt: 0, rsl: rsl0, mem: init_mem(rsl0, true), a: 0, b: 0, c: 0 })
}

/// The state of a generator built with the default fixed seed.
pub open spec fn unseeded_state() -> Isaac64State {
    refill(
        Isaac64State { cnt: 0, rsl: zero_seq(), mem: init_mem(zero_seq(), false), a: 0, b: 0, c: 0 },
    )
}

/// The number of words needed to cover `n` bytes.
pub open spec fn words_for(n: nat) -> nat {
    (n + 7) / 8
}

/// The little-endian byte encoding of a sequence of words, in order.
pub open spec fn le_seq(ws: Seq<u64>) -> Seq<u8>
    decreases ws.len(),
{
    if ws.len() == 0 {
        Seq::empty()
    } else {
        le_seq(ws.drop_last()) + le_bytes_u64(ws.last())
    }
}

/// The word decoded from eight little-endian bytes.
pub open spec fn u64_from_le(b: Seq<u8>, i: int) -> u64 {
    (b[i] + b[i + 1] * 0x100 + b[i + 2] * 0x10000 + b[i + 3] * 0x1000000 + b[i + 4] * 0x100000000
        + b[i + 5] * 0x10000000000 + b[i + 6] * 0x1000000000000 + b[i + 7]
        * 0x100000000000000) as u64
}

/// The words decoded from a byte buffer, eight little-endian bytes each.
pub open spec fn words_from_le(b: Seq<u8>) -> Seq<u64> {
    Seq::new(b.len() / 8, |i: int| u64_from_le(b, 8 * i))
}

/// One eight-variable mixing round, executably.
fn mix_exec(m: Mix64) -> (r: Mix64)
    ensures
        r == mix(m),
{
    let mut a: u64 = m.a;
    let mut b: u64 = m.b;
    let mut c: u64 = m.c;
    let mut d: u64 = m.d;
    let mut e: u64 = m.e;
    let mut f: u64 = m.f;
    let mut g: u64 = m.g;
    let mut h: u64 = m.h;
    a = a.wrapping_sub(e);
    f = f ^ (h >> 9u64);
    h = h.wrapping_add(a);
    b = b.wrapping_sub(f);
    g = g ^ (a << 9u64);
    a = a.wrapping_add(b);
    c = c.wrapping_sub(g);
    h = h ^ (b >> 23u64);
    b = b.wrapping_add(c);
    d = d.wrapping_sub(h);
    a = a ^ (c << 15u64);
    c = c.wrapping_add(d);
    e = e.wrapping_sub(a);
    b = b ^ (d >> 14u64);
    d = d.wrapping_add(e);
    f = f.wrapping_sub(b);
    c = c ^ (e << 20u64);
    e = e.wrapping_add(f);
    g = g.wrapping_sub(c);
    d = d ^ (f >> 17u64);
    f = f.wrapping_add(g);
    h = h.wrapping_sub(d);
    e = e ^ (g << 14u64);
    g = g.wrapping_add(h);
    Mix64 { a, b, c, d, e, f, g, h }
}

/// A random number generator that uses ISAAC-64, the 64-bit variant of the
/// ISAAC algorithm.
///
/// The ISAAC algorithm is generally accepted as suitable for cryptographic
/// purposes, but this implementation has not been verified as such. Prefer
/// a generator that defers to the operating system for cases that need high
/// security.
#[derive(Clone, Copy)]
pub struct Isaac64Rng {
    cnt: u32,
    rsl: [u64; 256],
    mem: [u64; 256],
    a: u64,
    b: u64,
    c: u64,
}

impl View for Isaac64Rng {
    type V = Isaac64State;

    closed spec fn view(&self) -> Isaac64State {
        Isaac64State {
            cnt: self.cnt,
            rsl: self.rsl@,
            mem: self.mem@,
            a: self.a,
            b: self.b,
            c: self.c,
        }
    }
}

impl Isaac64Rng {
    /// An all-zero generator state, not yet initialised.
    fn zeroed() -> (r: Isaac64Rng)
        ensures
            r@ == (Isaac64State { cnt: 0, rsl: zero_seq(), mem: zero_seq(), a: 0, b: 0, c: 0 }),
    {
        let r = Isaac64Rng { cnt: 0, rsl: [0u64; 256], mem: [0u64; 256], a: 0, b: 0, c: 0 };
        proof {
            assert(r.rsl@ =~= zero_seq());
            assert(r.mem@ =~= zero_seq());
        }
        r
    }

    /// Create a 64-bit ISAAC random number generator using the default fixed
    /// seed.
    pub fn new_unseeded() -> (r: Isaac64Rng)
        ensures
            r@ == unseeded_state(),
            inv(r@),
    {
        let mut rng = Isaac64Rng::zeroed();
        rng.init(false);
        rng
    }

    /// Initialises `self`: scramble the golden-ratio constant by four mixing
    /// rounds, fill the pool (mixing in the current output buffer as a seed
    /// if `use_seed` is set), and run one permutation round to produce the
    /// first batch of output.
    fn init(&mut self, use_seed: bool)
        ensures
            final(self)@ == refill(
                Isaac64State {
                    cnt: old(self)@.cnt,
                    rsl: old(self)@.rsl,
                    mem: init_mem(old(self)@.rsl, use_seed),
                    a: old(self)@.a,
                    b: old(self)@.b,
                    c: old(self)@.c,
                },
            ),
    {
        let ghost rsl0 = self.rsl@;
        let ghost mem0 = self.mem@;
        let mut x = Mix64 {
            a: GOLDEN_RATIO_64,
            b: GOLDEN_RATIO_64,
            c: GOLDEN_RATIO_64,
            d: GOLDEN_RATIO_64,
            e: GOLDEN_RATIO_64,
            f: GOLDEN_RATIO_64,
            g: GOLDEN_RATIO_64,
            h: GOLDEN_RATIO_64,
        };
        x = mix_exec(x);
        x = mix_exec(x);
        x = mix_exec(x);
        x = mix_exec(x);
        assert(x == init_vars());

        if use_seed {
            let mut k: usize = 0;
            while k < 32
                invariant
                    k <= 32,
                    self.rsl@ == rsl0,
                    self.cnt == old(self).cnt,
                    self.a == old(self).a,
                    self.b == old(self).b,
                    self.c == old(self).c,
                    x == seed_pass(init_vars(), rsl0, mem0, k as nat).0,
                    self.mem@.len() == 256,
                    mem0.len() == 256,
                    rsl0.len() == 256,
                    seed_pass(init_vars(), rsl0, mem0, k as nat).1.len() == 256,
                    forall|i: int|
                        0 <= i < 8 * k ==> self.mem@[i] == seed_pass(
                            init_vars(),
                            rsl0,
                            mem0,
                            k as nat,
                        ).1[i],
                    forall|i: int| 8 * k <= i < 256 ==> self.mem@[i] == mem0[i],
                decreases 32 - k,
            {
                let ghost prev = seed_pass(init_vars(), rsl0, mem0, k as nat);
                let base: usize = 8 * k;
                x.a = x.a.wrapping_add(self.rsl[base]);
                x.b = x.b.wrapping_add(self.rsl[base + 1]);
                x.c = x.c.wrapping_add(self.rsl[base + 2]);
                x.d = x.d.wrapping_add(self.rsl[base + 3]);
                x.e = x.e.wrapping_add(self.rsl[base + 4]);
                x.f = x.f.wrapping_add(self.rsl[base + 5]);
                x.g = x.g.wrapping_add(self.rsl[base + 6]);
                x.h = x.h.wrapping_add(self.rsl[base + 7]);
                assert(x == add_block(prev.0, rsl0, 8 * k));
                x = mix_exec(x);
                self.mem[base] = x.a;
                self.mem[base + 1] = x.b;
                self.mem[base + 2] = x.c;
                self.mem[base + 3] = x.d;
                self.mem[base + 4] = x.e;
                self.mem[base + 5] = x.f;
                self.mem[base + 6] = x.g;
                self.mem[base + 7] = x.h;
                proof {
                    let cur = seed_pass(init_vars(), rsl0, mem0, (k + 1) as nat);
                    assert(cur.0 == x);
                    assert(cur.1 == write_block(prev.1, 8 * (k as int), x));
                    assert(forall|i: int| 0 <= i < 8 * (k + 1) ==> self.mem@[i] == cur.1[i]);
                }
                k = k + 1;
            }
            proof {
                lemma_seed_pass_base(init_vars(), rsl0, mem0, zero_seq(), 32);
                assert(self.mem@ =~= seed_pass(init_vars(), rsl0, zero_seq(), 32).1);
            }
            let ghost vars1 = seed_pass(init_vars(), rsl0, zero_seq(), 32).0;
            let ghost mem1 = self.mem@;
            let mut k: usize = 0;
            while k < 32
                invariant
                    k <= 32,
                    self.rsl@ == rsl0,
                    self.cnt == old(self).cnt,
                    self.a == old(self).a,
                    self.b == old(self).b,
                    self.c == old(self).c,
                    x == seed_pass_mem(vars1, mem1, k as nat).0,
                    self.mem@.len() == 256,
                    mem1.len() == 256,
                    seed_pass_mem(vars1, mem1, k as nat).1.len() == 256,
                    forall|i: int|
                        0 <= i < 256 ==> self.mem@[i] == seed_pass_mem(vars1, mem1, k as nat).1[i],
                decreases 32 - k,
            {
                let ghost prev = seed_pass_mem(vars1, mem1, k as nat);
                let base: usize = 8 * k;
                x.a = x.a.wrapping_add(self.mem[base]);
                x.b = x.b.wrapping_add(self.mem[base + 1]);
                x.c = x.c.wrapping_add(self.mem[base + 2]);
                x.d = x.d.wrapping_add(self.mem[base + 3]);
                x.e = x.e.wrapping_add(self.mem[base + 4]);
                x.f = x.f.wrapping_add(self.mem[base + 5]);
                x.g = x.g.wrapping_add(self.mem[base + 6]);
                x.h = x.h.wrapping_add(self.mem[base + 7]);
                assert(x == add_block(prev.0, prev.1, 8 * k));
                x = mix_exec(x);
                self.mem[base] = x.a;
                self.mem[base + 1] = x.b;
                self.mem[base + 2] = x.c;
                self.mem[base + 3] = x.d;
                self.mem[base + 4] = x.e;
                self.mem[base + 5] = x.f;
                self.mem[base + 6] = x.g;
                self.mem[base + 7] = x.h;
                proof {
                    let cur = seed_pass_mem(vars1, mem1, (k + 1) as nat);
                    assert(cur.0 == x);
                    assert(cur.1 == write_block(prev.1, 8 * (k as int), x));
                    assert(forall|i: int| 0 <= i < 256 ==> self.mem@[i] == cur.1[i]);
                }
                k = k + 1;
            }
            proof {
                assert(self.mem@ =~= seed_pass_mem(vars1, mem1, 32).1);
                assert(self.mem@ == init_mem(rsl0, true));
            }
        } else {
            let mut k: usize = 0;
            while k < 32
                invariant
                    k <= 32,
                    self.rsl@ == rsl0,
                    self.cnt == old(self).cnt,
                    self.a == old(self).a,
                    self.b == old(self).b,
                    self.c == old(self).c,
                    x == plain_pass(init_vars(), mem0, k as nat).0,
                    self.mem@.len() == 256,
                    mem0.len() == 256,
                    plain_pass(init_vars(), mem0, k as nat).1.len() == 256,
                    forall|i: int|
                        0 <= i < 8 * k ==> self.mem@[i] == plain_pass(
                            init_vars(),
                            mem0,
                            k as nat,
                        ).1[i],
                    forall|i: int| 8 * k <= i < 256 ==> self.mem@[i] == mem0[i],
                decreases 32 - k,
            {
                let ghost prev = plain_pass(init_vars(), mem0, k as nat);
                let base: usize = 8 * k;
                x = mix_exec(x);
                self.mem[base] = x.a;
                self.mem[base + 1] = x.b;
                self.mem[base + 2] = x.c;
                self.mem[base + 3] = x.d;
                self.mem[base + 4] = x.e;
                self.mem[base + 5] = x.f;
                self.mem[base + 6] = x.g;
                self.mem[base + 7] = x.h;
                proof {
                    let cur = plain_pass(init_vars(), mem0, (k + 1) as nat);
                    assert(cur.0 == x);
                    assert(cur.1 == write_block(prev.1, 8 * (k as int), x));
                    assert(forall|i: int| 0 <= i < 8 * (k + 1) ==> self.mem@[i] == cur.1[i]);
                }
                k = k + 1;
            }
            proof {
                lemma_plain_pass_base(init_vars(), mem0, zero_seq(), 32);
                assert(self.mem@ =~= plain_pass(init_vars(), zero_seq(), 32).1);
                assert(self.mem@ == init_mem(rsl0, false));
            }
        }
        self.isaac64();
    }

    /// Refills the output buffer by one permutation round.
    fn isaac64(&mut self)
        ensures
            final(self)@ == refill(old(self)@),
    {
        self.c = self.c.wrapping_add(1);
        let mut a: u64 = self.a;
        let mut b: u64 = self.b.wrapping_add(self.c);
        let ghost a0 = a;
        let ghost b0 = b;
        let ghost mem0 = self.mem@;
        let ghost rsl0 = self.rsl@;
        let mut p: usize = 0;
        while p < 256
            invariant
                p <= 256,
                self.cnt == old(self).cnt,
                self.c == wadd(old(self)@.c, 1),
                a == rounds(p as nat, a0, b0, mem0, rsl0).0,
                b == rounds(p as nat, a0, b0, mem0, rsl0).1,
                self.mem@ == rounds(p as nat, a0, b0, mem0, rsl0).2,
                self.rsl@ == rounds(p as nat, a0, b0, mem0, rsl0).3,
            decreases 256 - p,
        {
            let ghost prev = rounds(p as nat, a0, b0, mem0, rsl0);
            let x: u64 = self.mem[p];
            let sh: usize = p % 4;
            let mx: u64 = if sh == 0 {
                !(a ^ (a << 21u64))
            } else if sh == 1 {
                a ^ (a >> 5u64)
            } else if sh == 2 {
                a ^ (a << 12u64)
            } else {
                a ^ (a >> 33u64)
            };
            let m2i: usize = if p < 128 {
                p + 128
            } else {
                p - 128
            };
            assert(m2i as int == (p + 128) % 256);
            a = mx.wrapping_add(self.mem[m2i]);
            let xi: usize = ((x >> 3u64) % 256) as usize;
            let y: u64 = self.mem[xi].wrapping_add(a).wrapping_add(b);
            self.mem[p] = y;
            let yi: usize = (((y >> 8u64) >> 3u64) % 256) as usize;
            b = self.mem[yi].wrapping_add(x);
            self.rsl[p] = b;
            proof {
                let cur = rounds((p + 1) as nat, a0, b0, mem0, rsl0);
                assert(cur == round_step(p as int, prev.0, prev.1, prev.2, prev.3));
                assert(a == cur.0);
                assert(b == cur.1);
                assert(self.mem@ == cur.2);
                assert(self.rsl@ == cur.3);
            }
            p = p + 1;
        }
        self.a = a;
        self.b = b;
        self.cnt = 256;
    }

    /// Return the next word of the output stream, refilling the buffer by a
    /// permutation round when it is exhausted.
    pub fn next_u64(&mut self) -> (r: u64)
        ensures
            r == next64(old(self)@).0,
            final(self)@ == next64(old(self)@).1,
            inv(old(self)@) ==> inv(final(self)@),
    {
        if self.cnt == 0 {
            self.isaac64();
        }
        self.cnt = self.cnt - 1;
        let idx: usize = (self.cnt % 256) as usize;
        self.rsl[idx]
    }

    /// Return the next word of the output stream, truncated to its low 32
    /// bits. A full 64-bit word is consumed.
    pub fn next_u32(&mut self) -> (r: u32)
        ensures
            r == next64(old(self)@).0 % 0x100000000,
            final(self)@ == next64(old(self)@).1,
            inv(old(self)@) ==> inv(final(self)@),
    {
        let w: u64 = self.next_u64();
        (w % 0x100000000) as u32
    }

    /// Return the next two words of the output stream as a `u128`: the first
    /// word is the low half, the second the high half.
    pub fn next_u128(&mut self) -> (r: u128)
        ensures
            r == combine_u64_spec(stream(old(self)@, 2)[0], stream(old(self)@, 2)[1]),
            final(self)@ == after(old(self)@, 2),
            inv(old(self)@) ==> inv(final(self)@),
    {
        let ghost v0 = self@;
        let low = self.next_u64();
        let high = self.next_u64();
        proof {
            assert(after(v0, 0) == v0);
            assert(after(v0, 1) == next64(after(v0, 0)).1);
            assert(after(v0, 2) == next64(after(v0, 1)).1);
            assert(stream(v0, 1) == stream(v0, 0).push(next64(after(v0, 0)).0));
            assert(stream(v0, 2) == stream(v0, 1).push(next64(after(v0, 1)).0));
        }
        combine_u64(low, high)
    }

    /// Fill `dest` entirely: the little-endian byte encoding of as many
    /// consecutive output words as the buffer needs, a partial trailing
    /// chunk using only the low-order bytes of one extra word.
    pub fn fill_bytes(&mut self, dest: &mut Vec<u8>)
        ensures
            final(dest)@.len() == old(dest)@.len(),
            final(dest)@ == le_seq(stream(old(self)@, words_for(old(dest)@.len()))).take(
                old(dest)@.len() as int,
            ),
            forall|j: int|
                0 <= j < old(dest)@.len() ==> final(dest)@[j] == le_bytes_u64(
                    stream(old(self)@, words_for(old(dest)@.len()))[j / 8],
                )[j % 8],
            final(self)@ == after(old(self)@, words_for(old(dest)@.len())),
            inv(old(self)@) ==> inv(final(self)@),
    {
        let ghost v0 = self@;
        let ghost n = old(dest)@.len();
        let len = dest.len();
        let mut i: usize = 0;
        while len - i >= 8
            invariant
                i <= len,
                i % 8 == 0,
                dest@.len() == len,
                len == n,
                n == old(dest)@.len(),
                self@ == after(v0, (i / 8) as nat),
                inv(v0) ==> inv(self@),
                dest@ == le_seq(stream(v0, (i / 8) as nat)) + old(dest)@.skip(i as int),
            decreases len - i,
        {
            let ghost q = (i / 8) as nat;
            proof {
                lemma_stream_len(v0, q);
                lemma_le_seq_len(stream(v0, q));
            }
            let w: u64 = self.next_u64();
            write_u64_le(dest, i, 8, w);
            proof {
                lemma_stream_len(v0, (q + 1) as nat);
                lemma_le_seq_len(stream(v0, (q + 1) as nat));
                assert(after(v0, (q + 1) as nat) == next64(after(v0, q)).1);
                assert(stream(v0, (q + 1) as nat) == stream(v0, q).push(next64(after(v0, q)).0));
                assert(stream(v0, (q + 1) as nat).drop_last() =~= stream(v0, q));
                assert(le_seq(stream(v0, (q + 1) as nat)) == le_seq(stream(v0, q))
                    + le_bytes_u64(w));
                assert(i == 8 * q);
                let target = le_seq(stream(v0, (q + 1) as nat)) + old(dest)@.skip((i + 8) as int);
                assert(target.len() == n);
                assert forall|j: int| 0 <= j < n implies dest@[j] == target[j] by {
                    if j < i {
                        assert(dest@[j] == le_seq(stream(v0, q))[j]);
                    } else if j < i + 8 {
                        assert(dest@[j] == le_bytes_u64(w)[j - i]);
                    } else {
                        assert(dest@[j] == old(dest)@[j]);
                    }
                }
                assert(dest@ =~= target);
            }
            i = i + 8;
        }
        if i < len {
            let ghost q = (i / 8) as nat;
            proof {
                lemma_stream_len(v0, q);
                lemma_le_seq_len(stream(v0, q));
            }
            let w: u64 = self.next_u64();
            write_u64_le(dest, i, len - i, w);
            proof {
                lemma_stream_len(v0, (q + 1) as nat);
                lemma_le_seq_len(stream(v0, (q + 1) as nat));
                assert(words_for(n) == q + 1);
                assert(after(v0, (q + 1) as nat) == next64(after(v0, q)).1);
                assert(stream(v0, (q + 1) as nat) == stream(v0, q).push(next64(after(v0, q)).0));
                assert(stream(v0, (q + 1) as nat).drop_last() =~= stream(v0, q));
                assert(le_seq(stream(v0, (q + 1) as nat)) == le_seq(stream(v0, q))
                    + le_bytes_u64(w));
                assert(dest@ =~= le_seq(stream(v0, (q + 1) as nat)).take(n as int));
            }
        } else {
            proof {
                let q = (i / 8) as nat;
                lemma_stream_len(v0, q);
                lemma_le_seq_len(stream(v0, q));
                assert(words_for(n) == q);
                assert(dest@ =~= le_seq(stream(v0, q)).take(n as int));
            }
        }
        proof {
            let ws = stream(v0, words_for(n));
            lemma_stream_len(v0, words_for(n));
            lemma_le_seq_len(ws);
            assert forall|j: int| 0 <= j < n implies dest@[j] == le_bytes_u64(ws[j / 8])[
                j % 8
            ] by {
                lemma_le_seq_index(ws, j);
                assert(dest@[j] == le_seq(ws).take(n as int)[j]);
            }
        }
    }

    /// Fill `dest` entirely with random data. This generator is algorithmic
    /// and infallible: the call always succeeds.
    pub fn try_fill(&mut self, dest: &mut Vec<u8>) -> (r: Result<(), Error>)
        ensures
            r is Ok,
            final(dest)@.len() == old(dest)@.len(),
            final(dest)@ == le_seq(stream(old(self)@, words_for(old(dest)@.len()))).take(
                old(dest)@.len() as int,
            ),
            forall|j: int|
                0 <= j < old(dest)@.len() ==> final(dest)@[j] == le_bytes_u64(
                    stream(old(self)@, words_for(old(dest)@.len()))[j / 8],
                )[j % 8],
            final(self)@ == after(old(self)@, words_for(old(dest)@.len())),
            inv(old(self)@) ==> inv(final(self)@),
    {
        self.fill_bytes(dest);
        Ok(())
    }

    /// Reseed this generator: a full reset, independent of the previous
    /// state, after which it reproduces the output stream of a generator
    /// freshly created from the same seed.
    ///
    /// The seed can be any length: at most 256 entries are used and any more
    /// are silently ignored; a shorter seed is zero-padded.
    pub fn reseed(&mut self, seed: &[u64])
        ensures
            final(self)@ == seeded_state(seed@),
            inv(final(self)@),
    {
        let slen: usize = seed.len();
        let mut i: usize = 0;
        while i < 256
            invariant
                i <= 256,
                slen == seed@.len(),
                forall|k: int| 0 <= k < i ==> self.rsl@[k] == padded(seed@)[k],
            decreases 256 - i,
        {
            let v: u64 = if i < slen {
                seed[i]
            } else {
                0u64
            };
            self.rsl[i] = v;
            i = i + 1;
        }
        proof {
            assert(self.rsl@ =~= padded(seed@));
        }
        self.cnt = 0;
        self.a = 0;
        self.b = 0;
        self.c = 0;
        self.init(true);
    }

    /// Create an ISAAC-64 random number generator with a seed. This can be
    /// any length, although the maximum number of entries used is 256 and
    /// any more will be silently ignored; a shorter seed is zero-padded. A
    /// generator constructed with a given seed generates the same sequence
    /// of values as all other generators constructed with that seed.
    pub fn from_seed(seed: &[u64]) -> (r: Isaac64Rng)
        ensures
            r@ == seeded_state(seed@),
            inv(r@),
    {
        let mut rng = Isaac64Rng::zeroed();
        rng.reseed(seed);
        rng
    }

    /// An opaque textual tag for debugging: it names the generator type
    /// and reveals none of the internal state.
    pub fn debug_label(&self) -> (r: &'static str)
        ensures
            r@ == "Isaac64Rng"@,
    {
        "Isaac64Rng"
    }

    /// Create an ISAAC-64 random number generator seeded by drawing exactly
    /// pool-capacity bytes (2048) from another source via `try_fill`, then
    /// running seeded initialisation over their little-endian word decoding.
    /// The source's error, if any, is propagated unchanged.
    pub fn from_rng<R: Rng>(rng: &mut R) -> (r: Result<Isaac64Rng, Error>)
        ensures
            r is Ok ==> inv(r->Ok_0@),
            r is Ok ==> exists|bytes: Seq<u8>|
                bytes.len() == 2048 && r->Ok_0@ == seeded_state(words_from_le(bytes)),
    {
        let mut buf: Vec<u8> = Vec::new();
        let mut i: usize = 0;
        while i < 2048
            invariant
                buf@.len() == i,
                i <= 2048,
            decreases 2048 - i,
        {
            buf.push(0u8);
            i = i + 1;
        }
        match rng.try_fill(&mut buf) {
            Ok(()) => {},
            Err(e) => {
                return Err(e);
            },
        }
        let words = decode_le_words(&buf);
        let out = Isaac64Rng::from_seed(words.as_slice());
        proof {
            assert(buf@.len() == 2048 && out@ == seeded_state(words_from_le(buf@)));
        }
        Ok(out)
    }
}

/// Decode a byte buffer into words, eight little-endian bytes each; a
/// trailing partial chunk is ignored.
pub fn decode_le_words(buf: &Vec<u8>) -> (r: Vec<u64>)
    ensures
        r@ == words_from_le(buf@),
{
    let blen: usize = buf.len();
    let n: usize = blen / 8;
    let mut out: Vec<u64> = Vec::new();
    let mut i: usize = 0;
    while i < n
        invariant
            i <= n,
            blen == buf@.len(),
            n == buf@.len() / 8,
            out@.len() == i,
            forall|k: int| 0 <= k < i ==> out@[k] == words_from_le(buf@)[k],
        decreases n - i,
    {
        let b0: u64 = buf[8 * i] as u64;
        let b1: u64 = buf[8 * i + 1] as u64;
        let b2: u64 = buf[8 * i + 2] as u64;
        let b3: u64 = buf[8 * i + 3] as u64;
        let b4: u64 = buf[8 * i + 4] as u64;
        let b5: u64 = buf[8 * i + 5] as u64;
        let b6: u64 = buf[8 * i + 6] as u64;
        let b7: u64 = buf[8 * i + 7] as u64;
        let w: u64 = b0 + b1 * 0x100 + b2 * 0x10000 + b3 * 0x1000000 + b4 * 0x100000000 + b5
            * 0x10000000000 + b6 * 0x1000000000000 + b7 * 0x100000000000000;
        out.push(w);
        proof {
            assert(out@[i as int] == words_from_le(buf@)[i as int]);
        }
        i = i + 1;
    }
    proof {
        assert(out@ =~= words_from_le(buf@));
    }
    out
}

/// The little-endian byte encoding of `n` words takes `8 * n` bytes.
pub proof fn lemma_le_seq_len(ws: Seq<u64>)
    ensures
        le_seq(ws).len() == 8 * ws.len(),
    decreases ws.len(),
{
    if ws.len() > 0 {
        lemma_le_seq_len(ws.drop_last());
    }
}

/// Byte-for-word consistency: byte `j` of the encoding of a word sequence
/// is byte `j % 8` of the little-endian encoding of word `j / 8`.
pub proof fn lemma_le_seq_index(ws: Seq<u64>, j: int)
    requires
        0 <= j < 8 * ws.len(),
    ensures
        le_seq(ws)[j] == le_bytes_u64(ws[j / 8])[j % 8],
    decreases ws.len(),
{
    lemma_le_seq_len(ws);
    lemma_le_seq_len(ws.drop_last());
    if j < 8 * (ws.len() - 1) {
        lemma_le_seq_index(ws.drop_last(), j);
    }
}

/// A stream of `n` words has `n` entries.
pub proof fn lemma_stream_len(s: Isaac64State, n: nat)
    ensures
        stream(s, n).len() == n,
    decreases n,
{
    if n > 0 {
        lemma_stream_len(s, (n - 1) as nat);
    }
}

/// The first seeding pass does not read the pool it writes: its variables
/// are independent of the starting pool, the first `8 * k` entries of its
/// result too, and the rest is the starting pool.
proof fn lemma_seed_pass_base(vars: Mix64, arr: Seq<u64>, m1: Seq<u64>, m2: Seq<u64>, k: nat)
    requires
        m1.len() == 256,
        m2.len() == 256,
        k <= 32,
    ensures
        seed_pass(vars, arr, m1, k).0 == seed_pass(vars, arr, m2, k).0,
        seed_pass(vars, arr, m1, k).1.len() == 256,
        seed_pass(vars, arr, m2, k).1.len() == 256,
        forall|i: int|
            0 <= i < 8 * k ==> seed_pass(vars, arr, m1, k).1[i] == seed_pass(vars, arr, m2, k).1[i],
        forall|i: int| 8 * k <= i < 256 ==> seed_pass(vars, arr, m1, k).1[i] == m1[i],
        forall|i: int| 8 * k <= i < 256 ==> seed_pass(vars, arr, m2, k).1[i] == m2[i],
    decreases k,
{
    if k > 0 {
        lemma_seed_pass_base(vars, arr, m1, m2, (k - 1) as nat);
    }
}

/// The unseeded pass does not read the pool it writes: its variables are
/// independent of the starting pool, the first `8 * k` entries of its result
/// too, and the rest is the starting pool.
proof fn lemma_plain_pass_base(vars: Mix64, m1: Seq<u64>, m2: Seq<u64>, k: nat)
    requires
        m1.len() == 256,
        m2.len() == 256,
        k <= 32,
    ensures
        plain_pass(vars, m1, k).0 == plain_pass(vars, m2, k).0,
        plain_pass(vars, m1, k).1.len() == 256,
        plain_pass(vars, m2, k).1.len() == 256,
        forall|i: int|
            0 <= i < 8 * k ==> plain_pass(vars, m1, k).1[i] == plain_pass(vars, m2, k).1[i],
        forall|i: int| 8 * k <= i < 256 ==> plain_pass(vars, m1, k).1[i] == m1[i],
        forall|i: int| 8 * k <= i < 256 ==> plain_pass(vars, m2, k).1[i] == m2[i],
    decreases k,
{
    if k > 0 {
        lemma_plain_pass_base(vars, m1, m2, (k - 1) as nat);
    }
}

impl Rng for Isaac64Rng {
    fn next_u32(&mut self) -> u32 {
        Isaac64Rng::next_u32(self)
    }

    fn next_u64(&mut self) -> u64 {
        Isaac64Rng::next_u64(self)
    }

    fn next_u128(&mut self) -> u128 {
        Isaac64Rng::next_u128(self)
    }

    fn fill_bytes(&mut self, dest: &mut Vec<u8>) {
        Isaac64Rng::fill_bytes(self, dest)
    }

    fn try_fill(&mut self, dest: &mut Vec<u8>) -> Result<(), Error> {
        Isaac64Rng::try_fill(self, dest)
    }
}

impl SeedFromRng for Isaac64Rng {
    fn from_rng<R: Rng>(rng: &mut R) -> Result<Isaac64Rng, Error> {
        Isaac64Rng::from_rng(rng)
    }
}

impl<'a> SeedableRng<&'a [u64]> for Isaac64Rng {
    fn reseed(&mut self, seed: &'a [u64]) {
        Isaac64Rng::reseed(self, seed)
    }

    fn from_seed(seed: &'a [u64]) -> Isaac64Rng {
        Isaac64Rng::from_seed(seed)
    }
}

/// Determinism and clone fidelity: generators in equal states produce equal
/// output streams, for any number of draws. Two generators built from the
/// same seed are in equal states, as is a clone and its source at the point
/// of cloning.
pub proof fn lemma_equal_states_equal_streams(s1: Isaac64State, s2: Isaac64State, n: nat)
    requires
        s1 == s2,
    ensures
        stream(s1, n) == stream(s2, n),
        after(s1, n) == after(s2, n),
{
}

/// Seed truncation: seeding with a seed longer than pool capacity is
/// equivalent to seeding with that seed truncated to pool capacity.
pub proof fn lemma_seed_truncation(seed: Seq<u64>)
    requires
        seed.len() >= 256,
    ensures
        seeded_state(seed) == seeded_state(seed.take(256)),
{
    assert(padded(seed) =~= padded(seed.take(256)));
}

/// Seed padding: seeding with a seed shorter than pool capacity is
/// equivalent to seeding with that seed zero-padded to any longer length.
pub proof fn lemma_seed_padding(seed: Seq<u64>, extended: Seq<u64>)
    requires
        seed.len() <= extended.len(),
        forall|i: int| 0 <= i < seed.len() ==> extended[i] == seed[i],
        forall|i: int| seed.len() <= i < extended.len() ==> extended[i] == 0u64,
    ensures
        seeded_state(extended) == seeded_state(seed),
{
    assert(padded(extended) =~= padded(seed));
}

/// Select the ISAAC variant whose word matches a 64-bit native index width.
pub type IsaacWordRng = Isaac64Rng;

} // verus!
