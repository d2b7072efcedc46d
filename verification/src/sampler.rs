//! Samplers: the sources of the `[0,1)²` points that drive the renderer.
//!
//! The low-discrepancy Halton stream is computed here exactly, as a fraction
//! `num / den` with `den` a power of the base; turning that fraction into a
//! machine float is the caller's one remaining (and lossy) step.  The
//! number-sequence sampler keeps a pre-generated cycle of samples and a
//! cursor, giving every pixel a deterministic, reseedable stream.

use vstd::prelude::*;

verus! {

/// Which sampler a scene asks for.
#[derive(Clone, Copy, Debug)]
pub enum SamplerSpec {
    Pseudorandom,
    Halton { base_x: u32, base_y: u32 },
}

/// The stateless pseudorandom sampler; the randomness itself lives with the
/// caller's generator.
#[derive(Debug)]
pub struct PseudorandomSampler;

impl PseudorandomSampler {
    /// The per-thread shared instance.  The sampler carries no state, so
    /// sharing is by value.
    pub fn shared_threadlocal() -> (r: PseudorandomSampler) {
        PseudorandomSampler
    }
}

/// The error for a Halton base that cannot drive a radical inverse.
#[derive(Debug)]
pub struct HaltonBaseMustBeGreaterThanOne;

/// A validated Halton base: always at least 2.
#[derive(Debug, Copy, Clone)]
pub struct HaltonBase {
    base: u32,
}

impl HaltonBase {
    pub closed spec fn spec_value(&self) -> u32 {
        self.base
    }

    pub open spec fn wf(&self) -> bool {
        self.spec_value() >= 2
    }

    /// Accepts exactly the bases greater than one.
    pub fn new(base: u32) -> (r: Result<HaltonBase, HaltonBaseMustBeGreaterThanOne>)
        ensures
            base <= 1 <==> r is Err,
            r matches Ok(h) ==> h.spec_value() == base && h.wf(),
    {
        if base <= 1 {
            Err(HaltonBaseMustBeGreaterThanOne)
        } else {
            Ok(HaltonBase { base })
        }
    }

    pub fn value(&self) -> (r: u32)
        ensures
            r == self.spec_value(),
    {
        self.base
    }
}

/// Numerator of the radical inverse of `i` in base `b`, read off by
/// reversing the base-`b` digits of `i` behind the radix point.
pub open spec fn halton_num(i: nat, b: nat) -> nat
    decreases i via halton_num_decreases
{
    if i == 0 || b < 2 {
        0
    } else {
        (i % b) * halton_den(i / b, b) + halton_num(i / b, b)
    }
}

/// Denominator of the radical inverse: `b` to the number of digits of `i`.
pub open spec fn halton_den(i: nat, b: nat) -> nat
    decreases i via halton_den_decreases
{
    if i == 0 || b < 2 {
        1
    } else {
        b * halton_den(i / b, b)
    }
}

#[via_fn]
proof fn halton_num_decreases(i: nat, b: nat) {
    if !(i == 0 || b < 2) {
        vstd::arithmetic::div_mod::lemma_div_decreases(i as int, b as int);
    }
}

#[via_fn]
proof fn halton_den_decreases(i: nat, b: nat) {
    if !(i == 0 || b < 2) {
        vstd::arithmetic::div_mod::lemma_div_decreases(i as int, b as int);
    }
}

/// The radical inverse is a proper fraction: its numerator stays below its
/// denominator.
pub proof fn lemma_halton_proper(i: nat, b: nat)
    requires
        b >= 2,
    ensures
        halton_num(i, b) < halton_den(i, b),
        halton_den(i, b) >= 1,
    decreases i,
{
    if i > 0 {
        proof_div_smaller(i, b);
        lemma_halton_proper(i / b, b);
        assert((i % b) * halton_den(i / b, b) + halton_num(i / b, b) < b * halton_den(i / b, b))
            by (nonlinear_arith)
            requires
                halton_num(i / b, b) < halton_den(i / b, b),
                0 <= i % b < b,
                halton_num(i / b, b) >= 0,
                halton_den(i / b, b) >= 1,
                b >= 2,
        ;
    }
}

/// The denominator grows no faster than `b * i`.
pub proof fn lemma_halton_den_bound(i: nat, b: nat)
    requires
        b >= 2,
    ensures
        i == 0 ==> halton_den(i, b) == 1,
        i >= 1 ==> halton_den(i, b) <= b * i,
    decreases i,
{
    if i >= 1 {
        proof_div_smaller(i, b);
        lemma_halton_den_bound(i / b, b);
        if i / b == 0 {
            assert(halton_den(i, b) == b);
            assert(b <= b * i) by (nonlinear_arith)
                requires
                    i >= 1,
                    b >= 2,
            ;
        } else {
            assert(b * (i / b) <= i) by {
                vstd::arithmetic::div_mod::lemma_fundamental_div_mod(i as int, b as int);
            }
            assert(b * halton_den(i / b, b) <= b * (b * (i / b))) by (nonlinear_arith)
                requires
                    halton_den(i / b, b) <= b * (i / b),
                    halton_den(i / b, b) >= 0,
                    b >= 2,
            ;
            assert(b * (b * (i / b)) <= b * i) by (nonlinear_arith)
                requires
                    b >= 2,
                    0 <= b * (i / b) <= i,
                    i >= 1,
            ;
        }
    }
}

/// `i / b` sits strictly below a positive `i` for any base at least 2.
proof fn proof_div_smaller(i: nat, b: nat)
    requires
        i >= 1,
        b >= 2,
    ensures
        i / b < i,
{
    vstd::arithmetic::div_mod::lemma_div_decreases(i as int, b as int);
}

/// Computes the radical inverse of `idx` in the given base, exactly, as the
/// fraction `(numerator, denominator)`.
pub fn halton_fraction(idx: u32, base: &HaltonBase) -> (r: (u64, u64))
    requires
        base.wf(),
    ensures
        r.0 == halton_num(idx as nat, base.spec_value() as nat),
        r.1 == halton_den(idx as nat, base.spec_value() as nat),
        r.0 < r.1,
{
    let b = base.value();
    let ghost gb = base.spec_value() as nat;
    let ghost gidx = idx as nat;
    proof {
        lemma_halton_proper(gidx, gb);
        lemma_halton_den_bound(gidx, gb);
        if gidx >= 1 {
            assert(gb * gidx <= 0xFFFF_FFFF_FFFF_FFFF) by (nonlinear_arith)
                requires
                    2 <= gb <= 0xFFFF_FFFF,
                    1 <= gidx <= 0xFFFF_FFFF,
            ;
        }
    }
    let mut num: u64 = 0;
    let mut den: u64 = 1;
    let mut i: u32 = idx;
    while i > 0
        invariant
            b == gb,
            2 <= gb,
            halton_num(gidx, gb) == num * halton_den(i as nat, gb) + halton_num(i as nat, gb),
            halton_den(gidx, gb) == den * halton_den(i as nat, gb),
            halton_den(gidx, gb) <= 0xFFFF_FFFF_FFFF_FFFF,
            num < den || (num == 0 && den == 1),
        decreases i,
    {
        proof {
            let gi = i as nat;
            let gnum = num as nat;
            let gden = den as nat;
            let grem = (i % b) as nat;
            let gq = (i / b) as nat;
            lemma_halton_proper(gi, gb);
            lemma_halton_proper(gq, gb);
            lemma_halton_den_bound(gidx, gb);
            assert(halton_den(gi, gb) == gb * halton_den(gq, gb));
            assert(halton_num(gi, gb) == grem * halton_den(gq, gb) + halton_num(gq, gb));
            assert(gden * halton_den(gi, gb) == (gden * gb) * halton_den(gq, gb))
                by (nonlinear_arith)
                requires
                    halton_den(gi, gb) == gb * halton_den(gq, gb),
            ;
            assert(gb <= halton_den(gi, gb)) by (nonlinear_arith)
                requires
                    halton_den(gi, gb) == gb * halton_den(gq, gb),
                    halton_den(gq, gb) >= 1,
                    gb >= 2,
            ;
            assert(gden * gb <= gden * halton_den(gi, gb)) by (nonlinear_arith)
                requires
                    gb <= halton_den(gi, gb),
                    gden >= 1,
            ;
            assert((gnum * gb + grem) * halton_den(gq, gb) + halton_num(gq, gb) == gnum
                * halton_den(gi, gb) + halton_num(gi, gb)) by (nonlinear_arith)
                requires
                    halton_den(gi, gb) == gb * halton_den(gq, gb),
                    halton_num(gi, gb) == grem * halton_den(gq, gb) + halton_num(gq, gb),
            ;
            assert(gnum * gb + grem < gden * gb) by (nonlinear_arith)
                requires
                    gnum < gden || (gnum == 0 && gden == 1),
                    0 <= grem < gb,
                    gden >= 1,
                    gb >= 2,
            ;
            proof_div_smaller(gi, gb);
        }
        den = den * (b as u64);
        num = num * (b as u64) + ((i % b) as u64);
        i = i / b;
    }
    proof {
        assert(i == 0);
        assert(halton_num(i as nat, gb) == 0);
        assert(halton_den(i as nat, gb) == 1);
        assert(num * halton_den(i as nat, gb) + halton_num(i as nat, gb) == num)
            by (nonlinear_arith)
            requires
                halton_den(i as nat, gb) == 1,
                halton_num(i as nat, gb) == 0,
        ;
        assert(den * halton_den(i as nat, gb) == den) by (nonlinear_arith)
            requires
                halton_den(i as nat, gb) == 1,
        ;
        assert(halton_num(gidx, gb) == num);
        assert(halton_den(gidx, gb) == den);
        assert(gidx == idx as nat);
        assert(gb == base.spec_value() as nat);
    }
    (num, den)
}

/// Maps a sample given as the exact fraction `num / den` in `[0, 1)` to an
/// integer in `[0, limit)`: the floor of `limit` times the sample.
pub fn get_index_from_fraction(num: u64, den: u64, limit: usize) -> (r: usize)
    requires
        1 <= den,
        num < den,
        1 <= limit,
    ensures
        r == (num * limit) / (den as int),
        r < limit,
{
    proof {
        assert((num as int) * (limit as int) <= 0xFFFF_FFFF_FFFF_FFFF_FFFF_FFFF_FFFF_FFFFint)
            by (nonlinear_arith)
            requires
                num as int <= 0xFFFF_FFFF_FFFF_FFFFint,
                limit as int <= 0xFFFF_FFFF_FFFF_FFFFint,
                0 <= num as int,
                0 <= limit as int,
        ;
    }
    let wide = (num as u128) * (limit as u128);
    let r = wide / (den as u128);
    proof {
        assert(wide / (den as u128) < limit as u128) by (nonlinear_arith)
            requires
                wide == (num as u128) * (limit as u128),
                num < den,
                1 <= den,
                1 <= limit,
        ;
    }
    r as usize
}

/// The Halton sampler: a pair of coprime bases and a running index.
#[derive(Debug)]
pub struct HaltonSampler {
    idx: u32,
    base_x: HaltonBase,
    base_y: HaltonBase,
}

impl HaltonSampler {
    pub closed spec fn spec_idx(&self) -> u32 {
        self.idx
    }

    pub closed spec fn spec_base_x(&self) -> HaltonBase {
        self.base_x
    }

    pub closed spec fn spec_base_y(&self) -> HaltonBase {
        self.base_y
    }

    pub open spec fn wf(&self) -> bool {
        self.spec_base_x().wf() && self.spec_base_y().wf()
    }

    pub fn new(base_x: HaltonBase, base_y: HaltonBase) -> (r: HaltonSampler)
        ensures
            r.spec_idx() == 0,
            r.spec_base_x() == base_x,
            r.spec_base_y() == base_y,
    {
        HaltonSampler { idx: 0, base_x, base_y }
    }

    /// Advances the stream and returns the next pair of exact radical
    /// inverses, one per base.
    pub fn get_2d_fraction(&mut self) -> (r: ((u64, u64), (u64, u64)))
        requires
            old(self).wf(),
            old(self).spec_idx() < u32::MAX,
        ensures
            final(self).spec_idx() == old(self).spec_idx() + 1,
            final(self).spec_base_x() == old(self).spec_base_x(),
            final(self).spec_base_y() == old(self).spec_base_y(),
            r.0.0 == halton_num(final(self).spec_idx() as nat, old(self).spec_base_x().spec_value() as nat),
            r.0.1 == halton_den(final(self).spec_idx() as nat, old(self).spec_base_x().spec_value() as nat),
            r.1.0 == halton_num(final(self).spec_idx() as nat, old(self).spec_base_y().spec_value() as nat),
            r.1.1 == halton_den(final(self).spec_idx() as nat, old(self).spec_base_y().spec_value() as nat),
    {
        self.idx = self.idx + 1;
        let x = halton_fraction(self.idx, &self.base_x);
        let y = halton_fraction(self.idx, &self.base_y);
        (x, y)
    }

    /// Advances the stream and returns the next exact radical inverse in
    /// the first base.
    pub fn get_fraction(&mut self) -> (r: (u64, u64))
        requires
            old(self).wf(),
            old(self).spec_idx() < u32::MAX,
        ensures
            final(self).spec_idx() == old(self).spec_idx() + 1,
            final(self).spec_base_x() == old(self).spec_base_x(),
            final(self).spec_base_y() == old(self).spec_base_y(),
            r.0 == halton_num(final(self).spec_idx() as nat, old(self).spec_base_x().spec_value() as nat),
            r.1 == halton_den(final(self).spec_idx() as nat, old(self).spec_base_x().spec_value() as nat),
    {
        self.idx = self.idx + 1;
        halton_fraction(self.idx, &self.base_x)
    }
}

/// A sampler that cycles through a pre-generated finite sequence of
/// samples, with a cursor that can be reseeded per pixel for deterministic
/// streams.
#[derive(Debug, Clone)]
pub struct NumberSequenceSampler<T> {
    sequence: Vec<T>,
    idx: usize,
}

impl<T: Copy> NumberSequenceSampler<T> {
    pub closed spec fn spec_sequence(&self) -> Seq<T> {
        self.sequence@
    }

    pub closed spec fn spec_idx(&self) -> usize {
        self.idx
    }

    pub open spec fn wf(&self) -> bool {
        self.spec_sequence().len() >= 1 && self.spec_idx() < self.spec_sequence().len()
    }

    /// Wraps an already materialized sample sequence.
    pub fn new_from_sequence(sequence: Vec<T>) -> (r: NumberSequenceSampler<T>)
        requires
            sequence@.len() >= 1,
        ensures
            r.spec_sequence() == sequence@,
            r.spec_idx() == 0,
            r.wf(),
    {
        NumberSequenceSampler { sequence, idx: 0 }
    }

    /// Steps the cursor one place around the cycle and hands the sample
    /// there back.
    pub fn next_sample(&mut self) -> (r: T)
        requires
            old(self).wf(),
        ensures
            final(self).spec_sequence() == old(self).spec_sequence(),
            final(self).spec_idx() == (old(self).spec_idx() + 1) % (old(
                self,
            ).spec_sequence().len() as int),
            r == final(self).spec_sequence()[final(self).spec_idx() as int],
            final(self).wf(),
    {
        assert(self.idx < self.sequence.len());
        self.idx = (self.idx + 1) % self.sequence.len();
        self.sequence[self.idx]
    }

    /// Moves the cursor to a position chosen by `seed`, deterministically.
    pub fn seed_index(&mut self, seed: usize)
        requires
            old(self).wf(),
        ensures
            final(self).spec_sequence() == old(self).spec_sequence(),
            final(self).spec_idx() == seed as int % (old(self).spec_sequence().len() as int),
            final(self).wf(),
    {
        self.idx = seed % self.sequence.len();
    }

    /// Moves the cursor back to the start of the cycle.
    pub fn reset(&mut self)
        requires
            old(self).wf(),
        ensures
            final(self).spec_sequence() == old(self).spec_sequence(),
            final(self).spec_idx() == 0,
            final(self).wf(),
    {
        self.idx = 0;
    }

    /// A fresh sampler over the same sequence, with the cursor at the
    /// start.
    pub fn reset_copy(&self) -> (r: NumberSequenceSampler<T>)
        requires
            self.wf(),
        ensures
            r.spec_sequence() == self.spec_sequence(),
            r.spec_idx() == 0,
            r.wf(),
    {
        let mut copied: Vec<T> = Vec::new();
        let mut i: usize = 0;
        while i < self.sequence.len()
            invariant
                i <= self.spec_sequence().len(),
                copied@.len() == i,
                forall|k: int| 0 <= k < i ==> copied@[k] == self.spec_sequence()[k],
            decreases self.spec_sequence().len() - i,
        {
            copied.push(self.sequence[i]);
            i = i + 1;
        }
        proof {
            assert(copied@ =~= self.spec_sequence());
        }
        NumberSequenceSampler { sequence: copied, idx: 0 }
    }
}

} // verus!
