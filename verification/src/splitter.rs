//! Splitters for the BVH builder.
//!
//! A splitter looks at a sorted run of objects and picks the index where the
//! run should be divided into a left and a right subtree, or `0` to make the
//! run a leaf.  The surface-area-heuristic splitter compares costs exactly,
//! in integer arithmetic over the objects' areas and rational cost constants,
//! so its choice is a proved consequence of the cost model rather than of
//! rounding.

use vstd::prelude::*;

use crate::bvh_accelerator::BoundedObject;

verus! {

/// Upper bound on a single object's surface area, so that sums of areas and
/// the heuristic's products stay within machine integers.
pub const AREA_LIMIT: u64 = 0x1_0000_0000;

/// Upper bound on the number of objects a splitter (and the builder) takes.
pub const COUNT_LIMIT: usize = 0x10_0000;

/// Upper bound on the numerator and denominator of a cost constant.
pub const COST_LIMIT: u64 = 0x1_0000;

/// A type with a surface area, in the caller's (scaled) area units.
pub trait HasSurfaceArea {
    spec fn spec_surface_area(&self) -> u64;

    fn surface_area(&self) -> (r: u64)
        ensures
            r == self.spec_surface_area(),
    ;
}

/// A nonnegative rational constant `num / den`.
#[derive(Clone, Copy, Debug, PartialEq, Eq, Structural)]
pub struct Rational {
    pub num: u64,
    pub den: u64,
}

pub open spec fn rational_wf(r: Rational) -> bool {
    1 <= r.den <= COST_LIMIT && r.num <= COST_LIMIT
}

/// The two cost constants of the surface-area heuristic.
#[derive(Clone, Copy, Debug, PartialEq, Eq, Structural)]
pub struct SAHConstants {
    pub cost_traversal: Rational,
    pub cost_triangle_intersection: Rational,
}

pub open spec fn sah_constants_wf(c: SAHConstants) -> bool {
    rational_wf(c.cost_traversal) && rational_wf(c.cost_triangle_intersection)
}

/// The sum of the areas of `objs[lo..hi)`.
pub open spec fn area_sum(objs: Seq<BoundedObject>, lo: int, hi: int) -> int
    decreases hi - lo,
{
    if lo >= hi {
        0
    } else {
        area_sum(objs, lo, hi - 1) + objs[hi - 1].area
    }
}

pub proof fn lemma_area_sum_split(objs: Seq<BoundedObject>, lo: int, mid: int, hi: int)
    requires
        lo <= mid <= hi,
    ensures
        area_sum(objs, lo, hi) == area_sum(objs, lo, mid) + area_sum(objs, mid, hi),
    decreases hi - mid,
{
    if mid < hi {
        lemma_area_sum_split(objs, lo, mid, hi - 1);
    }
}

pub proof fn lemma_area_sum_bounds(objs: Seq<BoundedObject>, lo: int, hi: int)
    requires
        0 <= lo <= hi <= objs.len(),
        forall|j: int| lo <= j < hi ==> (#[trigger] objs[j]).area <= AREA_LIMIT,
    ensures
        0 <= area_sum(objs, lo, hi) <= (hi - lo) * (AREA_LIMIT as int),
    decreases hi - lo,
{
    if lo < hi {
        lemma_area_sum_bounds(objs, lo, hi - 1);
    }
}

/// The subdivision step of the heuristic for a run of `n` objects.
pub open spec fn sah_step(n: int, subdivs: int) -> int {
    let s = n / subdivs;
    if s < 1 {
        1
    } else {
        s
    }
}

/// Whether `m` is one of the candidate split positions that the heuristic
/// tries on a run of `n` objects.
pub open spec fn is_candidate(n: int, step: int, m: int) -> bool {
    0 < m < n && m % step == 0
}

/// The part of a candidate's cost that varies with the split position:
/// `A_left * |left| + A_right * |right|`.
pub open spec fn split_weight(objs: Seq<BoundedObject>, lo: int, hi: int, m: int) -> int {
    area_sum(objs, lo, lo + m) * m + area_sum(objs, lo + m, hi) * (hi - lo - m)
}

/// Exact form of `C_trav + C_isect * w / a  <  n * C_isect`, i.e. the
/// candidate's cost beats the do-not-split baseline, over positive total
/// area `a`.  Both sides have been multiplied by `td * cd * a`.
pub open spec fn sah_beats_baseline(c: SAHConstants, a: int, w: int, n: int) -> bool {
    c.cost_traversal.num * c.cost_triangle_intersection.den * a + c.cost_triangle_intersection.num
        * c.cost_traversal.den * w < n * c.cost_triangle_intersection.num * c.cost_traversal.den
        * a
}

/// Exact form of `cost(w1) < cost(w2)` for two candidates of the same run;
/// the shared terms of the cost cancel.
pub open spec fn sah_better(c: SAHConstants, w1: int, w2: int) -> bool {
    c.cost_triangle_intersection.num * w1 < c.cost_triangle_intersection.num * w2
}

/// Picks an index where a sorted run should be split, or `0` to keep it
/// whole.
pub trait BVHSplitter {
    spec fn wf(&self) -> bool;

    /// Returns the split position for the run `objects[lo..hi)`, relative to
    /// `lo`; `0` means the run becomes a leaf.
    fn get_spliting_index(&self, objects: &Vec<BoundedObject>, lo: usize, hi: usize) -> (m: usize)
        requires
            self.wf(),
            lo <= hi <= objects@.len(),
            hi - lo <= COUNT_LIMIT,
            forall|j: int| lo <= j < hi ==> (#[trigger] objects@[j]).area <= AREA_LIMIT,
        ensures
            m == 0 || 0 < m < hi - lo,
    ;
}

/// Splits a run in the middle until runs are small enough for a leaf.
pub struct MedianIndexSplitter {
    pub num_objects_in_leaf: usize,
}

impl MedianIndexSplitter {
    /// The exact choice: a run of more than `num_objects_in_leaf` objects is
    /// split at its midpoint, a smaller one becomes a leaf.
    pub fn split_index(&self, objects: &Vec<BoundedObject>, lo: usize, hi: usize) -> (m: usize)
        requires
            lo <= hi <= objects@.len(),
        ensures
            hi - lo <= self.num_objects_in_leaf ==> m == 0,
            hi - lo > self.num_objects_in_leaf ==> m == (hi - lo) / 2,
    {
        let n = hi - lo;
        if n <= self.num_objects_in_leaf {
            0
        } else {
            n / 2
        }
    }
}

impl BVHSplitter for MedianIndexSplitter {
    open spec fn wf(&self) -> bool {
        true
    }

    fn get_spliting_index(&self, objects: &Vec<BoundedObject>, lo: usize, hi: usize) -> (m: usize) {
        self.split_index(objects, lo, hi)
    }
}

/// The surface-area-heuristic splitter: tries evenly spaced candidate
/// positions and keeps the cheapest one if it beats leaving the run whole.
pub struct SAHSubdivideGuessSplitter {
    pub number_of_subdivs: u32,
    pub sah_consts: SAHConstants,
}

impl SAHSubdivideGuessSplitter {
    /// The exact choice of the heuristic: the first candidate position of
    /// minimum cost, provided that cost beats the do-not-split baseline of
    /// `n * C_isect`; otherwise `0`.  A run whose total area is zero is
    /// never split.
    pub fn split_index(&self, objects: &Vec<BoundedObject>, lo: usize, hi: usize) -> (m: usize)
        requires
            self.number_of_subdivs >= 1,
            sah_constants_wf(self.sah_consts),
            lo <= hi <= objects@.len(),
            hi - lo <= COUNT_LIMIT,
            forall|j: int| lo <= j < hi ==> (#[trigger] objects@[j]).area <= AREA_LIMIT,
        ensures
            ({
                let n = hi - lo;
                let step = sah_step(n as int, self.number_of_subdivs as int);
                let a = area_sum(objects@, lo as int, hi as int);
                let c = self.sah_consts;
                &&& (m == 0 || (0 < m < n && is_candidate(n as int, step, m as int)))
                &&& (m == 0 ==> forall|k: int|
                    is_candidate(n as int, step, k) ==> !(a > 0 && sah_beats_baseline(
                        c,
                        a,
                        split_weight(objects@, lo as int, hi as int, k),
                        n as int,
                    )))
                &&& (m != 0 ==> a > 0 && sah_beats_baseline(
                    c,
                    a,
                    split_weight(objects@, lo as int, hi as int, m as int),
                    n as int,
                ))
                &&& (m != 0 ==> forall|k: int|
                    is_candidate(n as int, step, k) ==> !sah_better(
                        c,
                        split_weight(objects@, lo as int, hi as int, k),
                        split_weight(objects@, lo as int, hi as int, m as int),
                    ))
                &&& (m != 0 ==> forall|k: int|
                    is_candidate(n as int, step, k) && k < m ==> sah_better(
                        c,
                        split_weight(objects@, lo as int, hi as int, m as int),
                        split_weight(objects@, lo as int, hi as int, k),
                    ))
            }),
    {
        let n = hi - lo;
        if n <= 1 {
            return 0;
        }
        let ghost gobjs = objects@;
        let ghost glo = lo as int;
        let ghost ghi = hi as int;

        // prefix[k] == area_sum(objs, lo, lo + k)
        let mut prefix: Vec<u64> = Vec::new();
        prefix.push(0);
        let mut k: usize = 0;
        while k < n
            invariant
                gobjs == objects@,
                glo == lo as int,
                ghi == hi as int,
                lo <= hi <= objects@.len(),
                n == hi - lo,
                n <= COUNT_LIMIT,
                k <= n,
                prefix@.len() == k + 1,
                forall|t: int| lo <= t < hi ==> (#[trigger] gobjs[t]).area <= AREA_LIMIT,
                forall|t: int|
                    0 <= t <= k ==> #[trigger] prefix@[t] == area_sum(gobjs, glo, glo + t),
            decreases n - k,
        {
            proof {
                lemma_area_sum_bounds(gobjs, glo, glo + k);
                lemma_area_sum_bounds(gobjs, glo, glo + k + 1);
            }
            let next = prefix[k] + objects[lo + k].area;
            prefix.push(next);
            k = k + 1;
        }
        let a_total = prefix[n];
        proof {
            lemma_area_sum_bounds(gobjs, glo, ghi);
        }
        if a_total == 0 {
            return 0;
        }

        let subdivision_size = {
            let s = n / (self.number_of_subdivs as usize);
            if s < 1 {
                1
            } else {
                s
            }
        };
        let ghost step = sah_step(n as int, self.number_of_subdivs as int);
        assert(subdivision_size == step);
        proof {
            vstd::arithmetic::div_mod::lemma_mod_self_0(step);
            assert forall|t: int| 0 < t < step implies #[trigger] (t % step) != 0 by {
                vstd::arithmetic::div_mod::lemma_small_mod(t as nat, step as nat);
            }
        }

        let tn = self.sah_consts.cost_traversal.num as u128;
        let td = self.sah_consts.cost_traversal.den as u128;
        let cn = self.sah_consts.cost_triangle_intersection.num as u128;
        let cd = self.sah_consts.cost_triangle_intersection.den as u128;
        let ghost c = self.sah_consts;

        let mut best_mid_point: usize = 0;
        let mut best_weight: u128 = 0;
        let mut left_size = subdivision_size;
        while left_size < n
            invariant
                gobjs == objects@,
                glo == lo as int,
                ghi == hi as int,
                lo <= hi <= objects@.len(),
                n == hi - lo,
                2 <= n <= COUNT_LIMIT,
                1 <= subdivision_size,
                subdivision_size == step,
                subdivision_size <= left_size,
                left_size % subdivision_size == 0,
                prefix@.len() == n + 1,
                forall|t: int| lo <= t < hi ==> (#[trigger] gobjs[t]).area <= AREA_LIMIT,
                forall|t: int|
                    0 <= t <= n ==> #[trigger] prefix@[t] == area_sum(gobjs, glo, glo + t),
                a_total == area_sum(gobjs, glo, ghi),
                a_total > 0,
                tn == c.cost_traversal.num,
                td == c.cost_traversal.den,
                cn == c.cost_triangle_intersection.num,
                cd == c.cost_triangle_intersection.den,
                sah_constants_wf(c),
                c == self.sah_consts,
                best_mid_point == 0 || (0 < best_mid_point < left_size && is_candidate(
                    n as int,
                    step,
                    best_mid_point as int,
                )),
                best_mid_point == 0 ==> forall|t: int|
                    is_candidate(n as int, step, t) && t < left_size ==> !sah_beats_baseline(
                        c,
                        a_total as int,
                        split_weight(gobjs, glo, ghi, t),
                        n as int,
                    ),
                best_mid_point != 0 ==> {
                    &&& best_weight == split_weight(gobjs, glo, ghi, best_mid_point as int)
                    &&& sah_beats_baseline(c, a_total as int, best_weight as int, n as int)
                    &&& forall|t: int|
                        is_candidate(n as int, step, t) && t < left_size ==> !sah_better(
                            c,
                            split_weight(gobjs, glo, ghi, t),
                            best_weight as int,
                        )
                    &&& forall|t: int|
                        is_candidate(n as int, step, t) && t < best_mid_point ==> sah_better(
                            c,
                            best_weight as int,
                            split_weight(gobjs, glo, ghi, t),
                        )
                },
            decreases n + subdivision_size - left_size,
        {
            proof {
                lemma_area_sum_split(gobjs, glo, glo + left_size, ghi);
                lemma_area_sum_bounds(gobjs, glo, glo + left_size);
                lemma_area_sum_bounds(gobjs, glo + left_size, ghi);
                lemma_area_sum_bounds(gobjs, glo, ghi);
                assert((ghi - glo) * (AREA_LIMIT as int) <= 0x10_0000_0000_0000int)
                    by (nonlinear_arith)
                    requires
                        0 <= ghi - glo <= 0x10_0000,
                ;
            }
            let a_left = prefix[left_size];
            let a_right = a_total - a_left;
            let ghost gw = split_weight(gobjs, glo, ghi, left_size as int);
            proof {
                assert(gw == (a_left as int) * (left_size as int) + (a_right as int) * ((n
                    - left_size) as int));
                assert(0 <= gw <= (a_total as int) * (n as int)) by (nonlinear_arith)
                    requires
                        gw == (a_left as int) * (left_size as int) + (a_right as int) * ((n
                            - left_size) as int),
                        0 <= a_left as int,
                        0 <= a_right as int,
                        a_left as int + a_right as int == a_total as int,
                        0 < left_size < n,
                ;
                assert((a_total as int) * (n as int) <= 0x1000_0000_0000_0000_0000int)
                    by (nonlinear_arith)
                    requires
                        0 <= a_total as int <= 0x10_0000_0000_0000int,
                        0 <= n <= 0x10_0000,
                ;
            }
            let w = (a_left as u128) * (left_size as u128) + (a_right as u128) * ((n - left_size)
                as u128);
            assert(w == gw);

            // does this candidate improve on what we have so far?
            let improves: bool = if best_mid_point == 0 {
                proof {
                    assert(tn * cd <= 0x1_0000_0000u128 && cn * td <= 0x1_0000_0000u128 && (n
                        as u128) * cn <= 0x1_0000_0000_0000u128) by (nonlinear_arith)
                        requires
                            tn <= 0x1_0000u128,
                            cd <= 0x1_0000u128,
                            cn <= 0x1_0000u128,
                            td <= 0x1_0000u128,
                            n as u128 <= 0x10_0000u128,
                    ;
                }
                let tc: u128 = tn * cd;
                let ct: u128 = cn * td;
                let nc: u128 = (n as u128) * cn;
                proof {
                    assert(tc * (a_total as u128) <= 0x1_0000_0000u128 * 0x10_0000_0000_0000u128
                        && ct * w <= 0x1_0000_0000u128 * 0x1000_0000_0000_0000_0000u128 && nc * td
                        <= 0x1_0000_0000_0000u128 * 0x1_0000u128) by (nonlinear_arith)
                        requires
                            tc <= 0x1_0000_0000u128,
                            ct <= 0x1_0000_0000u128,
                            nc <= 0x1_0000_0000_0000u128,
                            td <= 0x1_0000u128,
                            a_total as u128 <= 0x10_0000_0000_0000u128,
                            w <= 0x1000_0000_0000_0000_0000u128,
                    ;
                }
                let nct: u128 = nc * td;
                proof {
                    assert(nct * (a_total as u128) <= 0x1_0000_0000_0000_0000u128
                        * 0x10_0000_0000_0000u128) by (nonlinear_arith)
                        requires
                            nct <= 0x1_0000_0000_0000_0000u128,
                            a_total as u128 <= 0x10_0000_0000_0000u128,
                    ;
                }
                tc * (a_total as u128) + ct * w < nct * (a_total as u128)
            } else {
                proof {
                    lemma_area_sum_split(gobjs, glo, glo + best_mid_point, ghi);
                    lemma_area_sum_bounds(gobjs, glo, glo + best_mid_point);
                    lemma_area_sum_bounds(gobjs, glo + best_mid_point, ghi);
                    assert(split_weight(gobjs, glo, ghi, best_mid_point as int) <= (a_total
                        as int) * (n as int)) by (nonlinear_arith)
                        requires
                            split_weight(gobjs, glo, ghi, best_mid_point as int) == area_sum(
                                gobjs,
                                glo,
                                glo + best_mid_point,
                            ) * (best_mid_point as int) + area_sum(gobjs, glo + best_mid_point, ghi)
                                * ((n - best_mid_point) as int),
                            0 <= area_sum(gobjs, glo, glo + best_mid_point),
                            0 <= area_sum(gobjs, glo + best_mid_point, ghi),
                            area_sum(gobjs, glo, glo + best_mid_point) + area_sum(
                                gobjs,
                                glo + best_mid_point,
                                ghi,
                            ) == a_total as int,
                            0 < best_mid_point < n,
                    ;
                    assert(cn * w <= 0x1_0000u128 * 0x1000_0000_0000_0000_0000u128 && cn
                        * best_weight <= 0x1_0000u128 * 0x1000_0000_0000_0000_0000u128)
                        by (nonlinear_arith)
                        requires
                            cn <= 0x1_0000u128,
                            w <= 0x1000_0000_0000_0000_0000u128,
                            best_weight <= 0x1000_0000_0000_0000_0000u128,
                    ;
                    assert(best_weight <= 0x1000_0000_0000_0000_0000u128) by (nonlinear_arith)
                        requires
                            best_weight as int == split_weight(gobjs, glo, ghi, best_mid_point
                                as int),
                            split_weight(gobjs, glo, ghi, best_mid_point as int) <= (a_total
                                as int) * (n as int),
                            0 <= a_total as int <= 0x10_0000_0000_0000int,
                            0 <= n <= 0x10_0000,
                    ;
                }
                cn * w < cn * best_weight
            };

            if improves {
                proof {
                    if best_mid_point != 0 {
                        // strictly cheaper than something that beat the
                        // baseline, so it beats the baseline too
                        assert(sah_beats_baseline(c, a_total as int, gw, n as int))
                            by (nonlinear_arith)
                            requires
                                sah_beats_baseline(c, a_total as int, best_weight as int, n as int),
                                sah_better(c, gw, best_weight as int),
                                c.cost_traversal.den >= 1,
                        ;
                    } else {
                        // every earlier candidate failed the baseline that
                        // this one passes, so every earlier one is strictly
                        // more expensive
                        assert forall|t: int|
                            is_candidate(n as int, step, t) && t < left_size implies sah_better(
                            c,
                            gw,
                            split_weight(gobjs, glo, ghi, t),
                        ) by {
                            let wt = split_weight(gobjs, glo, ghi, t);
                            if c.cost_triangle_intersection.num * wt
                                <= c.cost_triangle_intersection.num * gw {
                                assert(sah_beats_baseline(c, a_total as int, wt, n as int))
                                    by (nonlinear_arith)
                                    requires
                                        sah_beats_baseline(c, a_total as int, gw, n as int),
                                        c.cost_triangle_intersection.num * wt
                                            <= c.cost_triangle_intersection.num * gw,
                                        c.cost_traversal.den >= 1,
                                ;
                                assert(false);
                            }
                        }
                    }
                }
                best_mid_point = left_size;
                best_weight = w;
            }
            proof {
                assert forall|t: int|
                    left_size < t < left_size + subdivision_size implies #[trigger] (t % step)
                    != 0 by {
                    vstd::arithmetic::div_mod::lemma_mod_adds(left_size as int, t - left_size,
                        step);
                    vstd::arithmetic::div_mod::lemma_small_mod((t - left_size) as nat,
                        step as nat);
                }
                vstd::arithmetic::div_mod::lemma_mod_adds(left_size as int, step, step);
                vstd::arithmetic::div_mod::lemma_mod_self_0(step);
            }
            left_size = left_size + subdivision_size;
        }
        best_mid_point
    }
}

impl BVHSplitter for SAHSubdivideGuessSplitter {
    open spec fn wf(&self) -> bool {
        self.number_of_subdivs >= 1 && sah_constants_wf(self.sah_consts)
    }

    fn get_spliting_index(&self, objects: &Vec<BoundedObject>, lo: usize, hi: usize) -> (m: usize) {
        self.split_index(objects, lo, hi)
    }
}

} // verus!
