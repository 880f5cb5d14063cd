use vstd::prelude::*;
use vstd::math::max;
use vstd::math::min;
use crate::state::BarModel;
use crate::state::NestedMeta;
use crate::state::ProgressBarState;
use crate::state::models_of;
use crate::state::LifecycleState;
use crate::state::MetaModel;
use crate::state::SCALE;

verus! {

/// The five-tuple the aggregation engine computes for a node: the completed,
/// running and abandoned shares of the bar, in millionths of the whole, and
/// the two length bounds, in millionths of an item. An unknown upper bound
/// means the bar is indeterminate.
pub struct Aggregate {
    pub progress: u64,
    pub in_progress: u64,
    pub abandoned: u64,
    pub lower_len: u64,
    pub upper_len: Option<u64>,
}

/// Mathematical model of an [`Aggregate`].
#[verifier::ext_equal]
pub struct AggModel {
    pub progress: int,
    pub in_progress: int,
    pub abandoned: int,
    pub lower_len: int,
    pub upper_len: Option<int>,
}

impl Aggregate {
    pub open spec fn model(self) -> AggModel {
        AggModel {
            progress: self.progress as int,
            in_progress: self.in_progress as int,
            abandoned: self.abandoned as int,
            lower_len: self.lower_len as int,
            upper_len: match self.upper_len {
                None => None,
                Some(u) => Some(u as int),
            },
        }
    }
}

/// Saturation at the top of the 64-bit range: oversized length sums freeze
/// there instead of wrapping.
pub open spec fn sat64(x: int) -> int {
    if x > u64::MAX as int {
        u64::MAX as int
    } else {
        x
    }
}

/// Saturation at the top of the 128-bit range, for the share accumulators.
pub open spec fn sat128(x: int) -> int {
    if x > u128::MAX as int {
        u128::MAX as int
    } else {
        x
    }
}

/// A length in items, converted to millionths of an item.
pub open spec fn spec_micro(items: int) -> int {
    sat64(items * SCALE)
}

/// A raw share sum divided by the total weight; a total of zero leaves
/// the sum untouched, which only arises when the sum is zero too.
pub open spec fn spec_share_value(sum: int, total: int) -> int {
    if total > 0 {
        sum / total
    } else {
        sum
    }
}

/// Builds the final tuple from raw sums: each share is divided by the total
/// and clamped so that the three shares are non-negative and never exceed
/// one whole together.
pub open spec fn spec_finish_shares(sp: int, sr: int, sa: int, tl: int, tu: Option<int>) -> AggModel {
    let p = min(max(spec_share_value(sp, tl), 0), SCALE as int);
    let r = min(max(spec_share_value(sr, tl), 0), SCALE as int - p);
    let a = min(max(spec_share_value(sa, tl), 0), SCALE as int - p - r);
    AggModel { progress: p, in_progress: r, abandoned: a, lower_len: tl, upper_len: tu }
}

/// Aggregation of a leaf bar.
pub open spec fn spec_agg_leaf(node: BarModel) -> AggModel {
    match node.length {
        Some(len) => if len > 0 {
            let cp = min(node.position as int, len as int);
            AggModel {
                progress: cp * SCALE / (len as int),
                in_progress: 0,
                abandoned: if node.lifecycle is Abandoned {
                    (len - cp) * SCALE / (len as int)
                } else {
                    0
                },
                lower_len: spec_micro(len as int),
                upper_len: Some(spec_micro(len as int)),
            }
        } else {
            AggModel {
                progress: if node.lifecycle is Completed {
                    SCALE as int
                } else {
                    0
                },
                in_progress: 0,
                abandoned: if node.lifecycle is Abandoned {
                    SCALE as int
                } else {
                    0
                },
                lower_len: 0,
                upper_len: Some(0),
            }
        },
        None => if node.lifecycle is InProgress {
            AggModel {
                progress: SCALE as int,
                in_progress: 0,
                abandoned: 0,
                lower_len: spec_micro(node.position as int),
                upper_len: None,
            }
        } else if node.lifecycle is Abandoned && node.position == 0 {
            AggModel {
                progress: 0,
                in_progress: 0,
                abandoned: SCALE as int,
                lower_len: 0,
                upper_len: Some(0),
            }
        } else {
            // A finished indeterminate bar: the final position becomes the
            // length; an abandoned one that made progress counts the same.
            AggModel {
                progress: SCALE as int,
                in_progress: 0,
                abandoned: 0,
                lower_len: spec_micro(node.position as int),
                upper_len: Some(spec_micro(node.position as int)),
            }
        },
    }
}

/// A child's completed and running shares, as a weighted or sized parent
/// counts them. A child with no known upper length cannot report a
/// percentage: if it has not moved at all it contributes nothing, and
/// otherwise everything except its abandoned share counts as running.
pub open spec fn spec_adjusted_shares(child: AggModel) -> (int, int) {
    if child.upper_len is None {
        if child.lower_len == 0 {
            (0, 0)
        } else {
            (0, SCALE as int - child.abandoned)
        }
    } else {
        (child.progress, child.in_progress)
    }
}

/// Running totals of a weighted or sized combination.
#[verifier::ext_equal]
pub struct ShareTotals {
    pub total_len: int,
    pub sum_progress: int,
    pub sum_in_progress: int,
    pub sum_abandoned: int,
}

/// Totals over the first `n` child/weight pairs of a weighted or sized
/// composite. For a sized composite the weights are item counts and are
/// scaled to millionths; for a weighted one they already are millionths.
pub open spec fn spec_share_totals(bars: Seq<BarModel>, ws: Seq<u64>, sized: bool, n: int) -> ShareTotals
    decreases bars, n,
{
    if n <= 0 || n > bars.len() || n > ws.len() {
        ShareTotals { total_len: 0, sum_progress: 0, sum_in_progress: 0, sum_abandoned: 0 }
    } else {
        let t = spec_share_totals(bars, ws, sized, n - 1);
        let child = spec_aggregate(bars[n - 1]);
        let w = if sized {
            spec_micro(ws[n - 1] as int)
        } else {
            ws[n - 1] as int
        };
        let (p, r) = spec_adjusted_shares(child);
        ShareTotals {
            total_len: sat64(t.total_len + w),
            sum_progress: sat128(t.sum_progress + p * w),
            sum_in_progress: sat128(t.sum_in_progress + r * w),
            sum_abandoned: sat128(t.sum_abandoned + child.abandoned * w),
        }
    }
}

/// Aggregation of a weighted or sized composite: the shares are weighted
/// averages of the children's shares; the length is the total weight,
/// floored at one whole for a weighted split and at the parent's own
/// length for a sized one.
pub open spec fn spec_agg_shares(
    length: Option<u64>,
    bars: Seq<BarModel>,
    ws: Seq<u64>,
    sized: bool,
) -> AggModel
    decreases bars, bars.len() + 1,
{
    let t = spec_share_totals(bars, ws, sized, min(bars.len() as int, ws.len() as int));
    let tl = if sized {
        match length {
            Some(len) => max(t.total_len, spec_micro(len as int)),
            None => t.total_len,
        }
    } else {
        max(t.total_len, SCALE as int)
    };
    spec_finish_shares(t.sum_progress, t.sum_in_progress, t.sum_abandoned, tl, Some(tl))
}

/// Running totals of a summed combination.
#[verifier::ext_equal]
pub struct SumTotals {
    pub total_lower: int,
    pub total_upper: Option<int>,
    pub sum_progress: int,
    pub sum_in_progress: int,
    pub sum_abandoned: int,
}

/// Totals over the first `n` children of a summed composite. Lengths add
/// up; the upper bound becomes unknown as soon as a child with any activity
/// has no known upper bound; shares are weighted by each child's lower
/// length.
pub open spec fn spec_sum_totals(bars: Seq<BarModel>, n: int) -> SumTotals
    decreases bars, n,
{
    if n <= 0 || n > bars.len() {
        SumTotals {
            total_lower: 0,
            total_upper: Some(0),
            sum_progress: 0,
            sum_in_progress: 0,
            sum_abandoned: 0,
        }
    } else {
        let t = spec_sum_totals(bars, n - 1);
        let child = spec_aggregate(bars[n - 1]);
        let active = child.progress + child.in_progress + child.abandoned > 0;
        let tu = if active && child.upper_len is None {
            None
        } else {
            t.total_upper
        };
        let u = match child.upper_len {
            Some(u) => u,
            None => child.lower_len,
        };
        SumTotals {
            total_lower: sat64(t.total_lower + child.lower_len),
            total_upper: match tu {
                None => None,
                Some(x) => Some(sat64(x + u)),
            },
            sum_progress: sat128(t.sum_progress + child.progress * child.lower_len),
            sum_in_progress: sat128(t.sum_in_progress + child.in_progress * child.lower_len),
            sum_abandoned: sat128(t.sum_abandoned + child.abandoned * child.lower_len),
        }
    }
}

/// Aggregation of a summed composite. The parent's own length, if set,
/// floors the lower bound, and supplies an upper bound when it covers the
/// whole sum.
pub open spec fn spec_agg_summed(length: Option<u64>, bars: Seq<BarModel>) -> AggModel
    decreases bars, bars.len() + 1,
{
    let t = spec_sum_totals(bars, bars.len() as int);
    let (tl, tu) = match length {
        None => (t.total_lower, t.total_upper),
        Some(len) => {
            let lm = spec_micro(len as int);
            let tu1 = if lm >= t.total_lower {
                match t.total_upper {
                    None => Some(lm),
                    Some(x) => Some(x),
                }
            } else {
                t.total_upper
            };
            (
                max(t.total_lower, lm),
                match tu1 {
                    None => None,
                    Some(x) => Some(max(x, lm)),
                },
            )
        },
    };
    spec_finish_shares(t.sum_progress, t.sum_in_progress, t.sum_abandoned, tl, tu)
}

/// Aggregation of any node: leaves report their own state, and composites
/// combine their children under their rule.
pub open spec fn spec_aggregate(node: BarModel) -> AggModel
    decreases node,
{
    match node.nested {
        None => spec_agg_leaf(node),
        Some(nested) => match nested.meta {
            MetaModel::Weighted(ws) => spec_agg_shares(node.length, nested.bars, ws, false),
            MetaModel::Sized(cs) => spec_agg_shares(node.length, nested.bars, cs, true),
            MetaModel::Summed => spec_agg_summed(node.length, nested.bars),
        },
    }
}


/// The invariants every aggregation result satisfies: shares lie between
/// zero and one whole and sum to at most one whole, and the length bounds
/// are ordered and fit the machine word.
pub open spec fn agg_wf(a: AggModel) -> bool {
    &&& 0 <= a.progress <= SCALE
    &&& 0 <= a.in_progress <= SCALE
    &&& 0 <= a.abandoned <= SCALE
    &&& a.progress + a.in_progress + a.abandoned <= SCALE
    &&& 0 <= a.lower_len <= u64::MAX
    &&& match a.upper_len {
        Some(u) => a.lower_len <= u <= u64::MAX,
        None => true,
    }
}

/// Floor division distributes over a sum no worse than the sum of the
/// floors.
proof fn lemma_div_sum_le(x: int, y: int, d: int)
    requires
        0 <= x,
        0 <= y,
        0 < d,
    ensures
        x / d + y / d <= (x + y) / d,
{
    vstd::arithmetic::div_mod::lemma_fundamental_div_mod(x, d);
    vstd::arithmetic::div_mod::lemma_fundamental_div_mod(y, d);
    vstd::arithmetic::div_mod::lemma_fundamental_div_mod(x + y, d);
    assert(x / d + y / d <= (x + y) / d) by (nonlinear_arith)
        requires
            0 < d,
            x == d * (x / d) + (x % d),
            y == d * (y / d) + (y % d),
            x + y == d * ((x + y) / d) + ((x + y) % d),
            0 <= x % d < d,
            0 <= y % d < d,
            0 <= (x + y) % d < d,
    ;
}

/// A clamped part of a whole is non-negative and at most the whole.
proof fn lemma_part_of_whole(part: int, whole: int)
    requires
        0 <= part <= whole,
        0 < whole,
    ensures
        0 <= part * SCALE / whole <= SCALE,
{
    assert(0 <= part * SCALE <= whole * SCALE) by (nonlinear_arith)
        requires
            0 <= part <= whole,
    ;
    vstd::arithmetic::div_mod::lemma_div_is_ordered(part * SCALE, whole * SCALE, whole);
    vstd::arithmetic::div_mod::lemma_div_by_multiple(SCALE as int, whole);
    assert(whole * SCALE == SCALE * whole) by (nonlinear_arith);
    vstd::arithmetic::div_mod::lemma_div_pos_is_pos(part * SCALE, whole);
}

/// The share totals of a weighted or sized composite are non-negative, and
/// the total weight fits the machine word.
proof fn lemma_share_totals_bounds(bars: Seq<BarModel>, ws: Seq<u64>, sized: bool, n: int)
    ensures
        0 <= spec_share_totals(bars, ws, sized, n).total_len <= u64::MAX,
        0 <= spec_share_totals(bars, ws, sized, n).sum_progress <= u128::MAX,
        0 <= spec_share_totals(bars, ws, sized, n).sum_in_progress <= u128::MAX,
        0 <= spec_share_totals(bars, ws, sized, n).sum_abandoned <= u128::MAX,
    decreases bars, n,
{
    if n <= 0 || n > bars.len() || n > ws.len() {
    } else {
        lemma_share_totals_bounds(bars, ws, sized, n - 1);
        lemma_aggregate_wf(bars[n - 1]);
        let child = spec_aggregate(bars[n - 1]);
        let w = if sized {
            spec_micro(ws[n - 1] as int)
        } else {
            ws[n - 1] as int
        };
        let (p, r) = spec_adjusted_shares(child);
        assert(0 <= p * w && 0 <= r * w && 0 <= child.abandoned * w) by (nonlinear_arith)
            requires
                0 <= p,
                0 <= r,
                0 <= child.abandoned,
                0 <= w,
        ;
    }
}

/// The sum totals of a summed composite are non-negative, and the lower
/// total never exceeds the upper one while that is known.
proof fn lemma_sum_totals_bounds(bars: Seq<BarModel>, n: int)
    ensures
        0 <= spec_sum_totals(bars, n).total_lower <= u64::MAX,
        match spec_sum_totals(bars, n).total_upper {
            Some(x) => spec_sum_totals(bars, n).total_lower <= x <= u64::MAX,
            None => true,
        },
        0 <= spec_sum_totals(bars, n).sum_progress <= u128::MAX,
        0 <= spec_sum_totals(bars, n).sum_in_progress <= u128::MAX,
        0 <= spec_sum_totals(bars, n).sum_abandoned <= u128::MAX,
    decreases bars, n,
{
    if n <= 0 || n > bars.len() {
    } else {
        lemma_sum_totals_bounds(bars, n - 1);
        lemma_aggregate_wf(bars[n - 1]);
        let child = spec_aggregate(bars[n - 1]);
        assert(0 <= child.progress * child.lower_len
            && 0 <= child.in_progress * child.lower_len
            && 0 <= child.abandoned * child.lower_len) by (nonlinear_arith)
            requires
                0 <= child.progress,
                0 <= child.in_progress,
                0 <= child.abandoned,
                0 <= child.lower_len,
        ;
    }
}

/// Every aggregation result is well formed. Proved by induction over the
/// node tree.
pub proof fn lemma_aggregate_wf(node: BarModel)
    ensures
        agg_wf(spec_aggregate(node)),
    decreases node,
{
    match node.nested {
        None => {
            match node.length {
                Some(len) => {
                    if len > 0 {
                        let cp = min(node.position as int, len as int);
                        lemma_part_of_whole(cp, len as int);
                        if node.lifecycle is Abandoned {
                            lemma_part_of_whole(len - cp, len as int);
                            lemma_div_sum_le(cp * SCALE, (len - cp) * SCALE, len as int);
                            assert(cp * SCALE + (len - cp) * SCALE == len * SCALE)
                                by (nonlinear_arith);
                            assert(len * SCALE == SCALE * len) by (nonlinear_arith);
                            vstd::arithmetic::div_mod::lemma_div_by_multiple(
                                SCALE as int,
                                len as int,
                            );
                        }
                    }
                },
                None => {},
            }
        },
        Some(nested) => {
            match nested.meta {
                MetaModel::Weighted(ws) => {
                    lemma_share_totals_bounds(
                        nested.bars,
                        ws,
                        false,
                        min(nested.bars.len() as int, ws.len() as int),
                    );
                },
                MetaModel::Sized(cs) => {
                    lemma_share_totals_bounds(
                        nested.bars,
                        cs,
                        true,
                        min(nested.bars.len() as int, cs.len() as int),
                    );
                },
                MetaModel::Summed => {
                    lemma_sum_totals_bounds(nested.bars, nested.bars.len() as int);
                },
            }
        },
    }
}

/// Law: for every node, the aggregated completed, running and abandoned
/// shares each lie between zero and one whole, and together they never
/// exceed one whole.
pub proof fn lemma_aggregate_shares_in_range(node: BarModel)
    ensures
        0 <= spec_aggregate(node).progress <= SCALE,
        0 <= spec_aggregate(node).in_progress <= SCALE,
        0 <= spec_aggregate(node).abandoned <= SCALE,
        spec_aggregate(node).progress + spec_aggregate(node).in_progress + spec_aggregate(
            node,
        ).abandoned <= SCALE,
{
    lemma_aggregate_wf(node);
}

/// Law: for every node, whenever the aggregated upper length bound is
/// known, the lower bound does not exceed it.
pub proof fn lemma_aggregate_lengths_ordered(node: BarModel)
    ensures
        match spec_aggregate(node).upper_len {
            Some(u) => spec_aggregate(node).lower_len <= u,
            None => true,
        },
{
    lemma_aggregate_wf(node);
}


/// The largest item count whose micro-unit form still fits a machine word.
pub const MICRO_LIMIT: u64 = 18_446_744_073_709;

/// Converts an item count to millionths of an item, saturating.
fn micro(items: u64) -> (r: u64)
    ensures
        r as int == spec_micro(items as int),
{
    if items > MICRO_LIMIT {
        proof {
            assert(items as int * SCALE > u64::MAX as int) by (nonlinear_arith)
                requires
                    items > MICRO_LIMIT,
            ;
        }
        u64::MAX
    } else {
        proof {
            assert(items as int * SCALE <= u64::MAX as int) by (nonlinear_arith)
                requires
                    items <= MICRO_LIMIT,
            ;
        }
        items * SCALE
    }
}

/// Saturating 64-bit addition.
fn sat_add64(a: u64, b: u64) -> (r: u64)
    ensures
        r as int == sat64(a as int + b as int),
{
    if a > u64::MAX - b {
        u64::MAX
    } else {
        a + b
    }
}

/// Saturating 128-bit addition.
fn sat_add128(a: u128, b: u128) -> (r: u128)
    ensures
        r as int == sat128(a as int + b as int),
{
    if a > u128::MAX - b {
        u128::MAX
    } else {
        a + b
    }
}

/// Exact product of two machine words, in the doubled width.
fn mul64_to_128(a: u64, b: u64) -> (r: u128)
    ensures
        r as int == a as int * b as int,
{
    proof {
        assert(a as int * b as int <= u64::MAX as int * u64::MAX as int) by (nonlinear_arith)
            requires
                a <= u64::MAX,
                b <= u64::MAX,
        ;
    }
    (a as u128) * (b as u128)
}

/// One share out of the raw sums: divided by the total when that is
/// positive, then clamped to the given cap.
fn clamped_share(sum: u128, total: u64, cap: u64) -> (r: u64)
    ensures
        r as int == min(max(spec_share_value(sum as int, total as int), 0), cap as int),
{
    let v: u128 = if total > 0 {
        sum / (total as u128)
    } else {
        sum
    };
    if v > cap as u128 {
        cap
    } else {
        v as u64
    }
}

/// Builds the final tuple from raw sums, mirroring [`spec_finish_shares`].
fn finish_shares(sp: u128, sr: u128, sa: u128, tl: u64, tu: Option<u64>) -> (r: Aggregate)
    ensures
        r.model() == spec_finish_shares(
            sp as int,
            sr as int,
            sa as int,
            tl as int,
            match tu {
                None => None,
                Some(u) => Some(u as int),
            },
        ),
{
    let p = clamped_share(sp, tl, SCALE);
    let r = clamped_share(sr, tl, SCALE - p);
    let a = clamped_share(sa, tl, SCALE - p - r);
    Aggregate { progress: p, in_progress: r, abandoned: a, lower_len: tl, upper_len: tu }
}

/// Aggregates a weighted or sized composite's children.
fn agg_shares(bars: &Vec<ProgressBarState>, ws: &Vec<u64>, sized: bool, length: Option<u64>) -> (r:
    Aggregate)
    ensures
        r.model() == spec_agg_shares(length, models_of(bars@), ws@, sized),
    decreases *bars,
{
    let m = if bars.len() < ws.len() {
        bars.len()
    } else {
        ws.len()
    };
    let mut tl: u64 = 0;
    let mut sp: u128 = 0;
    let mut sr: u128 = 0;
    let mut sa: u128 = 0;
    let mut i: usize = 0;
    while i < m
        invariant
            i <= m,
            m as int == min(bars@.len() as int, ws@.len() as int),
            tl as int == spec_share_totals(models_of(bars@), ws@, sized, i as int).total_len,
            sp as int == spec_share_totals(models_of(bars@), ws@, sized, i as int).sum_progress,
            sr as int == spec_share_totals(models_of(bars@), ws@, sized, i as int).sum_in_progress,
            sa as int == spec_share_totals(models_of(bars@), ws@, sized, i as int).sum_abandoned,
        decreases m - i,
    {
        let child = &bars[i];
        proof {
            assert(decreases_to!(*bars => bars@));
            assert(decreases_to!(bars@ => bars@[i as int]));
            assert(*child == bars@[i as int]);
        }
        let ca = child.progress_count();
        proof {
            lemma_aggregate_wf(child.model());
        }
        let w: u64 = if sized {
            micro(ws[i])
        } else {
            ws[i]
        };
        let adj: (u64, u64) = if ca.upper_len.is_none() {
            if ca.lower_len == 0 {
                (0, 0)
            } else {
                (0, SCALE - ca.abandoned)
            }
        } else {
            (ca.progress, ca.in_progress)
        };
        tl = sat_add64(tl, w);
        sp = sat_add128(sp, mul64_to_128(adj.0, w));
        sr = sat_add128(sr, mul64_to_128(adj.1, w));
        sa = sat_add128(sa, mul64_to_128(ca.abandoned, w));
        i += 1;
    }
    let tl2: u64 = if sized {
        match length {
            Some(len) => {
                let lm = micro(len);
                if tl > lm {
                    tl
                } else {
                    lm
                }
            },
            None => tl,
        }
    } else {
        if tl < SCALE {
            SCALE
        } else {
            tl
        }
    };
    finish_shares(sp, sr, sa, tl2, Some(tl2))
}

/// Aggregates a summed composite's children.
fn agg_summed(bars: &Vec<ProgressBarState>, length: Option<u64>) -> (r: Aggregate)
    ensures
        r.model() == spec_agg_summed(length, models_of(bars@)),
    decreases *bars,
{
    let n = bars.len();
    let mut tl: u64 = 0;
    let mut tu: Option<u64> = Some(0);
    let mut sp: u128 = 0;
    let mut sr: u128 = 0;
    let mut sa: u128 = 0;
    let mut i: usize = 0;
    while i < n
        invariant
            i <= n,
            n == bars@.len(),
            tl as int == spec_sum_totals(models_of(bars@), i as int).total_lower,
            (match tu {
                None => spec_sum_totals(models_of(bars@), i as int).total_upper is None,
                Some(x) => spec_sum_totals(models_of(bars@), i as int).total_upper == Some(
                    x as int,
                ),
            }),
            sp as int == spec_sum_totals(models_of(bars@), i as int).sum_progress,
            sr as int == spec_sum_totals(models_of(bars@), i as int).sum_in_progress,
            sa as int == spec_sum_totals(models_of(bars@), i as int).sum_abandoned,
        decreases n - i,
    {
        let child = &bars[i];
        proof {
            assert(decreases_to!(*bars => bars@));
            assert(decreases_to!(bars@ => bars@[i as int]));
            assert(*child == bars@[i as int]);
        }
        let ca = child.progress_count();
        let active = ca.progress > 0 || ca.in_progress > 0 || ca.abandoned > 0;
        if active && ca.upper_len.is_none() {
            tu = None;
        }
        let u = match ca.upper_len {
            Some(u) => u,
            None => ca.lower_len,
        };
        tu = match tu {
            None => None,
            Some(x) => Some(sat_add64(x, u)),
        };
        tl = sat_add64(tl, ca.lower_len);
        sp = sat_add128(sp, mul64_to_128(ca.progress, ca.lower_len));
        sr = sat_add128(sr, mul64_to_128(ca.in_progress, ca.lower_len));
        sa = sat_add128(sa, mul64_to_128(ca.abandoned, ca.lower_len));
        i += 1;
    }
    let lens: (u64, Option<u64>) = match length {
        None => (tl, tu),
        Some(len) => {
            let lm = micro(len);
            let tu1: Option<u64> = if lm >= tl {
                match tu {
                    None => Some(lm),
                    Some(x) => Some(x),
                }
            } else {
                tu
            };
            let tl2 = if tl > lm {
                tl
            } else {
                lm
            };
            let tu2: Option<u64> = match tu1 {
                None => None,
                Some(x) => Some(
                    if x > lm {
                        x
                    } else {
                        lm
                    },
                ),
            };
            (tl2, tu2)
        },
    };
    finish_shares(sp, sr, sa, lens.0, lens.1)
}

impl ProgressBarState {
    /// Aggregates this subtree into the five-tuple the renderer consumes.
    pub fn progress_count(&self) -> (r: Aggregate)
        ensures
            r.model() == spec_aggregate(self.model()),
            agg_wf(r.model()),
        decreases *self,
    {
        proof {
            lemma_aggregate_wf(self.model());
        }
        match &self.nested {
            None => {
                match self.length {
                    Some(len) => {
                        if len > 0 {
                            let cp = if self.position < len {
                                self.position
                            } else {
                                len
                            };
                            proof {
                                lemma_part_of_whole(cp as int, len as int);
                                lemma_part_of_whole(len as int - cp as int, len as int);
                                assert(cp as int * SCALE < u128::MAX as int) by (nonlinear_arith)
                                    requires
                                        cp <= u64::MAX,
                                ;
                                assert((len as int - cp as int) * SCALE < u128::MAX as int)
                                    by (nonlinear_arith)
                                    requires
                                        len <= u64::MAX,
                                        0 <= len as int - cp as int <= len as int,
                                ;
                            }
                            let p = ((cp as u128) * (SCALE as u128) / (len as u128)) as u64;
                            let a: u64 = if matches!(self.lifecycle, LifecycleState::Abandoned) {
                                (((len - cp) as u128) * (SCALE as u128) / (len as u128)) as u64
                            } else {
                                0
                            };
                            let lm = micro(len);
                            Aggregate {
                                progress: p,
                                in_progress: 0,
                                abandoned: a,
                                lower_len: lm,
                                upper_len: Some(lm),
                            }
                        } else {
                            Aggregate {
                                progress: if matches!(self.lifecycle, LifecycleState::Completed) {
                                    SCALE
                                } else {
                                    0
                                },
                                in_progress: 0,
                                abandoned: if matches!(self.lifecycle, LifecycleState::Abandoned) {
                                    SCALE
                                } else {
                                    0
                                },
                                lower_len: 0,
                                upper_len: Some(0),
                            }
                        }
                    },
                    None => {
                        if matches!(self.lifecycle, LifecycleState::InProgress) {
                            let lm = micro(self.position);
                            Aggregate {
                                progress: SCALE,
                                in_progress: 0,
                                abandoned: 0,
                                lower_len: lm,
                                upper_len: None,
                            }
                        } else if matches!(self.lifecycle, LifecycleState::Abandoned)
                            && self.position == 0 {
                            Aggregate {
                                progress: 0,
                                in_progress: 0,
                                abandoned: SCALE,
                                lower_len: 0,
                                upper_len: Some(0),
                            }
                        } else {
                            let lm = micro(self.position);
                            Aggregate {
                                progress: SCALE,
                                in_progress: 0,
                                abandoned: 0,
                                lower_len: lm,
                                upper_len: Some(lm),
                            }
                        }
                    },
                }
            },
            Some(nested) => {
                proof {
                    assert(decreases_to!(*self => self.nested));
                    assert(decreases_to!(self.nested => self.nested->0));
                    assert(decreases_to!(self.nested->0 => self.nested->0.bars));
                    assert(*nested == self.nested->0);
                }
                match &nested.meta {
                    NestedMeta::Weighted(ws) => agg_shares(&nested.bars, ws, false, self.length),
                    NestedMeta::Sized(cs) => agg_shares(&nested.bars, cs, true, self.length),
                    NestedMeta::Summed => agg_summed(&nested.bars, self.length),
                }
            },
        }
    }
}


/// An aggregate that reports a fully completed bar with a known length.
pub open spec fn spec_agg_complete(a: AggModel) -> bool {
    &&& a.progress == SCALE
    &&& a.in_progress == 0
    &&& a.abandoned == 0
    &&& a.upper_len is Some
}

/// The sum of the first `n` weights.
pub open spec fn spec_sum_weights(ws: Seq<u64>, n: int) -> int
    decreases n,
{
    if n <= 0 || n > ws.len() {
        0
    } else {
        spec_sum_weights(ws, n - 1) + ws[n - 1]
    }
}

/// The sum of the first `n` children's aggregated lower lengths.
pub open spec fn spec_sum_lower(bars: Seq<BarModel>, n: int) -> int
    decreases n,
{
    if n <= 0 || n > bars.len() {
        0
    } else {
        spec_sum_lower(bars, n - 1) + spec_aggregate(bars[n - 1]).lower_len
    }
}

/// The sum of the first `n` children's aggregated upper lengths, counting a
/// missing bound as the lower one.
pub open spec fn spec_sum_upper(bars: Seq<BarModel>, n: int) -> int
    decreases n,
{
    if n <= 0 || n > bars.len() {
        0
    } else {
        spec_sum_upper(bars, n - 1) + (match spec_aggregate(bars[n - 1]).upper_len {
            Some(u) => u,
            None => spec_aggregate(bars[n - 1]).lower_len,
        })
    }
}

proof fn lemma_sum_weights_nonneg(ws: Seq<u64>, k: int)
    ensures
        0 <= spec_sum_weights(ws, k),
    decreases k,
{
    if k > 0 && k <= ws.len() {
        lemma_sum_weights_nonneg(ws, k - 1);
    }
}

proof fn lemma_sum_weights_mono(ws: Seq<u64>, j: int, k: int)
    requires
        0 <= j <= k <= ws.len(),
    ensures
        0 <= spec_sum_weights(ws, j) <= spec_sum_weights(ws, k),
    decreases k,
{
    lemma_sum_weights_nonneg(ws, j);
    if j < k {
        lemma_sum_weights_mono(ws, j, k - 1);
    }
}

proof fn lemma_share_totals_complete(bars: Seq<BarModel>, ws: Seq<u64>, k: int)
    requires
        0 <= k <= bars.len(),
        k <= ws.len(),
        forall|i: int| 0 <= i < k ==> spec_agg_complete(#[trigger] spec_aggregate(bars[i])),
        spec_sum_weights(ws, k) <= u64::MAX,
    ensures
        spec_share_totals(bars, ws, false, k).total_len == spec_sum_weights(ws, k),
        spec_share_totals(bars, ws, false, k).sum_progress == SCALE * spec_sum_weights(ws, k),
        spec_share_totals(bars, ws, false, k).sum_in_progress == 0,
        spec_share_totals(bars, ws, false, k).sum_abandoned == 0,
    decreases k,
{
    if k <= 0 {
        assert(SCALE * spec_sum_weights(ws, k) == 0) by (nonlinear_arith)
            requires
                spec_sum_weights(ws, k) == 0,
        ;
    } else {
        lemma_sum_weights_mono(ws, k - 1, k);
        lemma_share_totals_complete(bars, ws, k - 1);
        let s0 = spec_sum_weights(ws, k - 1);
        let w = ws[k - 1] as int;
        let child = spec_aggregate(bars[k - 1]);
        assert(spec_agg_complete(child));
        assert(spec_adjusted_shares(child) == (SCALE as int, 0int));
        assert(0int * w == 0) by (nonlinear_arith);
        assert(child.abandoned * w == 0) by (nonlinear_arith)
            requires
                child.abandoned == 0,
        ;
        assert(SCALE * s0 + SCALE * w == SCALE * (s0 + w)) by (nonlinear_arith);
        assert(SCALE * (s0 + w) <= SCALE * (u64::MAX as int)) by (nonlinear_arith)
            requires
                s0 + w <= u64::MAX as int,
                0 <= s0 + w,
        ;
        assert(SCALE * (u64::MAX as int) <= u128::MAX as int);
    }
}

/// Law: a weighted composite whose children all aggregate as completed with
/// known lengths, and whose weights add up to at least one whole, reports
/// full progress with nothing running and nothing abandoned. (When the
/// weights add up to less than one whole, the total is floored at one
/// whole, so only that fraction of the parent reads as completed.)
pub proof fn lemma_weighted_complete(length: Option<u64>, bars: Seq<BarModel>, ws: Seq<u64>)
    requires
        ws.len() == bars.len(),
        forall|i: int|
            0 <= i < bars.len() ==> spec_agg_complete(#[trigger] spec_aggregate(bars[i])),
        SCALE <= spec_sum_weights(ws, ws.len() as int) <= u64::MAX,
    ensures
        spec_agg_shares(length, bars, ws, false).progress == SCALE,
        spec_agg_shares(length, bars, ws, false).in_progress == 0,
        spec_agg_shares(length, bars, ws, false).abandoned == 0,
{
    let n = bars.len() as int;
    lemma_share_totals_complete(bars, ws, n);
    let total = spec_sum_weights(ws, n);
    vstd::arithmetic::div_mod::lemma_div_by_multiple(SCALE as int, total);
    assert(SCALE * total == SCALE as int * total) by (nonlinear_arith);
    vstd::arithmetic::div_mod::lemma_div_of0(total);
}

proof fn lemma_sum_lower_nonneg(bars: Seq<BarModel>, k: int)
    ensures
        0 <= spec_sum_lower(bars, k),
        0 <= spec_sum_upper(bars, k),
    decreases k,
{
    if k > 0 && k <= bars.len() {
        lemma_aggregate_wf(bars[k - 1]);
        lemma_sum_lower_nonneg(bars, k - 1);
    }
}

proof fn lemma_sum_lower_mono(bars: Seq<BarModel>, j: int, k: int)
    requires
        0 <= j <= k <= bars.len(),
    ensures
        0 <= spec_sum_lower(bars, j) <= spec_sum_lower(bars, k),
        0 <= spec_sum_upper(bars, j) <= spec_sum_upper(bars, k),
    decreases k,
{
    lemma_sum_lower_nonneg(bars, j);
    if j < k {
        lemma_aggregate_wf(bars[k - 1]);
        lemma_sum_lower_mono(bars, j, k - 1);
    }
}

proof fn lemma_sum_totals_finite(bars: Seq<BarModel>, k: int)
    requires
        0 <= k <= bars.len(),
        forall|i: int| 0 <= i < k ==> (#[trigger] spec_aggregate(bars[i])).upper_len is Some,
        spec_sum_lower(bars, k) <= u64::MAX,
        spec_sum_upper(bars, k) <= u64::MAX,
    ensures
        spec_sum_totals(bars, k).total_lower == spec_sum_lower(bars, k),
        spec_sum_totals(bars, k).total_upper == Some(spec_sum_upper(bars, k)),
    decreases k,
{
    if k > 0 {
        lemma_sum_lower_mono(bars, k - 1, k);
        lemma_sum_totals_finite(bars, k - 1);
        lemma_aggregate_wf(bars[k - 1]);
    }
}

/// Law: a summed composite with no preset length of its own, all of whose
/// children aggregate with known upper bounds, reports exactly the sum of
/// the children's lower bounds and the sum of their upper bounds. (The sums
/// must fit the machine word; past its top they freeze there.)
pub proof fn lemma_summed_finite_lengths(bars: Seq<BarModel>)
    requires
        forall|i: int|
            0 <= i < bars.len() ==> (#[trigger] spec_aggregate(bars[i])).upper_len is Some,
        spec_sum_lower(bars, bars.len() as int) <= u64::MAX,
        spec_sum_upper(bars, bars.len() as int) <= u64::MAX,
    ensures
        spec_agg_summed(None, bars).lower_len == spec_sum_lower(bars, bars.len() as int),
        spec_agg_summed(None, bars).upper_len == Some(spec_sum_upper(bars, bars.len() as int)),
{
    lemma_sum_totals_finite(bars, bars.len() as int);
}

} // verus!
