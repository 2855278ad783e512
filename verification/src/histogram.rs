//! Percentile engine: a log-linear bucketed histogram over latency values in
//! milliseconds.
//!
//! Values are quantized to a power-of-two scale chosen so that each bucket's
//! width is at most 1/1024 of the value it holds, which bounds the relative
//! error of every answer to about three significant decimal digits. Values
//! above [`MAX_TRACKABLE_MS`] are clamped to that ceiling before they are
//! recorded; values of zero and up are accepted as they are.

use vstd::prelude::*;

verus! {

/// Ceiling of the tracked value range: one hour in milliseconds. Latencies
/// above it are clamped to it when recorded.
pub const MAX_TRACKABLE_MS: u64 = 3_600_000;

/// The power-of-two scale (bucket width) that the engine uses for value `v`:
/// 1 while `v` is below the linear limit, doubling with each octave above it.
pub open spec fn bucket_scale(v: int) -> int
    decreases v,
{
    if v < 2048 {
        1
    } else {
        2 * bucket_scale(v / 2)
    }
}

/// `v` rounded down to a multiple of its bucket scale: the lower bound of the
/// bucket that holds `v`, and the bucket's representative value.
pub open spec fn spec_quantize(v: int) -> int {
    (v / bucket_scale(v)) * bucket_scale(v)
}

/// The scale is at least 1, small enough that `v / scale` stays in the linear
/// range, and (above the linear range) large enough that `v` spans at least
/// 1024 scale units.
pub proof fn lemma_scale_bounds(v: int)
    requires
        v >= 0,
    ensures
        bucket_scale(v) >= 1,
        v / bucket_scale(v) < 2048,
        bucket_scale(v) == 1 || v >= 1024 * bucket_scale(v),
    decreases v,
{
    if v < 2048 {
    } else {
        let h = v / 2;
        lemma_scale_bounds(h);
        let s = bucket_scale(h);
        assert(v / (2 * s) == h / s) by (nonlinear_arith)
            requires
                v >= 0,
                s >= 1,
                h == v / 2,
        ;
        if s == 1 {
            assert(v >= 1024 * (2 * s));
        } else {
            assert(h >= 1024 * s);
            assert(v >= 2 * h) by (nonlinear_arith)
                requires
                    h == v / 2,
                    v >= 0,
            ;
            assert(v >= 1024 * (2 * s)) by (nonlinear_arith)
                requires
                    v >= 2 * h,
                    h >= 1024 * s,
            ;
        }
    }
}

/// The scale never shrinks as the value grows, and when it grows it at least
/// doubles.
pub proof fn lemma_scale_monotone(v1: int, v2: int)
    requires
        0 <= v1 <= v2,
    ensures
        bucket_scale(v1) <= bucket_scale(v2),
        bucket_scale(v1) == bucket_scale(v2) || 2 * bucket_scale(v1) <= bucket_scale(v2),
    decreases v2,
{
    if v2 < 2048 {
    } else if v1 < 2048 {
        lemma_scale_bounds(v2 / 2);
        assert(bucket_scale(v2) == 2 * bucket_scale(v2 / 2));
    } else {
        assert(v1 / 2 <= v2 / 2) by (nonlinear_arith)
            requires
                0 <= v1 <= v2,
        ;
        lemma_scale_monotone(v1 / 2, v2 / 2);
    }
}

/// Quantization rounds down, loses less than one scale unit, and above the
/// linear range the loss is less than 1/1024 of the value itself.
pub proof fn lemma_quantize_bounds(v: int)
    requires
        v >= 0,
    ensures
        0 <= spec_quantize(v) <= v,
        v < 2048 ==> spec_quantize(v) == v,
        v - spec_quantize(v) < bucket_scale(v),
        v >= 2048 ==> 1024 * (v - spec_quantize(v)) < v,
{
    lemma_scale_bounds(v);
    let s = bucket_scale(v);
    assert(0 <= (v / s) * s <= v && v - (v / s) * s < s) by (nonlinear_arith)
        requires
            v >= 0,
            s >= 1,
    ;
    if v >= 2048 {
        assert(s > 1) by {
            if s == 1 {
                assert(v / 1 == v) by (nonlinear_arith);
            }
        }
        assert(v >= 1024 * s);
        assert(1024 * (v - (v / s) * s) < 1024 * s) by (nonlinear_arith)
            requires
                v - (v / s) * s < s,
        ;
    }
}

/// Quantization is monotone: a larger value never lands in a bucket with a
/// smaller representative.
pub proof fn lemma_quantize_monotone(v1: int, v2: int)
    requires
        0 <= v1 <= v2,
    ensures
        spec_quantize(v1) <= spec_quantize(v2),
{
    lemma_scale_bounds(v1);
    lemma_scale_bounds(v2);
    lemma_scale_monotone(v1, v2);
    lemma_quantize_bounds(v1);
    lemma_quantize_bounds(v2);
    let s1 = bucket_scale(v1);
    let s2 = bucket_scale(v2);
    if s1 == s2 {
        assert((v1 / s1) * s1 <= (v2 / s1) * s1) by (nonlinear_arith)
            requires
                0 <= v1 <= v2,
                s1 >= 1,
        ;
    } else {
        // The scale strictly grew, so v2 sits above the whole range that the
        // finer scale covers: its bucket floor clears v1 entirely.
        assert(2 * s1 <= s2);
        assert(v2 >= 1024 * s2);
        assert(v1 < 2048 * s1) by (nonlinear_arith)
            requires
                v1 / s1 < 2048,
                s1 >= 1,
                v1 >= 0,
        ;
        assert((v2 / s2) * s2 >= 1024 * s2) by (nonlinear_arith)
            requires
                v2 >= 1024 * s2,
                s2 >= 1,
        ;
        assert(1024 * s2 >= 2048 * s1) by (nonlinear_arith)
            requires
                2 * s1 <= s2,
                s1 >= 1,
        ;
    }
}

/// Latency clamped to the tracked range.
pub open spec fn spec_clamp(v: u64) -> u64 {
    if v > MAX_TRACKABLE_MS {
        MAX_TRACKABLE_MS
    } else {
        v
    }
}

/// The bucket representative under which `v` is recorded.
pub open spec fn spec_bucket_key(v: u64) -> u64 {
    spec_quantize(spec_clamp(v) as int) as u64
}

/// Exact quantization of a raw value, without clamping.
fn quantize(v: u64) -> (r: u64)
    ensures
        r == spec_quantize(v as int),
{
    let mut scale: u64 = 1;
    proof {
        lemma_scale_bounds(v as int);
    }
    while v / scale >= 2048
        invariant
            1 <= scale,
            scale == 1 || v >= 1024 * scale,
            bucket_scale(v as int) == scale * bucket_scale((v / scale) as int),
        decreases v / scale,
    {
        proof {
            let vi = v as int;
            let sc = scale as int;
            assert(vi / sc >= 2048);
            assert(bucket_scale(vi / sc) == 2 * bucket_scale(vi / sc / 2));
            assert(vi / sc / 2 == vi / (2 * sc)) by (nonlinear_arith)
                requires
                    vi >= 0,
                    sc >= 1,
            ;
            assert(sc * (2 * bucket_scale(vi / (2 * sc))) == (2 * sc) * bucket_scale(
                vi / (2 * sc),
            )) by (nonlinear_arith);
            assert(vi >= 2048 * sc) by (nonlinear_arith)
                requires
                    vi / sc >= 2048,
                    sc >= 1,
                    vi >= 0,
            ;
            assert(vi / (2 * sc) < vi / sc) by (nonlinear_arith)
                requires
                    vi >= 2048 * sc,
                    sc >= 1,
            ;
        }
        scale = scale * 2;
    }
    proof {
        let vi = v as int;
        let sc = scale as int;
        assert(bucket_scale(vi / sc) == 1);
        assert(sc * 1 == sc) by (nonlinear_arith);
        assert((vi / sc) * sc <= vi && (vi / sc) * sc >= 0) by (nonlinear_arith)
            requires
                vi >= 0,
                sc >= 1,
        ;
    }
    (v / scale) * scale
}

/// Buckets are strictly sorted by representative value and never empty.
pub open spec fn wf_buckets(s: Seq<(u64, usize)>) -> bool {
    &&& forall|i: int, j: int| 0 <= i < j < s.len() ==> s[i].0 < s[j].0
    &&& forall|i: int| 0 <= i < s.len() ==> s[i].1 >= 1
}

/// Total number of samples held by a bucket sequence.
pub open spec fn sum_counts(s: Seq<(u64, usize)>) -> int
    decreases s.len(),
{
    if s.len() == 0 {
        0
    } else {
        s[0].1 + sum_counts(s.drop_first())
    }
}

/// One sample with bucket key `k` added to a sorted bucket sequence.
pub open spec fn spec_record(s: Seq<(u64, usize)>, k: u64) -> Seq<(u64, usize)>
    decreases s.len(),
{
    if s.len() == 0 {
        seq![(k, 1usize)]
    } else if k < s[0].0 {
        seq![(k, 1usize)] + s
    } else if k == s[0].0 {
        seq![(s[0].0, (s[0].1 + 1) as usize)] + s.drop_first()
    } else {
        seq![s[0]] + spec_record(s.drop_first(), k)
    }
}

pub proof fn lemma_sum_counts_nonneg(s: Seq<(u64, usize)>)
    ensures
        sum_counts(s) >= 0,
    decreases s.len(),
{
    if s.len() > 0 {
        lemma_sum_counts_nonneg(s.drop_first());
    }
}

/// No bucket holds more samples than the whole sequence.
pub proof fn lemma_count_le_sum(s: Seq<(u64, usize)>, i: int)
    requires
        0 <= i < s.len(),
    ensures
        s[i].1 <= sum_counts(s),
        sum_counts(s) >= 0,
    decreases s.len(),
{
    lemma_sum_counts_nonneg(s.drop_first());
    if i > 0 {
        lemma_count_le_sum(s.drop_first(), i - 1);
    }
}

/// Recording keeps the buckets well formed, adds exactly one sample, and the
/// first key only ever moves down to `k`.
pub proof fn lemma_record_props(s: Seq<(u64, usize)>, k: u64)
    requires
        wf_buckets(s),
        sum_counts(s) < usize::MAX,
    ensures
        wf_buckets(spec_record(s, k)),
        sum_counts(spec_record(s, k)) == sum_counts(s) + 1,
        spec_record(s, k).len() >= 1,
        spec_record(s, k)[0].0 == if s.len() == 0 || k < s[0].0 {
            k
        } else {
            s[0].0
        },
    decreases s.len(),
{
    let r = spec_record(s, k);
    if s.len() == 0 {
        assert(r =~= seq![(k, 1usize)]);
        assert(r.len() == 1 && r[0].1 == 1);
        assert(r.drop_first() =~= Seq::<(u64, usize)>::empty());
        assert(sum_counts(r.drop_first()) == 0);
        assert(sum_counts(r) == r[0].1 + sum_counts(r.drop_first()));
        assert(sum_counts(s) == 0);
        assert(sum_counts(r) == sum_counts(s) + 1);
    } else if k < s[0].0 {
        assert(r.drop_first() =~= s);
        assert(sum_counts(r) == sum_counts(s) + 1);
    } else if k == s[0].0 {
        lemma_count_le_sum(s, 0);
        assert(r.drop_first() =~= s.drop_first());
        assert(forall|j: int| 1 <= j < r.len() ==> #[trigger] r[j] == s[j]);
        assert(r[0].1 == s[0].1 + 1);
        assert(sum_counts(r) == sum_counts(s) + 1);
    } else {
        let tail_rec = spec_record(s.drop_first(), k);
        assert(forall|i: int, j: int|
            0 <= i < j < s.drop_first().len() ==> s.drop_first()[i].0 < s.drop_first()[j].0);
        lemma_count_le_sum(s, 0);
        lemma_sum_counts_nonneg(s.drop_first());
        lemma_record_props(s.drop_first(), k);
        assert(r.drop_first() =~= tail_rec);
        assert(r[0] == s[0]);
        assert(tail_rec[0].0 > s[0].0);
        assert(forall|j: int| 1 <= j < tail_rec.len() ==> tail_rec[0].0 < #[trigger] tail_rec[j].0);
        assert(sum_counts(r) == sum_counts(s) + 1);
    }
}

/// Splitting a record at a prefix whose keys all lie below `k`.
pub proof fn lemma_record_skip(s: Seq<(u64, usize)>, k: u64, i: int)
    requires
        wf_buckets(s),
        0 <= i <= s.len(),
        forall|j: int| 0 <= j < i ==> s[j].0 < k,
    ensures
        spec_record(s, k) =~= s.take(i) + spec_record(s.skip(i), k),
    decreases i,
{
    if i == 0 {
        assert(s.skip(0) =~= s);
        assert(s.take(0) + spec_record(s, k) =~= spec_record(s, k));
    } else {
        assert(s[0].0 < k);
        assert(forall|i2: int, j2: int|
            0 <= i2 < j2 < s.drop_first().len() ==> s.drop_first()[i2].0 < s.drop_first()[j2].0);
        lemma_record_skip(s.drop_first(), k, i - 1);
        assert(s.drop_first().take(i - 1) =~= s.take(i).drop_first());
        assert(s.drop_first().skip(i - 1) =~= s.skip(i));
        assert(spec_record(s, k) == seq![s[0]] + spec_record(s.drop_first(), k));
        assert(seq![s[0]] + (s.drop_first().take(i - 1) + spec_record(
            s.drop_first().skip(i - 1),
            k,
        )) =~= s.take(i) + spec_record(s.skip(i), k));
    }
}

/// The percentile engine: counts per quantized latency bucket, kept sorted by
/// representative value, plus the running total of recorded samples.
pub struct LatencyHistogram {
    buckets: Vec<(u64, usize)>,
    total: usize,
}

impl View for LatencyHistogram {
    type V = Seq<(u64, usize)>;

    closed spec fn view(&self) -> Seq<(u64, usize)> {
        self.buckets@
    }
}

impl LatencyHistogram {
    pub closed spec fn total_count(&self) -> int {
        self.total as int
    }

    pub open spec fn wf(&self) -> bool {
        &&& wf_buckets(self@)
        &&& self.total_count() == sum_counts(self@)
    }

    /// An empty histogram: no buckets, no samples.
    pub fn new() -> (r: LatencyHistogram)
        ensures
            r.wf(),
            r@ =~= Seq::<(u64, usize)>::empty(),
            r.total_count() == 0,
    {
        LatencyHistogram { buckets: Vec::new(), total: 0 }
    }

    /// Number of samples recorded so far.
    pub fn len(&self) -> (r: usize)
        ensures
            r == self.total_count(),
    {
        self.total
    }

    /// Record one latency sample. The value is clamped to the tracked range
    /// and lands in the bucket whose representative is `spec_bucket_key(v)`.
    pub fn record(&mut self, v: u64)
        requires
            old(self).wf(),
            old(self).total_count() < usize::MAX,
        ensures
            final(self).wf(),
            final(self)@ == spec_record(old(self)@, spec_bucket_key(v)),
            final(self).total_count() == old(self).total_count() + 1,
    {
        let capped = if v > MAX_TRACKABLE_MS {
            MAX_TRACKABLE_MS
        } else {
            v
        };
        proof {
            lemma_quantize_bounds(capped as int);
        }
        let k = quantize(capped);
        let ghost s = self.buckets@;
        let mut idx: usize = 0;
        while idx < self.buckets.len() && self.buckets[idx].0 < k
            invariant
                self.buckets@ == s,
                0 <= idx <= s.len(),
                forall|j: int| 0 <= j < idx ==> s[j].0 < k,
            decreases s.len() - idx,
    {
        idx = idx + 1;
    }
        proof {
            lemma_record_skip(s, k, idx as int);
            lemma_record_props(s, k);
        }
        if idx < self.buckets.len() && self.buckets[idx].0 == k {
            let entry = self.buckets[idx];
            proof {
                lemma_count_le_sum(s, idx as int);
                assert(s.skip(idx as int)[0] == s[idx as int]);
                assert(spec_record(s.skip(idx as int), k) =~= seq![
                    (k, (entry.1 + 1) as usize),
                ] + s.skip(idx as int).drop_first());
            }
            self.buckets.remove(idx);
            self.buckets.insert(idx, (k, entry.1 + 1));
            proof {
                assert(self.buckets@ =~= s.take(idx as int) + spec_record(s.skip(idx as int), k));
            }
        } else {
            proof {
                if idx < s.len() {
                    assert(s.skip(idx as int)[0] == s[idx as int]);
                    assert(spec_record(s.skip(idx as int), k) =~= seq![(k, 1usize)] + s.skip(
                        idx as int,
                    ));
                } else {
                    assert(s.skip(idx as int) =~= Seq::<(u64, usize)>::empty());
                }
            }
            self.buckets.insert(idx, (k, 1));
            proof {
                assert(self.buckets@ =~= s.take(idx as int) + spec_record(s.skip(idx as int), k));
            }
        }
        self.total = self.total + 1;
    }
}

/// The sample rank that permille `p` asks for: at least 1, at most the total,
/// computed as the ceiling of `p/1000` of the total with `p` capped at 1000.
pub open spec fn spec_target(total: int, p: int) -> int {
    let pc = if p > 1000 {
        1000int
    } else {
        p
    };
    let t = (pc * total + 999) / 1000;
    if t < 1 {
        1
    } else {
        t
    }
}

/// The representative value of the lowest bucket whose cumulative count
/// reaches `target`.
pub open spec fn spec_pick(s: Seq<(u64, usize)>, target: int) -> Option<u64>
    decreases s.len(),
{
    if s.len() == 0 {
        Option::<u64>::None
    } else if s[0].1 >= target {
        Option::Some(s[0].0)
    } else {
        spec_pick(s.drop_first(), target - s[0].1)
    }
}

/// The value-at-percentile answer for a bucket sequence: `None` exactly when
/// nothing was recorded.
pub open spec fn spec_value_at(s: Seq<(u64, usize)>, p: int) -> Option<u64> {
    if sum_counts(s) == 0 {
        Option::<u64>::None
    } else {
        spec_pick(s, spec_target(sum_counts(s), p))
    }
}

pub proof fn lemma_target_bounds(total: int, p: int)
    requires
        total >= 1,
        p >= 0,
    ensures
        1 <= spec_target(total, p) <= total,
{
    let pc = if p > 1000 {
        1000int
    } else {
        p
    };
    assert((pc * total + 999) / 1000 <= total) by (nonlinear_arith)
        requires
            total >= 1,
            0 <= pc <= 1000,
    ;
}

pub proof fn lemma_target_monotone(total: int, p1: int, p2: int)
    requires
        total >= 1,
        0 <= p1 <= p2,
    ensures
        spec_target(total, p1) <= spec_target(total, p2),
{
    let pc1 = if p1 > 1000 {
        1000int
    } else {
        p1
    };
    let pc2 = if p2 > 1000 {
        1000int
    } else {
        p2
    };
    assert((pc1 * total + 999) / 1000 <= (pc2 * total + 999) / 1000) by (nonlinear_arith)
        requires
            total >= 1,
            0 <= pc1 <= pc2,
    ;
}

/// A reachable rank always picks some bucket, and what it picks is one of
/// the bucket representatives.
pub proof fn lemma_pick_some(s: Seq<(u64, usize)>, target: int)
    requires
        1 <= target <= sum_counts(s),
    ensures
        spec_pick(s, target).is_some(),
        exists|i: int| 0 <= i < s.len() && spec_pick(s, target) == Option::Some(s[i].0),
    decreases s.len(),
{
    lemma_sum_counts_nonneg(s);
    assert(s.len() > 0);
    lemma_sum_counts_nonneg(s.drop_first());
    if s[0].1 >= target {
        assert(0 <= 0 < s.len() && spec_pick(s, target) == Option::Some(s[0].0));
    } else {
        lemma_pick_some(s.drop_first(), target - s[0].1);
        let j = choose|j: int|
            0 <= j < s.drop_first().len() && spec_pick(s.drop_first(), target - s[0].1)
                == Option::Some(s.drop_first()[j].0);
        assert(s.drop_first()[j] == s[j + 1]);
        assert(0 <= j + 1 < s.len() && spec_pick(s, target) == Option::Some(s[j + 1].0));
    }
}

/// A higher rank never picks a lower bucket.
pub proof fn lemma_pick_monotone(s: Seq<(u64, usize)>, t1: int, t2: int)
    requires
        wf_buckets(s),
        1 <= t1 <= t2 <= sum_counts(s),
    ensures
        spec_pick(s, t1).is_some(),
        spec_pick(s, t2).is_some(),
        spec_pick(s, t1)->Some_0 <= spec_pick(s, t2)->Some_0,
    decreases s.len(),
{
    lemma_pick_some(s, t1);
    lemma_pick_some(s, t2);
    lemma_sum_counts_nonneg(s.drop_first());
    if s[0].1 >= t2 {
    } else if s[0].1 >= t1 {
        lemma_pick_some(s.drop_first(), t2 - s[0].1);
        let j = choose|j: int|
            0 <= j < s.drop_first().len() && spec_pick(s.drop_first(), t2 - s[0].1)
                == Option::Some(s.drop_first()[j].0);
        assert(s.drop_first()[j] == s[j + 1]);
        assert(s[0].0 < s[j + 1].0);
    } else {
        assert(forall|i: int, j: int|
            0 <= i < j < s.drop_first().len() ==> s.drop_first()[i].0 < s.drop_first()[j].0);
        lemma_pick_monotone(s.drop_first(), t1 - s[0].1, t2 - s[0].1);
    }
}

/// Percentile monotonicity: over one fixed sample set, the value at a lower
/// percentile never exceeds the value at a higher one, and both queries
/// answer exactly when at least one sample was recorded.
pub proof fn lemma_value_at_monotone(s: Seq<(u64, usize)>, p1: int, p2: int)
    requires
        wf_buckets(s),
        0 <= p1 <= p2,
    ensures
        spec_value_at(s, p1).is_some() <==> sum_counts(s) > 0,
        spec_value_at(s, p2).is_some() <==> sum_counts(s) > 0,
        sum_counts(s) > 0 ==> spec_value_at(s, p1)->Some_0 <= spec_value_at(s, p2)->Some_0,
{
    lemma_sum_counts_nonneg(s);
    if sum_counts(s) > 0 {
        lemma_target_bounds(sum_counts(s), p1);
        lemma_target_bounds(sum_counts(s), p2);
        lemma_target_monotone(sum_counts(s), p1, p2);
        lemma_pick_monotone(s, spec_target(sum_counts(s), p1), spec_target(sum_counts(s), p2));
    }
}

impl LatencyHistogram {
    /// Value at percentile, with the percentile given in permille (so 500
    /// asks for the median and 999 for the 99.9th percentile). Returns
    /// `None` exactly when nothing has been recorded.
    pub fn value_at_permille(&self, p: u64) -> (r: Option<u64>)
        requires
            self.wf(),
        ensures
            r == spec_value_at(self@, p as int),
            r.is_some() <==> self.total_count() > 0,
    {
        proof {
            lemma_sum_counts_nonneg(self@);
        }
        if self.total == 0 {
            return None;
        }
        proof {
            lemma_target_bounds(self.total_count(), p as int);
        }
        let pc: u64 = if p > 1000 {
            1000
        } else {
            p
        };
        let t_wide: u128 = ((pc as u128) * (self.total as u128) + 999) / 1000;
        let mut remaining: usize = if t_wide < 1 {
            1
        } else {
            t_wide as usize
        };
        assert(remaining as int == spec_target(self.total_count(), p as int));
        let ghost target = remaining as int;
        let ghost s = self@;
        proof {
            assert(s.skip(0) =~= s);
            lemma_pick_some(s, target);
        }
        let mut i: usize = 0;
        while i < self.buckets.len()
            invariant
                self.wf(),
                self@ == s,
                sum_counts(s) > 0,
                target == spec_target(sum_counts(s), p as int),
                0 <= i <= s.len(),
                1 <= remaining,
                remaining <= sum_counts(s.skip(i as int)),
                spec_pick(s, target) == spec_pick(s.skip(i as int), remaining as int),
            decreases s.len() - i,
        {
            let entry = self.buckets[i];
            proof {
                assert(s.skip(i as int)[0] == s[i as int]);
                assert(s.skip(i as int).drop_first() =~= s.skip(i as int + 1));
                lemma_sum_counts_nonneg(s.skip(i as int + 1));
            }
            if entry.1 >= remaining {
                return Some(entry.0);
            }
            remaining = remaining - entry.1;
            i = i + 1;
        }
        proof {
            assert(s.skip(s.len() as int) =~= Seq::<(u64, usize)>::empty());
            assert(false);
        }
        None
    }
}


/// The bucket sequence that recording a whole latency sequence produces.
pub open spec fn buckets_of(lats: Seq<u64>) -> Seq<(u64, usize)>
    decreases lats.len(),
{
    if lats.len() == 0 {
        Seq::empty()
    } else {
        spec_record(buckets_of(lats.drop_last()), spec_bucket_key(lats.last()))
    }
}

/// A recorded latency sequence yields well-formed buckets holding exactly one
/// sample per latency.
pub proof fn lemma_buckets_of_wf(lats: Seq<u64>)
    requires
        lats.len() <= usize::MAX,
    ensures
        wf_buckets(buckets_of(lats)),
        sum_counts(buckets_of(lats)) == lats.len(),
    decreases lats.len(),
{
    if lats.len() > 0 {
        lemma_buckets_of_wf(lats.drop_last());
        lemma_record_props(buckets_of(lats.drop_last()), spec_bucket_key(lats.last()));
    }
}


/// Whether `v` is the bucket representative of some latency in `lats`.
pub open spec fn is_bucket_key_of(lats: Seq<u64>, v: u64) -> bool {
    exists|i: int| 0 <= i < lats.len() && v == spec_bucket_key(#[trigger] lats[i])
}

/// Recording introduces no key but the recorded one.
proof fn lemma_record_keys(s: Seq<(u64, usize)>, k: u64)
    ensures
        forall|j: int|
            0 <= j < spec_record(s, k).len() ==> (#[trigger] spec_record(s, k)[j].0 == k
                || exists|i: int| 0 <= i < s.len() && spec_record(s, k)[j].0 == #[trigger] s[i].0),
    decreases s.len(),
{
    let r = spec_record(s, k);
    if s.len() == 0 {
    } else if k < s[0].0 {
        assert(forall|j: int| 1 <= j < r.len() ==> #[trigger] r[j] == s[j - 1]);
    } else if k == s[0].0 {
        assert(forall|j: int| 1 <= j < r.len() ==> #[trigger] r[j] == s[j]);
    } else {
        let tail_rec = spec_record(s.drop_first(), k);
        lemma_record_keys(s.drop_first(), k);
        assert(forall|j: int| 1 <= j < r.len() ==> #[trigger] r[j] == tail_rec[j - 1]);
        assert forall|j: int| 0 <= j < r.len() implies (#[trigger] r[j].0 == k || exists|i: int|
            0 <= i < s.len() && r[j].0 == #[trigger] s[i].0) by {
            if j == 0 {
                assert(r[0].0 == s[0].0);
            } else {
                if tail_rec[j - 1].0 != k {
                    let w = choose|i: int|
                        0 <= i < s.drop_first().len() && tail_rec[j - 1].0 == #[trigger] s.drop_first()[i].0;
                    assert(s.drop_first()[w] == s[w + 1]);
                }
            }
        }
    }
}

/// Every bucket of a recorded latency sequence represents one of its values.
pub proof fn lemma_buckets_of_keys(lats: Seq<u64>)
    ensures
        forall|j: int|
            0 <= j < buckets_of(lats).len() ==> is_bucket_key_of(
                lats,
                #[trigger] buckets_of(lats)[j].0,
            ),
    decreases lats.len(),
{
    if lats.len() > 0 {
        let pre = lats.drop_last();
        let b = buckets_of(lats);
        lemma_buckets_of_keys(pre);
        lemma_record_keys(buckets_of(pre), spec_bucket_key(lats.last()));
        assert forall|j: int| 0 <= j < b.len() implies is_bucket_key_of(lats, #[trigger] b[j].0) by {
            if b[j].0 == spec_bucket_key(lats.last()) {
                assert(lats[lats.len() - 1] == lats.last());
            } else {
                let w = choose|i: int|
                    0 <= i < buckets_of(pre).len() && b[j].0 == #[trigger] buckets_of(pre)[i].0;
                assert(is_bucket_key_of(pre, buckets_of(pre)[w].0));
                let x = choose|i: int|
                    0 <= i < pre.len() && buckets_of(pre)[w].0 == spec_bucket_key(#[trigger] pre[i]);
                assert(pre[x] == lats[x]);
            }
        }
    }
}

/// A percentile answer is never an invented number: it is the bucket
/// representative of one of the recorded latencies.
pub proof fn lemma_value_at_is_representative(lats: Seq<u64>, p: int)
    requires
        lats.len() <= usize::MAX,
    ensures
        spec_value_at(buckets_of(lats), p) matches Some(v) ==> is_bucket_key_of(lats, v),
{
    let b = buckets_of(lats);
    lemma_buckets_of_wf(lats);
    lemma_buckets_of_keys(lats);
    if sum_counts(b) > 0 {
        if p >= 0 {
            lemma_target_bounds(sum_counts(b), p);
            lemma_pick_some(b, spec_target(sum_counts(b), p));
        } else {
            let total = sum_counts(b);
            assert((p * total + 999) / 1000 < 1) by (nonlinear_arith)
                requires
                    p <= -1,
                    total >= 1,
            ;
            assert(spec_target(total, p) == 1);
            lemma_pick_some(b, 1);
        }
    }
}

} // verus!
