//! The rolling-window statistics buffer.
//!
//! A `TradingDataBuffer` retains the most recent `capacity` samples in FIFO
//! order and maintains, incrementally, their sum, sum of squares, minimum
//! and maximum. Appending a sample to a full window first evicts the oldest
//! one; only when the evicted sample equals the tracked minimum or maximum
//! are the extrema recomputed by a scan of the remaining window.

use crate::sample::HIGH_SENTINEL;
use crate::sample::LOW_SENTINEL;
use crate::sample::add_code;
use crate::sample::all_finite;
use crate::sample::code_add;
use crate::sample::code_div;
use crate::sample::code_le;
use crate::sample::code_max;
use crate::sample::code_min;
use crate::sample::code_mul;
use crate::sample::code_of_count;
use crate::sample::code_sub;
use crate::sample::count_code;
use crate::sample::div_code;
use crate::sample::finite_code;
use crate::sample::fold_max;
use crate::sample::fold_min;
use crate::sample::lemma_fold_max_contains;
use crate::sample::lemma_fold_max_upper;
use crate::sample::lemma_fold_min_contains;
use crate::sample::lemma_fold_min_lower;
use crate::sample::lemma_key_injective;
use crate::sample::mul_code;
use crate::sample::spec_code_max;
use crate::sample::spec_code_min;
use crate::sample::sub_code;
use std::collections::VecDeque;
use vstd::prelude::*;

verus! {

/// Abstract state of a buffer: the fixed capacity, the retained window in
/// arrival order, and the four running aggregates.
pub struct BufferModel {
    pub capacity: nat,
    pub window: Seq<u64>,
    pub min: u64,
    pub max: u64,
    pub sum: u64,
    pub sum_squares: u64,
}

/// State of a freshly built buffer of the given capacity: empty window,
/// zero aggregates, extrema at their sentinels.
pub open spec fn init_model(capacity: nat) -> BufferModel {
    BufferModel {
        capacity,
        window: Seq::empty(),
        min: HIGH_SENTINEL,
        max: LOW_SENTINEL,
        sum: 0,
        sum_squares: 0,
    }
}

/// Eviction half of an append on a full window: the oldest sample leaves
/// the window and the aggregates; the extrema are rescanned exactly when
/// the evicted sample equals one of them. On a window below capacity this
/// is the identity.
pub open spec fn evict_phase(pre: BufferModel) -> BufferModel {
    if pre.window.len() >= pre.capacity {
        let evicted = pre.window[0];
        let rest = pre.window.drop_first();
        let rescan = evicted == pre.min || evicted == pre.max;
        BufferModel {
            capacity: pre.capacity,
            window: rest,
            min: if rescan {
                fold_min(rest)
            } else {
                pre.min
            },
            max: if rescan {
                fold_max(rest)
            } else {
                pre.max
            },
            sum: sub_code(pre.sum, evicted),
            sum_squares: sub_code(pre.sum_squares, mul_code(evicted, evicted)),
        }
    } else {
        pre
    }
}

/// One appended sample: evict if the window is full, then push the sample,
/// add it into the aggregates and widen the extrema by one comparison.
pub open spec fn step(pre: BufferModel, v: u64) -> BufferModel {
    let mid = evict_phase(pre);
    BufferModel {
        capacity: mid.capacity,
        window: mid.window.push(v),
        min: spec_code_min(mid.min, v),
        max: spec_code_max(mid.max, v),
        sum: add_code(mid.sum, v),
        sum_squares: add_code(mid.sum_squares, mul_code(v, v)),
    }
}

/// A whole batch appended in order.
pub open spec fn steps(pre: BufferModel, vs: Seq<u64>) -> BufferModel
    decreases vs.len(),
{
    if vs.len() == 0 {
        pre
    } else {
        step(steps(pre, vs.drop_last()), vs.last())
    }
}

/// Structural soundness of a buffer state: positive capacity, window within
/// capacity.
pub open spec fn model_wf(m: BufferModel) -> bool {
    m.capacity >= 1 && m.window.len() <= m.capacity
}

/// A statistics readout: minimum, maximum, most recent sample, mean and
/// population variance of the window, all as sample codes; all zero when
/// the window is empty.
#[derive(Clone, Copy, Debug, PartialEq)]
pub struct StatsResponse {
    pub min: u64,
    pub max: u64,
    pub last: u64,
    pub avg: u64,
    pub var: u64,
}

impl Default for StatsResponse {
    /// The all-zero readout of an empty window (zero is the code of the
    /// zero sample).
    fn default() -> (r: Self)
        ensures
            r == (StatsResponse { min: 0, max: 0, last: 0, avg: 0, var: 0 }),
    {
        StatsResponse { min: 0, max: 0, last: 0, avg: 0, var: 0 }
    }
}

/// The readout a buffer state yields: mean is the sum over the count,
/// variance is the mean of squares less the square of the mean.
pub open spec fn snapshot_of(m: BufferModel) -> StatsResponse {
    if m.window.len() == 0 {
        StatsResponse { min: 0, max: 0, last: 0, avg: 0, var: 0 }
    } else {
        let n = count_code(m.window.len());
        let avg = div_code(m.sum, n);
        let variance = sub_code(div_code(m.sum_squares, n), mul_code(avg, avg));
        StatsResponse { min: m.min, max: m.max, last: m.window.last(), avg, var: variance }
    }
}

/// The tracked extrema bracket the window: every retained sample lies
/// between `min` and `max` under the sample order.
pub open spec fn extrema_bracket(m: BufferModel) -> bool {
    forall|i: int|
        0 <= i < m.window.len() ==> code_le(m.min, #[trigger] m.window[i]) && code_le(
            m.window[i],
            m.max,
        )
}

/// The tracked extrema are exact: on a non-empty window they are retained
/// samples (so together with the bracket they are its true minimum and
/// maximum); on an empty window they rest at their sentinels.
pub open spec fn extrema_exact(m: BufferModel) -> bool {
    if m.window.len() == 0 {
        m.min == HIGH_SENTINEL && m.max == LOW_SENTINEL
    } else {
        m.window.contains(m.min) && m.window.contains(m.max)
    }
}

/// One append preserves structural soundness, the fixed capacity, and the
/// extrema bracket, whatever the appended code is.
proof fn lemma_step_bracket(m: BufferModel, v: u64)
    requires
        model_wf(m),
        extrema_bracket(m),
    ensures
        model_wf(step(m, v)),
        step(m, v).capacity == m.capacity,
        extrema_bracket(step(m, v)),
{
    let mid = evict_phase(m);
    if m.window.len() >= m.capacity {
        let rest = m.window.drop_first();
        assert(forall|i: int| 0 <= i < rest.len() ==> #[trigger] rest[i] == m.window[i + 1]);
        if m.window[0] == m.min || m.window[0] == m.max {
            lemma_fold_min_lower(rest);
            lemma_fold_max_upper(rest);
        }
    }
    let pushed = mid.window.push(v);
    assert(forall|i: int| 0 <= i < mid.window.len() ==> #[trigger] pushed[i] == mid.window[i]);
    assert(pushed[mid.window.len() as int] == v);
}

/// One append of a finite code preserves exact extrema tracking and the
/// finiteness of the window.
proof fn lemma_step_exact(m: BufferModel, v: u64)
    requires
        model_wf(m),
        extrema_exact(m),
        all_finite(m.window),
        finite_code(v),
    ensures
        extrema_exact(step(m, v)),
        all_finite(step(m, v).window),
{
    let mid = evict_phase(m);
    if m.window.len() >= m.capacity {
        let rest = m.window.drop_first();
        assert(forall|i: int| 0 <= i < rest.len() ==> #[trigger] rest[i] == m.window[i + 1]);
        if m.window[0] == m.min || m.window[0] == m.max {
            if rest.len() > 0 {
                lemma_fold_min_contains(rest);
                lemma_fold_max_contains(rest);
            }
        } else {
            let j = choose|j: int| 0 <= j < m.window.len() && m.window[j] == m.min;
            assert(rest[j - 1] == m.min);
            assert(rest.contains(m.min));
            let k = choose|k: int| 0 <= k < m.window.len() && m.window[k] == m.max;
            assert(rest[k - 1] == m.max);
            assert(rest.contains(m.max));
        }
    }
    assert(extrema_exact(mid));
    assert(all_finite(mid.window));
    let pushed = mid.window.push(v);
    assert(forall|i: int| 0 <= i < mid.window.len() ==> #[trigger] pushed[i] == mid.window[i]);
    assert(pushed[mid.window.len() as int] == v);
    if mid.window.len() == 0 {
        if code_le(HIGH_SENTINEL, v) {
            lemma_key_injective(HIGH_SENTINEL, v);
        }
        if code_le(v, LOW_SENTINEL) {
            lemma_key_injective(LOW_SENTINEL, v);
        }
        assert(pushed.contains(v));
    } else {
        let j = choose|j: int| 0 <= j < mid.window.len() && mid.window[j] == mid.min;
        assert(pushed[j] == mid.min);
        let k = choose|k: int| 0 <= k < mid.window.len() && mid.window[k] == mid.max;
        assert(pushed[k] == mid.max);
        assert(pushed.contains(v));
        assert(pushed.contains(mid.min));
        assert(pushed.contains(mid.max));
    }
}

/// For every non-empty window the tracked minimum is a lower bound and the
/// tracked maximum an upper bound of every retained sample, whatever batch
/// history built the buffer from its construction on.
pub proof fn lemma_min_max_bracket(capacity: nat, history: Seq<u64>)
    requires
        capacity >= 1,
    ensures
        model_wf(steps(init_model(capacity), history)),
        steps(init_model(capacity), history).capacity == capacity,
        extrema_bracket(steps(init_model(capacity), history)),
    decreases history.len(),
{
    if history.len() > 0 {
        lemma_min_max_bracket(capacity, history.drop_last());
        lemma_step_bracket(steps(init_model(capacity), history.drop_last()), history.last());
    }
}

/// When every sample in the history is finite, the tracked extrema of a
/// non-empty window are retained samples; with the bracket law they are
/// then its true minimum and maximum under the sample order.
pub proof fn lemma_extrema_retained(capacity: nat, history: Seq<u64>)
    requires
        capacity >= 1,
        all_finite(history),
    ensures
        extrema_exact(steps(init_model(capacity), history)),
        all_finite(steps(init_model(capacity), history).window),
    decreases history.len(),
{
    if history.len() > 0 {
        let h = history.drop_last();
        assert(all_finite(h)) by {
            assert(forall|i: int| 0 <= i < h.len() ==> #[trigger] h[i] == history[i]);
        }
        lemma_extrema_retained(capacity, h);
        lemma_min_max_bracket(capacity, h);
        lemma_step_exact(steps(init_model(capacity), h), history.last());
    }
}

/// The most recent samples of a history, at most `capacity` of them.
pub open spec fn recent_of(capacity: nat, history: Seq<u64>) -> Seq<u64> {
    if history.len() <= capacity {
        history
    } else {
        history.subrange(history.len() - capacity, history.len() as int)
    }
}

/// The window is a FIFO of the history: after any appends it holds exactly
/// the most recent `capacity` samples in arrival order, and its last entry
/// is the most recently appended sample.
pub proof fn lemma_window_fifo(capacity: nat, history: Seq<u64>)
    requires
        capacity >= 1,
    ensures
        steps(init_model(capacity), history).window == recent_of(capacity, history),
        history.len() > 0 ==> steps(init_model(capacity), history).window.last() == history.last(),
    decreases history.len(),
{
    if history.len() == 0 {
        assert(steps(init_model(capacity), history).window =~= recent_of(capacity, history));
    } else {
        let h = history.drop_last();
        lemma_window_fifo(capacity, h);
        lemma_steps_capacity(init_model(capacity), h);
        let m0 = steps(init_model(capacity), h);
        let m1 = step(m0, history.last());
        if h.len() < capacity {
            assert(m1.window =~= recent_of(capacity, history));
        } else {
            let tail = history.subrange(history.len() - capacity, history.len() as int);
            assert(m0.window =~= h.subrange(h.len() - capacity, h.len() as int));
            assert(forall|i: int|
                0 <= i < m1.window.len() - 1 ==> #[trigger] m1.window[i] == m0.window[i + 1]) by {
                assert(forall|i: int|
                    0 <= i < m0.window.len() - 1 ==> #[trigger] m0.window.drop_first()[i]
                        == m0.window[i + 1]);
            }
            assert(forall|i: int|
                0 <= i < tail.len() ==> #[trigger] tail[i] == history[history.len() - capacity
                    + i]);
            assert(m1.window =~= tail);
        }
    }
}

/// Appending any batch leaves the fixed capacity of a buffer state as it
/// was.
pub proof fn lemma_steps_capacity(m: BufferModel, vs: Seq<u64>)
    ensures
        steps(m, vs).capacity == m.capacity,
    decreases vs.len(),
{
    if vs.len() > 0 {
        lemma_steps_capacity(m, vs.drop_last());
    }
}

/// Taking a snapshot is idempotent: the readout is a function of the
/// buffer state alone, so two readouts with no append between them are
/// identical.
pub proof fn lemma_snapshot_idempotent(m: BufferModel, first: StatsResponse, second: StatsResponse)
    requires
        first == snapshot_of(m),
        second == snapshot_of(m),
    ensures
        first == second,
{
}

/// A bounded FIFO of samples with incrementally maintained aggregates.
pub struct TradingDataBuffer {
    values: VecDeque<u64>,
    capacity: usize,
    min: u64,
    max: u64,
    sum: u64,
    sum_squares: u64,
}

impl View for TradingDataBuffer {
    type V = BufferModel;

    closed spec fn view(&self) -> BufferModel {
        BufferModel {
            capacity: self.capacity as nat,
            window: self.values@,
            min: self.min,
            max: self.max,
            sum: self.sum,
            sum_squares: self.sum_squares,
        }
    }
}

impl TradingDataBuffer {
    /// Structural soundness of this buffer.
    pub open spec fn wf(&self) -> bool {
        model_wf(self@)
    }

    /// Builds an empty buffer that will retain at most `capacity` samples.
    /// Construction demands a positive capacity.
    pub fn new(capacity: usize) -> (r: Self)
        requires
            capacity >= 1,
        ensures
            r.wf(),
            r@ == init_model(capacity as nat),
    {
        TradingDataBuffer {
            values: VecDeque::new(),
            capacity,
            min: HIGH_SENTINEL,
            max: LOW_SENTINEL,
            sum: 0,
            sum_squares: 0,
        }
    }

    /// Appends every sample of the batch in order.
    pub fn add_batch(&mut self, new_values: &[u64])
        requires
            old(self).wf(),
        ensures
            final(self).wf(),
            final(self)@ == steps(old(self)@, new_values@),
    {
        let n = new_values.len();
        let mut idx: usize = 0;
        while idx < n
            invariant
                idx <= n,
                n == new_values@.len(),
                self.wf(),
                self@ == steps(old(self)@, new_values@.take(idx as int)),
            decreases n - idx,
        {
            self.add(new_values[idx]);
            proof {
                assert(new_values@.take((idx + 1) as int).drop_last() =~= new_values@.take(
                    idx as int,
                ));
                assert(new_values@.take((idx + 1) as int).last() == new_values@[idx as int]);
            }
            idx = idx + 1;
        }
        proof {
            assert(new_values@.take(n as int) =~= new_values@);
        }
    }

    /// Appends one sample, following the single-value append rule.
    fn add(&mut self, value: u64)
        requires
            old(self).wf(),
        ensures
            final(self).wf(),
            final(self)@ == step(old(self)@, value),
    {
        if self.values.len() >= self.capacity {
            let old_value = self.values.pop_front().unwrap();
            self.sum = code_sub(self.sum, old_value);
            self.sum_squares = code_sub(self.sum_squares, code_mul(old_value, old_value));
            if old_value == self.min || old_value == self.max {
                self.recalculate_min_max();
            }
        }
        self.values.push_back(value);
        self.sum = code_add(self.sum, value);
        self.sum_squares = code_add(self.sum_squares, code_mul(value, value));
        self.min = code_min(self.min, value);
        self.max = code_max(self.max, value);
    }

    /// Rescans the window from its sentinels to retrack both extrema.
    fn recalculate_min_max(&mut self)
        ensures
            final(self).values@ == old(self).values@,
            final(self).capacity == old(self).capacity,
            final(self).sum == old(self).sum,
            final(self).sum_squares == old(self).sum_squares,
            final(self).min == fold_min(old(self).values@),
            final(self).max == fold_max(old(self).values@),
    {
        let mut lo: u64 = HIGH_SENTINEL;
        let mut hi: u64 = LOW_SENTINEL;
        let n = self.values.len();
        let mut i: usize = 0;
        while i < n
            invariant
                i <= n,
                n == self.values@.len(),
                lo == fold_min(self.values@.take(i as int)),
                hi == fold_max(self.values@.take(i as int)),
            decreases n - i,
        {
            let v = self.values[i];
            lo = code_min(lo, v);
            hi = code_max(hi, v);
            proof {
                assert(self.values@.take((i + 1) as int).drop_last() =~= self.values@.take(i as int));
                assert(self.values@.take((i + 1) as int).last() == self.values@[i as int]);
            }
            i = i + 1;
        }
        proof {
            assert(self.values@.take(n as int) =~= self.values@);
        }
        self.min = lo;
        self.max = hi;
    }

    /// Takes the statistics readout of the current window; no side effects.
    pub fn get_stats(&self) -> (r: StatsResponse)
        ensures
            r == snapshot_of(self@),
    {
        let n = self.values.len();
        if n == 0 {
            return StatsResponse::default();
        }
        let n_code = code_of_count(n);
        let avg = code_div(self.sum, n_code);
        let variance = code_sub(code_div(self.sum_squares, n_code), code_mul(avg, avg));
        let last = self.values[n - 1];
        StatsResponse { min: self.min, max: self.max, last, avg, var: variance }
    }
}

} // verus!
