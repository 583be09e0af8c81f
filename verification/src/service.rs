//! The per-symbol registry.
//!
//! A `TradingDataService` owns, for every symbol seen so far, eight
//! rolling-statistics buffers, one per window-size tier: tier `k` (counted
//! from one) retains the most recent `10^k` samples. An ingested batch is
//! rejected whole when it exceeds the batch cap; otherwise it is appended
//! to every tier of its symbol, creating the tiers on first sight.

use crate::buffer::BufferModel;
use crate::buffer::StatsResponse;
use crate::buffer::TradingDataBuffer;
use crate::buffer::init_model;
use crate::buffer::snapshot_of;
use crate::buffer::steps;
use vstd::hash_map::StringHashMap;
use vstd::prelude::*;

verus! {

/// Largest batch length `add_batch_values` accepts.
pub const MAX_BATCH: usize = 10000;

/// Number of window-size tiers kept per symbol.
pub const TIER_COUNT: usize = 8;

/// Ten to the `k`-th power; tier `k` retains this many samples.
pub open spec fn pow10(k: nat) -> nat
    decreases k,
{
    if k == 0 {
        1
    } else {
        10 * pow10((k - 1) as nat)
    }
}

/// The first nine powers of ten, spelled out.
proof fn lemma_pow10_vals()
    ensures
        pow10(0) == 1,
        pow10(1) == 10,
        pow10(2) == 100,
        pow10(3) == 1000,
        pow10(4) == 10000,
        pow10(5) == 100000,
        pow10(6) == 1000000,
        pow10(7) == 10000000,
        pow10(8) == 100000000,
{
    assert(pow10(0) == 1);
    assert(pow10(1) == 10);
    assert(pow10(2) == 100);
    assert(pow10(3) == 1000);
    assert(pow10(4) == 10000);
    assert(pow10(5) == 100000);
    assert(pow10(6) == 1000000);
    assert(pow10(7) == 10000000);
    assert(pow10(8) == 100000000);
}

/// Powers of ten grow with the exponent.
proof fn lemma_pow10_mono(j: nat, k: nat)
    requires
        j <= k,
    ensures
        pow10(j) <= pow10(k),
    decreases k,
{
    if j < k {
        lemma_pow10_mono(j, (k - 1) as nat);
    }
}

/// Errors the registry reports; all terminal and reported synchronously.
#[derive(Clone, Copy, Debug, PartialEq, Eq, Structural)]
pub enum TradingError {
    /// An ingested batch was longer than the batch cap.
    BatchTooLarge,
    /// A queried tier lay outside the tier range.
    InvalidTier,
    /// A queried symbol was never ingested.
    SymbolNotFound,
}

/// Abstract states of a group's buffers.
pub open spec fn group_models(bufs: Vec<TradingDataBuffer>) -> Seq<BufferModel> {
    bufs@.map_values(|b: TradingDataBuffer| b@)
}

/// Soundness of one symbol's tier group: eight buffers, each sound, tier
/// `t` (counted from zero) with capacity `10^(t+1)`.
pub open spec fn group_wf(bufs: Vec<TradingDataBuffer>) -> bool {
    &&& bufs@.len() == 8
    &&& forall|t: int|
        0 <= t < 8 ==> (#[trigger] bufs@[t]).wf() && bufs@[t]@.capacity == pow10((t + 1) as nat)
}

/// Tier states of a symbol that was never ingested: eight freshly built
/// buffers with the tier capacities.
pub open spec fn fresh_models() -> Seq<BufferModel> {
    Seq::new(8, |t: int| init_model(pow10((t + 1) as nat)))
}

/// Tier states after a batch: every tier appends the same batch in order.
pub open spec fn after_ingest(prior: Seq<BufferModel>, vs: Seq<u64>) -> Seq<BufferModel> {
    prior.map_values(|m: BufferModel| steps(m, vs))
}

/// The tier states a batch starts from: the symbol's current states, or
/// fresh ones when the symbol is new.
pub open spec fn prior_models(
    reg: Map<Seq<char>, Seq<BufferModel>>,
    symbol: Seq<char>,
) -> Seq<BufferModel> {
    if reg.contains_key(symbol) {
        reg[symbol]
    } else {
        fresh_models()
    }
}

/// The registry: a map from symbol to its tier group. Groups are stored in
/// one vector and reached through an index map, so a symbol's group can be
/// mutated in place.
pub struct TradingDataService {
    index: StringHashMap<usize>,
    groups: Vec<Vec<TradingDataBuffer>>,
}

impl View for TradingDataService {
    type V = Map<Seq<char>, Seq<BufferModel>>;

    closed spec fn view(&self) -> Map<Seq<char>, Seq<BufferModel>> {
        self.index@.map_values(|g: usize| group_models(self.groups@[g as int]))
    }
}

impl TradingDataService {
    /// Internal soundness: every indexed group exists, no two symbols
    /// share a group, and every group is sound.
    pub closed spec fn wf(&self) -> bool {
        &&& forall|k: Seq<char>|
            #[trigger] self.index@.contains_key(k) ==> self.index@[k] < self.groups@.len()
        &&& forall|k1: Seq<char>, k2: Seq<char>|
            self.index@.contains_key(k1) && self.index@.contains_key(k2) && k1 != k2
                ==> #[trigger] self.index@[k1] != #[trigger] self.index@[k2]
        &&& forall|g: int| 0 <= g < self.groups@.len() ==> group_wf(#[trigger] self.groups@[g])
    }

    /// Builds an empty registry.
    pub fn new() -> (r: Self)
        ensures
            r.wf(),
            r@ == Map::<Seq<char>, Seq<BufferModel>>::empty(),
    {
        let r = TradingDataService { index: StringHashMap::new(), groups: Vec::new() };
        proof {
            assert(r@ =~= Map::<Seq<char>, Seq<BufferModel>>::empty());
        }
        r
    }

    /// Ingests a batch for a symbol: a batch longer than the cap is
    /// rejected whole, with the registry unchanged; otherwise the batch is
    /// appended, in order, to every tier of the symbol, whose tier group
    /// is created on first sight.
    pub fn add_batch_values(&mut self, symbol: String, values: Vec<u64>) -> (r: Result<
        (),
        TradingError,
    >)
        requires
            old(self).wf(),
        ensures
            final(self).wf(),
            values@.len() > MAX_BATCH ==> r == Err::<(), TradingError>(TradingError::BatchTooLarge)
                && final(self)@ == old(self)@,
            values@.len() <= MAX_BATCH ==> r == Ok::<(), TradingError>(()) && final(self)@ == old(
                self,
            )@.insert(symbol@, after_ingest(prior_models(old(self)@, symbol@), values@)),
    {
        if values.len() > MAX_BATCH {
            return Err(TradingError::BatchTooLarge);
        }
        let ghost sym = symbol@;
        let ghost pre = *self;
        let g: usize;
        if self.index.contains_key(symbol.as_str()) {
            g = *self.index.get(symbol.as_str()).unwrap();
        } else {
            g = self.groups.len();
            self.groups.push(make_tier_group());
            self.index.insert(symbol, g);
        }
        let ghost mid = *self;
        let ghost start_bufs = self.groups@[g as int]@;
        proof {
            if pre.index@.contains_key(sym) {
                assert(mid.index@ == pre.index@);
                assert(mid.groups@ == pre.groups@);
                assert(g == pre.index@[sym]);
                assert(pre@[sym] == group_models(pre.groups@[g as int]));
            } else {
                assert(mid.index@ == pre.index@.insert(sym, g));
                assert(mid.groups@ == pre.groups@.push(mid.groups@[g as int]));
                assert(group_wf(mid.groups@[g as int]));
                assert(group_models(mid.groups@[g as int]) == fresh_models());
                assert(mid.wf()) by {
                    assert(forall|k: Seq<char>|
                        #[trigger] mid.index@.contains_key(k) && k != sym
                            ==> pre.index@.contains_key(k) && mid.index@[k] == pre.index@[k]);
                    assert(forall|g2: int|
                        0 <= g2 < pre.groups@.len() ==> mid.groups@[g2]
                            == #[trigger] pre.groups@[g2]);
                }
            }
            assert(mid.wf());
            assert(group_wf(mid.groups@[g as int]));
            assert(group_models(mid.groups@[g as int]) == prior_models(pre@, sym));
            assert(start_bufs.len() == 8);
        }
        let mut t: usize = 0;
        while t < 8
            invariant
                t <= 8,
                (g as int) < self.groups@.len(),
                self.groups@.len() == mid.groups@.len(),
                self.index@ == mid.index@,
                mid.wf(),
                group_wf(mid.groups@[g as int]),
                start_bufs == mid.groups@[g as int]@,
                start_bufs.len() == 8,
                self.groups@[g as int]@.len() == 8,
                forall|g2: int|
                    0 <= g2 < mid.groups@.len() && g2 != g ==> self.groups@[g2] == #[trigger] mid
                        .groups@[g2],
                forall|j: int| t <= j < 8 ==> self.groups@[g as int]@[j] == start_bufs[j],
                forall|j: int|
                    0 <= j < t ==> (#[trigger] self.groups@[g as int]@[j])@ == steps(
                        start_bufs[j]@,
                        values@,
                    ) && self.groups@[g as int]@[j].wf(),
            decreases 8 - t,
        {
            proof {
                assert(self.groups@[g as int]@[t as int] == start_bufs[t as int]);
                assert((#[trigger] start_bufs[t as int]).wf());
            }
            self.groups[g][t].add_batch(values.as_slice());
            t = t + 1;
        }
        proof {
            let target_models = after_ingest(prior_models(pre@, sym), values@);
            assert(group_models(self.groups@[g as int]) =~= target_models);
            lemma_group_wf_after(mid.groups@[g as int], self.groups@[g as int], values@);
            assert forall|g2: int| 0 <= g2 < self.groups@.len() && g2 != g implies group_wf(
                #[trigger] self.groups@[g2],
            ) by {
                assert(self.groups@[g2] == mid.groups@[g2]);
                assert(group_wf(mid.groups@[g2]));
            }
            assert(self.wf());
            let target = pre@.insert(sym, target_models);
            assert forall|kk: Seq<char>| self@.contains_key(kk) implies target.contains_key(kk)
                && self@[kk] == target[kk] by {
                if kk == sym {
                    assert(self.index@[sym] == g);
                    assert(self@[sym] == group_models(self.groups@[g as int]));
                } else {
                    let g2 = self.index@[kk];
                    assert(pre.index@.contains_key(kk) && pre.index@[kk] == g2);
                    assert(g2 != g) by {
                        if pre.index@.contains_key(sym) {
                            assert(pre.index@[sym] == g);
                        } else {
                            assert(g2 < pre.groups@.len());
                        }
                    }
                    assert(self.groups@[g2 as int] == mid.groups@[g2 as int]);
                    assert(mid.groups@[g2 as int] == pre.groups@[g2 as int]);
                    assert(self@[kk] == group_models(pre.groups@[g2 as int]));
                    assert(target[kk] == pre@[kk]);
                }
            }
            assert forall|kk: Seq<char>| target.contains_key(kk) implies self@.contains_key(
                kk,
            ) by {
                assert(self.index@ == mid.index@);
            }
            assert(self@ =~= target);
        }
        Ok(())
    }

    /// Queries one tier of one symbol: a tier outside the tier range is an
    /// invalid tier, an unknown symbol is not found, and otherwise the
    /// readout of the symbol's buffer at that tier is returned.
    pub fn get_stats(&self, symbol: String, k: usize) -> (r: Result<StatsResponse, TradingError>)
        requires
            self.wf(),
        ensures
            !(1 <= k <= TIER_COUNT) ==> r == Err::<StatsResponse, TradingError>(
                TradingError::InvalidTier,
            ),
            1 <= k <= TIER_COUNT && !self@.contains_key(symbol@) ==> r == Err::<
                StatsResponse,
                TradingError,
            >(TradingError::SymbolNotFound),
            1 <= k <= TIER_COUNT && self@.contains_key(symbol@) ==> r == Ok::<
                StatsResponse,
                TradingError,
            >(snapshot_of(self@[symbol@][k - 1])),
    {
        if k < 1 || k > TIER_COUNT {
            return Err(TradingError::InvalidTier);
        }
        match self.index.get(symbol.as_str()) {
            None => Err(TradingError::SymbolNotFound),
            Some(gref) => {
                let g = *gref;
                proof {
                    assert(self@[symbol@] == group_models(self.groups@[g as int]));
                }
                Ok(self.groups[g][k - 1].get_stats())
            },
        }
    }
}

/// A batch leaves a sound tier group sound, tier capacities included.
proof fn lemma_group_wf_after(
    before: Vec<TradingDataBuffer>,
    after: Vec<TradingDataBuffer>,
    vs: Seq<u64>,
)
    requires
        group_wf(before),
        after@.len() == 8,
        forall|j: int| 0 <= j < 8 ==> (#[trigger] after@[j])@ == steps(before@[j]@, vs),
        forall|j: int| 0 <= j < 8 ==> (#[trigger] after@[j]).wf(),
    ensures
        group_wf(after),
{
    assert forall|t: int| 0 <= t < 8 implies (#[trigger] after@[t]).wf() && after@[t]@.capacity
        == pow10((t + 1) as nat) by {
        crate::buffer::lemma_steps_capacity(before@[t]@, vs);
    }
}

/// Builds the eight tier buffers of one symbol, capacities ten through one
/// hundred million.
fn make_tier_group() -> (r: Vec<TradingDataBuffer>)
    ensures
        group_wf(r),
        group_models(r) == fresh_models(),
{
    let mut bufs: Vec<TradingDataBuffer> = Vec::new();
    let mut cap: usize = 1;
    let mut t: usize = 0;
    while t < 8
        invariant
            t <= 8,
            bufs@.len() == t,
            cap == pow10(t as nat),
            forall|j: int|
                0 <= j < t ==> (#[trigger] bufs@[j])@ == init_model(pow10((j + 1) as nat))
                    && bufs@[j].wf(),
        decreases 8 - t,
    {
        proof {
            lemma_pow10_vals();
            lemma_pow10_mono(t as nat, 7);
            lemma_pow10_mono(0, t as nat);
        }
        cap = cap * 10;
        bufs.push(TradingDataBuffer::new(cap));
        t = t + 1;
    }
    proof {
        assert(group_models(bufs) =~= fresh_models());
        assert(group_wf(bufs));
    }
    bufs
}

} // verus!
