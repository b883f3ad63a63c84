//! Replacement policies for set-associative caches: round robin, least
//! recently used, least frequently used, and the no-op policy used by
//! direct-mapped levels.
//!
//! Every policy is specified against the same mathematical model,
//! [`PolicyModel`], so the cache engine can be verified once for all
//! policies.

use vstd::prelude::*;

verus! {

use crate::arith::argmin_in;
use crate::arith::lemma_argmin_in;
use crate::arith::sat_u64;
use crate::arith::sat_add_u64;
use vstd::arithmetic::mul::lemma_mul_inequality;
use vstd::arithmetic::mul::lemma_mul_is_distributive_add_other_way;

/// Mathematical state of a replacement policy.
#[verifier::ext_equal]
pub enum PolicyModel {
    /// No state: direct-mapped sets have a single line.
    Nop,
    /// One wrap-around counter per set.
    Rr { counters: Seq<u64> },
    /// One last-used stamp per line and a shared monotone clock.
    Lru { stamps: Seq<u64>, clock: u64 },
    /// One usage counter per line.
    Lfu { uses: Seq<u64> },
}

/// Ties a policy model to the geometry of its level: `num_lines` lines
/// grouped into `num_sets` sets of `ways` lines each.
pub open spec fn policy_inv(m: PolicyModel, num_lines: int, num_sets: int, ways: int) -> bool {
    match m {
        PolicyModel::Nop => true,
        PolicyModel::Rr { counters } => {
            &&& counters.len() == num_sets
            &&& forall|i: int| 0 <= i < counters.len() ==> #[trigger] counters[i] < ways
        },
        PolicyModel::Lru { stamps, clock: _ } => stamps.len() == num_lines,
        PolicyModel::Lfu { uses } => uses.len() == num_lines,
    }
}

/// When a read of line `i` may be reported to the policy.
pub open spec fn policy_can_update(m: PolicyModel, i: int) -> bool {
    match m {
        PolicyModel::Nop => true,
        PolicyModel::Rr { counters: _ } => true,
        PolicyModel::Lru { stamps, clock: _ } => 0 <= i < stamps.len(),
        PolicyModel::Lfu { uses } => 0 <= i < uses.len(),
    }
}

/// The policy state after a read of line `i` is reported.
pub open spec fn policy_update(m: PolicyModel, i: int) -> PolicyModel {
    match m {
        PolicyModel::Nop => m,
        PolicyModel::Rr { counters: _ } => m,
        PolicyModel::Lru { stamps, clock } => PolicyModel::Lru {
            stamps: stamps.update(i, clock),
            clock: sat_u64(clock + 1),
        },
        PolicyModel::Lfu { uses } => PolicyModel::Lfu {
            uses: uses.update(i, sat_u64(uses[i] + 1)),
        },
    }
}

/// When the policy may be asked for a victim line in the set `set`, whose
/// lines occupy the index range `[lo, lo + ways)`.
pub open spec fn policy_can_pick(m: PolicyModel, lo: int, set: int, ways: int) -> bool {
    &&& 0 <= lo
    &&& 1 <= ways
    &&& match m {
        PolicyModel::Nop => true,
        PolicyModel::Rr { counters } => {
            &&& 0 <= set < counters.len()
            &&& counters[set] < ways
            &&& lo + ways <= u64::MAX + 1
        },
        PolicyModel::Lru { stamps, clock: _ } => lo + ways <= stamps.len(),
        PolicyModel::Lfu { uses } => lo + ways <= uses.len(),
    }
}

/// The victim line the policy chooses within `[lo, lo + ways)`.
pub open spec fn policy_pick(m: PolicyModel, lo: int, set: int, ways: int) -> int {
    match m {
        PolicyModel::Nop => lo,
        PolicyModel::Rr { counters } => lo + counters[set],
        PolicyModel::Lru { stamps, clock: _ } => argmin_in(stamps, lo, lo + ways),
        PolicyModel::Lfu { uses } => argmin_in(uses, lo, lo + ways),
    }
}

/// The policy state after it has chosen (and accounted for) a victim line.
pub open spec fn policy_evolve(m: PolicyModel, lo: int, set: int, ways: int) -> PolicyModel {
    match m {
        PolicyModel::Nop => m,
        PolicyModel::Rr { counters } => PolicyModel::Rr {
            counters: counters.update(set, (((counters[set] + 1) % ways) as u64)),
        },
        PolicyModel::Lru { stamps, clock } => PolicyModel::Lru {
            stamps: stamps.update(argmin_in(stamps, lo, lo + ways), clock),
            clock: sat_u64(clock + 1),
        },
        PolicyModel::Lfu { uses } => PolicyModel::Lfu {
            uses: uses.update(argmin_in(uses, lo, lo + ways), 1u64),
        },
    }
}

/// A policy that satisfies its invariant accepts any in-range update, and the
/// update preserves the invariant.
pub proof fn lemma_policy_update_ok(
    m: PolicyModel,
    num_lines: int,
    num_sets: int,
    ways: int,
    i: int,
)
    requires
        policy_inv(m, num_lines, num_sets, ways),
        0 <= i < num_lines,
    ensures
        policy_can_update(m, i),
        policy_inv(policy_update(m, i), num_lines, num_sets, ways),
{
}

/// A policy that satisfies its invariant accepts any victim request for a
/// whole set, picks a line of that set, and preserves the invariant.
pub proof fn lemma_policy_pick_ok(
    m: PolicyModel,
    num_lines: int,
    num_sets: int,
    ways: int,
    lo: int,
    set: int,
)
    requires
        policy_inv(m, num_lines, num_sets, ways),
        0 <= set < num_sets,
        lo == set * ways,
        1 <= ways,
        num_lines == num_sets * ways,
        num_lines <= u64::MAX + 1,
    ensures
        policy_can_pick(m, lo, set, ways),
        lo <= policy_pick(m, lo, set, ways) < lo + ways,
        policy_inv(policy_evolve(m, lo, set, ways), num_lines, num_sets, ways),
{
    assert(lo + ways <= num_lines) by {
        lemma_mul_is_distributive_add_other_way(ways, set, 1);
        lemma_mul_inequality(set + 1, num_sets, ways);
    }
    assert(0 <= lo) by {
        vstd::arithmetic::mul::lemma_mul_nonnegative(set, ways);
    }
    match m {
        PolicyModel::Nop => {
        },
        PolicyModel::Rr { counters } => {
        },
        PolicyModel::Lru { stamps, clock: _ } => {
            lemma_argmin_in(stamps, lo, lo + ways);
        },
        PolicyModel::Lfu { uses } => {
            lemma_argmin_in(uses, lo, lo + ways);
        },
    }
}

/// The capability set of a replacement policy, as the cache engine uses it:
/// account for a read of a line, and choose a victim line within a set on a
/// miss.  Each implementation is specified exactly, through its model.
pub trait ReplacementPolicy: Sized {
    /// The mathematical state of this policy.
    spec fn model(&self) -> PolicyModel;

    /// Updates the policy when the cache line `cache_index` is read.
    fn update_on_read(&mut self, cache_index: u64)
        requires
            policy_can_update(old(self).model(), cache_index as int),
        ensures
            final(self).model() == policy_update(old(self).model(), cache_index as int),
    ;

    /// Chooses the line that a new tag will replace, within the set `set`
    /// whose lines occupy indices `[set_lower_bound_index,
    /// set_lower_bound_index + cache_lines_per_set)`.
    fn get_new_line(&mut self, set_lower_bound_index: u64, set: u64, cache_lines_per_set: u64) -> (r: u64)
        requires
            policy_can_pick(
                old(self).model(),
                set_lower_bound_index as int,
                set as int,
                cache_lines_per_set as int,
            ),
        ensures
            r as int == policy_pick(
                old(self).model(),
                set_lower_bound_index as int,
                set as int,
                cache_lines_per_set as int,
            ),
            final(self).model() == policy_evolve(
                old(self).model(),
                set_lower_bound_index as int,
                set as int,
                cache_lines_per_set as int,
            ),
    ;
}

/// NoPolicy is used for direct-mapped caches.  It does nothing when updating
/// on a read, and returns the set lower bound when a new line is requested:
/// a direct-mapped set holds exactly one line.
pub struct NoPolicy;

impl Default for NoPolicy {
    /// The no-op policy carries no state.
    fn default() -> (r: Self)
        ensures
            r.model() == PolicyModel::Nop,
    {
        NoPolicy
    }
}

impl ReplacementPolicy for NoPolicy {
    closed spec fn model(&self) -> PolicyModel {
        PolicyModel::Nop
    }

    fn update_on_read(&mut self, _cache_index: u64) {
    }

    fn get_new_line(&mut self, set_lower_bound_index: u64, _set: u64, _cache_lines_per_set: u64) -> (r: u64) {
        set_lower_bound_index
    }
}

/// Standard round robin replacement policy, which keeps a separate
/// wrap-around index for each set.
pub struct RoundRobin {
    set_indices: Vec<u64>,
}

impl RoundRobin {
    /// A fresh round-robin policy for `num_sets` sets, all counters zero.
    pub fn new(num_sets: u64) -> (r: Self)
        requires
            num_sets <= usize::MAX,
        ensures
            r.model() == (PolicyModel::Rr { counters: Seq::new(num_sets as nat, |i: int| 0u64) }),
    {
        RoundRobin { set_indices: crate::arith::zero_vec(num_sets) }
    }
}

impl ReplacementPolicy for RoundRobin {
    closed spec fn model(&self) -> PolicyModel {
        PolicyModel::Rr { counters: self.set_indices@ }
    }

    fn update_on_read(&mut self, _cache_index: u64) {
    }

    fn get_new_line(&mut self, set_lower_bound_index: u64, set: u64, cache_lines_per_set: u64) -> (r: u64) {
        proof {
            assert(self.set_indices@.len() <= usize::MAX) by {
                assert(self.set_indices.len() == self.set_indices@.len());
            }
        }
        let set_index = self.set_indices[set as usize];
        let val = set_lower_bound_index + set_index;
        self.set_indices.set(set as usize, (set_index + 1) % cache_lines_per_set);
        val
    }
}

/// Least recently used replacement policy.
///
/// Keeps the logical time at which each line was last used, plus a shared
/// monotone clock, so finding a victim is a plain search for the minimum
/// stamp with no relative-age comparisons.
pub struct LeastRecentlyUsed {
    last_used_times: Vec<u64>,
    time: u64,
}

impl LeastRecentlyUsed {
    /// A fresh least-recently-used policy over `num_lines` lines, all stamps
    /// zero and the clock at zero.
    pub fn new(num_lines: u64) -> (r: Self)
        requires
            num_lines <= usize::MAX,
        ensures
            r.model() == (PolicyModel::Lru {
                stamps: Seq::new(num_lines as nat, |i: int| 0u64),
                clock: 0u64,
            }),
    {
        LeastRecentlyUsed { last_used_times: crate::arith::zero_vec(num_lines), time: 0 }
    }
}

impl ReplacementPolicy for LeastRecentlyUsed {
    closed spec fn model(&self) -> PolicyModel {
        PolicyModel::Lru { stamps: self.last_used_times@, clock: self.time }
    }

    fn update_on_read(&mut self, cache_index: u64) {
        proof {
            assert(self.last_used_times@.len() <= usize::MAX) by {
                assert(self.last_used_times.len() == self.last_used_times@.len());
            }
        }
        let t = self.time;
        self.last_used_times.set(cache_index as usize, t);
        self.time = sat_add_u64(t, 1);
    }

    fn get_new_line(&mut self, set_lower_bound_index: u64, _set: u64, cache_lines_per_set: u64) -> (r: u64) {
        proof {
            assert(self.last_used_times@.len() <= usize::MAX) by {
                assert(self.last_used_times.len() == self.last_used_times@.len());
            }
        }
        let slb = set_lower_bound_index as usize;
        let ways = cache_lines_per_set as usize;
        let min_index = scan_min_index(&self.last_used_times, slb, ways);
        let t = self.time;
        self.last_used_times.set(min_index, t);
        self.time = sat_add_u64(t, 1);
        min_index as u64
    }
}

/// Least frequently used replacement policy.
pub struct LeastFrequentlyUsed {
    usages: Vec<u64>,
}

impl LeastFrequentlyUsed {
    /// A fresh least-frequently-used policy over `num_lines` lines, all
    /// usage counters zero.
    pub fn new(num_lines: u64) -> (r: Self)
        requires
            num_lines <= usize::MAX,
        ensures
            r.model() == (PolicyModel::Lfu { uses: Seq::new(num_lines as nat, |i: int| 0u64) }),
    {
        LeastFrequentlyUsed { usages: crate::arith::zero_vec(num_lines) }
    }
}

impl ReplacementPolicy for LeastFrequentlyUsed {
    closed spec fn model(&self) -> PolicyModel {
        PolicyModel::Lfu { uses: self.usages@ }
    }

    fn update_on_read(&mut self, cache_index: u64) {
        proof {
            assert(self.usages@.len() <= usize::MAX) by {
                assert(self.usages.len() == self.usages@.len());
            }
        }
        let u = self.usages[cache_index as usize];
        self.usages.set(cache_index as usize, sat_add_u64(u, 1));
    }

    fn get_new_line(&mut self, set_lower_bound_index: u64, _set: u64, cache_lines_per_set: u64) -> (r: u64) {
        proof {
            assert(self.usages@.len() <= usize::MAX) by {
                assert(self.usages.len() == self.usages@.len());
            }
        }
        let slb = set_lower_bound_index as usize;
        let ways = cache_lines_per_set as usize;
        let min_index = scan_min_index(&self.usages, slb, ways);
        // The victim has been used once: by the access that installs it.
        self.usages.set(min_index, 1);
        min_index as u64
    }
}

/// Linear scan for the first minimum of `values[slb .. slb + ways]`.
fn scan_min_index(values: &Vec<u64>, slb: usize, ways: usize) -> (r: usize)
    requires
        1 <= ways,
        slb + ways <= values.len(),
    ensures
        r == argmin_in(values@, slb as int, slb + ways),
        slb <= r < slb + ways,
{
    let mut min_index = slb;
    let mut min_value = values[slb];
    let mut index = slb + 1;
    while index < slb + ways
        invariant
            slb < index <= slb + ways <= values.len(),
            slb <= min_index < index,
            min_value == values@[min_index as int],
            min_index == argmin_in(values@, slb as int, index as int),
        decreases slb + ways - index,
    {
        proof {
            crate::arith::lemma_argmin_in_extend(values@, slb as int, index as int);
        }
        if values[index] < min_value {
            min_value = values[index];
            min_index = index;
        }
        index += 1;
    }
    min_index
}

} // verus!
