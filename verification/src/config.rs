//! The cache-hierarchy configuration data model and its validity rules.
//!
//! A hierarchy is an ordered, non-empty list of levels.  Each level names its
//! total size, its line size (both powers of two), its kind (direct-mapped,
//! fully-associative, or 2/4/8-way set-associative) and a replacement policy.

use vstd::prelude::*;

verus! {

use crate::arith::is_pow2;
use crate::arith::is_power_of_two;
use vstd::arithmetic::power2::pow2;
use vstd::arithmetic::power2::lemma_pow2_adds;
use vstd::arithmetic::power2::lemma_pow2_subtracts;
use vstd::arithmetic::power2::lemma_pow2_strictly_increases;
use vstd::arithmetic::power2::lemma_pow2_pos;
use vstd::arithmetic::div_mod::lemma_small_mod;
use vstd::arithmetic::div_mod::lemma_fundamental_div_mod;
use vstd::arithmetic::mul::lemma_mul_left_inequality;
use vstd::arithmetic::mul::lemma_mul_is_distributive_add;
use vstd::arithmetic::mul::lemma_mul_is_commutative;
use vstd::arithmetic::mul::lemma_mul_strictly_positive;

/// The kind of cache: direct-mapped, fully-associative, or N-way set-associative.
#[derive(Debug, Clone, Copy, PartialEq, Eq, Structural)]
pub enum CacheKindConfig {
    Direct,
    Full,
    TwoWay,
    FourWay,
    EightWay,
}

/// The replacement policy of a set-associative level.
#[derive(Debug, Clone, Copy, PartialEq, Eq, Structural)]
pub enum ReplacementPolicyConfig {
    RoundRobin,
    LeastRecentlyUsed,
    LeastFrequentlyUsed,
}

impl Default for ReplacementPolicyConfig {
    /// The replacement policy defaults to round robin.
    fn default() -> (r: Self)
        ensures
            r == ReplacementPolicyConfig::RoundRobin,
    {
        ReplacementPolicyConfig::RoundRobin
    }
}

/// The configuration of a single cache level.
#[derive(Debug)]
pub struct CacheConfig {
    pub name: String,
    pub size: u64,
    pub line_size: u64,
    pub kind: CacheKindConfig,
    pub replacement_policy: ReplacementPolicyConfig,
}

/// The configuration of a whole hierarchy, outermost level first.
#[derive(Debug)]
pub struct LayeredCacheConfig {
    pub caches: Vec<CacheConfig>,
}

impl CacheConfig {
    /// Number of cache lines of this level.
    pub open spec fn spec_num_lines(&self) -> u64 {
        self.size / self.line_size
    }

    /// Number of sets of this level, derived from its kind.
    pub open spec fn spec_num_sets(&self) -> u64 {
        match self.kind {
            CacheKindConfig::Direct => self.spec_num_lines(),
            CacheKindConfig::Full => 1,
            CacheKindConfig::TwoWay => self.spec_num_lines() / 2,
            CacheKindConfig::FourWay => self.spec_num_lines() / 4,
            CacheKindConfig::EightWay => self.spec_num_lines() / 8,
        }
    }

    /// Number of ways (lines per set) of this level.
    pub open spec fn spec_ways(&self) -> u64 {
        self.spec_num_lines() / self.spec_num_sets()
    }

    /// The configuration invariants: sizes are powers of two, the line size
    /// divides the total size, and the total size is a multiple of
    /// `line_size` times the associativity.  The number of lines must also be
    /// addressable on the host.
    pub open spec fn valid(&self) -> bool {
        &&& is_pow2(self.size)
        &&& is_pow2(self.line_size)
        &&& self.line_size <= self.size
        &&& self.spec_num_lines() <= usize::MAX
        &&& match self.kind {
            CacheKindConfig::Direct => true,
            CacheKindConfig::Full => true,
            CacheKindConfig::TwoWay => (self.size as int) % (2 * self.line_size as int) == 0,
            CacheKindConfig::FourWay => (self.size as int) % (4 * self.line_size as int) == 0,
            CacheKindConfig::EightWay => (self.size as int) % (8 * self.line_size as int) == 0,
        }
    }

    /// Reports whether this level satisfies the configuration invariants.
    pub fn check(&self) -> (r: bool)
        ensures
            r == self.valid(),
    {
        if !(is_power_of_two(self.size) && is_power_of_two(self.line_size)
            && self.line_size <= self.size) {
            return false;
        }
        if self.size / self.line_size > usize::MAX as u64 {
            return false;
        }
        match self.kind {
            CacheKindConfig::Direct => true,
            CacheKindConfig::Full => true,
            CacheKindConfig::TwoWay => self.multiple_check(2),
            CacheKindConfig::FourWay => self.multiple_check(4),
            CacheKindConfig::EightWay => self.multiple_check(8),
        }
    }

    /// Reports whether the total size is a multiple of `ways` line sizes.
    fn multiple_check(&self, ways: u64) -> (r: bool)
        requires
            1 <= ways,
            1 <= self.line_size,
            1 <= self.size,
        ensures
            r == ((self.size as int) % (ways * self.line_size as int) == 0),
    {
        let q = self.size / ways;
        proof {
            lemma_fundamental_div_mod(self.size as int, ways as int);
        }
        if self.line_size > q {
            proof {
                assert(ways * self.line_size >= ways * (q + 1)) by {
                    lemma_mul_left_inequality(ways as int, q + 1, self.line_size as int);
                }
                assert(ways * (q + 1) == ways * q + ways) by {
                    lemma_mul_is_distributive_add(ways as int, q as int, 1);
                }
                assert(ways * self.line_size > self.size);
                lemma_small_mod(self.size as nat, (ways * self.line_size) as nat);
            }
            false
        } else {
            proof {
                assert(ways * self.line_size <= ways * q) by {
                    lemma_mul_left_inequality(ways as int, self.line_size as int, q as int);
                }
                assert(ways * q <= self.size);
                assert(self.line_size * ways == ways * self.line_size) by {
                    lemma_mul_is_commutative(self.line_size as int, ways as int);
                }
                assert(0 < ways * self.line_size) by {
                    lemma_mul_strictly_positive(ways as int, self.line_size as int);
                }
            }
            self.size % (self.line_size * ways) == 0
        }
    }
}

/// Facts that follow from a valid level configuration: the derived line, set
/// and way counts are positive powers of two that factor the total size.
pub proof fn lemma_valid_facts(c: &CacheConfig)
    requires
        c.valid(),
    ensures
        1 <= c.line_size,
        1 <= c.size,
        1 <= c.spec_num_lines(),
        1 <= c.spec_num_sets() <= c.spec_num_lines(),
        1 <= c.spec_ways(),
        is_pow2(c.spec_num_lines()),
        is_pow2(c.spec_num_sets()),
        c.size == c.line_size * c.spec_num_lines(),
        c.spec_num_lines() == c.spec_num_sets() * c.spec_ways(),
        c.line_size * c.spec_num_sets() <= c.size,
        c.kind == CacheKindConfig::Direct ==> c.spec_num_sets() == c.spec_num_lines(),
        c.kind == CacheKindConfig::Full ==> c.spec_num_sets() == 1,
        c.kind == CacheKindConfig::TwoWay ==> c.spec_ways() == 2,
        c.kind == CacheKindConfig::FourWay ==> c.spec_ways() == 4,
        c.kind == CacheKindConfig::EightWay ==> c.spec_ways() == 8,
{
    let a = choose|e: nat| e < 64 && c.size == pow2(e);
    let b = choose|e: nat| e < 64 && c.line_size == pow2(e);
    lemma_pow2_pos(a);
    lemma_pow2_pos(b);
    assert(b <= a) by {
        if a < b {
            lemma_pow2_strictly_increases(a, b);
        }
    }
    lemma_pow2_subtracts(b, a);
    lemma_pow2_adds(b, (a - b) as nat);
    lemma_pow2_pos((a - b) as nat);
    assert(c.spec_num_lines() == pow2((a - b) as nat));
    assert(is_pow2(c.spec_num_lines()));
    let k: nat = match c.kind {
        CacheKindConfig::Direct => 0,
        CacheKindConfig::Full => (a - b) as nat,
        CacheKindConfig::TwoWay => 1,
        CacheKindConfig::FourWay => 2,
        CacheKindConfig::EightWay => 3,
    };
    // The divisibility clause forces at least k doublings between line size
    // and total size.
    assert(k + b <= a) by {
        match c.kind {
            CacheKindConfig::Direct => {
            },
            CacheKindConfig::Full => {
            },
            _ => {
                lemma_pow2_adds(b, k);
                if a < b + k {
                    lemma_pow2_strictly_increases(a, (b + k) as nat);
                    lemma_pow2_pos(a);
                    lemma_small_mod(pow2(a), pow2((b + k) as nat));
                    assert(pow2(k) * pow2(b) == pow2((b + k) as nat)) by {
                        lemma_mul_is_commutative(pow2(k) as int, pow2(b) as int);
                    }
                    assert(match c.kind {
                        CacheKindConfig::TwoWay => 2 * c.line_size == pow2((b + 1) as nat),
                        CacheKindConfig::FourWay => 4 * c.line_size == pow2((b + 2) as nat),
                        CacheKindConfig::EightWay => 8 * c.line_size == pow2((b + 3) as nat),
                        _ => true,
                    }) by {
                        vstd::arithmetic::power2::lemma2_to64();
                    }
                }
            },
        }
    }
    lemma_pow2_subtracts(k, (a - b) as nat);
    lemma_pow2_subtracts(((a - b) - k) as nat, (a - b) as nat);
    lemma_pow2_adds(((a - b) as nat - k) as nat, k);
    lemma_pow2_pos(((a - b) as nat - k) as nat);
    lemma_pow2_pos(k);
    assert(match c.kind {
        CacheKindConfig::TwoWay => c.spec_num_sets() == pow2((a - b) as nat) / pow2(1),
        CacheKindConfig::FourWay => c.spec_num_sets() == pow2((a - b) as nat) / pow2(2),
        CacheKindConfig::EightWay => c.spec_num_sets() == pow2((a - b) as nat) / pow2(3),
        _ => true,
    }) by {
        vstd::arithmetic::power2::lemma2_to64();
    }
    assert(c.spec_num_sets() == pow2(((a - b) - k) as nat));
    assert(is_pow2(c.spec_num_sets()));
    assert(c.spec_ways() == pow2(k));
    assert(c.spec_num_lines() == c.spec_num_sets() * c.spec_ways());
    assert(c.line_size * c.spec_num_sets() == pow2((b + ((a - b) - k)) as nat)) by {
        lemma_pow2_adds(b, ((a - b) - k) as nat);
    }
    assert(c.line_size * c.spec_num_sets() <= c.size) by {
        if (b + ((a - b) - k)) as nat != a {
            lemma_pow2_strictly_increases((b + ((a - b) - k)) as nat, a);
        }
    }
    assert(c.kind == CacheKindConfig::TwoWay ==> c.spec_ways() == 2) by {
        vstd::arithmetic::power2::lemma2_to64();
    }
    assert(c.kind == CacheKindConfig::FourWay ==> c.spec_ways() == 4) by {
        vstd::arithmetic::power2::lemma2_to64();
    }
    assert(c.kind == CacheKindConfig::EightWay ==> c.spec_ways() == 8) by {
        vstd::arithmetic::power2::lemma2_to64();
    }
}

impl LayeredCacheConfig {
    /// The hierarchy invariants: at least one level, every level valid, and
    /// line sizes non-decreasing from the outermost level inwards.
    pub open spec fn valid(&self) -> bool {
        &&& self.caches@.len() >= 1
        &&& forall|i: int| 0 <= i < self.caches@.len() ==> (#[trigger] self.caches@[i]).valid()
        &&& forall|i: int|
            0 <= i && i + 1 < self.caches@.len() ==> #[trigger] self.caches@[i].line_size
                <= self.caches@[i + 1].line_size
    }

    /// Reports whether the whole hierarchy satisfies the configuration
    /// invariants.
    pub fn check(&self) -> (r: bool)
        ensures
            r == self.valid(),
    {
        if self.caches.len() == 0 {
            return false;
        }
        let mut i: usize = 0;
        while i < self.caches.len()
            invariant
                0 <= i <= self.caches@.len(),
                forall|j: int| 0 <= j < i ==> (#[trigger] self.caches@[j]).valid(),
                forall|j: int|
                    0 <= j && j + 1 < self.caches@.len() && j + 1 <= i
                        ==> #[trigger] self.caches@[j].line_size <= self.caches@[j + 1].line_size,
            decreases self.caches@.len() - i,
        {
            if !self.caches[i].check() {
                return false;
            }
            if i + 1 < self.caches.len() {
                if self.caches[i].line_size > self.caches[i + 1].line_size {
                    return false;
                }
            }
            i = i + 1;
        }
        true
    }
}

} // verus!
