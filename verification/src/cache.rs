//! The set-associative cache engine, generic over a replacement policy, and
//! the policy-erased cache used to hold levels of differing policies in one
//! collection.
//!
//! Addresses decompose against a level as offset (low bits), set index
//! (middle bits) and tag (remaining high bits, kept unshifted so a lookup is
//! one mask and compare).  A tag value of zero doubles as "uninitialised",
//! so address zero lies outside the supported input domain.

use vstd::prelude::*;

verus! {

use crate::arith::is_pow2;
use crate::arith::lemma_pow2_shape;
use crate::arith::zero_vec;
use crate::replacement_policies::LeastFrequentlyUsed;
use crate::replacement_policies::LeastRecentlyUsed;
use crate::replacement_policies::NoPolicy;
use crate::replacement_policies::PolicyModel;
use crate::replacement_policies::ReplacementPolicy;
use crate::replacement_policies::RoundRobin;
use crate::replacement_policies::policy_inv;
use crate::replacement_policies::policy_update;
use crate::replacement_policies::policy_pick;
use crate::replacement_policies::policy_evolve;
use crate::replacement_policies::lemma_policy_update_ok;
use crate::replacement_policies::lemma_policy_pick_ok;
use vstd::arithmetic::power2::pow2;
use vstd::arithmetic::power2::lemma_pow2_adds;
use vstd::arithmetic::power2::lemma_pow2_strictly_increases;
use vstd::arithmetic::power2::lemma2_to64_rest;
use vstd::arithmetic::mul::lemma_mul_inequality;
use vstd::arithmetic::mul::lemma_mul_is_distributive_add_other_way;
use vstd::arithmetic::mul::lemma_mul_nonnegative;
use vstd::arithmetic::mul::lemma_mul_is_associative;
use vstd::arithmetic::mul::lemma_mul_left_inequality;
use vstd::arithmetic::mul::lemma_mul_strictly_positive;

/// Mathematical state of one cache level.
#[verifier::ext_equal]
pub struct CacheModel {
    /// Mask selecting the set-index bits of an address.
    pub set_mask: u64,
    /// Mask selecting the tag bits of an address.
    pub tag_mask: u64,
    /// Mask clearing the intra-line offset bits of an address.
    pub align_mask: u64,
    /// Line size in bytes; equals `1 << abits`.
    pub line_size: u64,
    /// Width of the intra-line offset field.
    pub abits: u64,
    /// Width of the set-index field.
    pub sbits: u64,
    /// Number of sets; equals `1 << sbits`.
    pub sets: u64,
    /// Number of ways: lines per set.
    pub set_size: u64,
    /// The tag array, indexed by `set * set_size + way`; `0` means
    /// uninitialised.
    pub tags: Seq<u64>,
    /// The replacement-policy state.
    pub policy: PolicyModel,
}

/// The set index of `addr` for a level: middle bits, shifted down so they
/// can index a collection of sets.
pub open spec fn model_set_of(m: CacheModel, addr: u64) -> u64 {
    (addr & m.set_mask) >> m.abits
}

/// The tag of `addr` for a level: high bits, kept in place.
pub open spec fn model_tag_of(m: CacheModel, addr: u64) -> u64 {
    addr & m.tag_mask
}

/// Index of the first entry of `tags[lo .. ub]` equal to `tag`, if any.
pub open spec fn first_hit(tags: Seq<u64>, lo: int, ub: int, tag: u64) -> Option<int>
    decreases ub - lo,
{
    if lo >= ub {
        Option::None
    } else if tags[lo] == tag {
        Option::Some(lo)
    } else {
        first_hit(tags, lo + 1, ub, tag)
    }
}

/// `first_hit` finds the lowest matching index, or reports that none match.
pub proof fn lemma_first_hit_props(tags: Seq<u64>, lo: int, ub: int, tag: u64)
    ensures
        match first_hit(tags, lo, ub, tag) {
            Option::Some(i) => {
                &&& lo <= i < ub
                &&& tags[i] == tag
                &&& forall|j: int| lo <= j < i ==> tags[j] != tag
            },
            Option::None => forall|j: int| lo <= j < ub ==> tags[j] != tag,
        },
    decreases ub - lo,
{
    if lo < ub && tags[lo] != tag {
        lemma_first_hit_props(tags, lo + 1, ub, tag);
    }
}

/// A search may skip over a prefix known not to match.
pub proof fn lemma_first_hit_skip(tags: Seq<u64>, lo: int, ub: int, tag: u64, x: int)
    requires
        lo <= x <= ub,
        forall|j: int| lo <= j < x ==> tags[j] != tag,
    ensures
        first_hit(tags, lo, ub, tag) == first_hit(tags, x, ub, tag),
    decreases x - lo,
{
    if lo < x {
        lemma_first_hit_skip(tags, lo + 1, ub, tag, x);
    }
}

/// Well-formedness of a cache-level model: the geometry is a power-of-two
/// grid, the masks are the ones derived from that geometry, and the policy
/// state fits the geometry.
pub open spec fn cache_model_wf(m: CacheModel) -> bool {
    &&& m.abits < 64
    &&& m.sbits < 64
    &&& m.abits + m.sbits <= 63
    &&& m.line_size == (1u64 << m.abits)
    &&& m.sets == (1u64 << m.sbits)
    &&& 1 <= m.sets
    &&& 1 <= m.set_size
    &&& m.tags.len() == m.sets * m.set_size
    &&& m.tags.len() <= usize::MAX
    &&& m.set_mask == (((m.sets - 1) as u64) << m.abits)
    &&& m.align_mask == !(((1u64 << m.abits) - 1) as u64)
    &&& m.tag_mask == !(((1u64 << ((m.abits + m.sbits) as u64)) - 1) as u64)
    &&& policy_inv(m.policy, m.tags.len() as int, m.sets as int, m.set_size as int)
}

/// One read of the line-aligned address `addr` against a level: the new
/// level state and whether the read hit.
pub open spec fn cache_model_step(m: CacheModel, addr: u64) -> (CacheModel, bool) {
    let set = model_set_of(m, addr) as int;
    let tag = model_tag_of(m, addr);
    let lo = set * m.set_size;
    match first_hit(m.tags, lo, lo + m.set_size, tag) {
        Option::Some(i) => (CacheModel { policy: policy_update(m.policy, i), ..m }, true),
        Option::None => {
            let v = policy_pick(m.policy, lo, set, m.set_size as int);
            (
                CacheModel {
                    tags: m.tags.update(v, tag),
                    policy: policy_evolve(m.policy, lo, set, m.set_size as int),
                    ..m
                },
                false,
            )
        },
    }
}

/// The set index of any address lies below the number of sets.
pub proof fn lemma_set_in_range(m: CacheModel, addr: u64)
    requires
        cache_model_wf(m),
    ensures
        model_set_of(m, addr) < m.sets,
{
    let ab = m.abits;
    let sb = m.sbits;
    let sets = m.sets;
    assert(((addr & (((sets - 1) as u64) << ab)) >> ab) < sets) by (bit_vector)
        requires
            ab < 64,
            sb < 64,
            ab + sb <= 63,
            sets == (1u64 << sb),
    ;
}

/// The whole set of any address lies inside the tag array.
pub proof fn lemma_set_range_in_tags(m: CacheModel, addr: u64)
    requires
        cache_model_wf(m),
    ensures
        ({
            let lo = (model_set_of(m, addr) as int) * m.set_size;
            &&& 0 <= lo
            &&& lo + m.set_size <= m.tags.len()
        }),
{
    lemma_set_in_range(m, addr);
    let set = model_set_of(m, addr) as int;
    lemma_mul_nonnegative(set, m.set_size as int);
    assert((set + 1) * m.set_size <= m.sets * m.set_size) by {
        lemma_mul_inequality(set + 1, m.sets as int, m.set_size as int);
    }
    lemma_mul_is_distributive_add_other_way(m.set_size as int, set, 1);
}

/// A step preserves well-formedness and the whole geometry; only the tag
/// array contents and the policy state change.
pub proof fn lemma_cache_model_step_wf(m: CacheModel, addr: u64)
    requires
        cache_model_wf(m),
    ensures
        ({
            let (m2, hit) = cache_model_step(m, addr);
            &&& cache_model_wf(m2)
            &&& m2 == (CacheModel { tags: m2.tags, policy: m2.policy, ..m })
            &&& m2.tags.len() == m.tags.len()
        }),
{
    lemma_set_range_in_tags(m, addr);
    let set = model_set_of(m, addr) as int;
    let tag = model_tag_of(m, addr);
    let lo = set * m.set_size;
    let nl = m.tags.len() as int;
    lemma_first_hit_props(m.tags, lo, lo + m.set_size, tag);
    match first_hit(m.tags, lo, lo + m.set_size, tag) {
        Option::Some(i) => {
            lemma_policy_update_ok(m.policy, nl, m.sets as int, m.set_size as int, i);
        },
        Option::None => {
            lemma_set_in_range(m, addr);
            lemma_policy_pick_ok(m.policy, nl, m.sets as int, m.set_size as int, lo, set);
        },
    }
}

/// Number of uninitialised (zero) entries of a tag array.
pub open spec fn zero_count(tags: Seq<u64>) -> nat
    decreases tags.len(),
{
    if tags.len() == 0 {
        0
    } else {
        zero_count(tags.drop_last()) + (if tags.last() == 0 {
            1nat
        } else {
            0nat
        })
    }
}

/// Two well-formed models with the same geometry, tags and policy are equal:
/// the masks are determined by the geometry.
pub proof fn lemma_wf_model_determined(m1: CacheModel, m2: CacheModel)
    requires
        cache_model_wf(m1),
        cache_model_wf(m2),
        m1.line_size == m2.line_size,
        m1.sets == m2.sets,
        m1.set_size == m2.set_size,
        m1.tags == m2.tags,
        m1.policy == m2.policy,
    ensures
        m1 == m2,
{
    let a1 = m1.abits;
    let a2 = m2.abits;
    let s1 = m1.sbits;
    let s2 = m2.sbits;
    assert(a1 == a2) by (bit_vector)
        requires
            a1 < 64,
            a2 < 64,
            (1u64 << a1) == (1u64 << a2),
    ;
    assert(s1 == s2) by (bit_vector)
        requires
            s1 < 64,
            s2 < 64,
            (1u64 << s1) == (1u64 << s2),
    ;
    assert(m1 =~= m2);
}

/// A generic trait for caches.
///
/// The trait assumes that splitting reads which span multiple cache lines is
/// the responsibility of the caller: `read_and_update_line` takes a single
/// line-aligned address.
pub trait CacheTrait: Sized {
    /// The mathematical state of this cache.
    spec fn model(&self) -> CacheModel;

    /// Converts an address into a set and a tag.  The set is shifted down so
    /// it can index a collection of sets; the tag is not re-aligned, as this
    /// is not required for equality tests.
    fn address_to_set_and_tag(&self, input: u64) -> (r: (u64, u64))
        requires
            cache_model_wf(self.model()),
        ensures
            r.0 == model_set_of(self.model(), input),
            r.1 == model_tag_of(self.model(), input),
    ;

    /// Tries to read a cache line, returning true on a cache hit and false
    /// otherwise.  On both hits and misses the replacement-policy state is
    /// updated; on a miss the chosen victim line is overwritten with the new
    /// tag.
    fn read_and_update_line(&mut self, input: u64) -> (hit: bool)
        requires
            cache_model_wf(old(self).model()),
        ensures
            final(self).model() == cache_model_step(old(self).model(), input).0,
            hit == cache_model_step(old(self).model(), input).1,
    ;

    /// Gets the bit mask used to align an address to this cache's lines.
    fn get_alignment_bit_mask(&self) -> (r: u64)
        ensures
            r == self.model().align_mask,
    ;

    /// Gets the line size used by this cache.
    fn get_line_size(&self) -> (r: u64)
        ensures
            r == self.model().line_size,
    ;

    /// Gets the number of uninitialised cache lines, for diagnostics.
    fn get_uninitialised_line_count(&self) -> (r: usize)
        ensures
            r == zero_count(self.model().tags),
    ;
}

/// A generic cache implementation, parameterised by a replacement policy.
///
/// One implementation serves every policy; monomorphisation and inlining of
/// the policy methods keep the hot path free of indirect dispatch.
pub struct Cache<R: ReplacementPolicy> {
    set_selection_bit_mask: u64,
    tag_selection_bit_mask: u64,
    cache_alignment_bit_mask: u64,
    line_size: u64,
    cache: Vec<u64>,
    replacement_policy: R,
    cache_alignment_bits: u8,
    set_size: u64,
    num_sets: Ghost<u64>,
    set_selection_bits: Ghost<u64>,
}

impl<R: ReplacementPolicy> Cache<R> {
    /// Builds a level of `size` bytes with lines of `line_size` bytes,
    /// grouped into `num_sets` sets, using the given replacement policy.
    ///
    /// The line size and set count must be powers of two, the line size must
    /// divide the total size, and the set count must divide the line count,
    /// with at least one line per set.
    pub fn new(size: u64, line_size: u64, num_sets: u64, policy: R) -> (r: Self)
        requires
            is_pow2(line_size),
            is_pow2(num_sets),
            size == line_size * (size / line_size),
            (size / line_size) == num_sets * ((size / line_size) / num_sets),
            1 <= (size / line_size) / num_sets,
            size / line_size <= usize::MAX,
            policy_inv(
                policy.model(),
                (size / line_size) as int,
                num_sets as int,
                ((size / line_size) / num_sets) as int,
            ),
        ensures
            cache_model_wf(r.model()),
            r.model().line_size == line_size,
            r.model().sets == num_sets,
            r.model().set_size == (size / line_size) / num_sets,
            r.model().tags == Seq::new((size / line_size) as nat, |i: int| 0u64),
            r.model().policy == policy.model(),
    {
        proof {
            lemma_pow2_shape(line_size);
            lemma_pow2_shape(num_sets);
        }
        let cache_alignment_bits_32 = line_size.trailing_zeros();
        let set_selection_bits_32 = num_sets.trailing_zeros();
        let cache_alignment_bits = cache_alignment_bits_32 as u8;
        let ab: u64 = cache_alignment_bits_32 as u64;
        let sb: u64 = set_selection_bits_32 as u64;
        let cache_lines = size / line_size;
        let set_size = cache_lines / num_sets;
        proof {
            lemma_shift_widths_fit(size, line_size, num_sets, set_size, ab, sb);
            assert(forall|k: u64| k < 64 ==> #[trigger] (1u64 << k) >= 1) by (bit_vector);
        }
        Cache {
            set_size,
            set_selection_bit_mask: (num_sets - 1) << ab,
            tag_selection_bit_mask: !((1u64 << (ab + sb)) - 1),
            cache_alignment_bit_mask: !((1u64 << ab) - 1),
            line_size,
            cache_alignment_bits,
            cache: zero_vec(cache_lines),
            replacement_policy: policy,
            num_sets: Ghost(num_sets),
            set_selection_bits: Ghost(sb),
        }
    }
}

/// The offset and set-index field widths of a well-formed level fit in the
/// low 63 bits together, because `line_size * num_sets` divides the total
/// size, which is representable.
proof fn lemma_shift_widths_fit(size: u64, line_size: u64, num_sets: u64, set_size: u64, ab: u64, sb: u64)
    requires
        ab < 64,
        sb < 64,
        1 <= line_size,
        1 <= num_sets,
        line_size == (1u64 << ab),
        num_sets == (1u64 << sb),
        line_size == pow2(ab as nat),
        num_sets == pow2(sb as nat),
        size == line_size * (size / line_size),
        (size / line_size) == num_sets * set_size,
        1 <= set_size,
    ensures
        ab + sb <= 63,
{
    lemma_pow2_adds(ab as nat, sb as nat);
    assert(size == (line_size * num_sets) * set_size) by {
        lemma_mul_is_associative(line_size as int, num_sets as int, set_size as int);
    }
    assert(line_size * num_sets <= size) by {
        lemma_mul_strictly_positive(line_size as int, num_sets as int);
        lemma_mul_left_inequality((line_size * num_sets) as int, 1, set_size as int);
    }
    if ab + sb > 63 {
        assert(pow2(64) <= pow2((ab + sb) as nat)) by {
            if ab + sb > 64 {
                lemma_pow2_strictly_increases(64, (ab + sb) as nat);
            }
        }
        assert(pow2(64) == 0x1_0000_0000_0000_0000) by {
            lemma2_to64_rest();
        }
        assert(false);
    }
}

impl<R: ReplacementPolicy> CacheTrait for Cache<R> {
    closed spec fn model(&self) -> CacheModel {
        CacheModel {
            set_mask: self.set_selection_bit_mask,
            tag_mask: self.tag_selection_bit_mask,
            align_mask: self.cache_alignment_bit_mask,
            line_size: self.line_size,
            abits: self.cache_alignment_bits as u64,
            sbits: self.set_selection_bits@,
            sets: self.num_sets@,
            set_size: self.set_size,
            tags: self.cache@,
            policy: self.replacement_policy.model(),
        }
    }

    fn address_to_set_and_tag(&self, input: u64) -> (r: (u64, u64)) {
        (
            ((input & self.set_selection_bit_mask) >> (self.cache_alignment_bits as u64)),
            input & (self.tag_selection_bit_mask),
        )
    }

    fn read_and_update_line(&mut self, input: u64) -> (hit: bool) {
        proof {
            lemma_set_range_in_tags(old(self).model(), input);
            assert(self.cache@.len() <= usize::MAX) by {
                assert(self.cache.len() == self.cache@.len());
            }
        }
        let (set, tag) = self.address_to_set_and_tag(input);
        let set_inclusive_lower_bound = set * self.set_size;
        let set_exclusive_upper_bound = set_inclusive_lower_bound + self.set_size;
        let ghost m0 = self.model();
        // Only search the relevant set.
        let mut x = set_inclusive_lower_bound;
        while x < set_exclusive_upper_bound
            invariant
                *self == *old(self),
                self.model() == m0,
                cache_model_wf(m0),
                set == model_set_of(m0, input),
                tag == model_tag_of(m0, input),
                set_inclusive_lower_bound == (set as int) * m0.set_size,
                set_exclusive_upper_bound == set_inclusive_lower_bound + m0.set_size,
                set_exclusive_upper_bound <= self.cache.len(),
                set_inclusive_lower_bound <= x <= set_exclusive_upper_bound,
                forall|j: int| set_inclusive_lower_bound <= j < x ==> m0.tags[j] != tag,
            decreases set_exclusive_upper_bound - x,
        {
            // Cache hit.
            if self.cache[x as usize] == tag {
                proof {
                    lemma_first_hit_skip(
                        m0.tags,
                        set_inclusive_lower_bound as int,
                        set_exclusive_upper_bound as int,
                        tag,
                        x as int,
                    );
                    lemma_policy_update_ok(
                        m0.policy,
                        m0.tags.len() as int,
                        m0.sets as int,
                        m0.set_size as int,
                        x as int,
                    );
                }
                // Update replacement policy, report hit.
                self.replacement_policy.update_on_read(x);
                proof {
                    assert(self.model() =~= cache_model_step(m0, input).0);
                }
                return true;
            }
            x += 1;
        }
        proof {
            lemma_first_hit_skip(
                m0.tags,
                set_inclusive_lower_bound as int,
                set_exclusive_upper_bound as int,
                tag,
                set_exclusive_upper_bound as int,
            );
            lemma_set_in_range(m0, input);
            lemma_policy_pick_ok(
                m0.policy,
                m0.tags.len() as int,
                m0.sets as int,
                m0.set_size as int,
                set_inclusive_lower_bound as int,
                set as int,
            );
        }
        // Cache miss: ask the policy for a victim line and install the tag.
        let line = self.replacement_policy.get_new_line(
            set_inclusive_lower_bound,
            set,
            self.set_size,
        );
        self.cache.set(line as usize, tag);
        proof {
            assert(self.model() =~= cache_model_step(m0, input).0);
        }
        false
    }

    fn get_alignment_bit_mask(&self) -> (r: u64) {
        self.cache_alignment_bit_mask
    }

    fn get_line_size(&self) -> (r: u64) {
        self.line_size
    }

    fn get_uninitialised_line_count(&self) -> (r: usize) {
        count_zero_entries(&self.cache)
    }
}

/// Counts the entries of `values` equal to zero.
fn count_zero_entries(values: &Vec<u64>) -> (r: usize)
    ensures
        r == zero_count(values@),
{
    let mut count: usize = 0;
    let mut i: usize = 0;
    while i < values.len()
        invariant
            0 <= i <= values.len(),
            count <= i,
            count == zero_count(values@.take(i as int)),
        decreases values.len() - i,
    {
        proof {
            assert(values@.take(i + 1).drop_last() =~= values@.take(i as int));
            assert(values@.take(i + 1).last() == values@[i as int]);
        }
        if values[i] == 0 {
            count += 1;
        }
        i += 1;
    }
    proof {
        assert(values@.take(values@.len() as int) =~= values@);
    }
    count
}

/// Enum over the four cache types the crate provides.
///
/// The simulator owns a heterogeneous ordered collection of levels whose
/// policies may differ; branching explicitly over the concrete cache types
/// keeps the inner call monomorphic, where a trait object would be opaque.
pub enum GenericCache {
    RoundRobin(Cache<RoundRobin>),
    LeastRecentlyUsed(Cache<LeastRecentlyUsed>),
    LeastFrequentlyUsed(Cache<LeastFrequentlyUsed>),
    NoPolicy(Cache<NoPolicy>),
}

impl From<Cache<RoundRobin>> for GenericCache {
    fn from(value: Cache<RoundRobin>) -> (r: Self) {
        Self::RoundRobin(value)
    }
}

impl vstd::std_specs::convert::FromSpecImpl<Cache<RoundRobin>> for GenericCache {
    open spec fn obeys_from_spec() -> bool {
        true
    }

    open spec fn from_spec(v: Cache<RoundRobin>) -> Self {
        GenericCache::RoundRobin(v)
    }
}

impl From<Cache<LeastRecentlyUsed>> for GenericCache {
    fn from(value: Cache<LeastRecentlyUsed>) -> (r: Self) {
        Self::LeastRecentlyUsed(value)
    }
}

impl vstd::std_specs::convert::FromSpecImpl<Cache<LeastRecentlyUsed>> for GenericCache {
    open spec fn obeys_from_spec() -> bool {
        true
    }

    open spec fn from_spec(v: Cache<LeastRecentlyUsed>) -> Self {
        GenericCache::LeastRecentlyUsed(v)
    }
}

impl From<Cache<LeastFrequentlyUsed>> for GenericCache {
    fn from(value: Cache<LeastFrequentlyUsed>) -> (r: Self) {
        Self::LeastFrequentlyUsed(value)
    }
}

impl vstd::std_specs::convert::FromSpecImpl<Cache<LeastFrequentlyUsed>> for GenericCache {
    open spec fn obeys_from_spec() -> bool {
        true
    }

    open spec fn from_spec(v: Cache<LeastFrequentlyUsed>) -> Self {
        GenericCache::LeastFrequentlyUsed(v)
    }
}

impl From<Cache<NoPolicy>> for GenericCache {
    fn from(value: Cache<NoPolicy>) -> (r: Self) {
        Self::NoPolicy(value)
    }
}

impl vstd::std_specs::convert::FromSpecImpl<Cache<NoPolicy>> for GenericCache {
    open spec fn obeys_from_spec() -> bool {
        true
    }

    open spec fn from_spec(v: Cache<NoPolicy>) -> Self {
        GenericCache::NoPolicy(v)
    }
}

impl CacheTrait for GenericCache {
    open spec fn model(&self) -> CacheModel {
        match self {
            GenericCache::RoundRobin(c) => c.model(),
            GenericCache::LeastRecentlyUsed(c) => c.model(),
            GenericCache::LeastFrequentlyUsed(c) => c.model(),
            GenericCache::NoPolicy(c) => c.model(),
        }
    }

    fn address_to_set_and_tag(&self, input: u64) -> (r: (u64, u64)) {
        match self {
            GenericCache::RoundRobin(c) => c.address_to_set_and_tag(input),
            GenericCache::LeastRecentlyUsed(c) => c.address_to_set_and_tag(input),
            GenericCache::LeastFrequentlyUsed(c) => c.address_to_set_and_tag(input),
            GenericCache::NoPolicy(c) => c.address_to_set_and_tag(input),
        }
    }

    fn read_and_update_line(&mut self, input: u64) -> (hit: bool) {
        match self {
            GenericCache::RoundRobin(c) => c.read_and_update_line(input),
            GenericCache::LeastRecentlyUsed(c) => c.read_and_update_line(input),
            GenericCache::LeastFrequentlyUsed(c) => c.read_and_update_line(input),
            GenericCache::NoPolicy(c) => c.read_and_update_line(input),
        }
    }

    fn get_alignment_bit_mask(&self) -> (r: u64) {
        match self {
            GenericCache::RoundRobin(c) => c.get_alignment_bit_mask(),
            GenericCache::LeastRecentlyUsed(c) => c.get_alignment_bit_mask(),
            GenericCache::LeastFrequentlyUsed(c) => c.get_alignment_bit_mask(),
            GenericCache::NoPolicy(c) => c.get_alignment_bit_mask(),
        }
    }

    fn get_line_size(&self) -> (r: u64) {
        match self {
            GenericCache::RoundRobin(c) => c.get_line_size(),
            GenericCache::LeastRecentlyUsed(c) => c.get_line_size(),
            GenericCache::LeastFrequentlyUsed(c) => c.get_line_size(),
            GenericCache::NoPolicy(c) => c.get_line_size(),
        }
    }

    fn get_uninitialised_line_count(&self) -> (r: usize) {
        match self {
            GenericCache::RoundRobin(c) => c.get_uninitialised_line_count(),
            GenericCache::LeastRecentlyUsed(c) => c.get_uninitialised_line_count(),
            GenericCache::LeastFrequentlyUsed(c) => c.get_uninitialised_line_count(),
            GenericCache::NoPolicy(c) => c.get_uninitialised_line_count(),
        }
    }
}

} // verus!
