//! The layered simulator: runs fixed-width access traces through an ordered
//! list of cache levels, propagating misses inward and counting per-level
//! hits and misses.
//!
//! Each 40-byte trace record holds an instruction pointer (ignored), a
//! 16-digit hex data address, an access mode (ignored) and a 3-digit decimal
//! size.  An access is split into line-aligned sub-accesses at the outermost
//! level's line granularity; each sub-access walks the levels outermost
//! first until one hits.  After a whole buffer is consumed, the main-memory
//! access count equals the last level's miss count.

use vstd::prelude::*;

verus! {

use crate::arith::sat_u64;
use crate::arith::sat_add_u64;
use crate::cache::Cache;
use crate::cache::CacheModel;
use crate::cache::CacheTrait;
use crate::cache::GenericCache;
use crate::cache::cache_model_wf;
use crate::cache::cache_model_step;
use crate::cache::lemma_cache_model_step_wf;
use crate::cache::zero_count;
use crate::config::CacheConfig;
use crate::config::CacheKindConfig;
use crate::config::LayeredCacheConfig;
use crate::config::ReplacementPolicyConfig;
use crate::config::lemma_valid_facts;
use crate::clock::duration_zero;
use crate::clock::instant_now;
use crate::clock::elapsed_between;
use crate::clock::duration_add;
use crate::replacement_policies::LeastFrequentlyUsed;
use crate::replacement_policies::LeastRecentlyUsed;
use crate::replacement_policies::NoPolicy;
use crate::replacement_policies::PolicyModel;
use crate::replacement_policies::RoundRobin;
use std::time::Duration;

/// Width of one trace record in bytes, including the trailing newline.
pub const LINE_SIZE: usize = 40;

/// Offset of the data-address field within a record.
const ADDRESS_OFFSET: usize = 17;

/// Width of the data-address field.
const ADDRESS_SIZE: usize = 16;

/// One past the last byte of the data-address field.
const ADDRESS_UPPER: usize = ADDRESS_OFFSET + ADDRESS_SIZE;

/// Offset of the access-size field within a record.
const SIZE_OFFSET: usize = 36;

/// The result for an individual cache level.
#[derive(Debug)]
pub struct CacheResult {
    name: String,
    hits: u64,
    misses: u64,
}

/// Mathematical value of a per-level result.
pub struct CacheResultModel {
    pub name: Seq<char>,
    pub hits: u64,
    pub misses: u64,
}

impl View for CacheResult {
    type V = CacheResultModel;

    closed spec fn view(&self) -> CacheResultModel {
        CacheResultModel { name: self.name@, hits: self.hits, misses: self.misses }
    }
}

impl CacheResult {
    /// The configured name of this level.
    pub fn name(&self) -> (r: &String)
        ensures
            r@ == self@.name,
    {
        &self.name
    }

    /// Number of hits this level has served.
    pub fn hits(&self) -> (r: u64)
        ensures
            r == self@.hits,
    {
        self.hits
    }

    /// Number of misses this level has seen.
    pub fn misses(&self) -> (r: u64)
        ensures
            r == self@.misses,
    {
        self.misses
    }
}

/// The result of a layered cache simulation.
#[derive(Debug)]
pub struct LayeredCacheResult {
    main_memory_accesses: u64,
    caches: Vec<CacheResult>,
}

/// Mathematical value of a whole simulation result.
pub struct LayeredResultModel {
    pub main_memory_accesses: u64,
    pub caches: Seq<CacheResultModel>,
}

impl View for LayeredCacheResult {
    type V = LayeredResultModel;

    closed spec fn view(&self) -> LayeredResultModel {
        LayeredResultModel {
            main_memory_accesses: self.main_memory_accesses,
            caches: Seq::new(self.caches@.len(), |i: int| self.caches@[i]@),
        }
    }
}

impl LayeredCacheResult {
    /// Number of accesses that fell through every level to main memory.
    pub fn main_memory_accesses(&self) -> (r: u64)
        ensures
            r == self@.main_memory_accesses,
    {
        self.main_memory_accesses
    }

    /// The per-level results, in configuration order.
    pub fn cache_results(&self) -> (r: &Vec<CacheResult>)
        ensures
            r@.len() == self@.caches.len(),
            forall|i: int| 0 <= i < r@.len() ==> (#[trigger] r@[i])@ == self@.caches[i],
    {
        &self.caches
    }
}

/// Value of an ASCII hex digit; any other byte maps to zero.
pub open spec fn spec_hex_digit(c: u8) -> u8 {
    if 48 <= c <= 57 {
        (c - 48) as u8
    } else if 65 <= c <= 70 {
        (c - 55) as u8
    } else if 97 <= c <= 102 {
        (c - 87) as u8
    } else {
        0
    }
}

/// The 64-bit value encoded by a sequence of ASCII hex digits, folded left
/// four bits per character, truncating beyond 64 bits.
pub open spec fn spec_parse_address(s: Seq<u8>) -> u64
    decreases s.len(),
{
    if s.len() == 0 {
        0
    } else {
        (spec_parse_address(s.drop_last()) << 4) | (spec_hex_digit(s.last()) as u64)
    }
}

/// Value of an ASCII decimal digit with wrap-around for other bytes, as the
/// hardcoded subtraction in the parser computes it.
pub open spec fn spec_dec_digit(c: u8) -> u8 {
    vstd::wrapping::u8_specs::wrapping_sub(c, 48)
}

/// The value of the three-digit decimal size field.
pub open spec fn spec_parse_size(s: Seq<u8>) -> u16 {
    (100 * (spec_dec_digit(s[0]) as int) + 10 * (spec_dec_digit(s[1]) as int) + (spec_dec_digit(
        s[2],
    ) as int)) as u16
}

/// Maps an ASCII hex digit to its value; other bytes map to zero.
fn hex_digit(c: u8) -> (r: u8)
    ensures
        r == spec_hex_digit(c),
{
    if c >= 48u8 && c <= 57u8 {
        c - 48u8
    } else if c >= 65u8 && c <= 70u8 {
        c - 65u8 + 10
    } else if c >= 97u8 && c <= 102u8 {
        c - 97u8 + 10
    } else {
        0
    }
}

/// Parses a 64-bit value from a 16-byte hexadecimal address field.
///
/// The input is assumed well-formed; ill-formed bytes contribute zero
/// digits rather than failing, so the function never panics but may produce
/// an unintended value on bad input.
pub fn parse_address(buf: &[u8]) -> (r: u64)
    requires
        buf@.len() == 16,
    ensures
        r == spec_parse_address(buf@),
{
    let mut res: u64 = 0;
    let mut x: usize = 0;
    while x < 16
        invariant
            x <= 16,
            buf@.len() == 16,
            res == spec_parse_address(buf@.take(x as int)),
        decreases 16 - x,
    {
        res = (res << 4u64) | (hex_digit(buf[x]) as u64);
        x += 1;
        proof {
            assert(buf@.take(x as int).drop_last() =~= buf@.take(x - 1));
        }
    }
    proof {
        assert(buf@.take(16) =~= buf@);
    }
    res
}

/// Parses the three-digit decimal size field with hardcoded
/// multiply-and-adds.
///
/// As with the address parser, the input is assumed well-formed; the
/// function never panics but wraps ill-formed digit bytes.
pub fn parse_size(buf: &[u8]) -> (r: u16)
    requires
        buf@.len() == 3,
    ensures
        r == spec_parse_size(buf@),
{
    let mut res = (buf[2].wrapping_sub(48u8)) as u16;
    res += 10u16 * (buf[1].wrapping_sub(48u8)) as u16;
    res += 100u16 * (buf[0].wrapping_sub(48u8)) as u16;
    res
}

/// Per-level counter increments of part of a run, hits then misses, in
/// unbounded integers.
pub type LevelDeltas = Seq<(nat, nat)>;

/// Deltas of the empty run.
pub open spec fn zero_deltas(n: nat) -> LevelDeltas {
    Seq::new(n, |i: int| (0nat, 0nat))
}

/// Account one sub-access whose walk stopped at level `h`: levels before `h`
/// missed, level `h` (if any) hit.
pub open spec fn bump_deltas(d: LevelDeltas, h: int) -> LevelDeltas {
    Seq::new(
        d.len(),
        |i: int|
            if i < h {
                (d[i].0, d[i].1 + 1)
            } else if i == h {
                (d[i].0 + 1, d[i].1)
            } else {
                d[i]
            },
    )
}

/// One line-aligned sub-access walked through the levels, starting at level
/// `j`: the levels after the walk and the level that hit (`levels.len()` if
/// none did).
pub open spec fn levels_access_from(levels: Seq<CacheModel>, a: u64, j: int) -> (
    Seq<CacheModel>,
    int,
)
    decreases levels.len() - j,
{
    if j < 0 || j >= levels.len() {
        (levels, j)
    } else {
        let (c2, hit) = cache_model_step(levels[j], a);
        let ls2 = levels.update(j, c2);
        if hit {
            (ls2, j)
        } else {
            levels_access_from(ls2, a, j + 1)
        }
    }
}

/// One line-aligned sub-access walked through all levels, outermost first.
pub open spec fn levels_access(levels: Seq<CacheModel>, a: u64) -> (Seq<CacheModel>, int) {
    levels_access_from(levels, a, 0)
}

/// The sub-accesses of one record, from aligned address `a` to `end` in
/// steps of `stride`, folded over the levels and the counter deltas.
pub open spec fn sub_accesses_from(
    levels: Seq<CacheModel>,
    deltas: LevelDeltas,
    a: u64,
    end: u64,
    stride: u64,
) -> (Seq<CacheModel>, LevelDeltas)
    decreases (if a <= end { end - a } else { 0int }),
    when 1 <= stride
{
    if a >= end {
        (levels, deltas)
    } else {
        let (ls2, h) = levels_access(levels, a);
        sub_accesses_from(ls2, bump_deltas(deltas, h), sat_u64(a + stride), end, stride)
    }
}

/// One whole record: the access window `[address, address + size)` is
/// clamped at the top of the address space, aligned down to the outermost
/// level's line size, and walked line by line.
pub open spec fn record_read(
    levels: Seq<CacheModel>,
    deltas: LevelDeltas,
    address: u64,
    size: u16,
) -> (Seq<CacheModel>, LevelDeltas) {
    let m0 = levels[0];
    let aligned = address & m0.align_mask;
    let end = sat_u64(address + size);
    sub_accesses_from(levels, deltas, aligned, end, m0.line_size)
}

/// A whole trace buffer, record by record.
pub open spec fn trace_run_from(
    levels: Seq<CacheModel>,
    deltas: LevelDeltas,
    bytes: Seq<u8>,
) -> (Seq<CacheModel>, LevelDeltas)
    decreases bytes.len(),
{
    if bytes.len() < 40 {
        (levels, deltas)
    } else {
        let address = spec_parse_address(bytes.subrange(17, 33));
        let size = spec_parse_size(bytes.subrange(36, 39));
        let (ls2, d2) = record_read(levels, deltas, address, size);
        trace_run_from(ls2, d2, bytes.skip(40))
    }
}

/// A whole trace buffer against fresh deltas.
pub open spec fn trace_run(levels: Seq<CacheModel>, bytes: Seq<u8>) -> (
    Seq<CacheModel>,
    LevelDeltas,
) {
    trace_run_from(levels, zero_deltas(levels.len()), bytes)
}

/// Both levels share everything except the tag array contents and the
/// policy state.
pub open spec fn same_geometry(a: CacheModel, b: CacheModel) -> bool {
    a == (CacheModel { tags: a.tags, policy: a.policy, ..b })
}

/// A walk from level `j` preserves length, well-formedness and geometry,
/// stops at a level between `j` and the level count, and touches no level
/// before `j` or after the hit.
pub proof fn lemma_levels_access_from_props(levels: Seq<CacheModel>, a: u64, j: int)
    requires
        0 <= j <= levels.len(),
        forall|i: int| 0 <= i < levels.len() ==> cache_model_wf(#[trigger] levels[i]),
    ensures
        ({
            let (ls2, h) = levels_access_from(levels, a, j);
            &&& ls2.len() == levels.len()
            &&& j <= h <= levels.len()
            &&& forall|i: int|
                0 <= i < levels.len() ==> cache_model_wf(#[trigger] ls2[i]) && same_geometry(
                    ls2[i],
                    levels[i],
                ) && ls2[i].tags.len() == levels[i].tags.len()
            &&& forall|i: int| 0 <= i < j ==> #[trigger] ls2[i] == levels[i]
            &&& forall|i: int| h < i < levels.len() ==> #[trigger] ls2[i] == levels[i]
        }),
    decreases levels.len() - j,
{
    if 0 <= j < levels.len() {
        let (c2, hit) = cache_model_step(levels[j], a);
        lemma_cache_model_step_wf(levels[j], a);
        let ls2 = levels.update(j, c2);
        if !hit {
            lemma_levels_access_from_props(ls2, a, j + 1);
        }
    }
}

/// The counters `after` are the counters `before` advanced by `d`, each
/// saturating at the `u64` maximum, with every name kept.
pub open spec fn counters_advanced(
    before: Seq<CacheResultModel>,
    after: Seq<CacheResultModel>,
    d: LevelDeltas,
) -> bool {
    &&& after.len() == before.len()
    &&& d.len() == before.len()
    &&& forall|i: int|
        0 <= i < before.len() ==> {
            let c1 = #[trigger] after[i];
            &&& c1.name == before[i].name
            &&& c1.hits == sat_u64(before[i].hits + d[i].0)
            &&& c1.misses == sat_u64(before[i].misses + d[i].1)
        }
}

/// Advancing by `d1` and then by `d2` advances by the pointwise sum: the
/// saturating increments compose.
pub proof fn lemma_counters_advanced_compose(
    c0: Seq<CacheResultModel>,
    c1: Seq<CacheResultModel>,
    c2: Seq<CacheResultModel>,
    d1: LevelDeltas,
    d2: LevelDeltas,
    d: LevelDeltas,
)
    requires
        counters_advanced(c0, c1, d1),
        counters_advanced(c1, c2, d2),
        d.len() == d1.len(),
        forall|i: int|
            0 <= i < d.len() ==> (#[trigger] d[i]).0 == d1[i].0 + d2[i].0 && d[i].1 == d1[i].1
                + d2[i].1,
    ensures
        counters_advanced(c0, c2, d),
{
    assert forall|i: int| 0 <= i < c0.len() implies {
        let c = #[trigger] c2[i];
        &&& c.name == c0[i].name
        &&& c.hits == sat_u64(c0[i].hits + d[i].0)
        &&& c.misses == sat_u64(c0[i].misses + d[i].1)
    } by {
        crate::arith::lemma_sat_u64_chain(c0[i].hits, d1[i].0 as int, d2[i].0 as int);
        crate::arith::lemma_sat_u64_chain(c0[i].misses, d1[i].1 as int, d2[i].1 as int);
    }
}

/// The delta accumulator threaded through `sub_accesses_from` is inert: it
/// does not influence the resulting levels, and the counted increments do
/// not depend on it.
pub proof fn lemma_sub_accesses_shift(
    ls: Seq<CacheModel>,
    d: LevelDeltas,
    e: LevelDeltas,
    a: u64,
    end: u64,
    stride: u64,
)
    requires
        1 <= stride,
        d.len() == e.len(),
    ensures
        ({
            let (l1, r1) = sub_accesses_from(ls, d, a, end, stride);
            let (l2, r2) = sub_accesses_from(ls, e, a, end, stride);
            &&& l1 == l2
            &&& r1.len() == d.len()
            &&& r2.len() == e.len()
            &&& forall|i: int|
                0 <= i < d.len() ==> (#[trigger] r1[i]).0 - d[i].0 == r2[i].0 - e[i].0 && r1[i].1
                    - d[i].1 == r2[i].1 - e[i].1 && r1[i].0 >= d[i].0 && r1[i].1 >= d[i].1
        }),
    decreases (if a <= end { end - a } else { 0int }),
{
    if a < end {
        let (ls2, h) = levels_access(ls, a);
        lemma_sub_accesses_shift(
            ls2,
            bump_deltas(d, h),
            bump_deltas(e, h),
            sat_u64(a + stride),
            end,
            stride,
        );
    }
}

/// The simulator: owns the configured levels and the accumulated result,
/// handles line alignment, and collects counters.
///
/// `simulate` may be called repeatedly; counters accumulate across calls,
/// which supports streaming a trace in chunks.
pub struct Simulator {
    caches: Vec<GenericCache>,
    result: LayeredCacheResult,
    simulation_time: Duration,
}

/// The level model constructed for a configuration: its policy state is
/// fresh, and direct-mapped shapes get the no-op policy no matter which
/// policy was configured.
pub open spec fn spec_policy_of_config(c: CacheConfig) -> PolicyModel {
    if c.spec_num_sets() == c.spec_num_lines() {
        PolicyModel::Nop
    } else {
        match c.replacement_policy {
            ReplacementPolicyConfig::RoundRobin => PolicyModel::Rr {
                counters: Seq::new(c.spec_num_sets() as nat, |i: int| 0u64),
            },
            ReplacementPolicyConfig::LeastRecentlyUsed => PolicyModel::Lru {
                stamps: Seq::new(c.spec_num_lines() as nat, |i: int| 0u64),
                clock: 0u64,
            },
            ReplacementPolicyConfig::LeastFrequentlyUsed => PolicyModel::Lfu {
                uses: Seq::new(c.spec_num_lines() as nat, |i: int| 0u64),
            },
        }
    }
}

/// The level model `m` is the freshly built level for configuration `c`.
pub open spec fn cache_matches_config(m: CacheModel, c: CacheConfig) -> bool {
    &&& cache_model_wf(m)
    &&& m.line_size == c.line_size
    &&& m.sets == c.spec_num_sets()
    &&& m.set_size == c.spec_ways()
    &&& m.tags == Seq::new(c.spec_num_lines() as nat, |i: int| 0u64)
    &&& m.policy == spec_policy_of_config(c)
}

impl Simulator {
    /// The models of the levels, outermost first.
    pub closed spec fn levels(&self) -> Seq<CacheModel> {
        Seq::new(self.caches@.len(), |i: int| self.caches@[i].model())
    }

    /// The accumulated result, as a mathematical value.
    pub closed spec fn results(&self) -> LayeredResultModel {
        self.result@
    }

    /// The simulator's invariant: at least one level, one counter pair per
    /// level, every level well-formed.
    pub open spec fn wf(&self) -> bool {
        &&& 1 <= self.levels().len()
        &&& self.results().caches.len() == self.levels().len()
        &&& forall|i: int|
            0 <= i < self.levels().len() ==> cache_model_wf(#[trigger] self.levels()[i])
    }

    /// Creates a new simulator for a valid configuration: one level per
    /// configured cache, in order, with zeroed counters.
    pub fn new(config: &LayeredCacheConfig) -> (r: Self)
        requires
            config.valid(),
        ensures
            r.wf(),
            r.levels().len() == config.caches@.len(),
            forall|i: int|
                0 <= i < config.caches@.len() ==> cache_matches_config(
                    #[trigger] r.levels()[i],
                    config.caches@[i],
                ),
            r.results().main_memory_accesses == 0,
            r.results().caches.len() == config.caches@.len(),
            forall|i: int|
                0 <= i < config.caches@.len() ==> (#[trigger] r.results().caches[i]).name
                    == config.caches@[i].name@ && r.results().caches[i].hits == 0
                    && r.results().caches[i].misses == 0,
    {
        let mut caches: Vec<GenericCache> = Vec::new();
        let mut counters: Vec<CacheResult> = Vec::new();
        let mut i: usize = 0;
        while i < config.caches.len()
            invariant
                config.valid(),
                i <= config.caches@.len(),
                caches@.len() == i,
                counters@.len() == i,
                forall|j: int|
                    0 <= j < i ==> cache_matches_config(
                        (#[trigger] caches@[j]).model(),
                        config.caches@[j],
                    ),
                forall|j: int|
                    0 <= j < i ==> (#[trigger] counters@[j])@.name == config.caches@[j].name@
                        && counters@[j]@.hits == 0 && counters@[j]@.misses == 0,
            decreases config.caches@.len() - i,
        {
            caches.push(Self::config_to_cache(&config.caches[i]));
            counters.push(
                CacheResult { hits: 0, misses: 0, name: config.caches[i].name.clone() },
            );
            i += 1;
        }
        let result = LayeredCacheResult { main_memory_accesses: 0, caches: counters };
        Simulator { caches, result, simulation_time: duration_zero() }
    }

    /// Creates a new cache level from a level configuration.
    fn config_to_cache(config: &CacheConfig) -> (r: GenericCache)
        requires
            config.valid(),
        ensures
            cache_matches_config(r.model(), *config),
    {
        proof {
            lemma_valid_facts(config);
        }
        let num_lines = config.size / config.line_size;
        let num_sets = match config.kind {
            CacheKindConfig::Direct => num_lines,
            CacheKindConfig::Full => 1,
            CacheKindConfig::TwoWay => num_lines / 2,
            CacheKindConfig::FourWay => num_lines / 4,
            CacheKindConfig::EightWay => num_lines / 8,
        };
        if num_sets == num_lines {
            GenericCache::from(
                Cache::new(config.size, config.line_size, num_sets, NoPolicy::default()),
            )
        } else {
            match config.replacement_policy {
                ReplacementPolicyConfig::RoundRobin => GenericCache::from(
                    Cache::new(config.size, config.line_size, num_sets, RoundRobin::new(num_sets)),
                ),
                ReplacementPolicyConfig::LeastRecentlyUsed => GenericCache::from(
                    Cache::new(
                        config.size,
                        config.line_size,
                        num_sets,
                        LeastRecentlyUsed::new(num_lines),
                    ),
                ),
                ReplacementPolicyConfig::LeastFrequentlyUsed => GenericCache::from(
                    Cache::new(
                        config.size,
                        config.line_size,
                        num_sets,
                        LeastFrequentlyUsed::new(num_lines),
                    ),
                ),
            }
        }
    }

    /// Walks one line-aligned sub-access through the levels, outermost
    /// first, stopping at the first hit, and accounts a hit or a miss to
    /// each level visited.
    fn access_line(&mut self, a: u64)
        requires
            old(self).wf(),
        ensures
            final(self).wf(),
            final(self).levels() == levels_access(old(self).levels(), a).0,
            final(self).results().main_memory_accesses == old(self).results().main_memory_accesses,
            counters_advanced(
                old(self).results().caches,
                final(self).results().caches,
                bump_deltas(
                    zero_deltas(old(self).levels().len()),
                    levels_access(old(self).levels(), a).1,
                ),
            ),
    {
        let ghost ls0 = self.levels();
        let ghost c0 = self.results().caches;
        let ghost m0 = self.results().main_memory_accesses;
        let ghost target = levels_access(ls0, a);
        proof {
            lemma_levels_access_from_props(ls0, a, 0);
        }
        let n = self.caches.len();
        let mut j: usize = 0;
        while j < n
            invariant_except_break
                self.wf(),
                n == self.caches@.len(),
                self.result@.caches.len() == n,
                ls0.len() == n,
                c0.len() == n,
                j <= n,
                j as int <= target.1,
                levels_access_from(self.levels(), a, j as int) == target,
                self.results().main_memory_accesses == m0,
                forall|i: int|
                    0 <= i < n ==> (#[trigger] self.results().caches[i]).name == c0[i].name,
                forall|i: int|
                    0 <= i < j ==> (#[trigger] self.results().caches[i]).hits == c0[i].hits
                        && self.results().caches[i].misses == sat_u64(c0[i].misses + 1),
                forall|i: int|
                    j <= i < n ==> (#[trigger] self.results().caches[i]).hits == c0[i].hits
                        && self.results().caches[i].misses == c0[i].misses,
            ensures
                self.wf(),
                self.levels() == target.0,
                self.results().main_memory_accesses == m0,
                self.result@.caches.len() == n,
                forall|i: int|
                    0 <= i < n ==> {
                        let c1 = #[trigger] self.results().caches[i];
                        &&& c1.name == c0[i].name
                        &&& c1.hits == (if i == target.1 {
                            sat_u64(c0[i].hits + 1)
                        } else {
                            c0[i].hits
                        })
                        &&& c1.misses == (if i < target.1 {
                            sat_u64(c0[i].misses + 1)
                        } else {
                            c0[i].misses
                        })
                    },
            decreases n - j,
        {
            let ghost pre = self.levels();
            let ghost pre_cs = self.results().caches;
            let hit = self.caches[j].read_and_update_line(a);
            proof {
                assert(self.levels() =~= pre.update(j as int, cache_model_step(pre[j as int], a).0));
                lemma_cache_model_step_wf(pre[j as int], a);
            }
            if hit {
                let res = &mut self.result.caches[j];
                let h = res.hits;
                res.hits = sat_add_u64(h, 1);
                proof {
                    let cs = self.results().caches;
                    assert(forall|i: int| 0 <= i < n && i != j as int ==> #[trigger] cs[i] == pre_cs[i]);
                    assert(cs[j as int].name == pre_cs[j as int].name && cs[j as int].hits
                        == sat_u64(pre_cs[j as int].hits + 1) && cs[j as int].misses
                        == pre_cs[j as int].misses);
                    assert(target.1 == j as int);
                    assert(self.levels() == target.0);
                }
                break ;
            } else {
                let res = &mut self.result.caches[j];
                let m = res.misses;
                res.misses = sat_add_u64(m, 1);
                proof {
                    let cs = self.results().caches;
                    assert(forall|i: int| 0 <= i < n && i != j as int ==> #[trigger] cs[i] == pre_cs[i]);
                    assert(cs[j as int].name == pre_cs[j as int].name && cs[j as int].misses
                        == sat_u64(pre_cs[j as int].misses + 1) && cs[j as int].hits
                        == pre_cs[j as int].hits);
                    lemma_levels_access_from_props(self.levels(), a, j as int + 1);
                }
            }
            j += 1;
        }
        proof {
            assert(counters_advanced(
                c0,
                self.results().caches,
                bump_deltas(zero_deltas(n as nat), target.1),
            ));
        }
    }

    /// Reads a value from memory at a given address with a given size.
    ///
    /// The access window is aligned down to the outermost level's line
    /// boundary and split into line-sized sub-accesses; a window that would
    /// run past the top of the address space is clamped there.
    fn read(&mut self, address: u64, size: u16)
        requires
            old(self).wf(),
        ensures
            final(self).wf(),
            final(self).levels() == record_read(
                old(self).levels(),
                zero_deltas(old(self).levels().len()),
                address,
                size,
            ).0,
            final(self).results().main_memory_accesses == old(self).results().main_memory_accesses,
            counters_advanced(
                old(self).results().caches,
                final(self).results().caches,
                record_read(
                    old(self).levels(),
                    zero_deltas(old(self).levels().len()),
                    address,
                    size,
                ).1,
            ),
    {
        let ghost ls0 = self.levels();
        let ghost c0 = self.results().caches;
        let ghost m0 = self.results().main_memory_accesses;
        let ghost n = ls0.len();
        let ghost target = record_read(ls0, zero_deltas(n), address, size);
        // Assume line size doesn't decrease with level: the outermost line
        // size sets the stride.
        let lowest_line_size = self.caches[0].get_line_size();
        let alignment_diff = address & !self.caches[0].get_alignment_bit_mask();
        proof {
            let ab = ls0[0].abits;
            assert((1u64 << ab) >= 1u64) by (bit_vector)
                requires
                    ab < 64,
            ;
            let am = ls0[0].align_mask;
            assert((address & !am) <= address && address == (address & am) + (address & !am))
                by (bit_vector);
        }
        let mut current_aligned_address = address - alignment_diff;
        let end = sat_add_u64(address, size as u64);
        let ghost mut deltas = zero_deltas(n);
        while current_aligned_address < end
            invariant
                self.wf(),
                self.levels().len() == n,
                self.result@.caches.len() == n,
                c0.len() == n,
                deltas.len() == n,
                1 <= lowest_line_size,
                sub_accesses_from(
                    self.levels(),
                    deltas,
                    current_aligned_address,
                    end,
                    lowest_line_size,
                ) == target,
                self.results().main_memory_accesses == m0,
                counters_advanced(c0, self.results().caches, deltas),
            decreases (if current_aligned_address <= end {
                end - current_aligned_address
            } else {
                0int
            }),
        {
            let ghost pre_levels = self.levels();
            let ghost pre_counters = self.results().caches;
            let ghost h = levels_access(pre_levels, current_aligned_address).1;
            self.access_line(current_aligned_address);
            proof {
                lemma_counters_advanced_compose(
                    c0,
                    pre_counters,
                    self.results().caches,
                    deltas,
                    bump_deltas(zero_deltas(n), h),
                    bump_deltas(deltas, h),
                );
                deltas = bump_deltas(deltas, h);
            }
            current_aligned_address = sat_add_u64(current_aligned_address, lowest_line_size);
        }
    }

    /// Simulates the cache hierarchy over a byte buffer of whole 40-byte
    /// records.
    ///
    /// The buffer's length must be a multiple of the record width.  The
    /// record content is not validated: the parsers are best-effort on
    /// ill-formed fields, so callers needing safety must validate upstream.
    /// Counters accumulate across calls; after each call the main-memory
    /// access count is set to the last level's miss count, so between two
    /// calls it still reflects the previous call.
    pub fn simulate(&mut self, bytes: &[u8]) -> (r: Result<&LayeredCacheResult, String>)
        requires
            old(self).wf(),
            bytes@.len() % 40 == 0,
        ensures
            final(self).wf(),
            final(self).levels() == trace_run(old(self).levels(), bytes@).0,
            counters_advanced(
                old(self).results().caches,
                final(self).results().caches,
                trace_run(old(self).levels(), bytes@).1,
            ),
            ({
                let cs = final(self).results().caches;
                final(self).results().main_memory_accesses == cs[cs.len() - 1].misses
            }),
            r matches Ok(res) && res@ == final(self).results(),
    {
        let ghost ls0 = self.levels();
        let ghost c0 = self.results().caches;
        let ghost n = ls0.len();
        let ghost target = trace_run_from(ls0, zero_deltas(n), bytes@);
        let start = instant_now();
        let ghost mut deltas = zero_deltas(n);
        proof {
            assert(bytes@.skip(0) =~= bytes@);
        }
        let mut i: usize = 0;
        while i < bytes.len()
            invariant
                self.wf(),
                self.levels().len() == n,
                self.result@.caches.len() == n,
                c0.len() == n,
                deltas.len() == n,
                bytes@.len() % 40 == 0,
                i % 40 == 0,
                i <= bytes@.len(),
                trace_run_from(self.levels(), deltas, bytes@.skip(i as int)) == target,
                counters_advanced(c0, self.results().caches, deltas),
            decreases bytes@.len() - i,
        {
            // Alias for clarity; compiles to no work.
            let buffer = vstd::slice::slice_subrange(bytes, i, i + 40);
            let address = parse_address(vstd::slice::slice_subrange(buffer, ADDRESS_OFFSET, ADDRESS_UPPER));
            let size = parse_size(vstd::slice::slice_subrange(buffer, SIZE_OFFSET, LINE_SIZE - 1));
            proof {
                assert(buffer@.subrange(17, 33) =~= bytes@.skip(i as int).subrange(17, 33));
                assert(buffer@.subrange(36, 39) =~= bytes@.skip(i as int).subrange(36, 39));
            }
            let ghost pre_levels = self.levels();
            let ghost pre_counters = self.results().caches;
            self.read(address, size);
            proof {
                let ab = pre_levels[0].abits;
                assert((1u64 << ab) >= 1u64) by (bit_vector)
                    requires
                        ab < 64,
                ;
                let rr_zero = record_read(pre_levels, zero_deltas(n), address, size);
                let rr_acc = record_read(pre_levels, deltas, address, size);
                lemma_sub_accesses_shift(
                    pre_levels,
                    deltas,
                    zero_deltas(n),
                    address & pre_levels[0].align_mask,
                    sat_u64(address + size),
                    pre_levels[0].line_size,
                );
                assert(forall|k: int|
                    0 <= k < n ==> (#[trigger] rr_acc.1[k]).0 == deltas[k].0 + rr_zero.1[k].0
                        && rr_acc.1[k].1 == deltas[k].1 + rr_zero.1[k].1);
                lemma_counters_advanced_compose(
                    c0,
                    pre_counters,
                    self.results().caches,
                    deltas,
                    rr_zero.1,
                    rr_acc.1,
                );
                deltas = rr_acc.1;
                assert(bytes@.skip(i as int).skip(40) =~= bytes@.skip(i + 40));
            }
            i += 40;
        }
        let end_time = instant_now();
        let elapsed = elapsed_between(&start, &end_time);
        let new_time = duration_add(&self.simulation_time, &elapsed);
        self.simulation_time = new_time;
        // Main memory accesses are whatever misses the last cache.
        let last = self.result.caches.len() - 1;
        let misses = self.result.caches[last].misses;
        self.result.main_memory_accesses = misses;
        proof {
            assert(bytes@.skip(bytes@.len() as int) =~= Seq::<u8>::empty());
        }
        Ok(&self.result)
    }

    /// Parses a 64-bit value from a 16-byte hexadecimal address field.
    pub fn parse_address(buf: &[u8]) -> (r: u64)
        requires
            buf@.len() == 16,
        ensures
            r == spec_parse_address(buf@),
    {
        parse_address(buf)
    }

    /// Gets the wall-clock execution time spent inside `simulate`.
    pub fn get_execution_time(&self) -> &Duration {
        &self.simulation_time
    }

    /// Gets the number of uninitialised lines of each level, for
    /// diagnostics.
    pub fn get_uninitialised_line_counts(&self) -> (r: Vec<u64>)
        requires
            self.wf(),
        ensures
            r@.len() == self.levels().len(),
            forall|i: int|
                0 <= i < r@.len() ==> #[trigger] r@[i] == zero_count(self.levels()[i].tags),
    {
        let mut out: Vec<u64> = Vec::new();
        let mut i: usize = 0;
        while i < self.caches.len()
            invariant
                self.wf(),
                i <= self.caches@.len(),
                out@.len() == i,
                forall|j: int|
                    0 <= j < i ==> #[trigger] out@[j] == zero_count(self.levels()[j].tags),
            decreases self.caches@.len() - i,
        {
            let c = self.caches[i].get_uninitialised_line_count();
            proof {
                assert(self.levels()[i as int] == self.caches@[i as int].model());
                assert(zero_count(self.caches@[i as int].model().tags)
                    <= self.caches@[i as int].model().tags.len()) by {
                    lemma_zero_count_le_len(self.caches@[i as int].model().tags);
                }
            }
            out.push(c as u64);
            i += 1;
        }
        out
    }
}

/// The zero count of a tag array never exceeds its length.
proof fn lemma_zero_count_le_len(tags: Seq<u64>)
    ensures
        zero_count(tags) <= tags.len(),
    decreases tags.len(),
{
    if tags.len() > 0 {
        lemma_zero_count_le_len(tags.drop_last());
    }
}

} // verus!
