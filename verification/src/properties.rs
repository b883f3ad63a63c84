//! Laws of the simulator, stated and proved against the models in
//! [`crate::cache`] and [`crate::simulator`]: conservation and monotonicity
//! of the per-level counters, irrelevance of the policy field for
//! direct-mapped levels, parser agreement with the standard positional
//! decode, and the boundary behaviour of access splitting and victim
//! selection.

use vstd::prelude::*;

verus! {

use crate::arith::lemma_argmin_in;
use crate::arith::sat_u64;
use crate::cache::CacheModel;
use crate::cache::cache_model_wf;
use crate::cache::lemma_wf_model_determined;
use crate::config::CacheConfig;
use crate::replacement_policies::PolicyModel;
use crate::replacement_policies::policy_can_pick;
use crate::replacement_policies::policy_pick;
use crate::replacement_policies::policy_evolve;
use crate::simulator::LevelDeltas;
use crate::simulator::bump_deltas;
use crate::simulator::zero_deltas;
use crate::simulator::levels_access;
use crate::simulator::lemma_levels_access_from_props;
use crate::simulator::sub_accesses_from;
use crate::simulator::record_read;
use crate::simulator::trace_run;
use crate::simulator::trace_run_from;
use crate::simulator::lemma_sub_accesses_shift;
use crate::simulator::same_geometry;
use crate::simulator::spec_policy_of_config;
use crate::simulator::cache_matches_config;
use crate::simulator::spec_hex_digit;
use crate::simulator::spec_parse_address;
use crate::simulator::spec_parse_size;
use vstd::arithmetic::power2::pow2;
use vstd::arithmetic::power2::lemma_pow2_adds;
use vstd::arithmetic::power2::lemma2_to64;
use vstd::arithmetic::power2::lemma2_to64_rest;

/// Number of sub-accesses of the window `[a, end)`, stepped by `stride`,
/// that reach level `lvl` or deeper: a sub-access reaches every level up to
/// and including the one that hits.
pub open spec fn sub_dispatches(
    levels: Seq<CacheModel>,
    a: u64,
    end: u64,
    stride: u64,
    lvl: int,
) -> nat
    decreases (if a <= end { end - a } else { 0int }),
    when 1 <= stride
{
    if a >= end {
        0
    } else {
        let (ls2, h) = levels_access(levels, a);
        (if h >= lvl {
            1nat
        } else {
            0nat
        }) + sub_dispatches(ls2, sat_u64(a + stride), end, stride, lvl)
    }
}

/// Number of sub-accesses of a whole trace that reach level `lvl`.
pub open spec fn trace_dispatches(levels: Seq<CacheModel>, bytes: Seq<u8>, lvl: int) -> nat
    decreases bytes.len(),
{
    if bytes.len() < 40 {
        0
    } else {
        let address = spec_parse_address(bytes.subrange(17, 33));
        let size = spec_parse_size(bytes.subrange(36, 39));
        let m0 = levels[0];
        sub_dispatches(
            levels,
            address & m0.align_mask,
            sat_u64(address + size),
            m0.line_size,
            lvl,
        ) + trace_dispatches(
            record_read(levels, zero_deltas(levels.len()), address, size).0,
            bytes.skip(40),
            lvl,
        )
    }
}

/// A whole sub-access walk preserves the number of levels, their
/// well-formedness and their geometry.
pub proof fn lemma_sub_accesses_wf(
    levels: Seq<CacheModel>,
    d: LevelDeltas,
    a: u64,
    end: u64,
    stride: u64,
)
    requires
        1 <= stride,
        forall|i: int| 0 <= i < levels.len() ==> cache_model_wf(#[trigger] levels[i]),
    ensures
        ({
            let ls2 = sub_accesses_from(levels, d, a, end, stride).0;
            &&& ls2.len() == levels.len()
            &&& forall|i: int|
                0 <= i < levels.len() ==> cache_model_wf(#[trigger] ls2[i]) && same_geometry(
                    ls2[i],
                    levels[i],
                )
        }),
    decreases (if a <= end { end - a } else { 0int }),
{
    if a < end {
        lemma_levels_access_from_props(levels, a, 0);
        let (ls2, h) = levels_access(levels, a);
        lemma_sub_accesses_wf(ls2, bump_deltas(d, h), sat_u64(a + stride), end, stride);
    }
}

/// For every level, the hit and miss increments of one window of
/// sub-accesses sum to the number of sub-accesses dispatched to that level.
proof fn lemma_sub_accesses_conservation(
    levels: Seq<CacheModel>,
    d: LevelDeltas,
    a: u64,
    end: u64,
    stride: u64,
    lvl: int,
)
    requires
        1 <= stride,
        0 <= lvl < d.len(),
    ensures
        ({
            let d2 = sub_accesses_from(levels, d, a, end, stride).1;
            d2[lvl].0 + d2[lvl].1 == d[lvl].0 + d[lvl].1 + sub_dispatches(
                levels,
                a,
                end,
                stride,
                lvl,
            )
        }),
    decreases (if a <= end { end - a } else { 0int }),
{
    if a < end {
        let (ls2, h) = levels_access(levels, a);
        lemma_sub_accesses_conservation(
            ls2,
            bump_deltas(d, h),
            sat_u64(a + stride),
            end,
            stride,
            lvl,
        );
    }
}

/// Conservation over a whole trace, threading an arbitrary accumulator.
proof fn lemma_trace_run_conservation(
    levels: Seq<CacheModel>,
    d: LevelDeltas,
    bytes: Seq<u8>,
    lvl: int,
)
    requires
        1 <= levels.len(),
        forall|i: int| 0 <= i < levels.len() ==> cache_model_wf(#[trigger] levels[i]),
        d.len() == levels.len(),
        0 <= lvl < levels.len(),
    ensures
        ({
            let d2 = trace_run_from(levels, d, bytes).1;
            d2[lvl].0 + d2[lvl].1 == d[lvl].0 + d[lvl].1 + trace_dispatches(levels, bytes, lvl)
        }),
    decreases bytes.len(),
{
    if bytes.len() >= 40 {
        let address = spec_parse_address(bytes.subrange(17, 33));
        let size = spec_parse_size(bytes.subrange(36, 39));
        let m0 = levels[0];
        let ab = m0.abits;
        assert((1u64 << ab) >= 1u64) by (bit_vector)
            requires
                ab < 64,
        ;
        let aligned = address & m0.align_mask;
        let end = sat_u64(address + size);
        lemma_sub_accesses_conservation(levels, d, aligned, end, m0.line_size, lvl);
        lemma_sub_accesses_shift(
            levels,
            d,
            zero_deltas(levels.len()),
            aligned,
            end,
            m0.line_size,
        );
        lemma_sub_accesses_wf(levels, d, aligned, end, m0.line_size);
        let (ls2, d2) = record_read(levels, d, address, size);
        lemma_trace_run_conservation(ls2, d2, bytes.skip(40), lvl);
        lemma_sub_accesses_conservation(
            levels,
            zero_deltas(levels.len()),
            aligned,
            end,
            m0.line_size,
            lvl,
        );
    }
}

/// Counter conservation: for every level, the hit and miss increments of a
/// run sum to the number of line-aligned sub-accesses dispatched to that
/// level.
pub proof fn lemma_counter_conservation(levels: Seq<CacheModel>, bytes: Seq<u8>, lvl: int)
    requires
        1 <= levels.len(),
        forall|i: int| 0 <= i < levels.len() ==> cache_model_wf(#[trigger] levels[i]),
        0 <= lvl < levels.len(),
    ensures
        ({
            let d = trace_run(levels, bytes).1;
            d[lvl].0 + d[lvl].1 == trace_dispatches(levels, bytes, lvl)
        }),
{
    lemma_trace_run_conservation(levels, zero_deltas(levels.len()), bytes, lvl);
}

/// A deeper level never sees more sub-accesses than a shallower one, within
/// one window of sub-accesses.
proof fn lemma_sub_dispatches_antitone(
    levels: Seq<CacheModel>,
    a: u64,
    end: u64,
    stride: u64,
    lvl: int,
)
    requires
        1 <= stride,
        1 <= lvl,
    ensures
        sub_dispatches(levels, a, end, stride, lvl) <= sub_dispatches(
            levels,
            a,
            end,
            stride,
            lvl - 1,
        ),
    decreases (if a <= end { end - a } else { 0int }),
{
    if a < end {
        let (ls2, h) = levels_access(levels, a);
        lemma_sub_dispatches_antitone(ls2, sat_u64(a + stride), end, stride, lvl);
    }
}

/// A deeper level never sees more sub-accesses than a shallower one, over a
/// whole trace.
pub proof fn lemma_dispatches_antitone(levels: Seq<CacheModel>, bytes: Seq<u8>, lvl: int)
    requires
        1 <= levels.len(),
        forall|i: int| 0 <= i < levels.len() ==> cache_model_wf(#[trigger] levels[i]),
        1 <= lvl,
    ensures
        trace_dispatches(levels, bytes, lvl) <= trace_dispatches(levels, bytes, lvl - 1),
    decreases bytes.len(),
{
    if bytes.len() >= 40 {
        let address = spec_parse_address(bytes.subrange(17, 33));
        let size = spec_parse_size(bytes.subrange(36, 39));
        let m0 = levels[0];
        let ab = m0.abits;
        assert((1u64 << ab) >= 1u64) by (bit_vector)
            requires
                ab < 64,
        ;
        let aligned = address & m0.align_mask;
        let end = sat_u64(address + size);
        lemma_sub_dispatches_antitone(levels, aligned, end, m0.line_size, lvl);
        lemma_sub_accesses_wf(levels, zero_deltas(levels.len()), aligned, end, m0.line_size);
        let ls2 = record_read(levels, zero_deltas(levels.len()), address, size).0;
        lemma_dispatches_antitone(ls2, bytes.skip(40), lvl);
    }
}

/// A deeper level's counters grow no faster than a shallower level's: the
/// hit and miss increments of a run, summed per level, are non-increasing
/// with depth.
pub proof fn lemma_counter_antitone(levels: Seq<CacheModel>, bytes: Seq<u8>, lvl: int)
    requires
        1 <= levels.len(),
        forall|i: int| 0 <= i < levels.len() ==> cache_model_wf(#[trigger] levels[i]),
        1 <= lvl < levels.len(),
    ensures
        ({
            let d = trace_run(levels, bytes).1;
            d[lvl].0 + d[lvl].1 <= d[lvl - 1].0 + d[lvl - 1].1
        }),
{
    lemma_counter_conservation(levels, bytes, lvl);
    lemma_counter_conservation(levels, bytes, lvl - 1);
    lemma_dispatches_antitone(levels, bytes, lvl);
}

/// For a direct-mapped shape (as many sets as lines) the configured
/// replacement-policy field has no effect: the freshly built levels are
/// equal whatever the field says, so every later counter is equal too.
pub proof fn lemma_direct_mapped_policy_irrelevant(
    m1: CacheModel,
    m2: CacheModel,
    c1: CacheConfig,
    c2: CacheConfig,
)
    requires
        c2.name == c1.name,
        c2.size == c1.size,
        c2.line_size == c1.line_size,
        c2.kind == c1.kind,
        c1.spec_num_sets() == c1.spec_num_lines(),
        cache_matches_config(m1, c1),
        cache_matches_config(m2, c2),
    ensures
        m1 == m2,
{
    assert(spec_policy_of_config(c1) == PolicyModel::Nop);
    assert(spec_policy_of_config(c2) == PolicyModel::Nop);
    lemma_wf_model_determined(m1, m2);
}

/// The hierarchy-wide form: two freshly built hierarchies whose
/// configurations agree except possibly in the replacement-policy field of
/// direct-mapped levels are equal as level models, so every trace produces
/// identical counters on both (`trace_run` is a function of the levels and
/// the bytes alone).
pub proof fn lemma_direct_hierarchy_policy_irrelevant(
    ls1: Seq<CacheModel>,
    ls2: Seq<CacheModel>,
    c1: Seq<CacheConfig>,
    c2: Seq<CacheConfig>,
)
    requires
        c1.len() == c2.len(),
        ls1.len() == c1.len(),
        ls2.len() == c1.len(),
        forall|i: int|
            0 <= i < c1.len() ==> {
                let a = #[trigger] c1[i];
                let b = c2[i];
                &&& b.name == a.name
                &&& b.size == a.size
                &&& b.line_size == a.line_size
                &&& b.kind == a.kind
                &&& (b.replacement_policy != a.replacement_policy ==> a.spec_num_sets()
                    == a.spec_num_lines())
            },
        forall|i: int| 0 <= i < c1.len() ==> cache_matches_config(#[trigger] ls1[i], c1[i]),
        forall|i: int| 0 <= i < c1.len() ==> cache_matches_config(#[trigger] ls2[i], c2[i]),
    ensures
        ls1 == ls2,
{
    assert forall|i: int| 0 <= i < c1.len() implies ls1[i] == ls2[i] by {
        if c1[i].replacement_policy == c2[i].replacement_policy {
            lemma_wf_model_determined(ls1[i], ls2[i]);
        } else {
            lemma_direct_mapped_policy_irrelevant(ls1[i], ls2[i], c1[i], c2[i]);
        }
    }
    assert(ls1 =~= ls2);
}

/// Counters never decrease: advancing a counter by any number of saturated
/// increments keeps it at least as large.
pub proof fn lemma_counter_monotone(x: u64, m: nat)
    ensures
        x <= sat_u64(x + m),
{
}

/// `c` is an ASCII hexadecimal digit.
pub open spec fn is_hex_digit(c: u8) -> bool {
    (48 <= c <= 57) || (65 <= c <= 70) || (97 <= c <= 102)
}

/// The standard positional value of a sequence of hex digits.
pub open spec fn hex_number(s: Seq<u8>) -> nat
    decreases s.len(),
{
    if s.len() == 0 {
        0
    } else {
        (hex_number(s.drop_last()) * 16 + spec_hex_digit(s.last())) as nat
    }
}

/// The positional value of hex digits is bounded by sixteen to their count,
/// and the truncating fold of the parser computes exactly that value.
proof fn lemma_parse_address_prefix(s: Seq<u8>)
    requires
        s.len() <= 16,
        forall|i: int| 0 <= i < s.len() ==> is_hex_digit(#[trigger] s[i]),
    ensures
        hex_number(s) < pow2(4 * s.len()),
        spec_parse_address(s) == hex_number(s),
    decreases s.len(),
{
    lemma2_to64();
    if s.len() == 0 {
    } else {
        let pre = s.drop_last();
        lemma_parse_address_prefix(pre);
        let k = pre.len();
        lemma_pow2_adds(4 * k, 4);
        let x = spec_parse_address(pre);
        let v = spec_hex_digit(s.last()) as u64;
        assert(pow2(4 * k) <= pow2(60)) by {
            if 4 * k < 60 {
                vstd::arithmetic::power2::lemma_pow2_strictly_increases(4 * k, 60);
            }
        }
        assert(pow2(60) == 0x1000_0000_0000_0000) by {
            lemma2_to64_rest();
        }
        assert(hex_number(pre) * 16 + 15 < pow2(4 * k) * 16) by {
            vstd::arithmetic::mul::lemma_mul_strict_inequality(
                hex_number(pre) as int,
                pow2(4 * k) as int,
                16,
            );
        }
        assert(v < 16);
        assert(x < 0x1000_0000_0000_0000 && v < 16 ==> ((x << 4) | v) == x * 16 + v)
            by (bit_vector);
    }
}

/// Parser agreement: on a well-formed 16-digit hex field the truncating
/// parser computes the standard positional value, which always fits in 64
/// bits.
pub proof fn lemma_parse_address_standard(s: Seq<u8>)
    requires
        s.len() == 16,
        forall|i: int| 0 <= i < s.len() ==> is_hex_digit(#[trigger] s[i]),
    ensures
        spec_parse_address(s) == hex_number(s),
        hex_number(s) < 0x1_0000_0000_0000_0000,
{
    lemma_parse_address_prefix(s);
    assert(pow2(64) == 0x1_0000_0000_0000_0000) by {
        lemma2_to64_rest();
    }
}

/// `c` is an ASCII decimal digit.
pub open spec fn is_dec_digit(c: u8) -> bool {
    48 <= c <= 57
}

/// Parser agreement: on a well-formed 3-digit decimal field the wrapping
/// parser computes the standard positional value.
pub proof fn lemma_parse_size_standard(s: Seq<u8>)
    requires
        s.len() == 3,
        forall|i: int| 0 <= i < s.len() ==> is_dec_digit(#[trigger] s[i]),
    ensures
        spec_parse_size(s) == 100 * (s[0] - 48) + 10 * (s[1] - 48) + (s[2] - 48),
{
    assert(is_dec_digit(s[0]) && is_dec_digit(s[1]) && is_dec_digit(s[2]));
}

/// An access of one byte, at an address offset from a line boundary, still
/// produces exactly one sub-access at the outermost level.
pub proof fn lemma_single_byte_single_subaccess(levels: Seq<CacheModel>, address: u64)
    requires
        1 <= levels.len(),
        cache_model_wf(levels[0]),
        address < u64::MAX,
    ensures
        ({
            let m0 = levels[0];
            sub_dispatches(
                levels,
                address & m0.align_mask,
                sat_u64(address + 1),
                m0.line_size,
                0,
            ) == 1
        }),
{
    let m0 = levels[0];
    let ab = m0.abits;
    let am = m0.align_mask;
    let s = m0.line_size;
    let aligned = address & am;
    assert((address & am) <= address && address - (address & am) < s && s >= 1) by (bit_vector)
        requires
            ab < 64,
            am == !(((1u64 << ab) - 1) as u64),
            s == (1u64 << ab),
    ;
    let end = sat_u64(address + 1);
    assert(end == address + 1);
    let (ls2, h) = levels_access(levels, aligned);
    assert(sat_u64(aligned + s) >= end);
    assert(sub_dispatches(ls2, sat_u64(aligned + s), end, s, 0) == 0);
    assert(h >= 0) by {
        lemma_levels_access_from_props_weak(levels, aligned);
    }
}

/// The hit level of a walk over all levels is never negative.
proof fn lemma_levels_access_from_props_weak(levels: Seq<CacheModel>, a: u64)
    ensures
        levels_access(levels, a).1 >= 0,
{
    if levels.len() > 0 {
        lemma_access_from_lower(levels, a, 0);
    }
}

/// The hit level of a walk started at `j` is at least `j`.
proof fn lemma_access_from_lower(levels: Seq<CacheModel>, a: u64, j: int)
    requires
        0 <= j,
    ensures
        crate::simulator::levels_access_from(levels, a, j).1 >= j,
    decreases levels.len() - j,
{
    if 0 <= j < levels.len() {
        let (c2, hit) = crate::cache::cache_model_step(levels[j], a);
        if !hit {
            lemma_access_from_lower(levels.update(j, c2), a, j + 1);
        }
    }
}

/// An access spanning exactly two outermost lines produces exactly two
/// sub-accesses at the outermost level.
pub proof fn lemma_two_line_two_subaccesses(levels: Seq<CacheModel>, address: u64, size: u16)
    requires
        1 <= levels.len(),
        cache_model_wf(levels[0]),
        address + size <= u64::MAX,
        (address & levels[0].align_mask) + levels[0].line_size < address + size,
        address + size <= (address & levels[0].align_mask) + 2 * levels[0].line_size,
    ensures
        ({
            let m0 = levels[0];
            sub_dispatches(
                levels,
                address & m0.align_mask,
                sat_u64(address + size),
                m0.line_size,
                0,
            ) == 2
        }),
{
    let m0 = levels[0];
    let ab = m0.abits;
    let am = m0.align_mask;
    let s = m0.line_size;
    let aligned = address & am;
    assert((address & am) <= address && s >= 1) by (bit_vector)
        requires
            ab < 64,
            am == !(((1u64 << ab) - 1) as u64),
            s == (1u64 << ab),
    ;
    let end = sat_u64(address + size);
    assert(end == address + size);
    let a1 = sat_u64(aligned + s);
    assert(a1 == aligned + s);
    assert(a1 < end);
    let a2 = sat_u64(a1 + s);
    assert(a2 >= end);
    let (ls1, h0) = levels_access(levels, aligned);
    let (ls2, h1) = levels_access(ls1, a1);
    assert(sub_dispatches(ls2, a2, end, s, 0) == 0);
    lemma_levels_access_from_props_weak(levels, aligned);
    lemma_levels_access_from_props_weak(ls1, a1);
    assert(sub_dispatches(ls1, a1, end, s, 0) == 1);
}

/// A cache level holds at most as many distinct tags as it has lines, at
/// any point of a run: its tag array has one entry per line.
pub proof fn lemma_distinct_tags_bounded(m: CacheModel)
    requires
        cache_model_wf(m),
    ensures
        m.tags.to_set().len() <= m.tags.len(),
        m.tags.len() == m.sets * m.set_size,
{
    m.tags.lemma_cardinality_of_set();
}

/// After a miss handled by the least-frequently-used policy, the usage
/// counter of the newly installed line is one, not zero: the access that
/// installed it counts as a use.
pub proof fn lemma_lfu_victim_counter(m: PolicyModel, lo: int, set: int, ways: int)
    requires
        m matches PolicyModel::Lfu { uses },
        policy_can_pick(m, lo, set, ways),
    ensures
        ({
            let v = policy_pick(m, lo, set, ways);
            &&& policy_evolve(m, lo, set, ways) matches PolicyModel::Lfu { uses: u2 } && u2[v]
                == 1
        }),
{
    let uses = m->Lfu_uses;
    lemma_argmin_in(uses, lo, lo + ways);
}

/// The least-recently-used policy picks a least-recently-stamped line, and
/// among tied oldest lines the lowest-indexed one.
pub proof fn lemma_lru_victim_choice(m: PolicyModel, lo: int, set: int, ways: int)
    requires
        m matches PolicyModel::Lru { stamps: _, clock: _ },
        policy_can_pick(m, lo, set, ways),
    ensures
        ({
            let v = policy_pick(m, lo, set, ways);
            let stamps = m->Lru_stamps;
            &&& lo <= v < lo + ways
            &&& forall|j: int| lo <= j < lo + ways ==> stamps[v] <= #[trigger] stamps[j]
            &&& forall|j: int| lo <= j < v ==> stamps[v] < #[trigger] stamps[j]
        }),
{
    let stamps = m->Lru_stamps;
    lemma_argmin_in(stamps, lo, lo + ways);
}

} // verus!
