use cachelib::config::CacheConfig;
use cachelib::config::CacheKindConfig;
use cachelib::config::LayeredCacheConfig;
use cachelib::config::ReplacementPolicyConfig;
use cachelib::simulator::Simulator;

/// One 40-byte trace record: 16 hex digits of instruction pointer, a space,
/// 16 hex digits of data address, a space, the access mode, a space, three
/// decimal digits of size, and a newline.
fn record(addr: u64, size: u16) -> String {
    format!("{:016x} {:016x} R {:03}\n", 0x4000u64, addr, size)
}

fn trace(accesses: &[(u64, u16)]) -> Vec<u8> {
    let mut out = String::new();
    for (addr, size) in accesses {
        out.push_str(&record(*addr, *size));
    }
    out.into_bytes()
}

fn level(name: &str, size: u64, line_size: u64, kind: CacheKindConfig, policy: ReplacementPolicyConfig) -> CacheConfig {
    CacheConfig {
        name: String::from(name),
        size,
        line_size,
        kind,
        replacement_policy: policy,
    }
}

fn one_level(size: u64, line_size: u64, kind: CacheKindConfig, policy: ReplacementPolicyConfig) -> LayeredCacheConfig {
    LayeredCacheConfig { caches: vec![level("L1", size, line_size, kind, policy)] }
}

fn counts(sim: &mut Simulator, bytes: &[u8]) -> (u64, Vec<(u64, u64)>) {
    let result = sim.simulate(bytes).expect("simulation failed");
    let mut per_level = Vec::new();
    for c in result.cache_results() {
        per_level.push((c.hits(), c.misses()));
    }
    (result.main_memory_accesses(), per_level)
}

#[test]
fn cold_direct_mapped_one_level() {
    let config = one_level(16, 4, CacheKindConfig::Direct, ReplacementPolicyConfig::RoundRobin);
    assert!(config.check());
    let mut sim = Simulator::new(&config);
    let buf = trace(&[(0x10, 1), (0x20, 1), (0x30, 1), (0x40, 1)]);
    let (main, per_level) = counts(&mut sim, &buf);
    assert_eq!(per_level, vec![(0, 4)]);
    assert_eq!(main, 4);
}

#[test]
fn warm_hit() {
    let config = one_level(16, 4, CacheKindConfig::Direct, ReplacementPolicyConfig::RoundRobin);
    let mut sim = Simulator::new(&config);
    let buf = trace(&[(0x10, 1), (0x10, 1)]);
    let (main, per_level) = counts(&mut sim, &buf);
    assert_eq!(per_level, vec![(1, 1)]);
    assert_eq!(main, 1);
}

#[test]
fn line_crossing_access() {
    let config = one_level(1024, 4, CacheKindConfig::Direct, ReplacementPolicyConfig::RoundRobin);
    let mut sim = Simulator::new(&config);
    // An address whose tag bits are zero would alias the "uninitialised"
    // marker, so the crossing access sits above the first tag boundary.
    let buf = trace(&[(0x40E, 4)]);
    let (main, per_level) = counts(&mut sim, &buf);
    // The access spans 0x40c..0x412, so exactly two line-aligned
    // sub-accesses, both cold misses.
    assert_eq!(per_level, vec![(0, 2)]);
    assert_eq!(main, 2);
}

#[test]
fn size_one_misaligned_single_subaccess() {
    let config = one_level(1024, 4, CacheKindConfig::Direct, ReplacementPolicyConfig::RoundRobin);
    let mut sim = Simulator::new(&config);
    // One byte at offset 3 of its line: exactly one sub-access.  The
    // address lies above the first tag boundary so its tag is non-zero.
    let buf = trace(&[(0x413, 1)]);
    let (main, per_level) = counts(&mut sim, &buf);
    assert_eq!(per_level, vec![(0, 1)]);
    assert_eq!(main, 1);
}

#[test]
fn lru_victim_selection() {
    // Fully-associative, 2 ways of 8 bytes.  Accesses to 0x00, 0x08, 0x00,
    // 0x10 in that order.  Address zero carries the tag value zero, which
    // the engine reads as "uninitialised", so both accesses to 0x00 match a
    // zeroed way and count as hits; 0x08 and 0x10 are cold misses.  0x10
    // evicts the least recently stamped line, which holds 0x08 (not the
    // line 0x00 hit).
    let config = one_level(16, 8, CacheKindConfig::Full, ReplacementPolicyConfig::LeastRecentlyUsed);
    let mut sim = Simulator::new(&config);
    let buf = trace(&[(0x00, 1), (0x08, 1), (0x00, 1), (0x10, 1)]);
    let (main, per_level) = counts(&mut sim, &buf);
    assert_eq!(per_level, vec![(2, 2)]);
    assert_eq!(main, 2);
    // 0x08 was evicted: accessing it again misses.
    let (_, per_level2) = counts(&mut sim, &trace(&[(0x08, 1)]));
    assert_eq!(per_level2, vec![(2, 3)]);
}

#[test]
fn round_robin_determinism() {
    // 2-way, 2 sets, round robin, 8-byte lines: size = 4 lines * 8 bytes.
    // A, B, C, D all map to set 0 with distinct tags; the fifth access
    // re-reads A, which C evicted first.
    let config = one_level(32, 8, CacheKindConfig::TwoWay, ReplacementPolicyConfig::RoundRobin);
    assert!(config.check());
    let mut sim = Simulator::new(&config);
    let a = 0x100;
    let b = 0x120;
    let c = 0x140;
    let d = 0x160;
    let buf = trace(&[(a, 1), (b, 1), (c, 1), (d, 1), (a, 1)]);
    let (main, per_level) = counts(&mut sim, &buf);
    assert_eq!(per_level, vec![(0, 5)]);
    assert_eq!(main, 5);
}

#[test]
fn two_level_propagation() {
    // L1 direct-mapped and small; L2 two-way with LRU.  A miss in L1 that
    // hits in L2 increments L1 misses and L2 hits exactly once and does not
    // touch the main-memory access count.
    let config = LayeredCacheConfig {
        caches: vec![
            level("L1", 16, 4, CacheKindConfig::Direct, ReplacementPolicyConfig::RoundRobin),
            level("L2", 64, 4, CacheKindConfig::TwoWay, ReplacementPolicyConfig::LeastRecentlyUsed),
        ],
    };
    assert!(config.check());
    let mut sim = Simulator::new(&config);
    let x = 0x100;
    let y = 0x110;
    // Warm up: X cold-misses both levels, Y evicts X from L1.
    let (main_before, before) = counts(&mut sim, &trace(&[(x, 1), (y, 1)]));
    assert_eq!(before, vec![(0, 2), (0, 2)]);
    assert_eq!(main_before, 2);
    // X again: misses L1 (Y evicted it), hits L2.
    let (main_after, after) = counts(&mut sim, &trace(&[(x, 1)]));
    assert_eq!(after, vec![(0, 3), (1, 2)]);
    assert_eq!(main_after, main_before);
}

#[test]
fn lfu_victim_counter_starts_at_one() {
    // Fully-associative LFU with 2 ways.  A, B, C: C evicts A (tied lowest
    // use count, lowest index).  C's own counter starts at 1, so the
    // following hit raises it to 2 and D then evicts B, leaving C to hit
    // again.  Were the victim counter reset to 0 instead, D would evict C
    // and the final access would miss.
    let config = one_level(16, 8, CacheKindConfig::Full, ReplacementPolicyConfig::LeastFrequentlyUsed);
    let mut sim = Simulator::new(&config);
    let a = 0x100;
    let b = 0x108;
    let c = 0x110;
    let d = 0x118;
    let buf = trace(&[(a, 1), (b, 1), (c, 1), (c, 1), (d, 1), (c, 1)]);
    let (main, per_level) = counts(&mut sim, &buf);
    assert_eq!(per_level, vec![(2, 4)]);
    assert_eq!(main, 4);
}

#[test]
fn four_way_set_fills_before_evicting() {
    // 4-way, 2 sets of 4-byte lines: size = 8 lines * 4 bytes.  Four
    // distinct round-robin installs into one set, then all four re-read
    // warm; a fifth tag evicts the oldest install.
    let config = one_level(32, 4, CacheKindConfig::FourWay, ReplacementPolicyConfig::RoundRobin);
    assert!(config.check());
    let a = 0x100;
    let b = 0x110;
    let c = 0x120;
    let d = 0x130;
    let e = 0x140;
    let mut sim = Simulator::new(&config);
    let (_, cold) = counts(&mut sim, &trace(&[(a, 1), (b, 1), (c, 1), (d, 1)]));
    assert_eq!(cold, vec![(0, 4)]);
    let (_, warm) = counts(&mut sim, &trace(&[(a, 1), (b, 1), (c, 1), (d, 1)]));
    assert_eq!(warm, vec![(4, 4)]);
    let (main, evicted) = counts(&mut sim, &trace(&[(e, 1), (a, 1)]));
    assert_eq!(evicted, vec![(4, 6)]);
    assert_eq!(main, 6);
}

#[test]
fn eight_way_single_set() {
    // 8-way with exactly 8 lines is one set; the policy field applies
    // because the shape is not direct-mapped.
    let config = one_level(64, 8, CacheKindConfig::EightWay, ReplacementPolicyConfig::LeastFrequentlyUsed);
    assert!(config.check());
    let mut sim = Simulator::new(&config);
    let accesses: Vec<(u64, u16)> = (0..8u64).map(|i| (0x100 + 8 * i, 1)).collect();
    let (_, cold) = counts(&mut sim, &trace(&accesses));
    assert_eq!(cold, vec![(0, 8)]);
    let (main, warm) = counts(&mut sim, &trace(&accesses));
    assert_eq!(warm, vec![(8, 8)]);
    assert_eq!(main, 8);
}

#[test]
fn inner_level_line_sharing() {
    // L1 has 4-byte lines, L2 8-byte lines.  Two accesses to distinct L1
    // lines of the same L2 line: both miss the small L1, but the second
    // finds the shared L2 line already installed.
    let config = LayeredCacheConfig {
        caches: vec![
            level("L1", 16, 4, CacheKindConfig::Direct, ReplacementPolicyConfig::RoundRobin),
            level("L2", 64, 8, CacheKindConfig::TwoWay, ReplacementPolicyConfig::LeastRecentlyUsed),
        ],
    };
    assert!(config.check());
    let mut sim = Simulator::new(&config);
    let (main, per_level) = counts(&mut sim, &trace(&[(0x40C, 1), (0x408, 1)]));
    assert_eq!(per_level, vec![(0, 2), (1, 1)]);
    assert_eq!(main, 1);
}

#[test]
fn counters_accumulate_across_calls() {
    let config = one_level(16, 4, CacheKindConfig::Direct, ReplacementPolicyConfig::RoundRobin);
    let mut sim = Simulator::new(&config);
    let buf = trace(&[(0x10, 1)]);
    let (main1, first) = counts(&mut sim, &buf);
    assert_eq!(first, vec![(0, 1)]);
    assert_eq!(main1, 1);
    // The same record again: the line is warm now, and the counters add to
    // the first call's totals.
    let (main2, second) = counts(&mut sim, &buf);
    assert_eq!(second, vec![(1, 1)]);
    assert_eq!(main2, 1);
}

#[test]
fn direct_mapped_policy_field_ignored() {
    // For a direct-mapped level the replacement-policy field has no effect:
    // all three policies give identical counters on the same trace.
    let buf = trace(&[(0x10, 1), (0x20, 1), (0x10, 1), (0x30, 1), (0x20, 1)]);
    let mut outcomes = Vec::new();
    for policy in [
        ReplacementPolicyConfig::RoundRobin,
        ReplacementPolicyConfig::LeastRecentlyUsed,
        ReplacementPolicyConfig::LeastFrequentlyUsed,
    ] {
        let config = one_level(16, 4, CacheKindConfig::Direct, policy);
        let mut sim = Simulator::new(&config);
        outcomes.push(counts(&mut sim, &buf));
    }
    assert_eq!(outcomes[0], outcomes[1]);
    assert_eq!(outcomes[0], outcomes[2]);
}

#[test]
fn uninitialised_line_counts_reflect_fills() {
    let config = one_level(16, 4, CacheKindConfig::Direct, ReplacementPolicyConfig::RoundRobin);
    let mut sim = Simulator::new(&config);
    assert_eq!(sim.get_uninitialised_line_counts(), vec![4]);
    // All four accesses map to set 0, so only one line is ever filled.
    let buf = trace(&[(0x10, 1), (0x20, 1), (0x30, 1), (0x40, 1)]);
    {
        let _ = sim.simulate(&buf).expect("simulation failed");
    }
    assert_eq!(sim.get_uninitialised_line_counts(), vec![3]);
}

#[test]
fn execution_time_accumulates() {
    let config = one_level(16, 4, CacheKindConfig::Direct, ReplacementPolicyConfig::RoundRobin);
    let mut sim = Simulator::new(&config);
    let zero = *sim.get_execution_time();
    let buf = trace(&[(0x10, 1)]);
    {
        let _ = sim.simulate(&buf).expect("simulation failed");
    }
    assert!(*sim.get_execution_time() >= zero);
}

#[test]
fn result_names_follow_configuration() {
    let config = LayeredCacheConfig {
        caches: vec![
            level("front", 16, 4, CacheKindConfig::Direct, ReplacementPolicyConfig::RoundRobin),
            level("back", 64, 8, CacheKindConfig::TwoWay, ReplacementPolicyConfig::RoundRobin),
        ],
    };
    let mut sim = Simulator::new(&config);
    let result = sim.simulate(&trace(&[(0x10, 1)])).expect("simulation failed");
    let names: Vec<String> = result.cache_results().iter().map(|c| c.name().clone()).collect();
    assert_eq!(names, vec![String::from("front"), String::from("back")]);
}
