use cachelib::config::CacheConfig;
use cachelib::config::CacheKindConfig;
use cachelib::config::LayeredCacheConfig;
use cachelib::config::ReplacementPolicyConfig;

fn base(size: u64, line_size: u64, kind: CacheKindConfig) -> CacheConfig {
    CacheConfig {
        name: String::from("L1"),
        size,
        line_size,
        kind,
        replacement_policy: ReplacementPolicyConfig::default(),
    }
}

#[test]
fn default_policy_is_round_robin() {
    assert!(matches!(ReplacementPolicyConfig::default(), ReplacementPolicyConfig::RoundRobin));
}

#[test]
fn valid_level_configurations_pass() {
    assert!(base(16, 4, CacheKindConfig::Direct).check());
    assert!(base(16, 16, CacheKindConfig::Full).check());
    assert!(base(64, 8, CacheKindConfig::TwoWay).check());
    assert!(base(64, 4, CacheKindConfig::FourWay).check());
    assert!(base(64, 4, CacheKindConfig::EightWay).check());
    // A single line is a valid degenerate cache.
    assert!(base(8, 8, CacheKindConfig::Direct).check());
}

#[test]
fn invalid_level_configurations_fail() {
    // Sizes must be powers of two.
    assert!(!base(24, 4, CacheKindConfig::Direct).check());
    assert!(!base(16, 3, CacheKindConfig::Direct).check());
    assert!(!base(0, 4, CacheKindConfig::Direct).check());
    assert!(!base(16, 0, CacheKindConfig::Direct).check());
    // The line size cannot exceed the total size.
    assert!(!base(4, 16, CacheKindConfig::Direct).check());
    // An N-way cache needs at least N lines.
    assert!(!base(8, 8, CacheKindConfig::TwoWay).check());
    assert!(!base(16, 8, CacheKindConfig::FourWay).check());
    assert!(!base(16, 4, CacheKindConfig::EightWay).check());
}

#[test]
fn layered_configuration_checks() {
    let good = LayeredCacheConfig {
        caches: vec![base(16, 4, CacheKindConfig::Direct), base(64, 8, CacheKindConfig::TwoWay)],
    };
    assert!(good.check());

    // The level list must be non-empty.
    let empty = LayeredCacheConfig { caches: vec![] };
    assert!(!empty.check());

    // Line sizes may not shrink with depth.
    let shrinking = LayeredCacheConfig {
        caches: vec![base(16, 8, CacheKindConfig::Direct), base(64, 4, CacheKindConfig::TwoWay)],
    };
    assert!(!shrinking.check());

    // One bad level poisons the hierarchy.
    let bad_level = LayeredCacheConfig {
        caches: vec![base(16, 4, CacheKindConfig::Direct), base(24, 4, CacheKindConfig::Direct)],
    };
    assert!(!bad_level.check());
}
