use rs_detect_language::config::{Config, LangDetectErr, LanguageUniverse, plan_from_flags};

#[test]
fn distance_negative_rejected() {
    let cfg = Config::default();
    let r = cfg.with_min_rel_dist(-1);
    assert!(matches!(r, Err(LangDetectErr::TooSmallDistance(-1))));
    let r = cfg.with_min_rel_dist(-500_000);
    assert!(matches!(r, Err(LangDetectErr::TooSmallDistance(-500_000))));
}

#[test]
fn distance_in_domain_accepted() {
    let cfg = Config::default();
    let r = cfg.with_min_rel_dist(0).unwrap();
    assert_eq!(r.minimum_relative_distance, Some(0));
    let r = cfg.with_min_rel_dist(250_000).unwrap();
    assert_eq!(r.minimum_relative_distance, Some(250_000));
    assert!(!r.enable_low_accuracy_mode);
    assert!(!r.enable_preload);
    let r = cfg.with_min_rel_dist(989_999).unwrap();
    assert_eq!(r.minimum_relative_distance, Some(989_999));
}

#[test]
fn distance_at_or_above_bound_rejected() {
    let cfg = Config::default();
    let r = cfg.with_min_rel_dist(990_000);
    assert!(matches!(r, Err(LangDetectErr::TooGreatDistance(990_000))));
}

#[test]
fn distance_of_one_rejected_too_great() {
    // 1_000_000 micro-units stand for the raw value 1.0.
    let cfg = Config::default();
    let r = cfg.with_min_rel_dist(1_000_000);
    assert!(matches!(r, Err(LangDetectErr::TooGreatDistance(1_000_000))));
}

#[test]
fn low_accuracy_mode_idempotent() {
    let once = Config::default().disable_high_accuracy_mode();
    let twice = Config::default().disable_high_accuracy_mode().disable_high_accuracy_mode();
    assert_eq!(once.minimum_relative_distance, twice.minimum_relative_distance);
    assert_eq!(once.enable_low_accuracy_mode, twice.enable_low_accuracy_mode);
    assert_eq!(once.enable_preload, twice.enable_preload);
    assert!(once.enable_low_accuracy_mode);
}

#[test]
fn preload_idempotent() {
    let once = Config::default().disable_lazy_load();
    let twice = Config::default().disable_lazy_load().disable_lazy_load();
    assert_eq!(once.minimum_relative_distance, twice.minimum_relative_distance);
    assert_eq!(once.enable_low_accuracy_mode, twice.enable_low_accuracy_mode);
    assert_eq!(once.enable_preload, twice.enable_preload);
    assert!(once.enable_preload);
}

#[test]
fn default_config_is_inert() {
    let cfg = Config::default();
    assert_eq!(cfg.minimum_relative_distance, None);
    assert!(!cfg.enable_low_accuracy_mode);
    assert!(!cfg.enable_preload);
}

#[test]
fn plan_defaults() {
    let plan = plan_from_flags(None, false, false, false).unwrap();
    assert_eq!(plan.config.minimum_relative_distance, None);
    assert!(!plan.config.enable_low_accuracy_mode);
    assert!(!plan.config.enable_preload);
    assert!(matches!(plan.universe, LanguageUniverse::All));
}

#[test]
fn plan_binds_every_flag() {
    let plan = plan_from_flags(Some(100_000), true, true, true).unwrap();
    assert_eq!(plan.config.minimum_relative_distance, Some(100_000));
    assert!(plan.config.enable_low_accuracy_mode);
    assert!(plan.config.enable_preload);
    assert!(matches!(plan.universe, LanguageUniverse::SpokenOnly));
}

#[test]
fn plan_propagates_validation_failure() {
    let r = plan_from_flags(Some(1_000_000), true, true, false);
    assert!(matches!(r, Err(LangDetectErr::TooGreatDistance(1_000_000))));
    let r = plan_from_flags(Some(-3), false, false, false);
    assert!(matches!(r, Err(LangDetectErr::TooSmallDistance(-3))));
}
