//! Tests of finding the flags that made it to a release.

use build_tools::flag_cache::{
    effective_release_config, extract_flags_from_cache, finalized_exception_flags, CachedFlag,
    FlagState,
};
use std::collections::HashSet;

fn create_test_flag(package: &str, name: &str, state: FlagState, sources: Vec<&str>) -> CachedFlag {
    CachedFlag {
        package: package.to_string(),
        name: name.to_string(),
        state,
        trace_sources: sources.into_iter().map(|s| s.to_string()).collect(),
    }
}

#[test]
fn test_extract_flags() {
    let mut parsed_flags = Vec::new();
    parsed_flags.push(create_test_flag(
        "com.android",
        "enabled_in_trunk",
        FlagState::Enabled,
        vec!["build/release/aconfig/trunk/com.android/enabled_in_trunk.textproto"],
    ));
    parsed_flags.push(create_test_flag(
        "com.android",
        "disabled_in_trunk",
        FlagState::Disabled,
        vec!["build/release/aconfig/trunk/com.android/disabled_in_trunk.textproto"],
    ));
    parsed_flags.push(create_test_flag(
        "com.android",
        "enabled_in_trunk_staging",
        FlagState::Enabled,
        vec!["build/release/aconfig/trunk_staging/com.android/enabled_in_trunk.textproto"],
    ));
    // Does not actually happen, but testing for completeness.
    parsed_flags.push(create_test_flag(
        "com.android",
        "disabled_in_final",
        FlagState::Disabled,
        vec!["build/release/aconfig/ap4a/com.android/disabled_in_final.textproto"],
    ));
    parsed_flags.push(create_test_flag(
        "com.android",
        "disabled_mixed_sources",
        FlagState::Disabled,
        vec![
            "build/release/aconfig/ap4a/com.android/disabled_mixed_sources.textproto",
            "build/release/aconfig/trunk/com.android/disabled_mixed_sources.textproto",
        ],
    ));
    parsed_flags.push(create_test_flag(
        "com.android",
        "enabled_final",
        FlagState::Enabled,
        vec!["build/release/aconfig/ap4a/com.android/enabled_final.textproto"],
    ));
    parsed_flags.push(create_test_flag(
        "com.android",
        "enabled_mixed_sources",
        FlagState::Enabled,
        vec![
            "build/release/aconfig/ap4a/com.android/enabled_mixed_sources.textproto",
            "build/release/aconfig/trunk/com.android/enabled_mixed_sources.textproto",
        ],
    ));
    parsed_flags.push(create_test_flag(
        "com.android",
        "enabled_mixed_sources_vendor",
        FlagState::Enabled,
        vec![
            "vendor/google/release/aconfig/cp4a/com.android/enabled_mixed_sources_vendor.textproto",
            "build/release/aconfig/trunk_staging/com.android/enabled_mixed_sources_vendor.textproto",
        ],
    ));

    let extracted: HashSet<String> =
        extract_flags_from_cache(&parsed_flags, "ap4a").into_iter().collect();
    let expected: HashSet<String> = HashSet::from([
        "com.android.enabled_mixed_sources".to_string(),
        "com.android.enabled_final".to_string(),
    ]);
    assert_eq!(extracted, expected);

    let extracted_cp4a: HashSet<String> =
        extract_flags_from_cache(&parsed_flags, "cp4a").into_iter().collect();
    let expected_cp4a = HashSet::from(["com.android.enabled_mixed_sources_vendor".to_string()]);
    assert_eq!(extracted_cp4a, expected_cp4a);
}

#[test]
fn test_does_not_extract_bad_flags() {
    let mut parsed_flags = Vec::new();
    parsed_flags.push(create_test_flag(
        "com.android",
        "invalid_rc_1",
        FlagState::Enabled,
        vec!["build/release/aconfig/nonsensebp4a/com.android/invalid_rc_1.textproto"],
    ));
    parsed_flags.push(create_test_flag(
        "com.android",
        "invalid_rc_2",
        FlagState::Enabled,
        vec!["build/release/aconfig/bp4anonsense/com.android/invalid_rc_2.textproto"],
    ));
    let extracted: HashSet<String> =
        extract_flags_from_cache(&parsed_flags, "bp4a").into_iter().collect();
    assert_eq!(extracted, HashSet::new());
}

#[test]
fn extracted_names_are_distinct() {
    let flags = vec![
        create_test_flag("p", "f", FlagState::Enabled, vec!["a/ap4a/x"]),
        create_test_flag("p", "f", FlagState::Enabled, vec!["b/ap4a/y"]),
    ];
    assert_eq!(extract_flags_from_cache(&flags, "ap4a"), vec!["p.f".to_string()]);
}

#[test]
fn exception_flags_intersection() {
    let finalized = vec!["a.x".to_string(), "a.y".to_string(), "b.z".to_string(), "a.x".to_string()];
    let exceptions = vec!["b.z".to_string(), "a.x".to_string(), "c.w".to_string()];
    let both: HashSet<String> =
        finalized_exception_flags(&finalized, &exceptions).into_iter().collect();
    assert_eq!(both, HashSet::from(["a.x".to_string(), "b.z".to_string()]));
    assert_eq!(finalized_exception_flags(&finalized, &exceptions).len(), 2);
}

#[test]
fn release_config_defaults() {
    assert_eq!(effective_release_config(None), "cp2a");
    assert_eq!(effective_release_config(Some("next".to_string())), "cp2a");
    assert_eq!(effective_release_config(Some("bp4a".to_string())), "bp4a");
}
