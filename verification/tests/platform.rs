use tmml::downloader::deserializer::{FeaturesFlag, Rule, OS};
use tmml::platform::{
    arch_suffix_of, native_classifier_candidates_for, os_arch_of, os_name_of, path_separator, rules_allow,
    FeatureState, Platform,
};

fn linux() -> Platform {
    Platform::from_consts("linux", "x86_64")
}

#[test]
fn arm_linux_orders_arch_specific_first() {
    let candidates = native_classifier_candidates_for("linux", Some("arm64"));
    assert_eq!(candidates[0], "natives-linux-arm64");
    assert!(candidates.contains(&"natives-linux".to_string()));
}

#[test]
fn x64_linux_falls_back_to_generic() {
    let candidates = native_classifier_candidates_for("linux", Some("amd64"));
    assert_eq!(candidates[0], "natives-linux-amd64");
    assert!(candidates.contains(&"natives-linux".to_string()));
}

#[test]
fn macos_includes_legacy_naming() {
    let candidates = native_classifier_candidates_for("osx", Some("arm64"));
    assert_eq!(candidates[0], "natives-macos-arm64");
    assert!(candidates.iter().any(|c| c == "natives-osx"));
}

#[test]
fn candidates_in_full() {
    assert_eq!(
        native_classifier_candidates_for("osx", Some("arm64")),
        vec!["natives-macos-arm64", "natives-macos", "natives-osx-arm64", "natives-osx"]
    );
    assert_eq!(native_classifier_candidates_for("windows", None), vec!["natives-windows"]);
}

#[test]
fn no_rules_always_allowed() {
    assert!(rules_allow(None, &FeatureState::default(), false, &linux()));
    assert!(rules_allow(Some(&[]), &FeatureState::default(), false, &linux()));
}

#[test]
fn argument_feature_gating_requires_matching_allow() {
    let rule = Rule {
        action: "allow".into(),
        features: Some(FeaturesFlag {
            is_demo_user: None,
            has_custom_resolution: Some(true),
            has_quick_plays_support: None,
            is_quick_play_singleplayer: None,
            is_quick_play_multiplayer: None,
            is_quick_play_realms: None,
        }),
        os: None,
    };
    let rules = [rule];
    let no = FeatureState::with_custom_resolution(false);
    assert!(!rules_allow(Some(&rules), &no, false, &linux()));
    let yes = FeatureState::with_custom_resolution(true);
    assert!(rules_allow(Some(&rules), &yes, false, &linux()));
}

#[test]
fn last_matching_rule_wins() {
    let allow_all = Rule { action: "allow".into(), features: None, os: None };
    let deny_osx = Rule {
        action: "disallow".into(),
        features: None,
        os: Some(OS { name: Some("osx".into()), arch: None }),
    };
    let rules = [allow_all, deny_osx];
    assert!(rules_allow(Some(&rules), &FeatureState::default(), false, &linux()));
    let mac = Platform::from_consts("macos", "aarch64");
    assert!(!rules_allow(Some(&rules), &FeatureState::default(), true, &mac));
}

#[test]
fn host_names() {
    assert_eq!(os_name_of("macos"), "osx");
    assert_eq!(os_name_of("freebsd"), "linux");
    assert_eq!(os_arch_of("aarch64"), "arm");
    assert_eq!(os_arch_of("i686"), "x86");
    assert_eq!(os_arch_of("riscv64"), "unknown");
    assert_eq!(arch_suffix_of("x86_64"), Some("amd64"));
    assert_eq!(arch_suffix_of("mips"), None);
    let sep = path_separator();
    assert!(sep == ":" || sep == ";");
}
