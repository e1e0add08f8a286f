use tmml::config::MainConfig;
use tmml::instance::{
    apply_update, icon_data_url, icon_dir_ok, merge_with_defaults, new_instance, resolve_dir, sanitize_dir_name,
    upsert_entry, InstanceConfig, MinecraftInstance,
};
use tmml::profile::{
    choose_current, create, default_after_removal, parse_auth_type, remove_profile, AuthType, CreateProfileError,
    GameProfile,
};

fn profile(id: &str) -> GameProfile {
    GameProfile {
        id: id.into(),
        name: id.into(),
        auth_type: AuthType::Offline,
        username: Some(id.into()),
        auth_data: None,
        created_at: String::new(),
    }
}

#[test]
fn parse_auth_type_known() {
    assert_eq!(parse_auth_type("offline").unwrap(), AuthType::Offline);
    assert_eq!(parse_auth_type("Microsoft").unwrap(), AuthType::Microsoft);
    assert_eq!(parse_auth_type("authlib-injector").unwrap(), AuthType::AuthlibInjector);
    assert_eq!(parse_auth_type("AUTHLIB_INJECTOR").unwrap(), AuthType::AuthlibInjector);
    assert!(parse_auth_type("foo").is_err());
}

#[test]
fn auth_names_read_back() {
    for a in [AuthType::Offline, AuthType::Microsoft, AuthType::AuthlibInjector] {
        assert_eq!(parse_auth_type(a.as_str()).unwrap(), a);
    }
}

#[test]
fn create_offline_profile() {
    let p = create("offline", Some("  Steve ")).unwrap();
    assert_eq!(p.name, "Steve");
    assert_eq!(p.username.as_deref(), Some("Steve"));
    assert_eq!(p.id.len(), 36);
    assert!(matches!(create("offline", Some("   ")), Err(CreateProfileError::MissingName)));
    assert!(matches!(create("offline", None), Err(CreateProfileError::MissingName)));
    assert!(matches!(create("microsoft", Some("x")), Err(CreateProfileError::Unsupported(AuthType::Microsoft))));
    assert!(matches!(create("nope", Some("x")), Err(CreateProfileError::UnknownAuthType(s)) if s == "nope"));
}

#[test]
fn removing_and_choosing_profiles() {
    let ps = vec![profile("a"), profile("b"), profile("a")];
    let kept = remove_profile(ps, "a").unwrap();
    assert_eq!(kept.len(), 1);
    assert_eq!(kept[0].id, "b");
    assert!(remove_profile(vec![profile("b")], "z").is_err());
    let ps = vec![profile("a"), profile("b")];
    assert_eq!(choose_current(&ps, Some("b")).unwrap().id, "b");
    assert_eq!(choose_current(&ps, Some("zz")).unwrap().id, "a");
    assert_eq!(choose_current(&ps, None).unwrap().id, "a");
    assert!(choose_current(&[], None).is_none());
    assert_eq!(default_after_removal(Some("a".into()), "a"), None);
    assert_eq!(default_after_removal(Some("a".into()), "b").as_deref(), Some("a"));
}

#[test]
fn directory_names() {
    assert_eq!(sanitize_dir_name("  My: Pack?  "), "My Pack");
    assert_eq!(sanitize_dir_name("/.."), "");
    assert_eq!(sanitize_dir_name("\t"), "");
    assert!(icon_dir_ok("pack"));
    assert!(!icon_dir_ok("a..b"));
    assert!(!icon_dir_ok(""));
    assert!(!icon_dir_ok("a/b"));
    assert_eq!(icon_data_url(b"hi"), "data:image/png;base64,aGk=");
}

#[test]
fn settings_fall_back_on_defaults() {
    let defaults = MainConfig::default().instance_defaults();
    assert_eq!(defaults.width, Some(800));
    assert_eq!(defaults.height, Some(600));
    let own = InstanceConfig { jvm_args: vec!["-Xmx4G".into()], width: Some(1024), ..InstanceConfig::default() };
    let merged = merge_with_defaults(own, &defaults);
    assert_eq!(merged.jvm_args, vec!["-Xmx4G".to_string()]);
    assert_eq!(merged.width, Some(1024));
    assert_eq!(merged.height, Some(600));
    let again = merge_with_defaults(merged.clone(), &defaults);
    assert_eq!(again.jvm_args, merged.jvm_args);
    assert_eq!(again.height, merged.height);
    let c = MainConfig::default();
    assert_eq!(c.accent_color, 0x4a92cb);
    assert_eq!(c.concurrency(), 16);
}

#[test]
fn registry_upsert_and_resolution() {
    let (info, entry) = new_instance("1.21.1", Some("Pack".into()), None, &InstanceConfig::default(), "Pack", "now");
    assert_eq!(info.path, "versions/Pack");
    assert_eq!(entry.name, "Pack");
    let mut reg: Vec<MinecraftInstance> = Vec::new();
    upsert_entry(&mut reg, entry.clone());
    upsert_entry(&mut reg, entry);
    assert_eq!(reg.len(), 1);
    assert_eq!(resolve_dir(&reg, "1.21.1"), "Pack");
    assert_eq!(resolve_dir(&reg, "1.20"), "1.20");
    let renamed = apply_update(info, Some("  New  ".into()), None, &InstanceConfig::default());
    assert_eq!(renamed.name, "New");
}

#[test]
fn sanitizing_twice_changes_nothing() {
    for name in ["  My: Pack?  ", " \t a/b \u{3000}", "..", ". :.", "中文 实例*", "\u{3000}x\u{3000}"] {
        let once = sanitize_dir_name(name);
        assert_eq!(sanitize_dir_name(&once), once);
        assert!(!once.contains(['/', '\\', ':', '*', '?', '"', '<', '>', '|', '\0', '\n', '\r', '\t']));
        assert_eq!(once.trim(), once);
    }
    assert_eq!(sanitize_dir_name(". :."), ". .");
    assert_eq!(sanitize_dir_name(" :..: "), "");
}
