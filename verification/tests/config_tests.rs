use golem_cli::config::{
    CloudProfile, ClientConfig, Config, Format, HttpClientConfig, OssProfile, Profile,
    ProfileConfig, ProfileKind, ProfileName,
};

fn oss_profile(url: &str) -> Profile {
    Profile::Golem(OssProfile {
        url: url.to_string(),
        worker_url: None,
        allow_insecure: false,
        config: ProfileConfig {
            default_format: Format::Text,
        },
    })
}

#[test]
fn builtin_profile_names() {
    assert_eq!(ProfileName::local().0, "local");
    assert_eq!(ProfileName::cloud().0, "cloud");
    assert_eq!(ProfileName::from("x".to_string()), ProfileName("x".to_string()));
}

#[test]
fn profile_kind_and_config_access() {
    let p = oss_profile("http://localhost:9881");
    assert!(matches!(p.kind(), ProfileKind::Oss));
    assert_eq!(p.get_config().default_format, Format::Text);
    let c = Profile::GolemCloud(CloudProfile::default());
    assert!(matches!(c.kind(), ProfileKind::Cloud));
    assert_eq!(c.config().default_format, Format::Text);
}

#[test]
fn set_get_delete_profile_roundtrip() {
    let mut c = Config::new();
    let name = ProfileName("dev".to_string());
    assert!(!c.contains_profile(&name));
    c.set_profile(name.clone(), oss_profile("http://dev:1"));
    assert!(c.contains_profile(&name));
    match c.get_profile(&name) {
        Some(Profile::Golem(p)) => assert_eq!(p.url, "http://dev:1"),
        other => panic!("unexpected profile: {:?}", other),
    }
    c.set_profile(name.clone(), oss_profile("http://dev:2"));
    match c.get_profile(&name) {
        Some(Profile::Golem(p)) => assert_eq!(p.url, "http://dev:2"),
        other => panic!("unexpected profile: {:?}", other),
    }
    let removed = c.remove_profile(&name);
    assert!(matches!(removed, Some(Profile::Golem(_))));
    assert!(!c.contains_profile(&name));
}

#[test]
fn with_local_and_cloud_profiles_fills_defaults() {
    let c = Config::new().with_local_and_cloud_profiles();
    match c.get_profile(&ProfileName::local()) {
        Some(Profile::Golem(p)) => assert_eq!(p.url, "http://localhost:9881"),
        other => panic!("unexpected local profile: {:?}", other),
    }
    assert!(matches!(
        c.get_profile(&ProfileName::cloud()),
        Some(Profile::GolemCloud(_))
    ));
    assert_eq!(c.default_profile, Some(ProfileName("local".to_string())));

    // An existing local profile is kept.
    let mut c2 = Config::new();
    c2.set_profile(ProfileName::local(), oss_profile("http://mine:9"));
    let c2 = c2.with_local_and_cloud_profiles();
    match c2.get_profile(&ProfileName::local()) {
        Some(Profile::Golem(p)) => assert_eq!(p.url, "http://mine:9"),
        other => panic!("unexpected local profile: {:?}", other),
    }
}

#[test]
fn migration_renames_and_selects_local() {
    let mut c = Config::new();
    c.set_profile(ProfileName("default".to_string()), oss_profile("http://old:1"));
    c.set_profile(ProfileName("local".to_string()), oss_profile("http://keep:2"));
    c.set_profile(ProfileName("mine".to_string()), oss_profile("http://mine:3"));
    let (migrated, changed) = c.migrate();
    assert!(changed);
    assert_eq!(migrated.default_profile, Some(ProfileName("local".to_string())));
    assert!(!migrated.contains_profile(&ProfileName("default".to_string())));
    assert!(!migrated.contains_profile(&ProfileName("local".to_string())));
    match migrated.get_profile(&ProfileName("local-migrated".to_string())) {
        Some(Profile::Golem(p)) => assert_eq!(p.url, "http://keep:2"),
        other => panic!("unexpected migrated profile: {:?}", other),
    }
    match migrated.get_profile(&ProfileName("mine".to_string())) {
        Some(Profile::Golem(p)) => assert_eq!(p.url, "http://mine:3"),
        other => panic!("unexpected untouched profile: {:?}", other),
    }

    // A configuration with a default profile is left alone.
    let mut c2 = Config::new();
    c2.default_profile = Some(ProfileName("x".to_string()));
    c2.set_profile(ProfileName("local".to_string()), oss_profile("http://keep:2"));
    let (same, changed) = c2.migrate();
    assert!(!changed);
    assert!(same.contains_profile(&ProfileName("local".to_string())));
}

#[test]
fn default_profile_selection_requires_existing_profile() {
    let mut c = Config::new().with_local_and_cloud_profiles();
    assert!(!c.set_default_profile(ProfileName("missing".to_string())));
    assert_eq!(c.default_profile, Some(ProfileName("local".to_string())));
    assert!(c.set_default_profile(ProfileName::cloud()));
    assert_eq!(c.default_profile, Some(ProfileName("cloud".to_string())));
}

#[test]
fn active_profile_falls_back_to_default_then_local() {
    let mut c = Config::new().with_local_and_cloud_profiles();
    let named = c.get_active_profile(None).expect("local profile expected");
    assert_eq!(named.name.0, "local");

    let mut c2 = Config::new().with_local_and_cloud_profiles();
    let named = c2
        .get_active_profile(Some(ProfileName::cloud()))
        .expect("cloud profile expected");
    assert_eq!(named.name.0, "cloud");
    assert!(c2.get_active_profile(Some(ProfileName::cloud())).is_none());
}

#[test]
fn http_client_config_presets() {
    let s = HttpClientConfig::new_for_service_calls(true);
    assert!(s.allow_insecure);
    assert_eq!(s.timeout, None);
    assert_eq!(s.connect_timeout, None);
    assert_eq!(s.read_timeout, None);

    let h = HttpClientConfig::new_for_health_check(false);
    assert_eq!(h.timeout, Some(2000));
    assert_eq!(h.connect_timeout, Some(1000));
    assert_eq!(h.read_timeout, Some(1000));

    let d = HttpClientConfig::new_for_file_download(false);
    assert_eq!(d.timeout, Some(60000));
    assert_eq!(d.connect_timeout, Some(10000));
    assert_eq!(d.read_timeout, Some(60000));
}

#[test]
fn env_overrides_parse_iso8601_durations() {
    let c = HttpClientConfig::new_for_health_check(false);
    let c = c.with_env_overrides(Some("PT30S"), None, Some("not a duration"));
    // A parseable duration replaces the preset; a bad one leaves it.
    assert_eq!(c.timeout, Some(30000));
    assert_eq!(c.connect_timeout, Some(1000));
    assert_eq!(c.read_timeout, Some(1000));

    let c = HttpClientConfig::new_for_service_calls(false).with_env_overrides(
        Some("PT1M"),
        Some("PT2S"),
        None,
    );
    assert_eq!(c.timeout, Some(60000));
    assert_eq!(c.connect_timeout, Some(2000));
    assert_eq!(c.read_timeout, None);
}

#[test]
fn client_config_resolves_oss_urls() {
    let p = Profile::Golem(OssProfile {
        url: "http://host:1".to_string(),
        worker_url: None,
        allow_insecure: true,
        config: ProfileConfig {
            default_format: Format::Text,
        },
    });
    let cc = ClientConfig::from_profile(&p);
    assert_eq!(cc.component_url, "http://host:1");
    assert_eq!(cc.worker_url, "http://host:1");
    assert_eq!(cc.cloud_url, None);
    assert!(cc.service_http_client_config.allow_insecure);

    let p2 = Profile::Golem(OssProfile {
        url: "http://host:1".to_string(),
        worker_url: Some("http://worker:2".to_string()),
        allow_insecure: false,
        config: ProfileConfig {
            default_format: Format::Text,
        },
    });
    assert_eq!(ClientConfig::from_profile(&p2).worker_url, "http://worker:2");
}

#[test]
fn client_config_resolves_cloud_urls() {
    let cc = ClientConfig::from_profile(&Profile::GolemCloud(CloudProfile::default()));
    assert_eq!(cc.component_url, "https://release.api.golem.cloud");
    assert_eq!(cc.worker_url, "https://release.api.golem.cloud");
    assert_eq!(cc.cloud_url, Some("https://release.api.golem.cloud".to_string()));

    let mut p = CloudProfile::default();
    p.custom_url = Some("https://my.cloud".to_string());
    p.custom_worker_url = Some("https://my.workers".to_string());
    let cc = ClientConfig::from_profile(&Profile::GolemCloud(p));
    assert_eq!(cc.component_url, "https://my.cloud");
    assert_eq!(cc.worker_url, "https://my.workers");
    assert_eq!(cc.cloud_url, Some("https://my.cloud".to_string()));
}

#[test]
fn profile_names_lists_storage_order() {
    let mut c = Config::new();
    c.set_profile(ProfileName("b".to_string()), oss_profile("http://b:1"));
    c.set_profile(ProfileName("a".to_string()), oss_profile("http://a:1"));
    assert_eq!(c.profile_names(), vec!["b".to_string(), "a".to_string()]);
}
