use zcode_usage::config::{
    env_text_fits, make_creds, parse_env_file, provider_api_key, provider_ids_by_baseurl, provider_plan_ids,
    ProviderEntry,
};

fn p(id: &str, url: Option<&str>, key: Option<&str>, name: Option<&str>) -> ProviderEntry {
    ProviderEntry {
        id: id.to_string(),
        base_url: url.map(|s| s.to_string()),
        api_key: key.map(|s| s.to_string()),
        name: name.map(|s| s.to_string()),
    }
}

fn cfg() -> Vec<ProviderEntry> {
    vec![
        p("ds1", Some("https://api.deepseek.com/v1"), Some(""), None),
        p("oc", Some("https://opencode.ai/zen"), Some("k-oc"), Some("OpenCode")),
        p("ds2", Some("https://api.deepseek.com"), Some("k-ds2"), None),
        p("volc", Some("https://ark.cn-beijing.volces.com/api/plan/v3"), None, Some("Ark")),
        p("named", None, None, Some("My PLAN")),
    ]
}

#[test]
fn providers_are_found_by_base_url() {
    assert_eq!(provider_ids_by_baseurl(&cfg(), "api.deepseek.com"), vec!["ds1", "ds2"]);
    assert_eq!(provider_ids_by_baseurl(&cfg(), "opencode.ai"), vec!["oc"]);
    assert!(provider_ids_by_baseurl(&cfg(), "nowhere").is_empty());
}

#[test]
fn the_api_key_is_the_first_non_empty_one() {
    assert_eq!(provider_api_key(&cfg(), "api.deepseek.com"), "k-ds2");
    assert_eq!(provider_api_key(&cfg(), "opencode.ai"), "k-oc");
    assert_eq!(provider_api_key(&cfg(), "nowhere"), "");
}

#[test]
fn plan_providers_by_url_or_name() {
    assert_eq!(provider_plan_ids(&cfg()), vec!["volc", "named"]);
}

#[test]
fn env_file_settings() {
    let text = "# comment\n\nVOLC_AK_ID = abc \nVOLC_AK_SECRET=\"s=1\"\nNOEQ\n =x\nVOLC_PLAN_TIER='Pro'\r\n".to_string();
    assert!(env_text_fits(&text));
    let pairs = parse_env_file(&text);
    assert_eq!(
        pairs,
        vec![
            ("VOLC_AK_ID".to_string(), "abc".to_string()),
            ("VOLC_AK_SECRET".to_string(), "s=1".to_string()),
            ("VOLC_PLAN_TIER".to_string(), "Pro".to_string()),
        ]
    );
}

#[test]
fn a_lone_quote_value_is_detected() {
    assert!(!env_text_fits(&"A=\"\n".to_string()));
    assert!(env_text_fits(&"A=\"\"\n".to_string()));
    assert_eq!(parse_env_file(&"A=\"\"".to_string()), vec![("A".to_string(), String::new())]);
}

#[test]
fn credentials_from_settings() {
    let c = make_creds(
        Some("id".to_string()),
        None,
        Some("  AGENT ".to_string()),
        None,
        Some(" 2024-01-01 00:00:00+00:00 ".to_string()),
    );
    assert_eq!(c.ak_id, "id");
    assert_eq!(c.ak_secret, "");
    assert_eq!(c.plan_type, "agent");
    assert_eq!(c.plan_tier, "");
    assert_eq!(c.plan_start_ms, Some(1_704_067_200_000));
    let d = make_creds(None, None, Some("other".to_string()), None, Some("not a date".to_string()));
    assert_eq!(d.plan_type, "coding");
    assert_eq!(d.plan_start_ms, None);
}
