use feed::config::Config;

#[test]
fn default_settings() {
    let config = Config::default();
    assert!(!config.minify);
    assert_eq!(config.cache_max_days, 0);
    assert_eq!(config.site_title, "feed");
    assert_eq!(config.target_dir, "target");
    assert_eq!(config.statics_dir, "statics");
    assert_eq!(config.templates_dir, "includes");
    assert_eq!(config.proxy, None);
    assert_eq!(config.cache_url, None);
    assert_eq!(config.target_name, None);
    assert!(config.sources.is_empty());
    assert!(config.scripts.is_empty());
}

#[test]
fn output_name_prefers_what_was_asked_for() {
    let mut config = Config::default();
    assert_eq!(config.output_name(None, "index.html"), "index.html");
    assert_eq!(config.output_name(Some("a.html".to_string()), "index.html"), "a.html");
    config.target_name = Some("site.html".to_string());
    assert_eq!(config.output_name(None, "index.html"), "site.html");
    assert_eq!(config.output_name(Some("a.html".to_string()), "index.html"), "a.html");
    assert_eq!(config.output_name(Some(String::new()), "output.tex"), "");
}
