use openapi_discovery::config::{
    default_api_selector, default_expand_responses, default_false, default_layout, default_theme,
    default_true, FrontendConfig, FrontendOptions, RedocConfig, ScalarConfig,
};
use openapi_discovery::entry::ApiDocEntry;
use openapi_discovery::frontend::{
    ApiInfo, DocFrontend, Frontend, FrontendManager, FrontendType, RedocApiInfo, RedocFrontend,
    ScalarFrontend,
};
use openapi_discovery::server::{
    api_infos_of, get_metadata_file_path, get_spec_file_path, is_metadata_filename,
    refreshed_entry, sanitize_filename,
};

fn api(name: &str) -> ApiInfo {
    ApiInfo {
        name: name.to_string(),
        slug: "api-0".to_string(),
        spec_url: format!("/specs/{}", name),
        description: None,
    }
}

#[test]
fn defaults_match_the_documented_values() {
    assert_eq!(default_theme(), "purple");
    assert_eq!(default_layout(), "modern");
    assert!(default_true());
    assert!(!default_false());
    assert_eq!(default_expand_responses(), "200,201,400,401,403,404");
    assert!(default_api_selector());
    let s = ScalarConfig::default();
    assert_eq!(s.theme, "purple");
    assert!(s.show_sidebar && s.expand_all_responses);
    assert!(!s.dark_mode && !s.expand_all_model_sections && !s.hide_download_button);
    let r = RedocConfig::default();
    assert_eq!(r.expand_responses, "200,201,400,401,403,404");
    assert!(r.required_props_first && r.show_api_selector);
}

#[test]
fn frontend_type_names_round_trip() {
    assert_eq!(FrontendType::Scalar.as_str(), "scalar");
    assert_eq!(FrontendType::Redoc.as_str(), "redoc");
    assert_eq!(FrontendType::from_str("scalar"), Some(FrontendType::Scalar));
    assert_eq!(FrontendType::from_str("ReDoc"), Some(FrontendType::Redoc));
    assert_eq!(FrontendType::from_str("swagger"), None);
}

#[test]
fn create_frontend_uses_given_options_or_defaults() {
    let mut custom = ScalarConfig::default();
    custom.theme = "mars".to_string();
    let opts = FrontendOptions::Scalar(custom);
    match FrontendType::Scalar.create_frontend(Some(&opts)) {
        Some(Frontend::Scalar(sf)) => assert_eq!(sf.config.theme, "mars"),
        _ => panic!("scalar kind creates a scalar renderer"),
    }
    match FrontendType::Redoc.create_frontend(Some(&opts)) {
        Some(Frontend::Redoc(rf)) => {
            // mismatched options fall back to the factory defaults
            assert_eq!(rf.config.expand_responses, "200,201,400,401,403,404")
        },
        _ => panic!("redoc kind creates a redoc renderer"),
    }
}

#[test]
fn from_settings_lowers_splits_and_keeps_options() {
    let cfg = FrontendConfig::from_settings(
        " Scalar , REDOC ,",
        Some("SCALAR".to_string()),
        ScalarConfig::default(),
        RedocConfig::default(),
    );
    assert_eq!(cfg.enabled_frontends, vec!["scalar".to_string(), "redoc".to_string()]);
    assert_eq!(cfg.default_frontend, Some("scalar".to_string()));
    assert!(matches!(cfg.get_options("scalar"), Some(FrontendOptions::Scalar(_))));
    assert!(matches!(cfg.get_options("redoc"), Some(FrontendOptions::Redoc(_))));
    assert!(cfg.get_options("swagger").is_none());
}

#[test]
fn manager_holds_enabled_renderers_and_picks_the_default() {
    let cfg = FrontendConfig::from_settings(
        "scalar,redoc",
        Some("redoc".to_string()),
        ScalarConfig::default(),
        RedocConfig::default(),
    );
    let mgr = FrontendManager::from_config(&cfg);
    assert!(mgr.get_frontend("scalar").is_some());
    assert!(mgr.get_frontend("redoc").is_some());
    assert!(mgr.get_frontend("other").is_none());
    assert!(matches!(mgr.get_default_frontend(), Some(Frontend::Redoc(_))));
}

#[test]
fn manager_falls_back_to_scalar_when_nothing_is_enabled() {
    let cfg = FrontendConfig::from_settings(
        "",
        None,
        ScalarConfig::default(),
        RedocConfig::default(),
    );
    let mgr = FrontendManager::from_config(&cfg);
    assert!(matches!(mgr.get_default_frontend(), Some(Frontend::Scalar(_))));
}

#[test]
fn scalar_page_embeds_the_configuration() {
    let sf = ScalarFrontend::new(ScalarConfig::default());
    let html = sf.generate_html(&vec![api("Orders API")]);
    assert!(html.contains("\"title\":\"Orders API\""));
    assert!(html.contains("\"theme\":\"purple\""));
    assert!(html.contains("\"default\":true"));
    // the configuration must be embedded in the template, not echoed bare
    assert!(html.contains("cdn.jsdelivr.net/npm/@scalar/api-reference"));
    assert!(html.to_lowercase().contains("<html"));
    let empty = sf.generate_empty_html();
    assert!(empty.contains("No APIs Found"));
}

#[test]
fn redoc_page_lists_apis_and_binds_the_first() {
    let rf = RedocFrontend::new(RedocConfig::default());
    let apis = vec![api("Orders API"), api("Billing & Sons")];
    let html = rf.generate_html(&apis);
    assert!(html.contains("<redoc spec-url=\"/specs/Orders API\""));
    assert!(html.contains("Billing &amp; Sons"));
    assert!(html.contains("required-props-first=\"true\""));
    let empty = rf.generate_empty_html();
    assert!(empty.contains("No APIs are currently available"));
}

#[test]
fn redoc_api_info_projects_the_fields() {
    let a = api("Orders API");
    let r = RedocApiInfo::from(&a);
    assert_eq!(r.name, "Orders API");
    assert_eq!(r.slug, "api-0");
    assert_eq!(r.spec_url, "/specs/Orders API");
}

#[test]
fn filenames_are_sanitized() {
    assert_eq!(sanitize_filename("Orders API v1.2"), "Orders_API_v1_2");
    assert_eq!(sanitize_filename("safe-name_0"), "safe-name_0");
}

#[test]
fn cache_paths_carry_the_sanitized_stem() {
    assert_eq!(get_spec_file_path("/tmp/cache", "Orders API"), "/tmp/cache/Orders_API.json");
    assert_eq!(
        get_metadata_file_path("/tmp/cache", "Orders API"),
        "/tmp/cache/Orders_API.meta.json"
    );
    assert!(is_metadata_filename("Orders_API.meta.json"));
    assert!(!is_metadata_filename("Orders_API.json"));
    assert!(!is_metadata_filename("meta"));
}

#[test]
fn api_infos_carry_positional_slugs_and_encoded_routes() {
    let entries = vec![
        ApiDocEntry {
            id: "shop-orders".to_string(),
            name: "Orders API".to_string(),
            namespace: "shop".to_string(),
            service_name: "orders".to_string(),
            url: "http://u".to_string(),
            description: Some("d".to_string()),
            last_updated: 1,
            available: true,
            spec: "{}".to_string(),
        },
    ];
    let infos = api_infos_of(&entries);
    assert_eq!(infos.len(), 1);
    assert_eq!(infos[0].name, "Orders API");
    assert_eq!(infos[0].slug, "api-0");
    assert_eq!(infos[0].spec_url, "/specs/Orders%20API");
    assert_eq!(infos[0].description, Some("d".to_string()));
}

#[test]
fn refresh_marks_fetched_entries_available_and_failures_unavailable() {
    let base = ApiDocEntry {
        id: "shop-orders".to_string(),
        name: "Orders API".to_string(),
        namespace: "shop".to_string(),
        service_name: "orders".to_string(),
        url: "http://u".to_string(),
        description: None,
        last_updated: 7,
        available: false,
        spec: "old".to_string(),
    };
    let ok = refreshed_entry(base, Some("{\"openapi\":\"3.0.0\"}".to_string()));
    assert!(ok.available);
    assert_eq!(ok.spec, "{\"openapi\":\"3.0.0\"}");
    assert_eq!(ok.last_updated, 7);
    let failed = refreshed_entry(ok, None);
    assert!(!failed.available);
    let v: serde_json::Value = serde_json::from_str(&failed.spec).unwrap();
    assert_eq!(v["info"]["title"], "Orders API");
}
