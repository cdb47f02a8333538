use openapi_discovery::codec::{
    create_default_spec, decode_document, encode_document, parse_spec_to_json, SpecParseError,
};
use openapi_discovery::entry::ApiDocEntry;

fn entry(namespace: &str, service: &str, ts: u64) -> ApiDocEntry {
    ApiDocEntry {
        id: format!("{}-{}", namespace, service),
        name: format!("{} API", service),
        namespace: namespace.to_string(),
        service_name: service.to_string(),
        url: format!("http://{}.{}.svc.cluster.local:8080/swagger/openapi.yml", service, namespace),
        description: Some("a service".to_string()),
        last_updated: ts,
        available: true,
        spec: "{\"openapi\":\"3.0.0\"}".to_string(),
    }
}

#[test]
fn placeholder_spec_is_json_with_the_display_name_as_title() {
    let spec = create_default_spec("Orders API", "API documentation not available");
    let v: serde_json::Value = serde_json::from_str(&spec).expect("placeholder must be JSON");
    assert_eq!(v["info"]["title"], "Orders API");
    assert_eq!(v["info"]["description"], "API documentation not available");
    assert_eq!(v["openapi"], "3.0.0");
    assert!(v["paths"].is_object());
}

#[test]
fn placeholder_spec_escapes_the_name() {
    let spec = create_default_spec("A \"quoted\"\nname", "d");
    let v: serde_json::Value = serde_json::from_str(&spec).expect("escaped placeholder is JSON");
    assert_eq!(v["info"]["title"], "A \"quoted\"\nname");
}

#[test]
fn encoded_document_is_json_with_the_external_shape() {
    let apis = vec![entry("shop", "orders", 1_700_000_000_000)];
    let text = encode_document(&apis, 1_700_000_000_500);
    let v: serde_json::Value = serde_json::from_str(&text).expect("document must be JSON");
    assert_eq!(v["apis"].as_array().unwrap().len(), 1);
    let e = &v["apis"][0];
    assert_eq!(e["id"], "shop-orders");
    assert_eq!(e["name"], "orders API");
    assert_eq!(e["namespace"], "shop");
    assert_eq!(e["service_name"], "orders");
    assert_eq!(e["available"], true);
    assert_eq!(e["description"], "a service");
    assert_eq!(e["last_updated"], "2023-11-14T22:13:20+00:00");
    assert_eq!(v["last_updated"], "2023-11-14T22:13:20.500+00:00");
}

#[test]
fn decode_inverts_encode() {
    let apis = vec![
        entry("shop", "orders", 1_700_000_000_000),
        ApiDocEntry {
            description: None,
            available: false,
            spec: "line one\nline \"two\"\ttab".to_string(),
            ..entry("crm", "leads", 1_690_000_123_456)
        },
    ];
    let text = encode_document(&apis, 1_700_000_000_500);
    let c = decode_document(&text).expect("canonical document must decode");
    assert_eq!(c.last_updated, 1_700_000_000_500);
    assert_eq!(c.apis.len(), 2);
    assert_eq!(c.apis[0].id, "shop-orders");
    assert_eq!(c.apis[0].last_updated, 1_700_000_000_000);
    assert_eq!(c.apis[0].description, Some("a service".to_string()));
    assert_eq!(c.apis[1].id, "crm-leads");
    assert_eq!(c.apis[1].description, None);
    assert!(!c.apis[1].available);
    assert_eq!(c.apis[1].spec, "line one\nline \"two\"\ttab");
    assert_eq!(c.apis[1].last_updated, 1_690_000_123_456);
}

#[test]
fn decode_round_trips_the_empty_catalogue() {
    let text = encode_document(&Vec::new(), 0);
    let c = decode_document(&text).expect("empty document must decode");
    assert_eq!(c.apis.len(), 0);
    assert_eq!(c.last_updated, 0);
}

#[test]
fn decode_round_trips_control_characters() {
    let apis = vec![ApiDocEntry {
        spec: "ctl \u{0001}\u{001f} end".to_string(),
        ..entry("shop", "orders", 5)
    }];
    let text = encode_document(&apis, 5);
    let c = decode_document(&text).expect("control characters must survive");
    assert_eq!(c.apis[0].spec, "ctl \u{0001}\u{001f} end");
}

#[test]
fn foreign_or_corrupt_documents_read_as_absent() {
    assert!(decode_document("").is_none());
    assert!(decode_document("{}").is_none());
    assert!(decode_document("not json at all").is_none());
    assert!(decode_document("{\"apis\":[},").is_none());
    // pretty-printed (non-canonical) form is refused too
    assert!(decode_document("{ \"apis\": [], \"last_updated\": \"2023-11-14T22:13:20+00:00\" }")
        .is_none());
}

#[test]
fn parse_spec_dispatches_json_by_leading_brace() {
    let v = parse_spec_to_json("  {\"openapi\":\"3.0.0\"}").expect("JSON specs parse");
    assert_eq!(v["openapi"], "3.0.0");
    let e = parse_spec_to_json("{not json").unwrap_err();
    assert_eq!(e, SpecParseError::Json);
}

#[test]
fn parse_spec_reads_yaml_otherwise() {
    let v = parse_spec_to_json("openapi: 3.0.0\ninfo:\n  title: T\n").expect("YAML specs parse");
    assert_eq!(v["openapi"], "3.0.0");
    assert_eq!(v["info"]["title"], "T");
}

#[test]
fn unreadable_yaml_reports_the_yaml_error() {
    let e = parse_spec_to_json("[unclosed").unwrap_err();
    assert_eq!(e, SpecParseError::Yaml);
}
