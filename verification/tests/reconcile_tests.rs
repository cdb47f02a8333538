use openapi_discovery::annotations::AnnotationMap;
use openapi_discovery::codec::{decode_document, encode_document};
use openapi_discovery::entry::ApiDocEntry;
use openapi_discovery::merge::{merge, remove};
use openapi_discovery::reconcile::{
    build_entry, build_service_url, entry_id, error_policy, namespace_allowed, plan_reconcile,
    ErrorAction, ReconcilePlan, ServiceInfo, ERROR_REQUEUE_SECS, REQUEUE_SECS,
};

fn service(namespace: &str, name: &str, pairs: &[(&str, &str)], port: Option<u16>) -> ServiceInfo {
    let mut annotations = AnnotationMap::new();
    for (k, v) in pairs {
        annotations.add(k.to_string(), v.to_string());
    }
    ServiceInfo {
        name: name.to_string(),
        namespace: namespace.to_string(),
        annotations,
        first_port: port,
    }
}

#[test]
fn namespace_filter_accepts_empty_list_wildcard_and_members() {
    let empty: Vec<String> = Vec::new();
    assert!(namespace_allowed(&empty, "shop"));
    let all = vec!["all".to_string()];
    assert!(namespace_allowed(&all, "shop"));
    let listed = vec!["crm".to_string(), "shop".to_string()];
    assert!(namespace_allowed(&listed, "shop"));
    assert!(!namespace_allowed(&listed, "other"));
}

#[test]
fn url_is_derived_deterministically() {
    let url = build_service_url("orders", "shop", 9090, "/swagger/openapi.yml");
    assert_eq!(url, "http://orders.shop.svc.cluster.local:9090/swagger/openapi.yml");
}

#[test]
fn entry_id_concatenates_namespace_and_service() {
    assert_eq!(entry_id("shop", "orders"), "shop-orders");
}

#[test]
fn out_of_scope_resources_are_skipped() {
    let svc = service("other", "orders", &[("api-doc.io/enabled", "true")], Some(80));
    let watch = vec!["shop".to_string()];
    assert!(matches!(plan_reconcile(&svc, &watch), ReconcilePlan::Skip));
}

#[test]
fn disabled_resources_plan_a_removal() {
    let svc = service("shop", "orders", &[], Some(80));
    let watch: Vec<String> = Vec::new();
    assert!(matches!(plan_reconcile(&svc, &watch), ReconcilePlan::Disable));
}

#[test]
fn enabled_resources_plan_a_probe_with_defaults() {
    let svc = service("shop", "orders", &[("api-doc.io/enabled", "true")], None);
    let watch: Vec<String> = Vec::new();
    match plan_reconcile(&svc, &watch) {
        ReconcilePlan::Probe { url, name, description } => {
            assert_eq!(url, "http://orders.shop.svc.cluster.local:8080/swagger/openapi.yml");
            assert_eq!(name, "orders API");
            assert_eq!(description, None);
        },
        _ => panic!("an enabled resource must be probed"),
    }
}

#[test]
fn failed_probe_yields_unavailable_entry_with_placeholder_spec() {
    // the probe failed: available == false and no fetch was attempted
    let e = build_entry(
        "orders",
        "shop",
        "http://orders.shop.svc.cluster.local:8080/swagger/openapi.yml".to_string(),
        "Orders API".to_string(),
        None,
        false,
        None,
        1_700_000_000_000,
    );
    assert!(!e.available);
    let v: serde_json::Value = serde_json::from_str(&e.spec).expect("placeholder must be JSON");
    assert_eq!(v["info"]["title"], "Orders API");
}

#[test]
fn failed_fetch_on_available_probe_also_falls_back() {
    let e = build_entry(
        "orders",
        "shop",
        "http://u".to_string(),
        "Orders API".to_string(),
        None,
        true,
        None,
        1,
    );
    assert!(e.available);
    let v: serde_json::Value = serde_json::from_str(&e.spec).unwrap();
    assert_eq!(v["info"]["description"], "API documentation not available");
}

#[test]
fn reconcile_pipeline_publishes_an_available_entry() {
    // end to end: annotated resource, reachable endpoint, fetched spec
    let svc = service(
        "shop",
        "orders",
        &[("api-doc.io/enabled", "true"), ("api-doc.io/name", "Orders API")],
        Some(9090),
    );
    let watch: Vec<String> = Vec::new();
    let (url, name, description) = match plan_reconcile(&svc, &watch) {
        ReconcilePlan::Probe { url, name, description } => (url, name, description),
        _ => panic!("must probe"),
    };
    assert_eq!(url, "http://orders.shop.svc.cluster.local:9090/swagger/openapi.yml");
    let fetched = "{\"openapi\":\"3.0.0\",\"info\":{\"title\":\"Orders API\"}}".to_string();
    let entry = build_entry(
        &svc.name,
        &svc.namespace,
        url,
        name,
        description,
        true,
        Some(fetched.clone()),
        1_700_000_000_000,
    );
    let doc = merge(&Vec::new(), entry);
    let text = encode_document(&doc, 1_700_000_000_000);
    let read_back = decode_document(&text).expect("published document must decode");
    assert_eq!(read_back.apis.len(), 1);
    let e = &read_back.apis[0];
    assert_eq!(e.id, "shop-orders");
    assert_eq!(e.name, "Orders API");
    assert_eq!(e.namespace, "shop");
    assert_eq!(e.service_name, "orders");
    assert_eq!(e.url, "http://orders.shop.svc.cluster.local:9090/swagger/openapi.yml");
    assert!(e.available);
    assert_eq!(e.spec, fetched);
}

#[test]
fn removing_the_enable_annotation_removes_the_entry() {
    // the same resource loses its enable annotation: the next reconcile
    // removes shop-orders from the document entirely
    let published = vec![build_entry(
        "orders",
        "shop",
        "http://u".to_string(),
        "Orders API".to_string(),
        None,
        true,
        Some("{}".to_string()),
        1_700_000_000_000,
    )];
    let svc = service("shop", "orders", &[("api-doc.io/name", "Orders API")], Some(9090));
    let watch: Vec<String> = Vec::new();
    assert!(matches!(plan_reconcile(&svc, &watch), ReconcilePlan::Disable));
    let after = remove(&published, &svc.namespace, &svc.name);
    assert_eq!(after.len(), 0);
    let text = encode_document(&after, 1_700_000_001_000);
    let read_back = decode_document(&text).unwrap();
    assert!(read_back.apis.iter().all(|e: &ApiDocEntry| e.id != "shop-orders"));
}

#[test]
fn error_policy_distinguishes_not_found_from_the_rest() {
    match error_policy(true) {
        ErrorAction::RemoveAndRequeue { delay_secs } => assert_eq!(delay_secs, REQUEUE_SECS),
        _ => panic!("a vanished resource schedules a removal"),
    }
    match error_policy(false) {
        ErrorAction::Requeue { delay_secs } => assert_eq!(delay_secs, ERROR_REQUEUE_SECS),
        _ => panic!("other failures requeue quickly"),
    }
    assert_eq!(REQUEUE_SECS, 300);
    assert_eq!(ERROR_REQUEUE_SECS, 30);
}
