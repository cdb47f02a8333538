use openapi_discovery::annotations::{AnnotationMap, decode};

fn map(pairs: &[(&str, &str)]) -> AnnotationMap {
    let mut m = AnnotationMap::new();
    for (k, v) in pairs {
        m.add(k.to_string(), v.to_string());
    }
    m
}

#[test]
fn absent_enable_key_means_disabled() {
    let m = map(&[("api-doc.io/name", "Orders API")]);
    let d = decode(&m, "orders");
    assert!(!d.enabled);
}

#[test]
fn empty_map_means_disabled_with_all_defaults() {
    let m = AnnotationMap::new();
    let d = decode(&m, "orders");
    assert!(!d.enabled);
    assert_eq!(d.path, "/swagger/openapi.yml");
    assert_eq!(d.name, "orders API");
    assert_eq!(d.description, None);
}

#[test]
fn enabled_only_by_the_literal_true() {
    let yes = decode(&map(&[("api-doc.io/enabled", "true")]), "svc");
    assert!(yes.enabled);
    let capital = decode(&map(&[("api-doc.io/enabled", "True")]), "svc");
    assert!(!capital.enabled);
    let no = decode(&map(&[("api-doc.io/enabled", "false")]), "svc");
    assert!(!no.enabled);
    let junk = decode(&map(&[("api-doc.io/enabled", "yes")]), "svc");
    assert!(!junk.enabled);
}

#[test]
fn explicit_annotations_override_the_defaults() {
    let m = map(&[
        ("api-doc.io/enabled", "true"),
        ("api-doc.io/path", "/api/spec.json"),
        ("api-doc.io/name", "Orders API"),
        ("api-doc.io/description", "order management"),
    ]);
    let d = decode(&m, "orders");
    assert!(d.enabled);
    assert_eq!(d.path, "/api/spec.json");
    assert_eq!(d.name, "Orders API");
    assert_eq!(d.description, Some("order management".to_string()));
}

#[test]
fn first_binding_of_a_key_wins() {
    let m = map(&[("api-doc.io/name", "First"), ("api-doc.io/name", "Second")]);
    let d = decode(&m, "svc");
    assert_eq!(d.name, "First");
}
