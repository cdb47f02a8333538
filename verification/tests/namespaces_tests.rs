use openapi_discovery::namespaces::{
    parse_watch_namespaces, split_list, validate_k8s_name, validate_watch_namespaces,
};

#[test]
fn absent_scope_watches_the_current_namespace() {
    assert_eq!(parse_watch_namespaces(None), Some(vec!["current".to_string()]));
}

#[test]
fn blank_scope_watches_the_current_namespace() {
    assert_eq!(parse_watch_namespaces(Some("   ")), Some(vec!["current".to_string()]));
    assert_eq!(parse_watch_namespaces(Some("")), Some(vec!["current".to_string()]));
}

#[test]
fn the_word_all_watches_everything() {
    assert_eq!(parse_watch_namespaces(Some("all")), None);
    assert_eq!(parse_watch_namespaces(Some(" All ")), None);
    assert_eq!(parse_watch_namespaces(Some("ALL")), None);
}

#[test]
fn comma_lists_are_split_trimmed_and_cleaned() {
    assert_eq!(
        parse_watch_namespaces(Some("shop, crm ,,billing,")),
        Some(vec!["shop".to_string(), "crm".to_string(), "billing".to_string()])
    );
}

#[test]
fn split_list_drops_empty_segments() {
    assert_eq!(split_list(" a ,, b "), vec!["a".to_string(), "b".to_string()]);
    assert_eq!(split_list(""), Vec::<String>::new());
    assert_eq!(split_list(",,,"), Vec::<String>::new());
}

#[test]
fn names_follow_the_cluster_rules() {
    assert!(validate_k8s_name("shop"));
    assert!(validate_k8s_name("shop-2"));
    assert!(!validate_k8s_name(""));
    assert!(!validate_k8s_name("bad_name"));
    assert!(!validate_k8s_name("has space"));
    let long = "a".repeat(63);
    assert!(validate_k8s_name(&long));
    let too_long = "a".repeat(64);
    assert!(!validate_k8s_name(&too_long));
}

#[test]
fn watch_list_validation_names_the_first_offender() {
    let ok = vec!["shop".to_string(), "crm".to_string()];
    assert_eq!(validate_watch_namespaces(&ok), None);
    let bad = vec!["shop".to_string(), "bad_name".to_string(), "also bad".to_string()];
    assert_eq!(validate_watch_namespaces(&bad), Some(1));
}
