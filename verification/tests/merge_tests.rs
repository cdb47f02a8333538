use openapi_discovery::entry::ApiDocEntry;
use openapi_discovery::merge::{merge, remove};

fn entry(namespace: &str, service: &str, ts: u64, url: &str) -> ApiDocEntry {
    ApiDocEntry {
        id: format!("{}-{}", namespace, service),
        name: format!("{} API", service),
        namespace: namespace.to_string(),
        service_name: service.to_string(),
        url: url.to_string(),
        description: None,
        last_updated: ts,
        available: true,
        spec: "{}".to_string(),
    }
}

#[test]
fn merge_into_empty_inserts_the_entry() {
    let existing: Vec<ApiDocEntry> = Vec::new();
    let merged = merge(&existing, entry("shop", "orders", 100, "http://a"));
    assert_eq!(merged.len(), 1);
    assert_eq!(merged[0].id, "shop-orders");
}

#[test]
fn merge_deduplicates_by_key_keeping_greatest_timestamp() {
    // two stored entries share a key; the older one must not survive
    let existing = vec![
        entry("shop", "orders", 100, "http://old"),
        entry("shop", "orders", 300, "http://new"),
        entry("shop", "billing", 200, "http://billing"),
    ];
    let merged = merge(&existing, entry("crm", "leads", 400, "http://leads"));
    assert_eq!(merged.len(), 3);
    let orders: Vec<&ApiDocEntry> =
        merged.iter().filter(|e| e.service_name == "orders").collect();
    assert_eq!(orders.len(), 1);
    assert_eq!(orders[0].last_updated, 300);
    assert_eq!(orders[0].url, "http://new");
}

#[test]
fn merge_overwrites_its_own_key_unconditionally() {
    let existing = vec![entry("shop", "orders", 500, "http://old")];
    let merged = merge(&existing, entry("shop", "orders", 600, "http://fresh"));
    assert_eq!(merged.len(), 1);
    assert_eq!(merged[0].last_updated, 600);
    assert_eq!(merged[0].url, "http://fresh");
}

#[test]
fn merge_on_equal_timestamps_keeps_the_later_seen_entry() {
    let existing = vec![
        entry("shop", "orders", 100, "http://first"),
        entry("shop", "orders", 100, "http://second"),
    ];
    let merged = merge(&existing, entry("crm", "leads", 400, "http://leads"));
    let orders: Vec<&ApiDocEntry> =
        merged.iter().filter(|e| e.service_name == "orders").collect();
    assert_eq!(orders.len(), 1);
    assert_eq!(orders[0].url, "http://second");
}

#[test]
fn keys_are_structured_so_similar_names_do_not_collide() {
    // "a-b" + "c" and "a" + "b-c" concatenate to the same id text but must
    // stay two entries
    let existing = vec![entry("a-b", "c", 100, "http://x")];
    let merged = merge(&existing, entry("a", "b-c", 200, "http://y"));
    assert_eq!(merged.len(), 2);
}

#[test]
fn remove_strips_exactly_the_key() {
    let existing = vec![
        entry("shop", "orders", 100, "http://orders"),
        entry("shop", "billing", 200, "http://billing"),
    ];
    let left = remove(&existing, "shop", "orders");
    assert_eq!(left.len(), 1);
    assert_eq!(left[0].service_name, "billing");
}

#[test]
fn remove_of_absent_key_is_a_no_op() {
    let existing = vec![entry("shop", "orders", 100, "http://orders")];
    let left = remove(&existing, "shop", "unknown");
    assert_eq!(left.len(), 1);
}

#[test]
fn remove_after_merge_is_effective() {
    let existing = vec![entry("shop", "orders", 100, "http://orders")];
    let merged = merge(&existing, entry("shop", "orders", 900, "http://orders2"));
    let left = remove(&merged, "shop", "orders");
    assert_eq!(left.len(), 0);
}

#[test]
fn concurrent_merges_with_distinct_keys_converge_to_both() {
    // the loser of a conditional write re-reads the winner's result and
    // re-merges: both entries stand, in either order
    let empty: Vec<ApiDocEntry> = Vec::new();
    let a = entry("shop", "orders", 100, "http://a");
    let b = entry("crm", "leads", 100, "http://b");
    let ab = merge(&merge(&empty, a.clone()), b.clone());
    let ba = merge(&merge(&empty, b), a);
    assert_eq!(ab.len(), 2);
    assert_eq!(ba.len(), 2);
    assert!(ab.iter().any(|e| e.id == "shop-orders"));
    assert!(ab.iter().any(|e| e.id == "crm-leads"));
    assert!(ba.iter().any(|e| e.id == "shop-orders"));
    assert!(ba.iter().any(|e| e.id == "crm-leads"));
}
