use openapi_discovery::codec::decode_document;
use openapi_discovery::entry::ApiDocEntry;
use openapi_discovery::sync::{
    prepare_write, MergeOp, SyncDecision, SyncSession, WriteOutcome, BASE_BACKOFF_MS,
    MAX_SYNC_ATTEMPTS,
};

fn entry(namespace: &str, service: &str, ts: u64) -> ApiDocEntry {
    ApiDocEntry {
        id: format!("{}-{}", namespace, service),
        name: format!("{} API", service),
        namespace: namespace.to_string(),
        service_name: service.to_string(),
        url: "http://u".to_string(),
        description: None,
        last_updated: ts,
        available: true,
        spec: "{}".to_string(),
    }
}

#[test]
fn success_ends_the_cycle() {
    let mut s = SyncSession::new();
    assert_eq!(s.attempt, 1);
    assert!(matches!(s.on_write_outcome(WriteOutcome::Success), SyncDecision::Done));
}

#[test]
fn conflicts_back_off_exponentially_then_surface() {
    // conflicts on attempts one to four are retried with doubled delays;
    // a conflict on the fifth attempt surfaces a conflict error
    let mut s = SyncSession::new();
    let mut delays: Vec<u64> = Vec::new();
    for _ in 0..4 {
        match s.on_write_outcome(WriteOutcome::Conflict) {
            SyncDecision::Retry { delay_ms } => delays.push(delay_ms),
            _ => panic!("conflicts within the budget are retried"),
        }
    }
    assert_eq!(delays, vec![100, 200, 400, 800]);
    assert_eq!(s.attempt, 5);
    assert!(matches!(
        s.on_write_outcome(WriteOutcome::Conflict),
        SyncDecision::ConflictExhausted
    ));
    assert_eq!(BASE_BACKOFF_MS, 100);
    assert_eq!(MAX_SYNC_ATTEMPTS, 5);
}

#[test]
fn non_conflict_failures_surface_immediately() {
    let mut s = SyncSession::new();
    assert!(matches!(s.on_write_outcome(WriteOutcome::Failure), SyncDecision::Failed));
    assert_eq!(s.attempt, 1);
}

#[test]
fn prepare_write_on_an_absent_document_starts_empty() {
    let op = MergeOp::Upsert(entry("shop", "orders", 100));
    let text = prepare_write(None, &op, 200);
    let c = decode_document(&text).expect("prepared text is canonical");
    assert_eq!(c.apis.len(), 1);
    assert_eq!(c.apis[0].id, "shop-orders");
    assert_eq!(c.last_updated, 200);
}

#[test]
fn prepare_write_treats_foreign_text_as_empty() {
    let op = MergeOp::Upsert(entry("shop", "orders", 100));
    let text = prepare_write(Some("{\"who\": \"knows\"}"), &op, 200);
    let c = decode_document(&text).unwrap();
    assert_eq!(c.apis.len(), 1);
}

#[test]
fn prepare_write_removes_on_request() {
    let op = MergeOp::Upsert(entry("shop", "orders", 100));
    let text = prepare_write(None, &op, 200);
    let rm = MergeOp::Remove { namespace: "shop".to_string(), service_name: "orders".to_string() };
    let text2 = prepare_write(Some(&text), &rm, 300);
    let c = decode_document(&text2).unwrap();
    assert_eq!(c.apis.len(), 0);
    assert_eq!(c.last_updated, 300);
}

/// A miniature conditional-write store: a document text plus a version token;
/// a write lands only when the token it read still stands.
struct LocalStore {
    doc: Option<(String, u64)>,
}

impl LocalStore {
    fn read(&self) -> (Option<String>, u64) {
        match &self.doc {
            Some((t, v)) => (Some(t.clone()), *v),
            None => (None, 0),
        }
    }

    fn conditional_write(&mut self, text: String, token: u64) -> WriteOutcome {
        let current = match &self.doc {
            Some((_, v)) => *v,
            None => 0,
        };
        if token == current {
            self.doc = Some((text, current + 1));
            WriteOutcome::Success
        } else {
            WriteOutcome::Conflict
        }
    }
}

#[test]
fn two_racing_writers_converge_without_lost_updates() {
    // both writers read the same empty document; the first write wins, the
    // second conflicts, re-reads and re-merges — the document ends with both
    // entries after the retries resolve
    let mut store = LocalStore { doc: None };
    let op_a = MergeOp::Upsert(entry("shop", "orders", 100));
    let op_b = MergeOp::Upsert(entry("crm", "leads", 100));

    let (read_a, token_a) = store.read();
    let (read_b, token_b) = store.read();
    let mut session_b = SyncSession::new();

    let text_a = prepare_write(read_a.as_deref(), &op_a, 150);
    assert!(matches!(store.conditional_write(text_a, token_a), WriteOutcome::Success));

    let text_b = prepare_write(read_b.as_deref(), &op_b, 160);
    let outcome = store.conditional_write(text_b, token_b);
    assert!(matches!(outcome, WriteOutcome::Conflict));
    match session_b.on_write_outcome(outcome) {
        SyncDecision::Retry { delay_ms } => assert_eq!(delay_ms, 100),
        _ => panic!("the first conflict is retried"),
    }

    let (read_b2, token_b2) = store.read();
    let text_b2 = prepare_write(read_b2.as_deref(), &op_b, 170);
    assert!(matches!(store.conditional_write(text_b2, token_b2), WriteOutcome::Success));

    let (final_text, _) = store.read();
    let c = decode_document(&final_text.unwrap()).expect("the converged document decodes");
    assert_eq!(c.apis.len(), 2);
    assert!(c.apis.iter().any(|e| e.id == "shop-orders"));
    assert!(c.apis.iter().any(|e| e.id == "crm-leads"));
    assert_eq!(c.last_updated, 170);
}
