//! The catalogue's data model: one documented API per entry, grouped into a
//! discovery document keyed by (namespace, service name).

use vstd::prelude::*;

verus! {

/// Largest timestamp the catalogue stores, in milliseconds since the Unix
/// epoch: the last millisecond of year 9999, so every stored timestamp has an
/// RFC 3339 rendering with a four-digit year.
pub const MAX_TIMESTAMP_MS: u64 = 253402300799999;

/// One documented API: identity, probe endpoint, availability and the
/// fetched (or placeholder) specification text.
pub struct ApiDocEntry {
    pub id: String,
    pub name: String,
    pub namespace: String,
    pub service_name: String,
    pub url: String,
    pub description: Option<String>,
    pub last_updated: u64,
    pub available: bool,
    pub spec: String,
}

/// The mathematical image of an entry: every text field as its character
/// sequence.
pub ghost struct EntryModel {
    pub id: Seq<char>,
    pub name: Seq<char>,
    pub namespace: Seq<char>,
    pub service_name: Seq<char>,
    pub url: Seq<char>,
    pub description: Option<Seq<char>>,
    pub last_updated: u64,
    pub available: bool,
    pub spec: Seq<char>,
}

impl View for ApiDocEntry {
    type V = EntryModel;

    open spec fn view(&self) -> EntryModel {
        EntryModel {
            id: self.id@,
            name: self.name@,
            namespace: self.namespace@,
            service_name: self.service_name@,
            url: self.url@,
            description: match self.description {
                Some(d) => Some(d@),
                None => None,
            },
            last_updated: self.last_updated,
            available: self.available,
            spec: self.spec@,
        }
    }
}

impl Clone for ApiDocEntry {
    fn clone(&self) -> (r: Self)
        ensures
            r@ == self@,
    {
        ApiDocEntry {
            id: self.id.clone(),
            name: self.name.clone(),
            namespace: self.namespace.clone(),
            service_name: self.service_name.clone(),
            url: self.url.clone(),
            description: match &self.description {
                Some(d) => Some(d.clone()),
                None => None,
            },
            last_updated: self.last_updated,
            available: self.available,
            spec: self.spec.clone(),
        }
    }
}

/// The deduplication key of an entry: its namespace and service name as a pair,
/// so two names never collide through string concatenation.
pub open spec fn entry_key(e: EntryModel) -> (Seq<char>, Seq<char>) {
    (e.namespace, e.service_name)
}

/// The models of a sequence of entries.
pub open spec fn models(s: Seq<ApiDocEntry>) -> Seq<EntryModel> {
    s.map_values(|e: ApiDocEntry| e@)
}

/// A timestamp the catalogue can store.
pub open spec fn valid_timestamp(ms: u64) -> bool {
    ms <= MAX_TIMESTAMP_MS
}

/// Every timestamp of the entry set is storable.
pub open spec fn valid_timestamps(s: Seq<EntryModel>) -> bool {
    forall|i: int| 0 <= i < s.len() ==> valid_timestamp(#[trigger] s[i].last_updated)
}

/// The persisted catalogue: the entry set plus the document's own timestamp.
pub struct DiscoveryConfig {
    pub apis: Vec<ApiDocEntry>,
    pub last_updated: u64,
}

impl DiscoveryConfig {
    /// The empty catalogue, as created at process start when none is persisted.
    pub fn empty(now_ms: u64) -> (r: DiscoveryConfig)
        ensures
            r.apis@.len() == 0,
            r.last_updated == now_ms,
    {
        DiscoveryConfig { apis: Vec::new(), last_updated: now_ms }
    }
}

} // verus!
