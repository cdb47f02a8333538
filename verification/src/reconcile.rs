//! The reconciler's state transition logic: per watched-resource event it
//! filters by namespace, decodes the discovery intent, derives the probe
//! endpoint deterministically, and turns the probe's outcome into the entry
//! handed to the sync engine. All network effects stay with the caller; every
//! decision here is a pure function of its inputs.

use vstd::prelude::*;
use crate::annotations::{
    AnnotationMap, DocAnnotations, decode, spec_enabled, spec_doc_path, spec_display_name,
    spec_description, view_opt,
};
use crate::codec::{create_default_spec, default_spec_json, push_str_chars};
use crate::entry::{ApiDocEntry, valid_timestamp};
use crate::text::{dec_rep, push_dec, str_eq, string_of_chars};

verus! {

/// Seconds until a resource is reconciled again after a pass, successful or
/// not: continuous reconciliation is the correction mechanism.
pub const REQUEUE_SECS: u64 = 300;

/// Seconds until a resource is retried after a reconcile failure; far shorter
/// than the steady-state interval to recover quickly from transient errors.
pub const ERROR_REQUEUE_SECS: u64 = 30;

/// The port probed when a watched service declares none.
pub const DEFAULT_PORT: u16 = 8080;

/// What the reconciler reads of a watched cluster service.
pub struct ServiceInfo {
    pub name: String,
    pub namespace: String,
    pub annotations: AnnotationMap,
    /// The first declared service port, if any.
    pub first_port: Option<u16>,
}

/// The character sequences of a list of strings.
pub open spec fn str_views(l: Seq<String>) -> Seq<Seq<char>> {
    l.map_values(|s: String| s@)
}

/// Whether the list contains the given character sequence.
pub open spec fn contains_str(l: Seq<Seq<char>>, s: Seq<char>) -> bool {
    exists|i: int| 0 <= i < l.len() && l[i] == s
}

/// Whether a namespace passes the watch filter: an empty list and the
/// wildcard watch everything, otherwise the namespace must be listed.
pub open spec fn spec_namespace_allowed(watch: Seq<Seq<char>>, ns: Seq<char>) -> bool {
    watch.len() == 0 || contains_str(watch, "all"@) || contains_str(watch, ns)
}

pub fn contains_str_exec(l: &Vec<String>, s: &str) -> (r: bool)
    ensures
        r == contains_str(str_views(l@), s@),
{
    let mut i: usize = 0;
    while i < l.len()
        invariant
            i <= l@.len(),
            forall|t: int| 0 <= t < i ==> str_views(l@)[t] != s@,
        decreases l@.len() - i,
    {
        if str_eq(l[i].as_str(), s) {
            proof {
                assert(str_views(l@)[i as int] == s@);
            }
            return true;
        }
        i = i + 1;
    }
    false
}

/// The namespace filter of the controller's watch scope.
pub fn namespace_allowed(watch_namespaces: &Vec<String>, namespace: &str) -> (r: bool)
    ensures
        r == spec_namespace_allowed(str_views(watch_namespaces@), namespace@),
{
    if watch_namespaces.len() == 0 {
        true
    } else if contains_str_exec(watch_namespaces, "all") {
        true
    } else {
        contains_str_exec(watch_namespaces, namespace)
    }
}

/// The deterministic identity of a service's entry.
pub open spec fn spec_entry_id(namespace: Seq<char>, service_name: Seq<char>) -> Seq<char> {
    namespace + "-"@ + service_name
}

/// Derives the entry identity from namespace and service name.
pub fn entry_id(namespace: &str, service_name: &str) -> (r: String)
    ensures
        r@ == spec_entry_id(namespace@, service_name@),
{
    let mut out: Vec<char> = Vec::new();
    push_str_chars(&mut out, namespace);
    push_str_chars(&mut out, "-");
    push_str_chars(&mut out, service_name);
    string_of_chars(&out)
}

/// The in-cluster endpoint probed for a service's documentation.
pub open spec fn spec_service_url(
    service_name: Seq<char>,
    namespace: Seq<char>,
    port: u16,
    path: Seq<char>,
) -> Seq<char> {
    "http://"@ + service_name + "."@ + namespace + ".svc.cluster.local:"@ + dec_rep(port as nat)
        + path
}

/// Builds the probe endpoint deterministically from the service's
/// coordinates, first declared port and documentation path.
pub fn build_service_url(service_name: &str, namespace: &str, port: u16, path: &str) -> (r: String)
    ensures
        r@ == spec_service_url(service_name@, namespace@, port, path@),
{
    let mut out: Vec<char> = Vec::new();
    push_str_chars(&mut out, "http://");
    push_str_chars(&mut out, service_name);
    push_str_chars(&mut out, ".");
    push_str_chars(&mut out, namespace);
    push_str_chars(&mut out, ".svc.cluster.local:");
    push_dec(&mut out, port as u64);
    push_str_chars(&mut out, path);
    string_of_chars(&out)
}

/// What a reconcile pass decides before any network call.
pub enum ReconcilePlan {
    /// The resource lies outside the watch scope: leave the catalogue alone.
    Skip,
    /// Discovery is disabled: the resource's entry, if any, is removed.
    Disable,
    /// Discovery is enabled: probe `url` and build the entry from the
    /// outcome.
    Probe { url: String, name: String, description: Option<String> },
}

/// The first declared port of a service, or the default.
pub open spec fn spec_effective_port(first_port: Option<u16>) -> u16 {
    match first_port {
        Some(p) => p,
        None => DEFAULT_PORT,
    }
}

/// Decides a reconcile pass: namespace filter first, then the enablement
/// check, then the deterministic endpoint.
pub fn plan_reconcile(service: &ServiceInfo, watch_namespaces: &Vec<String>) -> (r: ReconcilePlan)
    ensures
        !spec_namespace_allowed(str_views(watch_namespaces@), service.namespace@) <==> r
            is Skip,
        spec_namespace_allowed(str_views(watch_namespaces@), service.namespace@)
            && !spec_enabled(service.annotations@) <==> r is Disable,
        match r {
            ReconcilePlan::Probe { url, name, description } => {
                &&& spec_namespace_allowed(str_views(watch_namespaces@), service.namespace@)
                &&& spec_enabled(service.annotations@)
                &&& url@ == spec_service_url(
                    service.name@,
                    service.namespace@,
                    spec_effective_port(service.first_port),
                    spec_doc_path(service.annotations@),
                )
                &&& name@ == spec_display_name(service.annotations@, service.name@)
                &&& view_opt(description) == spec_description(service.annotations@)
            },
            _ => true,
        },
{
    if !namespace_allowed(watch_namespaces, service.namespace.as_str()) {
        return ReconcilePlan::Skip;
    }
    let decoded: DocAnnotations = decode(&service.annotations, service.name.as_str());
    if !decoded.enabled {
        return ReconcilePlan::Disable;
    }
    let port = match service.first_port {
        Some(p) => p,
        None => DEFAULT_PORT,
    };
    let url = build_service_url(
        service.name.as_str(),
        service.namespace.as_str(),
        port,
        decoded.path.as_str(),
    );
    ReconcilePlan::Probe { url, name: decoded.name, description: decoded.description }
}

/// The description carried by every placeholder specification.
pub fn unavailable_description() -> (r: &'static str)
    ensures
        r@ == "API documentation not available"@,
{
    "API documentation not available"
}

/// The specification text an entry carries: the fetched text when the probe
/// succeeded and the fetch returned one, else the placeholder.
pub open spec fn spec_entry_spec(
    name: Seq<char>,
    available: bool,
    fetched: Option<Seq<char>>,
) -> Seq<char> {
    match fetched {
        Some(t) => if available {
            t
        } else {
            default_spec_json(name, "API documentation not available"@)
        },
        None => default_spec_json(name, "API documentation not available"@),
    }
}

/// Assembles the candidate entry of a reconcile pass from the probe's
/// outcome: `available` is the probe's verdict, `fetched` the specification
/// text when the fetch succeeded. Fetch failures degrade to the placeholder,
/// never to an error.
pub fn build_entry(
    service_name: &str,
    namespace: &str,
    url: String,
    name: String,
    description: Option<String>,
    available: bool,
    fetched: Option<String>,
    now_ms: u64,
) -> (r: ApiDocEntry)
    requires
        valid_timestamp(now_ms),
    ensures
        r@.id == spec_entry_id(namespace@, service_name@),
        r@.name == name@,
        r@.namespace == namespace@,
        r@.service_name == service_name@,
        r@.url == url@,
        r@.description == view_opt(description),
        r@.last_updated == now_ms,
        r@.available == available,
        r@.spec == spec_entry_spec(name@, available, view_opt(fetched)),
        valid_timestamp(r@.last_updated),
{
    let spec_text = match fetched {
        Some(t) => {
            if available {
                t
            } else {
                create_default_spec(name.as_str(), unavailable_description())
            }
        },
        None => create_default_spec(name.as_str(), unavailable_description()),
    };
    ApiDocEntry {
        id: entry_id(namespace, service_name),
        name,
        namespace: namespace.to_owned(),
        service_name: service_name.to_owned(),
        url,
        description,
        last_updated: now_ms,
        available,
        spec: spec_text,
    }
}

/// What the controller's error policy decides after a failed reconcile.
pub enum ErrorAction {
    /// The watched resource itself is gone: remove its entry, then requeue at
    /// the steady interval.
    RemoveAndRequeue { delay_secs: u64 },
    /// Any other failure: requeue after a short delay.
    Requeue { delay_secs: u64 },
}

/// The error policy: a not-found failure schedules the entry's removal and a
/// steady-interval requeue; everything else requeues quickly and changes
/// nothing.
pub fn error_policy(resource_not_found: bool) -> (r: ErrorAction)
    ensures
        resource_not_found ==> r == (ErrorAction::RemoveAndRequeue { delay_secs: REQUEUE_SECS }),
        !resource_not_found ==> r == (ErrorAction::Requeue { delay_secs: ERROR_REQUEUE_SECS }),
{
    if resource_not_found {
        ErrorAction::RemoveAndRequeue { delay_secs: REQUEUE_SECS }
    } else {
        ErrorAction::Requeue { delay_secs: ERROR_REQUEUE_SECS }
    }
}

} // verus!
