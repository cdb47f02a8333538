//! The annotation model: the metadata keys recognized on a watched resource
//! and their decoding rules. Decoding is total — missing or malformed values
//! degrade to defaults, never to errors.

use vstd::prelude::*;
use vstd::string::*;
use crate::text::str_eq;

verus! {

/// The enable flag's key.
pub open spec fn enabled_key() -> Seq<char> {
    "api-doc.io/enabled"@
}

/// The documentation path's key.
pub open spec fn path_key() -> Seq<char> {
    "api-doc.io/path"@
}

/// The display name's key.
pub open spec fn name_key() -> Seq<char> {
    "api-doc.io/name"@
}

/// The description's key.
pub open spec fn description_key() -> Seq<char> {
    "api-doc.io/description"@
}

/// The annotation enabling documentation discovery when set to `"true"`.
pub fn api_doc_enabled_annotation() -> (r: &'static str)
    ensures
        r@ == enabled_key(),
{
    "api-doc.io/enabled"
}

/// The annotation carrying the documentation path.
pub fn api_doc_path_annotation() -> (r: &'static str)
    ensures
        r@ == path_key(),
{
    "api-doc.io/path"
}

/// The annotation carrying the display name.
pub fn api_doc_name_annotation() -> (r: &'static str)
    ensures
        r@ == name_key(),
{
    "api-doc.io/name"
}

/// The annotation carrying the free-text description.
pub fn api_doc_description_annotation() -> (r: &'static str)
    ensures
        r@ == description_key(),
{
    "api-doc.io/description"
}

/// The documentation path used when the path annotation is absent.
pub fn default_api_doc_path() -> (r: &'static str)
    ensures
        r@ == "/swagger/openapi.yml"@,
{
    "/swagger/openapi.yml"
}

/// The value of the binding of `k` at or after position `i`, first binding
/// wins.
pub open spec fn lookup_from(
    s: Seq<(Seq<char>, Seq<char>)>,
    k: Seq<char>,
    i: int,
) -> Option<Seq<char>>
    decreases s.len() - i,
{
    if i < 0 || i >= s.len() {
        None
    } else if s[i].0 == k {
        Some(s[i].1)
    } else {
        lookup_from(s, k, i + 1)
    }
}

/// The value bound to `k`, first binding wins.
pub open spec fn spec_lookup(s: Seq<(Seq<char>, Seq<char>)>, k: Seq<char>) -> Option<Seq<char>> {
    lookup_from(s, k, 0)
}

/// A resource's annotation map, a list of key/value bindings.
pub struct AnnotationMap {
    pub bindings: Vec<(String, String)>,
}

impl View for AnnotationMap {
    type V = Seq<(Seq<char>, Seq<char>)>;

    open spec fn view(&self) -> Seq<(Seq<char>, Seq<char>)> {
        self.bindings@.map_values(|p: (String, String)| (p.0@, p.1@))
    }
}

impl AnnotationMap {
    /// The empty annotation map.
    pub fn new() -> (r: AnnotationMap)
        ensures
            r@.len() == 0,
    {
        AnnotationMap { bindings: Vec::new() }
    }

    /// Appends a binding; an earlier binding of the same key keeps priority.
    pub fn add(&mut self, key: String, value: String)
        ensures
            final(self)@ == old(self)@.push((key@, value@)),
    {
        let ghost k = key@;
        let ghost v = value@;
        self.bindings.push((key, value));
        proof {
            assert(self@ =~= old(self)@.push((k, v)));
        }
    }

    /// Looks a key up; the first binding wins.
    pub fn get(&self, key: &str) -> (r: Option<&String>)
        ensures
            match r {
                Some(v) => spec_lookup(self@, key@) == Some(v@),
                None => spec_lookup(self@, key@) is None,
            },
    {
        let mut i: usize = 0;
        while i < self.bindings.len()
            invariant
                i <= self.bindings@.len(),
                spec_lookup(self@, key@) == lookup_from(self@, key@, i as int),
            decreases self.bindings@.len() - i,
        {
            if str_eq(self.bindings[i].0.as_str(), key) {
                return Some(&self.bindings[i].1);
            }
            i = i + 1;
        }
        None
    }
}

/// Whether discovery is enabled: the enable key's value equals `"true"`
/// exactly; anything else, including absence, disables.
pub open spec fn spec_enabled(m: Seq<(Seq<char>, Seq<char>)>) -> bool {
    spec_lookup(m, enabled_key()) == Some("true"@)
}

/// The documentation path: the path annotation, or the default.
pub open spec fn spec_doc_path(m: Seq<(Seq<char>, Seq<char>)>) -> Seq<char> {
    match spec_lookup(m, path_key()) {
        Some(p) => p,
        None => "/swagger/openapi.yml"@,
    }
}

/// The display name: the name annotation, or `<serviceName> API`.
pub open spec fn spec_display_name(
    m: Seq<(Seq<char>, Seq<char>)>,
    service_name: Seq<char>,
) -> Seq<char> {
    match spec_lookup(m, name_key()) {
        Some(n) => n,
        None => service_name + " API"@,
    }
}

/// The description: the description annotation; absence is a valid value.
pub open spec fn spec_description(m: Seq<(Seq<char>, Seq<char>)>) -> Option<Seq<char>> {
    spec_lookup(m, description_key())
}

/// The characters of an optional string.
pub open spec fn view_opt(o: Option<String>) -> Option<Seq<char>> {
    match o {
        Some(s) => Some(s@),
        None => None,
    }
}

/// The decoded discovery intent of a watched resource.
pub struct DocAnnotations {
    pub enabled: bool,
    pub path: String,
    pub name: String,
    pub description: Option<String>,
}

/// Decodes a resource's annotation map; a pure function of the map and the
/// service name that never fails.
pub fn decode(annotations: &AnnotationMap, service_name: &str) -> (r: DocAnnotations)
    ensures
        r.enabled == spec_enabled(annotations@),
        r.path@ == spec_doc_path(annotations@),
        r.name@ == spec_display_name(annotations@, service_name@),
        view_opt(r.description) == spec_description(annotations@),
{
    let enabled = match annotations.get(api_doc_enabled_annotation()) {
        Some(v) => str_eq(v.as_str(), "true"),
        None => false,
    };
    let path = match annotations.get(api_doc_path_annotation()) {
        Some(v) => v.clone(),
        None => String::from_str(default_api_doc_path()),
    };
    let name = match annotations.get(api_doc_name_annotation()) {
        Some(v) => v.clone(),
        None => {
            let mut n = service_name.to_owned();
            n.append(" API");
            n
        },
    };
    let description = match annotations.get(api_doc_description_annotation()) {
        Some(v) => Some(v.clone()),
        None => None,
    };
    DocAnnotations { enabled, path, name, description }
}

/// LAW — absent enable key means disabled: a map without the enable key
/// always decodes as disabled.
pub proof fn lemma_disabled_without_enable_key(m: Seq<(Seq<char>, Seq<char>)>)
    requires
        spec_lookup(m, enabled_key()) is None,
    ensures
        !spec_enabled(m),
{
}

} // verus!
