//! The viewer's catalogue plumbing: cache file naming, the renderer-neutral
//! API list handed to frontends, and the per-entry refresh decision. File and
//! network I/O stay with the caller.

use vstd::prelude::*;
use vstd::string::*;
use crate::annotations::view_opt;
use crate::codec::{create_default_spec, default_spec_json, push_str_chars};
use crate::entry::ApiDocEntry;
use crate::frontend::ApiInfo;
use crate::text::{chars_of_str, dec_rep, push_dec, string_of_chars};

verus! {

/// One character of a cache file name: letters, digits, dash and underscore
/// are kept, everything else becomes an underscore.
pub open spec fn sanitized_char(c: char) -> char {
    if ('a' <= c && c <= 'z') || ('A' <= c && c <= 'Z') || ('0' <= c && c <= '9') || c == '-' || c
        == '_' {
        c
    } else {
        '_'
    }
}

/// The file-name-safe image of a name.
pub open spec fn sanitized(s: Seq<char>) -> Seq<char> {
    s.map_values(|c: char| sanitized_char(c))
}

/// Maps a display name onto a file-name-safe stem.
pub fn sanitize_filename(name: &str) -> (r: String)
    ensures
        r@ == sanitized(name@),
{
    let cs = chars_of_str(name);
    let mut out: Vec<char> = Vec::new();
    let mut i: usize = 0;
    while i < cs.len()
        invariant
            i <= cs@.len(),
            cs@ == name@,
            out@ == sanitized(name@).subrange(0, i as int),
        decreases cs@.len() - i,
    {
        let c = cs[i];
        let kept = if ('a' <= c && c <= 'z') || ('A' <= c && c <= 'Z') || ('0' <= c && c <= '9')
            || c == '-' || c == '_' {
            c
        } else {
            '_'
        };
        out.push(kept);
        proof {
            assert(sanitized(name@).subrange(0, i as int).push(sanitized(name@)[i as int])
                =~= sanitized(name@).subrange(0, i + 1));
        }
        i = i + 1;
    }
    proof {
        assert(sanitized(name@).subrange(0, sanitized(name@).len() as int) =~= sanitized(name@));
    }
    string_of_chars(&out)
}

/// Where an API's specification is cached.
pub fn get_spec_file_path(cache_dir: &str, api_name: &str) -> (r: String)
    ensures
        r@ == cache_dir@ + "/"@ + sanitized(api_name@) + ".json"@,
{
    let mut out: Vec<char> = Vec::new();
    push_str_chars(&mut out, cache_dir);
    push_str_chars(&mut out, "/");
    let stem = sanitize_filename(api_name);
    push_str_chars(&mut out, stem.as_str());
    push_str_chars(&mut out, ".json");
    string_of_chars(&out)
}

/// Where an API's metadata is cached.
pub fn get_metadata_file_path(cache_dir: &str, api_name: &str) -> (r: String)
    ensures
        r@ == cache_dir@ + "/"@ + sanitized(api_name@) + ".meta.json"@,
{
    let mut out: Vec<char> = Vec::new();
    push_str_chars(&mut out, cache_dir);
    push_str_chars(&mut out, "/");
    let stem = sanitize_filename(api_name);
    push_str_chars(&mut out, stem.as_str());
    push_str_chars(&mut out, ".meta.json");
    string_of_chars(&out)
}

/// Whether a cache directory entry holds API metadata.
pub fn is_metadata_filename(name: &str) -> (r: bool)
    ensures
        r == (name@.len() >= 10 && name@.subrange(
            name@.len() - 10,
            name@.len() as int,
        ) == ".meta.json"@),
{
    let cs = chars_of_str(name);
    let n = cs.len();
    if n < 10 {
        return false;
    }
    let sv = chars_of_str(".meta.json");
    proof {
        reveal_strlit(".meta.json");
    }
    let mut i: usize = 0;
    while i < 10
        invariant
            i <= 10,
            n == name@.len(),
            n >= 10,
            cs@ == name@,
            sv@ == ".meta.json"@,
            sv@.len() == 10,
            forall|t: int|
                0 <= t < i ==> name@[n - 10 + t] == ".meta.json"@[t],
        decreases 10 - i,
    {
        if cs[n - 10 + i] != sv[i] {
            proof {
                assert(name@[n - 10 + i] != ".meta.json"@[i as int]);
                if name@.subrange(name@.len() - 10, name@.len() as int) == ".meta.json"@ {
                    assert(name@.subrange(name@.len() - 10, name@.len() as int)[i as int]
                        == name@[n - 10 + i]);
                }
            }
            return false;
        }
        i = i + 1;
    }
    proof {
        assert(name@.subrange(name@.len() - 10, name@.len() as int) =~= ".meta.json"@);
    }
    true
}

/// The percent-encoding of a text.
///
/// Named, not spelled out: the exact character classes are the outside
/// crate's; the viewer relies only on the encoding being a function of the
/// text alone.
pub uninterp spec fn url_encoded(s: Seq<char>) -> Seq<char>;

/// Relies on urlencoding::encode: percent-encodes everything outside the
/// unreserved characters, a function of the text alone.
#[verifier::external_body]
fn url_encode(s: &str) -> (r: String)
    ensures
        r@ == url_encoded(s@),
{
    urlencoding::encode(s).into_owned()
}

/// The renderer-neutral description of the catalogue: per API its display
/// name, a positional slug, and the viewer's specification route under the
/// percent-encoded name.
pub fn api_infos_of(apis: &Vec<ApiDocEntry>) -> (r: Vec<ApiInfo>)
    ensures
        r@.len() == apis@.len(),
        forall|i: int|
            0 <= i < r@.len() ==> {
                &&& (#[trigger] r@[i]).name@ == apis@[i]@.name
                &&& r@[i].slug@ == "api-"@ + dec_rep(i as nat)
                &&& r@[i].spec_url@ == "/specs/"@ + url_encoded(apis@[i]@.name)
                &&& view_opt(r@[i].description) == apis@[i]@.description
            },
{
    let mut out: Vec<ApiInfo> = Vec::new();
    let mut i: usize = 0;
    while i < apis.len()
        invariant
            i <= apis@.len(),
            out@.len() == i,
            forall|t: int|
                0 <= t < i ==> {
                    &&& (#[trigger] out@[t]).name@ == apis@[t]@.name
                    &&& out@[t].slug@ == "api-"@ + dec_rep(t as nat)
                    &&& out@[t].spec_url@ == "/specs/"@ + url_encoded(apis@[t]@.name)
                    &&& view_opt(out@[t].description) == apis@[t]@.description
                },
        decreases apis@.len() - i,
    {
        let a = &apis[i];
        let mut slug: Vec<char> = Vec::new();
        push_str_chars(&mut slug, "api-");
        push_dec(&mut slug, i as u64);
        let encoded = url_encode(a.name.as_str());
        let mut spec_url: Vec<char> = Vec::new();
        push_str_chars(&mut spec_url, "/specs/");
        push_str_chars(&mut spec_url, encoded.as_str());
        let info = ApiInfo {
            name: a.name.clone(),
            slug: string_of_chars(&slug),
            spec_url: string_of_chars(&spec_url),
            description: match &a.description {
                Some(d) => Some(d.clone()),
                None => None,
            },
        };
        out.push(info);
        i = i + 1;
    }
    out
}

/// The cache refresh of one catalogue entry: a fetched specification marks it
/// available and replaces its text; a failed fetch marks it unavailable and
/// substitutes the placeholder. Identity and timestamps are kept.
pub fn refreshed_entry(api: ApiDocEntry, fetched: Option<String>) -> (r: ApiDocEntry)
    ensures
        r@.id == api@.id,
        r@.name == api@.name,
        r@.namespace == api@.namespace,
        r@.service_name == api@.service_name,
        r@.url == api@.url,
        r@.description == api@.description,
        r@.last_updated == api@.last_updated,
        match fetched {
            Some(t) => r@.available && r@.spec == t@,
            None => !r@.available && r@.spec == default_spec_json(
                api@.name,
                "API documentation not available"@,
            ),
        },
{
    match fetched {
        Some(t) => ApiDocEntry { available: true, spec: t, ..api },
        None => {
            let placeholder = create_default_spec(
                api.name.as_str(),
                "API documentation not available",
            );
            ApiDocEntry { available: false, spec: placeholder, ..api }
        },
    }
}

} // verus!
