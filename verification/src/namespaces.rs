//! The watch-scope configuration: parsing the namespace list and validating
//! names against the cluster's naming rules. Validation failures are fatal at
//! startup only; the caller maps them to its startup error.

use vstd::prelude::*;
use vstd::string::*;
use crate::reconcile::str_views;
use crate::text::{
    lower, ascii_lowercase, str_eq, string_of_chars, trim_chars, trim_spec, trim_str, chars_of_str,
};

verus! {

/// The comma-separated segments of `s` from position `i` on, each trimmed,
/// empty segments dropped; `cur` holds the current segment's characters.
pub open spec fn segments_from(s: Seq<char>, i: int, cur: Seq<char>) -> Seq<Seq<char>>
    decreases s.len() - i,
{
    if i < 0 || i >= s.len() {
        if trim_spec(cur).len() > 0 {
            seq![trim_spec(cur)]
        } else {
            Seq::empty()
        }
    } else if s[i] == ',' {
        (if trim_spec(cur).len() > 0 {
            seq![trim_spec(cur)]
        } else {
            Seq::empty()
        }) + segments_from(s, i + 1, Seq::empty())
    } else {
        segments_from(s, i + 1, cur.push(s[i]))
    }
}

/// The watch list written in a scope value: its comma-separated segments,
/// trimmed, empty ones dropped.
pub open spec fn spec_watch_list(s: Seq<char>) -> Seq<Seq<char>> {
    segments_from(s, 0, Seq::empty())
}

/// Splits a comma-separated list, trimming each segment and dropping empty
/// ones.
pub fn split_list(s: &str) -> (r: Vec<String>)
    ensures
        str_views(r@) == spec_watch_list(s@),
{
    let cs = chars_of_str(s);
    let mut out: Vec<String> = Vec::new();
    let mut cur: Vec<char> = Vec::new();
    let mut i: usize = 0;
    while i < cs.len()
        invariant
            i <= cs@.len(),
            cs@ == s@,
            spec_watch_list(s@) == str_views(out@) + segments_from(s@, i as int, cur@),
        decreases cs@.len() - i,
    {
        let c = cs[i];
        if c == ',' {
            let t = trim_chars(&cur);
            if t.len() > 0 {
                let ghost pre = str_views(out@);
                out.push(string_of_chars(&t));
                proof {
                    assert(str_views(out@) =~= pre.push(trim_spec(cur@)));
                    assert(pre.push(trim_spec(cur@)) + segments_from(s@, i + 1, Seq::empty())
                        =~= pre + (seq![trim_spec(cur@)] + segments_from(s@, i + 1, Seq::empty())));
                }
            } else {
                proof {
                    assert(str_views(out@) + (Seq::<Seq<char>>::empty() + segments_from(
                        s@,
                        i + 1,
                        Seq::empty(),
                    )) =~= str_views(out@) + segments_from(s@, i + 1, Seq::empty()));
                }
            }
            cur = Vec::new();
        } else {
            cur.push(c);
        }
        i = i + 1;
    }
    let t = trim_chars(&cur);
    if t.len() > 0 {
        let ghost pre = str_views(out@);
        out.push(string_of_chars(&t));
        proof {
            assert(str_views(out@) =~= pre.push(trim_spec(cur@)));
            assert(pre.push(trim_spec(cur@)) =~= pre + seq![trim_spec(cur@)]);
        }
    } else {
        proof {
            assert(str_views(out@) + Seq::<Seq<char>>::empty() =~= str_views(out@));
        }
    }
    out
}

/// How the watch-scope value reads: watch everything, watch the process's own
/// namespace, or watch a finite list.
pub open spec fn spec_watch_scope(value: Option<Seq<char>>) -> Option<Seq<Seq<char>>> {
    match value {
        None => Some(seq!["current"@]),
        Some(v) => if trim_spec(v).len() == 0 {
            Some(seq!["current"@])
        } else if lower(trim_spec(v)) == "all"@ {
            None
        } else {
            Some(spec_watch_list(v))
        },
    }
}

/// Parses the watch-scope value: absent or blank means the current namespace,
/// the word `all` in any case means everything (`None`), anything else is the
/// comma-separated namespace list.
pub fn parse_watch_namespaces(value: Option<&str>) -> (r: Option<Vec<String>>)
    ensures
        match r {
            Some(l) => spec_watch_scope(match value {
                Some(v) => Some(v@),
                None => None,
            }) == Some(str_views(l@)),
            None => spec_watch_scope(match value {
                Some(v) => Some(v@),
                None => None,
            }) is None,
        },
{
    match value {
        None => {
            let mut l: Vec<String> = Vec::new();
            l.push(String::from_str("current"));
            proof {
                assert(str_views(l@) =~= seq!["current"@]);
            }
            Some(l)
        },
        Some(v) => {
            let trimmed = trim_str(v);
            if trimmed.as_str().unicode_len() == 0 {
                let mut l: Vec<String> = Vec::new();
                l.push(String::from_str("current"));
                proof {
                    assert(str_views(l@) =~= seq!["current"@]);
                    assert(trim_spec(v@).len() == 0);
                }
                Some(l)
            } else {
                let low = ascii_lowercase(trimmed.as_str());
                if str_eq(low.as_str(), "all") {
                    None
                } else {
                    Some(split_list(v))
                }
            }
        },
    }
}

/// Whether a character counts as alphanumeric for cluster names.
///
/// Named, not spelled out: the Unicode alphanumeric classification is the
/// standard library's work.
pub uninterp spec fn char_alphanumeric(c: char) -> bool;

/// Relies on char::is_alphanumeric: the Unicode classification of one
/// character, a function of the character alone.
pub assume_specification[ char::is_alphanumeric ](c: char) -> (r: bool)
    ensures
        r == char_alphanumeric(c),
;

/// A name the cluster accepts for a namespace or a document identifier:
/// nonempty, at most 63 characters, alphanumeric or dashes.
pub open spec fn spec_valid_k8s_name(s: Seq<char>) -> bool {
    &&& s.len() > 0
    &&& s.len() <= 63
    &&& forall|i: int| 0 <= i < s.len() ==> (char_alphanumeric(#[trigger] s[i]) || s[i] == '-')
}

/// Validates a namespace or document identifier against the cluster's naming
/// rules.
pub fn validate_k8s_name(s: &str) -> (r: bool)
    ensures
        r == spec_valid_k8s_name(s@),
{
    let cs = chars_of_str(s);
    if cs.len() == 0 || cs.len() > 63 {
        return false;
    }
    let mut i: usize = 0;
    while i < cs.len()
        invariant
            i <= cs@.len(),
            cs@ == s@,
            forall|t: int| 0 <= t < i ==> (char_alphanumeric(#[trigger] s@[t]) || s@[t] == '-'),
        decreases cs@.len() - i,
    {
        let c = cs[i];
        if !(c.is_alphanumeric() || c == '-') {
            return false;
        }
        i = i + 1;
    }
    true
}

/// Validates every name of a watch list; gives the index of the first
/// invalid name, so the caller can report it.
pub fn validate_watch_namespaces(list: &Vec<String>) -> (r: Option<usize>)
    ensures
        match r {
            None => forall|i: int|
                0 <= i < list@.len() ==> spec_valid_k8s_name(#[trigger] str_views(list@)[i]),
            Some(j) => j < list@.len() && !spec_valid_k8s_name(str_views(list@)[j as int]),
        },
{
    let mut i: usize = 0;
    while i < list.len()
        invariant
            i <= list@.len(),
            forall|t: int| 0 <= t < i ==> spec_valid_k8s_name(#[trigger] str_views(list@)[t]),
        decreases list@.len() - i,
    {
        if !validate_k8s_name(list[i].as_str()) {
            return Some(i);
        }
        i = i + 1;
    }
    None
}

} // verus!
