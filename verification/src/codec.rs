//! The discovery store codec: renders the catalogue as the persisted JSON
//! document and reads it back. The encoder's output is specified character by
//! character; the decoder accepts exactly the encoder's canonical form, so a
//! foreign or corrupt document reads as absent and the store converges from
//! an empty entry set.

use vstd::prelude::*;
use crate::entry::{ApiDocEntry, DiscoveryConfig, EntryModel, models, valid_timestamp, valid_timestamps};
use crate::text::{string_of_chars, chars_of_str};

verus! {

/// The RFC 3339 rendering of a catalogue timestamp.
///
/// Named, not spelled out: calendar formatting is chrono's work; the codec
/// only relies on the rendering being a function of the timestamp alone.
pub uninterp spec fn rfc3339_of(ms: u64) -> Seq<char>;

/// Relies on chrono::DateTime::from_timestamp_millis and
/// chrono::DateTime::to_rfc3339: for an in-range timestamp the pair renders a
/// fixed RFC 3339 text, a function of the millisecond value alone.
#[verifier::external_body]
pub fn format_rfc3339(ms: u64) -> (r: String)
    requires
        valid_timestamp(ms),
    ensures
        r@ == rfc3339_of(ms),
{
    match chrono::DateTime::<chrono::Utc>::from_timestamp_millis(ms as i64) {
        Some(dt) => dt.to_rfc3339(),
        None => String::new(),
    }
}

/// Relies on chrono::DateTime::parse_from_rfc3339 and
/// chrono::DateTime::timestamp_millis: parsing all valid RFC 3339 texts, it
/// inverts the rendering of every in-range timestamp.
#[verifier::external_body]
pub fn parse_rfc3339(s: &str) -> (r: Option<u64>)
    ensures
        forall|ms: u64| valid_timestamp(ms) && s@ == rfc3339_of(ms) ==> r == Some(ms),
{
    match chrono::DateTime::parse_from_rfc3339(s) {
        Ok(dt) => {
            let ms = dt.timestamp_millis();
            if ms >= 0 {
                Some(ms as u64)
            } else {
                None
            }
        },
        Err(_) => None,
    }
}

#[verifier::external_type_specification]
#[verifier::external_body]
pub struct ExValue(serde_json::Value);

/// The JSON value a text parses to, when it parses.
///
/// Named, not spelled out: the JSON grammar here is serde_json's; the
/// dispatcher relies only on parsing being a function of the text alone.
pub uninterp spec fn json_parse(s: Seq<char>) -> Option<serde_json::Value>;

/// The JSON value a YAML text parses to, when it parses.
pub uninterp spec fn yaml_parse(s: Seq<char>) -> Option<serde_json::Value>;

/// Relies on serde_json::from_str::<Value>: parsing is a function of the
/// text alone.
#[verifier::external_body]
fn json_value_from_str(s: &str) -> (r: Option<serde_json::Value>)
    ensures
        r == json_parse(s@),
{
    serde_json::from_str(s).ok()
}

/// Relies on serde_yaml::from_str::<Value>: parsing is a function of the
/// text alone.
#[verifier::external_body]
fn yaml_value_from_str(s: &str) -> (r: Option<serde_json::Value>)
    ensures
        r == yaml_parse(s@),
{
    serde_yaml::from_str(s).ok()
}

/// Why a specification text did not parse.
#[derive(PartialEq, Eq, Structural, Debug)]
pub enum SpecParseError {
    /// The text looked like JSON and serde_json refused it.
    Json,
    /// The text was taken for YAML and serde_yaml refused it.
    Yaml,
}

/// Parses specification text, JSON or YAML, to a JSON value: text whose
/// trimmed form opens with a brace is read as JSON, everything else as YAML.
pub fn parse_spec_to_json(spec_content: &str) -> (r: Result<serde_json::Value, SpecParseError>)
    ensures
        ({
            let t = crate::text::trim_spec(spec_content@);
            if t.len() > 0 && t[0] == '{' {
                match r {
                    Ok(v) => json_parse(spec_content@) == Some(v),
                    Err(e) => json_parse(spec_content@) is None && e == SpecParseError::Json,
                }
            } else {
                match r {
                    Ok(v) => yaml_parse(spec_content@) == Some(v),
                    Err(e) => yaml_parse(spec_content@) is None && e == SpecParseError::Yaml,
                }
            }
        }),
{
    let trimmed = crate::text::trim_str(spec_content);
    let tc = chars_of_str(trimmed.as_str());
    let is_json = tc.len() > 0 && tc[0] == '{';
    if is_json {
        match json_value_from_str(spec_content) {
            Some(v) => Ok(v),
            None => Err(SpecParseError::Json),
        }
    } else {
        match yaml_value_from_str(spec_content) {
            Some(v) => Ok(v),
            None => Err(SpecParseError::Yaml),
        }
    }
}

/// The lower-case hexadecimal digit for a value below sixteen.
pub open spec fn hex_digit(d: int) -> char {
    if d == 0 { '0' } else if d == 1 { '1' } else if d == 2 { '2' }
    else if d == 3 { '3' } else if d == 4 { '4' } else if d == 5 { '5' }
    else if d == 6 { '6' } else if d == 7 { '7' } else if d == 8 { '8' }
    else if d == 9 { '9' } else if d == 10 { 'a' } else if d == 11 { 'b' }
    else if d == 12 { 'c' } else if d == 13 { 'd' } else if d == 14 { 'e' }
    else { 'f' }
}

/// The JSON escape of one character: quote, backslash and the named control
/// characters by their two-character escapes, other control characters by
/// `\u00XX`, everything else by itself.
pub open spec fn esc_char(c: char) -> Seq<char> {
    if c == '"' {
        seq!['\\', '"']
    } else if c == '\\' {
        seq!['\\', '\\']
    } else if c == '\n' {
        seq!['\\', 'n']
    } else if c == '\r' {
        seq!['\\', 'r']
    } else if c == '\t' {
        seq!['\\', 't']
    } else if (c as u32) < 32 {
        seq!['\\', 'u', '0', '0', hex_digit(c as u32 as int / 16), hex_digit(c as u32 as int % 16)]
    } else {
        seq![c]
    }
}

/// The JSON escape of the first `i` characters of `s`.
pub open spec fn escaped_prefix(s: Seq<char>, i: int) -> Seq<char>
    decreases i,
{
    if i <= 0 {
        Seq::empty()
    } else {
        escaped_prefix(s, i - 1) + esc_char(s[i - 1])
    }
}

/// The JSON escape of a character sequence.
pub open spec fn escaped(s: Seq<char>) -> Seq<char> {
    escaped_prefix(s, s.len() as int)
}

/// The JSON string literal rendering a character sequence.
pub open spec fn json_string(s: Seq<char>) -> Seq<char> {
    seq!['"'] + escaped(s) + seq!['"']
}

fn hex_digit_exec(d: u32) -> (r: char)
    requires
        d < 16,
    ensures
        r == hex_digit(d as int),
{
    if d == 0 { '0' } else if d == 1 { '1' } else if d == 2 { '2' }
    else if d == 3 { '3' } else if d == 4 { '4' } else if d == 5 { '5' }
    else if d == 6 { '6' } else if d == 7 { '7' } else if d == 8 { '8' }
    else if d == 9 { '9' } else if d == 10 { 'a' } else if d == 11 { 'b' }
    else if d == 12 { 'c' } else if d == 13 { 'd' } else if d == 14 { 'e' }
    else { 'f' }
}

fn push_esc_char(out: &mut Vec<char>, c: char)
    ensures
        final(out)@ == old(out)@ + esc_char(c),
{
    if c == '"' {
        out.push('\\');
        out.push('"');
    } else if c == '\\' {
        out.push('\\');
        out.push('\\');
    } else if c == '\n' {
        out.push('\\');
        out.push('n');
    } else if c == '\r' {
        out.push('\\');
        out.push('r');
    } else if c == '\t' {
        out.push('\\');
        out.push('t');
    } else if (c as u32) < 32 {
        out.push('\\');
        out.push('u');
        out.push('0');
        out.push('0');
        out.push(hex_digit_exec((c as u32) / 16));
        out.push(hex_digit_exec((c as u32) % 16));
    } else {
        out.push(c);
    }
    proof {
        assert(final(out)@ =~= old(out)@ + esc_char(c));
    }
}

/// Appends the characters of a string slice.
pub fn push_str_chars(out: &mut Vec<char>, s: &str)
    ensures
        final(out)@ == old(out)@ + s@,
{
    let cs = chars_of_str(s);
    let mut i: usize = 0;
    while i < cs.len()
        invariant
            i <= cs@.len(),
            cs@ == s@,
            out@ == old(out)@ + s@.subrange(0, i as int),
        decreases cs@.len() - i,
    {
        out.push(cs[i]);
        proof {
            assert((old(out)@ + s@.subrange(0, i as int)).push(s@[i as int]) =~= old(out)@
                + s@.subrange(0, i + 1));
        }
        i = i + 1;
    }
    proof {
        assert(old(out)@ + s@.subrange(0, s@.len() as int) =~= old(out)@ + s@);
    }
}

/// Appends the JSON string literal rendering `s`.
pub fn push_json_string(out: &mut Vec<char>, s: &str)
    ensures
        final(out)@ == old(out)@ + json_string(s@),
{
    let cs = chars_of_str(s);
    out.push('"');
    let ghost base = out@;
    let mut i: usize = 0;
    while i < cs.len()
        invariant
            i <= cs@.len(),
            cs@ == s@,
            out@ == base + escaped_prefix(s@, i as int),
        decreases cs@.len() - i,
    {
        push_esc_char(out, cs[i]);
        proof {
            assert(base + escaped_prefix(s@, i as int) + esc_char(s@[i as int]) =~= base
                + escaped_prefix(s@, i + 1));
        }
        i = i + 1;
    }
    out.push('"');
    proof {
        assert(out@ =~= old(out)@ + json_string(s@));
    }
}

/// The JSON rendering of an optional description: a string or `null`.
pub open spec fn json_opt_string(o: Option<Seq<char>>) -> Seq<char> {
    match o {
        Some(s) => json_string(s),
        None => "null"@,
    }
}

/// The JSON rendering of a boolean.
pub open spec fn json_bool(b: bool) -> Seq<char> {
    if b {
        "true"@
    } else {
        "false"@
    }
}

/// The identifying fields of an entry's JSON object.
pub open spec fn json_of_entry_head(e: EntryModel) -> Seq<char> {
    "{\"id\":"@ + json_string(e.id) + ",\"name\":"@ + json_string(e.name) + ",\"namespace\":"@
        + json_string(e.namespace) + ",\"service_name\":"@ + json_string(e.service_name)
        + ",\"url\":"@ + json_string(e.url)
}

/// The trailing fields of an entry's JSON object.
pub open spec fn json_of_entry_tail(e: EntryModel) -> Seq<char> {
    ",\"description\":"@ + json_opt_string(e.description) + ",\"last_updated\":"@ + json_string(
        rfc3339_of(e.last_updated),
    ) + ",\"available\":"@ + json_bool(e.available) + ",\"spec\":"@ + json_string(e.spec) + "}"@
}

/// The JSON object rendering one catalogue entry.
pub open spec fn json_of_entry(e: EntryModel) -> Seq<char> {
    json_of_entry_head(e) + json_of_entry_tail(e)
}

/// The comma-separated JSON renderings of the first `i` entries.
pub open spec fn json_of_entries_prefix(s: Seq<EntryModel>, i: int) -> Seq<char>
    decreases i,
{
    if i <= 0 {
        Seq::empty()
    } else if i == 1 {
        json_of_entry(s[0])
    } else {
        json_of_entries_prefix(s, i - 1) + ","@ + json_of_entry(s[i - 1])
    }
}

/// The JSON document rendering an entry set and the document timestamp.
pub open spec fn json_of_document(s: Seq<EntryModel>, last_updated: u64) -> Seq<char> {
    "{\"apis\":["@ + json_of_entries_prefix(s, s.len() as int) + "],\"last_updated\":"@
        + json_string(rfc3339_of(last_updated)) + "}"@
}

/// Appends the JSON object rendering one entry.
#[verifier::rlimit(100)]
fn push_entry_json(out: &mut Vec<char>, e: &ApiDocEntry)
    requires
        valid_timestamp(e.last_updated),
    ensures
        final(out)@ == old(out)@ + json_of_entry(e@),
{
    push_str_chars(out, "{\"id\":");
    push_json_string(out, e.id.as_str());
    push_str_chars(out, ",\"name\":");
    push_json_string(out, e.name.as_str());
    push_str_chars(out, ",\"namespace\":");
    push_json_string(out, e.namespace.as_str());
    push_str_chars(out, ",\"service_name\":");
    push_json_string(out, e.service_name.as_str());
    push_str_chars(out, ",\"url\":");
    push_json_string(out, e.url.as_str());
    push_str_chars(out, ",\"description\":");
    match &e.description {
        Some(d) => push_json_string(out, d.as_str()),
        None => push_str_chars(out, "null"),
    }
    push_str_chars(out, ",\"last_updated\":");
    let ts = format_rfc3339(e.last_updated);
    push_json_string(out, ts.as_str());
    push_str_chars(out, ",\"available\":");
    if e.available {
        push_str_chars(out, "true");
    } else {
        push_str_chars(out, "false");
    }
    push_str_chars(out, ",\"spec\":");
    push_json_string(out, e.spec.as_str());
    push_str_chars(out, "}");
    proof {
        assert(final(out)@ =~= old(out)@ + json_of_entry(e@));
    }
}

/// Renders the persisted discovery document: the entry set under `apis` and
/// the document's own timestamp under `last_updated`, both as the external
/// interface fixes them.
pub fn encode_document(apis: &Vec<ApiDocEntry>, last_updated: u64) -> (r: String)
    requires
        valid_timestamp(last_updated),
        forall|i: int| 0 <= i < apis@.len() ==> valid_timestamp(#[trigger] apis@[i]@.last_updated),
    ensures
        r@ == json_of_document(models(apis@), last_updated),
{
    let ghost ms = models(apis@);
    let mut out: Vec<char> = Vec::new();
    push_str_chars(&mut out, "{\"apis\":[");
    let ghost base = out@;
    let mut i: usize = 0;
    while i < apis.len()
        invariant
            i <= apis@.len(),
            ms == models(apis@),
            forall|t: int| 0 <= t < apis@.len() ==> valid_timestamp(#[trigger] apis@[t]@.last_updated),
            out@ == base + json_of_entries_prefix(ms, i as int),
        decreases apis@.len() - i,
    {
        if i > 0 {
            push_str_chars(&mut out, ",");
        }
        proof {
            assert(valid_timestamp(apis@[i as int]@.last_updated));
            assert(apis@[i as int]@.last_updated == apis@[i as int].last_updated);
        }
        push_entry_json(&mut out, &apis[i]);
        proof {
            if i == 0 {
                assert(out@ =~= base + json_of_entries_prefix(ms, 1));
            } else {
                assert(out@ =~= base + json_of_entries_prefix(ms, i + 1));
            }
        }
        i = i + 1;
    }
    push_str_chars(&mut out, "],\"last_updated\":");
    let ts = format_rfc3339(last_updated);
    push_json_string(&mut out, ts.as_str());
    push_str_chars(&mut out, "}");
    proof {
        assert(out@ =~= json_of_document(ms, last_updated));
    }
    string_of_chars(&out)
}

// --- the decoder ---
//
// The decoder reads back exactly the encoder's canonical form. A document in
// any other shape — foreign, hand-edited or corrupt — reads as absent, and
// the sync engine starts from the empty entry set, as the store contract
// allows: the document is written by this system alone.

/// The character a named escape stands for.
pub open spec fn unesc(c: char) -> Option<char> {
    if c == '"' {
        Some('"')
    } else if c == '\\' {
        Some('\\')
    } else if c == 'n' {
        Some('\n')
    } else if c == 'r' {
        Some('\r')
    } else if c == 't' {
        Some('\t')
    } else {
        None
    }
}

/// The value of a lower-case hexadecimal digit, or a negative number.
pub open spec fn hex_val(c: char) -> int {
    if c == '0' { 0 } else if c == '1' { 1 } else if c == '2' { 2 }
    else if c == '3' { 3 } else if c == '4' { 4 } else if c == '5' { 5 }
    else if c == '6' { 6 } else if c == '7' { 7 } else if c == '8' { 8 }
    else if c == '9' { 9 } else if c == 'a' { 10 } else if c == 'b' { 11 }
    else if c == 'c' { 12 } else if c == 'd' { 13 } else if c == 'e' { 14 }
    else if c == 'f' { 15 } else { -1 }
}

/// Scans a JSON string body from `i` (just after the opening quote) to its
/// closing quote: the unescaped content and the index after the quote.
pub open spec fn scan_string_at(s: Seq<char>, i: int) -> Option<(Seq<char>, int)>
    decreases s.len() - i,
{
    if i < 0 || i >= s.len() {
        None
    } else if s[i] == '"' {
        Some((Seq::empty(), i + 1))
    } else if s[i] == '\\' {
        if i + 1 >= s.len() {
            None
        } else if s[i + 1] == 'u' {
            if i + 5 >= s.len() {
                None
            } else if s[i + 2] == '0' && s[i + 3] == '0' && hex_val(s[i + 4]) >= 0 && hex_val(
                s[i + 5],
            ) >= 0 {
                let c = ((16 * hex_val(s[i + 4]) + hex_val(s[i + 5])) as u8) as char;
                match scan_string_at(s, i + 6) {
                    Some((t, j)) => Some((seq![c] + t, j)),
                    None => None,
                }
            } else {
                None
            }
        } else {
            match unesc(s[i + 1]) {
                Some(c) => match scan_string_at(s, i + 2) {
                    Some((t, j)) => Some((seq![c] + t, j)),
                    None => None,
                },
                None => None,
            }
        }
    } else {
        match scan_string_at(s, i + 1) {
            Some((t, j)) => Some((seq![s[i]] + t, j)),
            None => None,
        }
    }
}

/// The index after a fixed text at `i`, when it stands there.
pub open spec fn expect_lit(s: Seq<char>, i: int, lit: Seq<char>) -> Option<int> {
    if 0 <= i && i + lit.len() <= s.len() && s.subrange(i, i + lit.len()) == lit {
        Some(i + lit.len())
    } else {
        None
    }
}

/// Parses a JSON string literal at `i`.
pub open spec fn parse_string_at(s: Seq<char>, i: int) -> Option<(Seq<char>, int)> {
    if 0 <= i < s.len() && s[i] == '"' {
        scan_string_at(s, i + 1)
    } else {
        None
    }
}

/// Parses a JSON boolean at `i`.
pub open spec fn parse_bool_at(s: Seq<char>, i: int) -> Option<(bool, int)> {
    if expect_lit(s, i, "true"@) is Some {
        Some((true, i + "true"@.len()))
    } else if expect_lit(s, i, "false"@) is Some {
        Some((false, i + "false"@.len()))
    } else {
        None
    }
}

/// Parses a JSON string or `null` at `i`.
pub open spec fn parse_opt_string_at(s: Seq<char>, i: int) -> Option<(Option<Seq<char>>, int)> {
    if 0 <= i < s.len() && s[i] == '"' {
        match scan_string_at(s, i + 1) {
            Some((t, j)) => Some((Some(t), j)),
            None => None,
        }
    } else {
        match expect_lit(s, i, "null"@) {
            Some(j) => Some((None, j)),
            None => None,
        }
    }
}

/// Prepends a prefix to a scan's pending result.
spec fn scan_cons(p: Seq<char>, r: Option<(Seq<char>, int)>) -> Option<(Seq<char>, int)> {
    match r {
        Some((t, j)) => Some((p + t, j)),
        None => None,
    }
}

fn hex_val_exec(c: char) -> (r: i8)
    ensures
        r as int == hex_val(c),
{
    if c == '0' { 0 } else if c == '1' { 1 } else if c == '2' { 2 }
    else if c == '3' { 3 } else if c == '4' { 4 } else if c == '5' { 5 }
    else if c == '6' { 6 } else if c == '7' { 7 } else if c == '8' { 8 }
    else if c == '9' { 9 } else if c == 'a' { 10 } else if c == 'b' { 11 }
    else if c == 'c' { 12 } else if c == 'd' { 13 } else if c == 'e' { 14 }
    else if c == 'f' { 15 } else { -1 }
}

/// Scans a JSON string body, mirroring `scan_string_at`.
fn scan_string(v: &Vec<char>, i: usize) -> (r: Option<(Vec<char>, usize)>)
    requires
        i <= v@.len(),
    ensures
        match r {
            Some((t, j)) => scan_string_at(v@, i as int) == Some((t@, j as int)) && i < j
                <= v@.len(),
            None => scan_string_at(v@, i as int) is None,
        },
{
    let mut acc: Vec<char> = Vec::new();
    let mut p: usize = i;
    loop
        invariant
            i <= p <= v@.len(),
            scan_string_at(v@, i as int) == scan_cons(acc@, scan_string_at(v@, p as int)),
        decreases v@.len() - p,
    {
        if p >= v.len() {
            return None;
        }
        let c = v[p];
        if c == '"' {
            proof {
                assert(acc@ + Seq::<char>::empty() =~= acc@);
            }
            return Some((acc, p + 1));
        }
        if c == '\\' {
            if v.len() - p < 2 {
                return None;
            }
            let e = v[p + 1];
            if e == 'u' {
                if v.len() - p < 6 {
                    return None;
                }
                let h = hex_val_exec(v[p + 4]);
                let l = hex_val_exec(v[p + 5]);
                if v[p + 2] == '0' && v[p + 3] == '0' && h >= 0 && l >= 0 {
                    let code: u8 = (16 * (h as u8)) + (l as u8);
                    let c2 = code as char;
                    let ghost old_acc = acc@;
                    acc.push(c2);
                    proof {
                        assert(old_acc + (seq![c2] + scan_tail(v@, p + 6)) =~= ((old_acc.push(
                            c2,
                        )) + scan_tail(v@, p + 6)));
                    }
                    p = p + 6;
                } else {
                    return None;
                }
            } else {
                let dec: char = if e == '"' {
                    '"'
                } else if e == '\\' {
                    '\\'
                } else if e == 'n' {
                    '\n'
                } else if e == 'r' {
                    '\r'
                } else if e == 't' {
                    '\t'
                } else {
                    return None;
                };
                let ghost old_acc = acc@;
                acc.push(dec);
                proof {
                    assert(old_acc + (seq![dec] + scan_tail(v@, p + 2)) =~= ((old_acc.push(dec))
                        + scan_tail(v@, p + 2)));
                }
                p = p + 2;
            }
        } else {
            let ghost old_acc = acc@;
            acc.push(c);
            proof {
                assert(old_acc + (seq![c] + scan_tail(v@, p + 1)) =~= ((old_acc.push(c))
                    + scan_tail(v@, p + 1)));
            }
            p = p + 1;
        }
    }
}

/// The content a pending scan still yields, empty when it fails (a helper for
/// the scanning loop's bookkeeping).
spec fn scan_tail(s: Seq<char>, i: int) -> Seq<char> {
    match scan_string_at(s, i) {
        Some((t, _)) => t,
        None => Seq::empty(),
    }
}

/// Recognizes a fixed text, mirroring `expect_lit`.
fn expect_lit_exec(v: &Vec<char>, i: usize, lit: &str) -> (r: Option<usize>)
    ensures
        match r {
            Some(j) => expect_lit(v@, i as int, lit@) == Some(j as int) && i <= j <= v@.len(),
            None => expect_lit(v@, i as int, lit@) is None,
        },
{
    let lc = chars_of_str(lit);
    let n = lc.len();
    let vl = v.len();
    if i > vl || n > vl - i {
        return None;
    }
    let mut t: usize = 0;
    while t < n
        invariant
            t <= n,
            n == lit@.len(),
            lc@ == lit@,
            vl == v@.len(),
            i + n <= vl,
            forall|u: int| 0 <= u < t ==> v@[i + u] == lit@[u],
        decreases n - t,
    {
        let idx: usize = i + t;
        if v[idx] != lc[t] {
            proof {
                if v@.subrange(i as int, i + lit@.len()) == lit@ {
                    assert(v@.subrange(i as int, i + lit@.len())[t as int] == v@[i + t]);
                }
            }
            return None;
        }
        t = t + 1;
    }
    proof {
        assert(v@.subrange(i as int, i + lit@.len()) =~= lit@);
    }
    Some(i + n)
}

proof fn lemma_escaped_prefix_ext(x: Seq<char>, y: Seq<char>, i: int)
    requires
        0 <= i <= x.len(),
        i <= y.len(),
        forall|t: int| 0 <= t < i ==> x[t] == y[t],
    ensures
        escaped_prefix(x, i) == escaped_prefix(y, i),
    decreases i,
{
    if i > 0 {
        lemma_escaped_prefix_ext(x, y, i - 1);
    }
}

/// The escape of a sequence decomposes at its head.
proof fn lemma_escaped_head(x: Seq<char>)
    requires
        x.len() > 0,
    ensures
        escaped(x) == esc_char(x[0]) + escaped(x.drop_first()),
    decreases x.len(),
{
    let n = x.len() as int;
    if n == 1 {
        assert(escaped_prefix(x, 0) == Seq::<char>::empty());
        assert(x.drop_first().len() == 0);
        assert(escaped(x) =~= esc_char(x[0]) + escaped(x.drop_first()));
    } else {
        let y = x.drop_last();
        let z = x.drop_first();
        lemma_escaped_head(y);
        lemma_escaped_prefix_ext(x, y, n - 1);
        assert(escaped(x) == escaped_prefix(y, n - 1) + esc_char(x[n - 1]));
        assert(escaped(y) == escaped_prefix(y, n - 1));
        lemma_escaped_prefix_ext(z, y.drop_first(), n - 2);
        assert(z[n - 2] == x[n - 1]);
        assert(escaped(z) == escaped_prefix(z, n - 2) + esc_char(x[n - 1]));
        assert(escaped_prefix(z, n - 2) == escaped_prefix(y.drop_first(), n - 2));
        assert(escaped(y.drop_first()) == escaped_prefix(y.drop_first(), n - 2));
        assert(escaped(x) == (esc_char(x[0]) + escaped(y.drop_first())) + esc_char(x[n - 1]));
        assert((esc_char(x[0]) + escaped(y.drop_first())) + esc_char(x[n - 1]) =~= esc_char(x[0])
            + (escaped(y.drop_first()) + esc_char(x[n - 1])));
        assert(escaped(z) =~= escaped(y.drop_first()) + esc_char(x[n - 1]));
    }
}

proof fn lemma_hex_digit_val(d: int)
    requires
        0 <= d < 16,
    ensures
        hex_val(hex_digit(d)) == d,
{
}

/// The scanner inverts the escape: where the escape of `x` and a closing
/// quote stand, the scan yields `x` and stops just past the quote.
proof fn lemma_scan_escaped(s: Seq<char>, i: int, x: Seq<char>)
    requires
        0 <= i,
        i + escaped(x).len() + 1 <= s.len(),
        s.subrange(i, i + escaped(x).len() + 1) == escaped(x) + seq!['"'],
    ensures
        scan_string_at(s, i) == Some((x, i + escaped(x).len() + 1)),
    decreases x.len(),
{
    let sub = s.subrange(i, i + escaped(x).len() + 1);
    if x.len() == 0 {
        assert(escaped(x).len() == 0);
        assert(s[i] == '"') by {
            assert(sub[0] == (escaped(x) + seq!['"'])[0]);
        }
        assert(scan_string_at(s, i) == Some((Seq::<char>::empty(), i + 1)));
        assert(Seq::<char>::empty() =~= x);
    } else {
        let c = x[0];
        lemma_escaped_head(x);
        let e = esc_char(c);
        let x2 = x.drop_first();
        let rest_len = escaped(x2).len() as int;
        assert(escaped(x).len() == e.len() + rest_len);
        assert forall|t: int| 0 <= t < e.len() implies s[i + t] == e[t] by {
            assert(sub[t] == (escaped(x) + seq!['"'])[t]);
            assert(escaped(x)[t] == (e + escaped(x2))[t]);
        }
        assert(s.subrange(i + e.len(), i + e.len() + rest_len + 1) =~= escaped(x2) + seq!['"'])
            by {
            assert forall|t: int|
                0 <= t < rest_len + 1 implies s.subrange(
                i + e.len(),
                i + e.len() + rest_len + 1,
            )[t] == (escaped(x2) + seq!['"'])[t] by {
                assert(s.subrange(i + e.len(), i + e.len() + rest_len + 1)[t] == s[i + e.len()
                    + t]);
                assert(s[i + e.len() + t] == sub[e.len() + t]);
                assert(sub[e.len() + t] == (escaped(x) + seq!['"'])[e.len() + t]);
                if t < rest_len {
                    assert((escaped(x) + seq!['"'])[e.len() + t] == escaped(x)[e.len() + t]);
                    assert(escaped(x)[e.len() + t] == (e + escaped(x2))[e.len() + t]);
                }
            }
        }
        lemma_scan_escaped(s, i + e.len(), x2);
        assert(seq![c] + x2 =~= x);
        if c == '"' || c == '\\' || c == '\n' || c == '\r' || c == '\t' {
            assert(e.len() == 2);
            assert(s[i] == '\\' && unesc(s[i + 1]) == Some(c));
            assert(scan_string_at(s, i) == Some((seq![c] + x2, i + 2 + rest_len + 1)));
        } else if (c as u32) < 32 {
            assert(e.len() == 6);
            assert(s[i] == '\\' && s[i + 1] == 'u' && s[i + 2] == '0' && s[i + 3] == '0');
            let code = c as u32 as int;
            assert(s[i + 4] == hex_digit(code / 16) && s[i + 5] == hex_digit(code % 16));
            lemma_hex_digit_val(code / 16);
            lemma_hex_digit_val(code % 16);
            assert(16 * hex_val(s[i + 4]) + hex_val(s[i + 5]) == code);
            let d = (code as u8) as char;
            assert((code as u8) as int == code);
            assert(d as u32 == code);
            vstd::utf8::char_u32_cast(c, code as u32);
            vstd::utf8::char_u32_cast(d, code as u32);
            assert(d == c);
            assert(scan_string_at(s, i) == Some((seq![c] + x2, i + 6 + rest_len + 1)));
        } else {
            assert(e.len() == 1);
            assert(s[i] == c && c != '"' && c != '\\');
            assert(scan_string_at(s, i) == Some((seq![c] + x2, i + 1 + rest_len + 1)));
        }
    }
}

/// The parser of a JSON string literal inverts its renderer: where
/// `json_string(x)` stands, parsing yields `x` and stops just past it.
proof fn lemma_parse_string_inverts(s: Seq<char>, i: int, x: Seq<char>)
    requires
        0 <= i,
        i + json_string(x).len() <= s.len(),
        s.subrange(i, i + json_string(x).len()) == json_string(x),
    ensures
        parse_string_at(s, i) == Some((x, i + json_string(x).len())),
{
    let l = json_string(x).len() as int;
    let sub = s.subrange(i, i + l);
    assert(s[i] == '"') by {
        assert(sub[0] == json_string(x)[0]);
        assert(json_string(x)[0] == (seq!['"'] + escaped(x) + seq!['"'])[0]);
    }
    assert(s.subrange(i + 1, i + 1 + escaped(x).len() + 1) =~= escaped(x) + seq!['"']) by {
        assert forall|t: int|
            0 <= t < escaped(x).len() + 1 implies s.subrange(
            i + 1,
            i + 1 + escaped(x).len() + 1,
        )[t] == (escaped(x) + seq!['"'])[t] by {
            assert(s.subrange(i + 1, i + 1 + escaped(x).len() + 1)[t] == s[i + 1 + t]);
            assert(s[i + 1 + t] == sub[1 + t]);
            assert(sub[1 + t] == json_string(x)[1 + t]);
            if t < escaped(x).len() {
                assert(json_string(x)[1 + t] == escaped(x)[t]);
            } else {
                assert(json_string(x)[1 + t] == '"');
            }
        }
    }
    lemma_scan_escaped(s, i + 1, x);
}

/// A decoded entry before its timestamp text is read back: every field as
/// the document carries it.
pub ghost struct RawEntry {
    pub id: Seq<char>,
    pub name: Seq<char>,
    pub namespace: Seq<char>,
    pub service_name: Seq<char>,
    pub url: Seq<char>,
    pub description: Option<Seq<char>>,
    pub last_updated_text: Seq<char>,
    pub available: bool,
    pub spec: Seq<char>,
}

/// The raw form an entry model is persisted as.
pub open spec fn raw_of(m: EntryModel) -> RawEntry {
    RawEntry {
        id: m.id,
        name: m.name,
        namespace: m.namespace,
        service_name: m.service_name,
        url: m.url,
        description: m.description,
        last_updated_text: rfc3339_of(m.last_updated),
        available: m.available,
        spec: m.spec,
    }
}

/// Parses one entry object at `i`.
pub open spec fn parse_entry_at(s: Seq<char>, i: int) -> Option<(RawEntry, int)> {
    match expect_lit(s, i, "{\"id\":"@) {
        None => None,
        Some(p0) => match parse_string_at(s, p0) {
            None => None,
            Some((id, p1)) => match expect_lit(s, p1, ",\"name\":"@) {
                None => None,
                Some(p2) => match parse_string_at(s, p2) {
                    None => None,
                    Some((name, p3)) => match expect_lit(s, p3, ",\"namespace\":"@) {
                        None => None,
                        Some(p4) => match parse_string_at(s, p4) {
                            None => None,
                            Some((namespace, p5)) => match expect_lit(
                                s,
                                p5,
                                ",\"service_name\":"@,
                            ) {
                                None => None,
                                Some(p6) => match parse_string_at(s, p6) {
                                    None => None,
                                    Some((service_name, p7)) => match expect_lit(
                                        s,
                                        p7,
                                        ",\"url\":"@,
                                    ) {
                                        None => None,
                                        Some(p8) => match parse_string_at(s, p8) {
                                            None => None,
                                            Some((url, p9)) => parse_entry_tail_at(
                                                s,
                                                p9,
                                                RawEntry {
                                                    id,
                                                    name,
                                                    namespace,
                                                    service_name,
                                                    url,
                                                    description: None,
                                                    last_updated_text: Seq::empty(),
                                                    available: false,
                                                    spec: Seq::empty(),
                                                },
                                            ),
                                        },
                                    },
                                },
                            },
                        },
                    },
                },
            },
        },
    }
}

/// Parses the trailing fields of an entry object, from `description` on.
pub open spec fn parse_entry_tail_at(s: Seq<char>, i: int, head: RawEntry) -> Option<(RawEntry, int)> {
    match expect_lit(s, i, ",\"description\":"@) {
        None => None,
        Some(p0) => match parse_opt_string_at(s, p0) {
            None => None,
            Some((description, p1)) => match expect_lit(s, p1, ",\"last_updated\":"@) {
                None => None,
                Some(p2) => match parse_string_at(s, p2) {
                    None => None,
                    Some((ts, p3)) => match expect_lit(s, p3, ",\"available\":"@) {
                        None => None,
                        Some(p4) => match parse_bool_at(s, p4) {
                            None => None,
                            Some((available, p5)) => match expect_lit(s, p5, ",\"spec\":"@) {
                                None => None,
                                Some(p6) => match parse_string_at(s, p6) {
                                    None => None,
                                    Some((sp, p7)) => match expect_lit(s, p7, "}"@) {
                                        None => None,
                                        Some(p8) => Some(
                                            (
                                                RawEntry {
                                                    description,
                                                    last_updated_text: ts,
                                                    available,
                                                    spec: sp,
                                                    ..head
                                                },
                                                p8,
                                            ),
                                        ),
                                    },
                                },
                            },
                        },
                    },
                },
            },
        },
    }
}

/// Parses the entry list at `i`; the closing bracket is left in place.
pub open spec fn parse_entries_at(s: Seq<char>, i: int, fuel: nat) -> Option<(Seq<RawEntry>, int)>
    decreases fuel,
{
    if 0 <= i < s.len() && s[i] == ']' {
        Some((Seq::empty(), i))
    } else if fuel == 0 {
        None
    } else {
        match parse_entry_at(s, i) {
            None => None,
            Some((e, j)) => if 0 <= j < s.len() && s[j] == ',' {
                match parse_entries_at(s, j + 1, (fuel - 1) as nat) {
                    None => None,
                    Some((t, k)) => Some((seq![e] + t, k)),
                }
            } else if 0 <= j < s.len() && s[j] == ']' {
                Some((seq![e], j))
            } else {
                None
            },
        }
    }
}

/// Parses the whole persisted document: the raw entries and the document's
/// timestamp text.
pub open spec fn parse_document(s: Seq<char>) -> Option<(Seq<RawEntry>, Seq<char>)> {
    match expect_lit(s, 0, "{\"apis\":["@) {
        None => None,
        Some(p0) => match parse_entries_at(s, p0, s.len()) {
            None => None,
            Some((es, p1)) => match expect_lit(s, p1, "],\"last_updated\":"@) {
                None => None,
                Some(p2) => match parse_string_at(s, p2) {
                    None => None,
                    Some((ts, p3)) => match expect_lit(s, p3, "}"@) {
                        None => None,
                        Some(end) => if end == s.len() {
                            Some((es, ts))
                        } else {
                            None
                        },
                    },
                },
            },
        },
    }
}

/// A piece of a text known to stand at `i` also stands at its own offset.
proof fn lemma_piece_at(s: Seq<char>, i: int, whole: Seq<char>, off: int, piece: Seq<char>)
    requires
        0 <= i,
        i + whole.len() <= s.len(),
        s.subrange(i, i + whole.len()) == whole,
        0 <= off,
        off + piece.len() <= whole.len(),
        forall|t: int| 0 <= t < piece.len() ==> whole[off + t] == piece[t],
    ensures
        s.subrange(i + off, i + off + piece.len()) == piece,
{
    assert forall|t: int|
        0 <= t < piece.len() implies s.subrange(i + off, i + off + piece.len())[t] == piece[t] by {
        assert(s.subrange(i + off, i + off + piece.len())[t] == s[i + off + t]);
        assert(s[i + off + t] == s.subrange(i, i + whole.len())[off + t]);
    }
    assert(s.subrange(i + off, i + off + piece.len()) =~= piece);
}

/// The tail parser inverts the tail renderer.
#[verifier::rlimit(100)]
proof fn lemma_parse_entry_tail_inverts(s: Seq<char>, i: int, m: EntryModel, head: RawEntry)
    requires
        0 <= i,
        i + json_of_entry_tail(m).len() <= s.len(),
        s.subrange(i, i + json_of_entry_tail(m).len()) == json_of_entry_tail(m),
    ensures
        parse_entry_tail_at(s, i, head) == Some(
            (
                RawEntry {
                    description: m.description,
                    last_updated_text: rfc3339_of(m.last_updated),
                    available: m.available,
                    spec: m.spec,
                    ..head
                },
                i + json_of_entry_tail(m).len(),
            ),
        ),
{
    let w = json_of_entry_tail(m);
    let a5 = ",\"description\":"@;
    let v5 = json_opt_string(m.description);
    let a6 = ",\"last_updated\":"@;
    let v6 = json_string(rfc3339_of(m.last_updated));
    let a7 = ",\"available\":"@;
    let v7 = json_bool(m.available);
    let a8 = ",\"spec\":"@;
    let v8 = json_string(m.spec);
    let a9 = "}"@;
    let o0 = 0int;
    let o1 = o0 + a5.len();
    let o2 = o1 + v5.len();
    let o3 = o2 + a6.len();
    let o4 = o3 + v6.len();
    let o5 = o4 + a7.len();
    let o6 = o5 + v7.len();
    let o7 = o6 + a8.len();
    let o8 = o7 + v8.len();
    let o9 = o8 + a9.len();
    assert(w.len() == o9);
    lemma_piece_at(s, i, w, o0, a5);
    lemma_piece_at(s, i, w, o1, v5);
    lemma_piece_at(s, i, w, o2, a6);
    lemma_piece_at(s, i, w, o3, v6);
    lemma_piece_at(s, i, w, o4, a7);
    lemma_piece_at(s, i, w, o5, v7);
    lemma_piece_at(s, i, w, o6, a8);
    lemma_piece_at(s, i, w, o7, v8);
    lemma_piece_at(s, i, w, o8, a9);
    assert(expect_lit(s, i, a5) == Some(i + o1));
    match m.description {
        Some(d) => {
            assert(v5 == json_string(d));
            lemma_parse_string_inverts(s, i + o1, d);
            assert(s[i + o1] == '"') by {
                assert(s.subrange(i + o1, i + o2)[0] == json_string(d)[0]);
                assert(json_string(d)[0] == (seq!['"'] + escaped(d) + seq!['"'])[0]);
            }
            assert(parse_opt_string_at(s, i + o1) == Some((Some(d), i + o2)));
        },
        None => {
            reveal_strlit("null");
            assert(v5 == "null"@);
            assert(s[i + o1] == 'n') by {
                assert(s.subrange(i + o1, i + o2)[0] == "null"@[0]);
            }
            assert(s[i + o1] != '"');
            assert(expect_lit(s, i + o1, "null"@) == Some(i + o2));
            assert(parse_opt_string_at(s, i + o1) == Some((None::<Seq<char>>, i + o2)));
        },
    }
    assert(expect_lit(s, i + o2, a6) == Some(i + o3));
    lemma_parse_string_inverts(s, i + o3, rfc3339_of(m.last_updated));
    assert(expect_lit(s, i + o4, a7) == Some(i + o5));
    reveal_strlit("true");
    reveal_strlit("false");
    if m.available {
        assert(v7 == "true"@);
        assert(expect_lit(s, i + o5, "true"@) == Some(i + o6));
        assert(parse_bool_at(s, i + o5) == Some((true, i + o6)));
    } else {
        assert(v7 == "false"@);
        assert(s[i + o5] == 'f') by {
            assert(s.subrange(i + o5, i + o6)[0] == "false"@[0]);
        }
        assert(expect_lit(s, i + o5, "true"@) is None) by {
            if expect_lit(s, i + o5, "true"@) is Some {
                assert(s.subrange(i + o5, i + o5 + 4) == "true"@);
                assert(s.subrange(i + o5, i + o5 + 4)[0] == 't');
            }
        }
        assert(expect_lit(s, i + o5, "false"@) == Some(i + o6));
        assert(parse_bool_at(s, i + o5) == Some((false, i + o6)));
    }
    assert(expect_lit(s, i + o6, a8) == Some(i + o7));
    lemma_parse_string_inverts(s, i + o7, m.spec);
    assert(expect_lit(s, i + o8, a9) == Some(i + o9));
}

/// The entry parser inverts the entry renderer: where `json_of_entry(m)`
/// stands, parsing yields the raw form of `m` and stops just past it.
#[verifier::rlimit(100)]
proof fn lemma_parse_entry_inverts(s: Seq<char>, i: int, m: EntryModel)
    requires
        0 <= i,
        i + json_of_entry(m).len() <= s.len(),
        s.subrange(i, i + json_of_entry(m).len()) == json_of_entry(m),
    ensures
        parse_entry_at(s, i) == Some((raw_of(m), i + json_of_entry(m).len())),
{
    let w = json_of_entry(m);
    let h = json_of_entry_head(m);
    let a0 = "{\"id\":"@;
    let v0 = json_string(m.id);
    let a1 = ",\"name\":"@;
    let v1 = json_string(m.name);
    let a2 = ",\"namespace\":"@;
    let v2 = json_string(m.namespace);
    let a3 = ",\"service_name\":"@;
    let v3 = json_string(m.service_name);
    let a4 = ",\"url\":"@;
    let v4 = json_string(m.url);
    let o0 = 0int;
    let o1 = o0 + a0.len();
    let o2 = o1 + v0.len();
    let o3 = o2 + a1.len();
    let o4 = o3 + v1.len();
    let o5 = o4 + a2.len();
    let o6 = o5 + v2.len();
    let o7 = o6 + a3.len();
    let o8 = o7 + v3.len();
    let o9 = o8 + a4.len();
    let o10 = o9 + v4.len();
    assert(h.len() == o10);
    lemma_piece_at(s, i, w, o0, a0);
    lemma_piece_at(s, i, w, o1, v0);
    lemma_piece_at(s, i, w, o2, a1);
    lemma_piece_at(s, i, w, o3, v1);
    lemma_piece_at(s, i, w, o4, a2);
    lemma_piece_at(s, i, w, o5, v2);
    lemma_piece_at(s, i, w, o6, a3);
    lemma_piece_at(s, i, w, o7, v3);
    lemma_piece_at(s, i, w, o8, a4);
    lemma_piece_at(s, i, w, o9, v4);
    assert(expect_lit(s, i, a0) == Some(i + o1));
    lemma_parse_string_inverts(s, i + o1, m.id);
    assert(expect_lit(s, i + o2, a1) == Some(i + o3));
    lemma_parse_string_inverts(s, i + o3, m.name);
    assert(expect_lit(s, i + o4, a2) == Some(i + o5));
    lemma_parse_string_inverts(s, i + o5, m.namespace);
    assert(expect_lit(s, i + o6, a3) == Some(i + o7));
    lemma_parse_string_inverts(s, i + o7, m.service_name);
    assert(expect_lit(s, i + o8, a4) == Some(i + o9));
    lemma_parse_string_inverts(s, i + o9, m.url);
    let tail = json_of_entry_tail(m);
    assert(s.subrange(i + o10, i + o10 + tail.len()) == tail) by {
        lemma_piece_at(s, i, w, o10, tail);
    }
    let head = RawEntry {
        id: m.id,
        name: m.name,
        namespace: m.namespace,
        service_name: m.service_name,
        url: m.url,
        description: None,
        last_updated_text: Seq::empty(),
        available: false,
        spec: Seq::empty(),
    };
    lemma_parse_entry_tail_inverts(s, i + o10, m, head);
}

proof fn lemma_entries_prefix_ext(x: Seq<EntryModel>, y: Seq<EntryModel>, i: int)
    requires
        0 <= i <= x.len(),
        i <= y.len(),
        forall|t: int| 0 <= t < i ==> x[t] == y[t],
    ensures
        json_of_entries_prefix(x, i) == json_of_entries_prefix(y, i),
    decreases i,
{
    if i > 0 {
        lemma_entries_prefix_ext(x, y, i - 1);
    }
}

/// The rendered entry list decomposes at its head.
proof fn lemma_entries_prefix_head(ms: Seq<EntryModel>)
    requires
        ms.len() >= 2,
    ensures
        json_of_entries_prefix(ms, ms.len() as int) == json_of_entry(ms[0]) + ","@
            + json_of_entries_prefix(ms.drop_first(), ms.len() - 1),
    decreases ms.len(),
{
    let n = ms.len() as int;
    let z = ms.drop_first();
    if n == 2 {
        assert(json_of_entries_prefix(ms, 2) == json_of_entries_prefix(ms, 1) + ","@
            + json_of_entry(ms[1]));
        assert(json_of_entries_prefix(z, 1) == json_of_entry(z[0]));
        assert(z[0] == ms[1]);
        assert(json_of_entry(ms[0]) + ","@ + json_of_entry(ms[1]) == json_of_entry(ms[0]) + ","@
            + json_of_entries_prefix(z, 1));
    } else {
        let y = ms.drop_last();
        lemma_entries_prefix_head(y);
        lemma_entries_prefix_ext(ms, y, n - 1);
        assert(json_of_entries_prefix(ms, n) == json_of_entries_prefix(y, n - 1) + ","@
            + json_of_entry(ms[n - 1]));
        lemma_entries_prefix_ext(z, y.drop_first(), n - 2);
        assert(z[n - 2] == ms[n - 1]);
        assert(json_of_entries_prefix(z, n - 1) == json_of_entries_prefix(z, n - 2) + ","@
            + json_of_entry(ms[n - 1]));
        assert(json_of_entries_prefix(y, n - 1) == json_of_entry(ms[0]) + ","@
            + json_of_entries_prefix(y.drop_first(), n - 2));
        assert((json_of_entry(ms[0]) + ","@ + json_of_entries_prefix(y.drop_first(), n - 2)) + ","@
            + json_of_entry(ms[n - 1]) =~= json_of_entry(ms[0]) + ","@ + ((json_of_entries_prefix(
            y.drop_first(),
            n - 2,
        ) + ","@ + json_of_entry(ms[n - 1]))));
    }
}

/// The raw forms of a sequence of entry models.
pub open spec fn raws_of(ms: Seq<EntryModel>) -> Seq<RawEntry> {
    ms.map_values(|m: EntryModel| raw_of(m))
}

/// The list parser inverts the list renderer: where the rendered entries
/// stand, followed by the closing bracket, parsing yields their raw forms and
/// stops on the bracket.
#[verifier::rlimit(100)]
proof fn lemma_parse_entries_inverts(s: Seq<char>, i: int, ms: Seq<EntryModel>, fuel: nat)
    requires
        0 <= i,
        i + json_of_entries_prefix(ms, ms.len() as int).len() < s.len(),
        s.subrange(i, i + json_of_entries_prefix(ms, ms.len() as int).len())
            == json_of_entries_prefix(ms, ms.len() as int),
        s[i + json_of_entries_prefix(ms, ms.len() as int).len()] == ']',
        fuel >= ms.len(),
    ensures
        parse_entries_at(s, i, fuel) == Some(
            (raws_of(ms), i + json_of_entries_prefix(ms, ms.len() as int).len()),
        ),
    decreases ms.len(),
{
    let n = ms.len() as int;
    let w = json_of_entries_prefix(ms, n);
    reveal_strlit("{\"id\":");
    if n == 0 {
        assert(w.len() == 0);
        assert(raws_of(ms) =~= Seq::<RawEntry>::empty());
    } else {
        // the first character is the entry object's brace, not a bracket
        assert(s[i] == '{') by {
            if n == 1 {
                assert(w == json_of_entry(ms[0]));
            } else {
                lemma_entries_prefix_head(ms);
            }
            assert(s.subrange(i, i + w.len())[0] == w[0]);
            assert(json_of_entry(ms[0])[0] == "{\"id\":"@[0]);
        }
        assert(s[i] != ']');
        if n == 1 {
            assert(w == json_of_entry(ms[0]));
            lemma_parse_entry_inverts(s, i, ms[0]);
            let j = i + w.len();
            assert(s[j] == ']');
            assert(s[j] != ',');
            assert(seq![raw_of(ms[0])] =~= raws_of(ms));
        } else {
            lemma_entries_prefix_head(ms);
            let e0 = json_of_entry(ms[0]);
            let z = ms.drop_first();
            let rest = json_of_entries_prefix(z, n - 1);
            assert(w == e0 + ","@ + rest);
            reveal_strlit(",");
            assert(","@.len() == 1);
            lemma_piece_at(s, i, w, 0, e0);
            lemma_parse_entry_inverts(s, i, ms[0]);
            let j = i + e0.len();
            assert(s[j] == ',') by {
                assert(s.subrange(i, i + w.len())[e0.len() as int] == w[e0.len() as int]);
                assert(w[e0.len() as int] == ","@[0]);
            }
            assert(s.subrange(j + 1, j + 1 + rest.len()) == rest) by {
                lemma_piece_at(s, i, w, e0.len() as int + 1, rest);
            }
            assert(s[j + 1 + rest.len()] == ']');
            lemma_parse_entries_inverts(s, j + 1, z, (fuel - 1) as nat);
            assert(seq![raw_of(ms[0])] + raws_of(z) =~= raws_of(ms));
        }
    }
}

proof fn lemma_entries_prefix_len(ms: Seq<EntryModel>, i: int)
    requires
        0 <= i <= ms.len(),
    ensures
        json_of_entries_prefix(ms, i).len() >= i,
    decreases i,
{
    reveal_strlit("}");
    if i > 0 {
        lemma_entries_prefix_len(ms, i - 1);
        assert(json_of_entry_tail(ms[i - 1]).len() >= "}"@.len());
        assert(json_of_entry(ms[i - 1]).len() >= 1);
    }
}

/// The document parser inverts the document renderer.
#[verifier::rlimit(100)]
proof fn lemma_parse_document_inverts(s: Seq<char>, ms: Seq<EntryModel>, ts: u64)
    requires
        s == json_of_document(ms, ts),
    ensures
        parse_document(s) == Some((raws_of(ms), rfc3339_of(ts))),
{
    let a = "{\"apis\":["@;
    let e = json_of_entries_prefix(ms, ms.len() as int);
    let b = "],\"last_updated\":"@;
    let v = json_string(rfc3339_of(ts));
    let c = "}"@;
    let o1 = a.len() as int;
    let o2 = o1 + e.len();
    let o3 = o2 + b.len();
    let o4 = o3 + v.len();
    let o5 = o4 + c.len();
    assert(s.len() == o5);
    assert(s.subrange(0, o1) == a) by {
        assert(s.subrange(0, s.len() as int) =~= s);
        lemma_piece_at(s, 0, s, 0, a);
    }
    assert(s.subrange(o1, o2) == e) by {
        assert(s.subrange(0, s.len() as int) =~= s);
        lemma_piece_at(s, 0, s, o1, e);
    }
    assert(s.subrange(o2, o3) == b) by {
        assert(s.subrange(0, s.len() as int) =~= s);
        lemma_piece_at(s, 0, s, o2, b);
    }
    assert(s.subrange(o3, o4) == v) by {
        assert(s.subrange(0, s.len() as int) =~= s);
        lemma_piece_at(s, 0, s, o3, v);
    }
    assert(s.subrange(o4, o5) == c) by {
        assert(s.subrange(0, s.len() as int) =~= s);
        lemma_piece_at(s, 0, s, o4, c);
    }
    assert(expect_lit(s, 0, a) == Some(o1));
    reveal_strlit("],\"last_updated\":");
    assert(s[o2] == ']') by {
        assert(s.subrange(o2, o3)[0] == b[0]);
    }
    lemma_entries_prefix_len(ms, ms.len() as int);
    lemma_parse_entries_inverts(s, o1, ms, s.len());
    assert(expect_lit(s, o2, b) == Some(o3));
    lemma_parse_string_inverts(s, o3, rfc3339_of(ts));
    assert(expect_lit(s, o4, c) == Some(o5));
}

/// Parses a JSON string literal, mirroring `parse_string_at`.
fn parse_string_exec(v: &Vec<char>, i: usize) -> (r: Option<(Vec<char>, usize)>)
    ensures
        match r {
            Some((t, j)) => parse_string_at(v@, i as int) == Some((t@, j as int)) && i < j
                <= v@.len(),
            None => parse_string_at(v@, i as int) is None,
        },
{
    if i >= v.len() {
        return None;
    }
    if v[i] != '"' {
        return None;
    }
    scan_string(v, i + 1)
}

/// Parses a JSON boolean, mirroring `parse_bool_at`.
fn parse_bool_exec(v: &Vec<char>, i: usize) -> (r: Option<(bool, usize)>)
    ensures
        match r {
            Some((b, j)) => parse_bool_at(v@, i as int) == Some((b, j as int)) && j <= v@.len(),
            None => parse_bool_at(v@, i as int) is None,
        },
{
    match expect_lit_exec(v, i, "true") {
        Some(j) => Some((true, j)),
        None => match expect_lit_exec(v, i, "false") {
            Some(j) => Some((false, j)),
            None => None,
        },
    }
}

/// Parses a JSON string or `null`, mirroring `parse_opt_string_at`.
fn parse_opt_string_exec(v: &Vec<char>, i: usize) -> (r: Option<(Option<Vec<char>>, usize)>)
    ensures
        match r {
            Some((t, j)) => j <= v@.len() && (match t {
                Some(t0) => parse_opt_string_at(v@, i as int) == Some(
                    (Some(t0@), j as int),
                ),
                None => parse_opt_string_at(v@, i as int) == Some(
                    (None::<Seq<char>>, j as int),
                ),
            }),
            None => parse_opt_string_at(v@, i as int) is None,
        },
{
    if i < v.len() && v[i] == '"' {
        match scan_string(v, i + 1) {
            Some((t, j)) => Some((Some(t), j)),
            None => None,
        }
    } else {
        match expect_lit_exec(v, i, "null") {
            Some(j) => Some((None, j)),
            None => None,
        }
    }
}

/// Parses one entry object, converting its timestamp text back to the stored
/// millisecond value; an entry whose timestamp text no in-range timestamp
/// renders is refused.
fn parse_entry_exec(v: &Vec<char>, i: usize) -> (r: Option<(ApiDocEntry, usize)>)
    ensures
        match r {
            Some((e, j)) => i < j <= v@.len() && (match parse_entry_at(v@, i as int) {
                Some((raw, j2)) => {
                    &&& j2 == j as int
                    &&& e@.id == raw.id
                    &&& e@.name == raw.name
                    &&& e@.namespace == raw.namespace
                    &&& e@.service_name == raw.service_name
                    &&& e@.url == raw.url
                    &&& e@.description == raw.description
                    &&& e@.available == raw.available
                    &&& e@.spec == raw.spec
                    &&& valid_timestamp(e@.last_updated)
                    &&& (forall|m: u64|
                        valid_timestamp(m) && raw.last_updated_text == rfc3339_of(m)
                            ==> e@.last_updated == m)
                },
                None => false,
            }),
            None => match parse_entry_at(v@, i as int) {
                Some((raw, _)) => raw_ts_unrenderable(raw),
                None => true,
            },
        },
{
    let p0 = match expect_lit_exec(v, i, "{\"id\":") {
        Some(p) => p,
        None => {
            return None;
        },
    };
    let (id, p1) = match parse_string_exec(v, p0) {
        Some(x) => x,
        None => {
            return None;
        },
    };
    let p2 = match expect_lit_exec(v, p1, ",\"name\":") {
        Some(p) => p,
        None => {
            return None;
        },
    };
    let (name, p3) = match parse_string_exec(v, p2) {
        Some(x) => x,
        None => {
            return None;
        },
    };
    let p4 = match expect_lit_exec(v, p3, ",\"namespace\":") {
        Some(p) => p,
        None => {
            return None;
        },
    };
    let (namespace, p5) = match parse_string_exec(v, p4) {
        Some(x) => x,
        None => {
            return None;
        },
    };
    let p6 = match expect_lit_exec(v, p5, ",\"service_name\":") {
        Some(p) => p,
        None => {
            return None;
        },
    };
    let (service_name, p7) = match parse_string_exec(v, p6) {
        Some(x) => x,
        None => {
            return None;
        },
    };
    let p8 = match expect_lit_exec(v, p7, ",\"url\":") {
        Some(p) => p,
        None => {
            return None;
        },
    };
    let (url, p9) = match parse_string_exec(v, p8) {
        Some(x) => x,
        None => {
            return None;
        },
    };
    let p10 = match expect_lit_exec(v, p9, ",\"description\":") {
        Some(p) => p,
        None => {
            return None;
        },
    };
    let (description, p11) = match parse_opt_string_exec(v, p10) {
        Some(x) => x,
        None => {
            return None;
        },
    };
    let p12 = match expect_lit_exec(v, p11, ",\"last_updated\":") {
        Some(p) => p,
        None => {
            return None;
        },
    };
    let (ts_chars, p13) = match parse_string_exec(v, p12) {
        Some(x) => x,
        None => {
            return None;
        },
    };
    let p14 = match expect_lit_exec(v, p13, ",\"available\":") {
        Some(p) => p,
        None => {
            return None;
        },
    };
    let (available, p15) = match parse_bool_exec(v, p14) {
        Some(x) => x,
        None => {
            return None;
        },
    };
    let p16 = match expect_lit_exec(v, p15, ",\"spec\":") {
        Some(p) => p,
        None => {
            return None;
        },
    };
    let (spec_chars, p17) = match parse_string_exec(v, p16) {
        Some(x) => x,
        None => {
            return None;
        },
    };
    let p18 = match expect_lit_exec(v, p17, "}") {
        Some(p) => p,
        None => {
            return None;
        },
    };
    let ts_text = string_of_chars(&ts_chars);
    let last_updated = match parse_rfc3339(ts_text.as_str()) {
        Some(ms) => {
            if ms <= crate::entry::MAX_TIMESTAMP_MS {
                ms
            } else {
                return None;
            }
        },
        None => {
            return None;
        },
    };
    proof {
        assert(i <= p0 < p1 <= p2 < p3 <= p4 < p5 <= p6 < p7 <= p8 < p9 <= p10);
        assert(p10 <= p11) by {
            if parse_opt_string_at(v@, p10 as int) is Some {
                if 0 <= p10 < v@.len() && v@[p10 as int] == '"' {
                    lemma_scan_advances(v@, p10 as int + 1);
                }
            }
        }
        assert(p11 <= p12 < p13 <= p14 <= p15 <= p16 < p17 <= p18);
    }
    let entry = ApiDocEntry {
        id: string_of_chars(&id),
        name: string_of_chars(&name),
        namespace: string_of_chars(&namespace),
        service_name: string_of_chars(&service_name),
        url: string_of_chars(&url),
        description: match description {
            Some(d) => Some(string_of_chars(&d)),
            None => None,
        },
        last_updated,
        available,
        spec: string_of_chars(&spec_chars),
    };
    Some((entry, p18))
}

proof fn lemma_scan_advances(s: Seq<char>, i: int)
    requires
        scan_string_at(s, i) is Some,
    ensures
        i < scan_string_at(s, i).unwrap().1 <= s.len(),
    decreases s.len() - i,
{
    if s[i] == '"' {
    } else if s[i] == '\\' {
        if s[i + 1] == 'u' {
            lemma_scan_advances(s, i + 6);
        } else {
            lemma_scan_advances(s, i + 2);
        }
    } else {
        lemma_scan_advances(s, i + 1);
    }
}

proof fn lemma_parse_entry_advances(s: Seq<char>, i: int)
    requires
        parse_entry_at(s, i) is Some,
    ensures
        i < parse_entry_at(s, i).unwrap().1 <= s.len(),
{
    let p0 = expect_lit(s, i, "{\"id\":"@).unwrap();
    lemma_scan_advances(s, p0 + 1);
    let p1 = parse_string_at(s, p0).unwrap().1;
    let p2 = expect_lit(s, p1, ",\"name\":"@).unwrap();
    lemma_scan_advances(s, p2 + 1);
    let p3 = parse_string_at(s, p2).unwrap().1;
    let p4 = expect_lit(s, p3, ",\"namespace\":"@).unwrap();
    lemma_scan_advances(s, p4 + 1);
    let p5 = parse_string_at(s, p4).unwrap().1;
    let p6 = expect_lit(s, p5, ",\"service_name\":"@).unwrap();
    lemma_scan_advances(s, p6 + 1);
    let p7 = parse_string_at(s, p6).unwrap().1;
    let p8 = expect_lit(s, p7, ",\"url\":"@).unwrap();
    lemma_scan_advances(s, p8 + 1);
    let p9 = parse_string_at(s, p8).unwrap().1;
    let p10 = expect_lit(s, p9, ",\"description\":"@).unwrap();
    if 0 <= p10 < s.len() && s[p10] == '"' {
        lemma_scan_advances(s, p10 + 1);
    }
    let p11 = parse_opt_string_at(s, p10).unwrap().1;
    let p12 = expect_lit(s, p11, ",\"last_updated\":"@).unwrap();
    lemma_scan_advances(s, p12 + 1);
    let p13 = parse_string_at(s, p12).unwrap().1;
    let p14 = expect_lit(s, p13, ",\"available\":"@).unwrap();
    let p15 = parse_bool_at(s, p14).unwrap().1;
    let p16 = expect_lit(s, p15, ",\"spec\":"@).unwrap();
    lemma_scan_advances(s, p16 + 1);
    let p17 = parse_string_at(s, p16).unwrap().1;
    let p18 = expect_lit(s, p17, "}"@).unwrap();
}

/// Once the fuel covers the remaining text, more changes nothing.
proof fn lemma_entries_fuel(s: Seq<char>, i: int, f1: nat, f2: nat)
    requires
        0 <= i,
        f1 >= s.len() - i,
        f2 >= s.len() - i,
    ensures
        parse_entries_at(s, i, f1) == parse_entries_at(s, i, f2),
    decreases f1 + f2,
{
    if 0 <= i < s.len() && s[i] == ']' {
    } else if i >= s.len() {
        // no fuel is enough past the end: the entry parser refuses
        assert(expect_lit(s, i, "{\"id\":"@) is None) by {
            reveal_strlit("{\"id\":");
        }
    } else {
        match parse_entry_at(s, i) {
            None => {},
            Some((e, j)) => {
                lemma_parse_entry_advances(s, i);
                if 0 <= j < s.len() && s[j] == ',' {
                    lemma_entries_fuel(s, j + 1, (f1 - 1) as nat, (f2 - 1) as nat);
                }
            },
        }
    }
}

/// Whether no storable timestamp renders a raw entry's timestamp text.
pub open spec fn raw_ts_unrenderable(raw: RawEntry) -> bool {
    forall|m: u64| valid_timestamp(m) ==> raw.last_updated_text != rfc3339_of(m)
}

/// Whether a decoded entry carries a raw entry's content: equal fields, and a
/// timestamp that any in-range rendering of the raw timestamp text pins.
pub open spec fn entry_matches_raw(m: EntryModel, raw: RawEntry) -> bool {
    &&& m.id == raw.id
    &&& m.name == raw.name
    &&& m.namespace == raw.namespace
    &&& m.service_name == raw.service_name
    &&& m.url == raw.url
    &&& m.description == raw.description
    &&& m.available == raw.available
    &&& m.spec == raw.spec
    &&& valid_timestamp(m.last_updated)
    &&& (forall|mm: u64|
        valid_timestamp(mm) && raw.last_updated_text == rfc3339_of(mm) ==> m.last_updated == mm)
}

/// Parses the entry list, mirroring `parse_entries_at`; an entry whose
/// timestamp text no in-range timestamp renders is refused.
fn parse_entries_exec(v: &Vec<char>, i: usize) -> (r: Option<(Vec<ApiDocEntry>, usize)>)
    requires
        i <= v@.len(),
    ensures
        match r {
            Some((es, j)) => j <= v@.len() && (match parse_entries_at(
                v@,
                i as int,
                v@.len() as nat,
            ) {
                Some((rws, j2)) => j2 == j as int && rws.len() == es@.len() && (forall|t: int|
                    0 <= t < rws.len() ==> entry_matches_raw(
                        #[trigger] models(es@)[t],
                        rws[t],
                    )),
                None => false,
            }),
            None => match parse_entries_at(v@, i as int, v@.len() as nat) {
                Some((rws, _)) => exists|t: int|
                    0 <= t < rws.len() && raw_ts_unrenderable(#[trigger] rws[t]),
                None => true,
            },
        },
    decreases v@.len() - i,
{
    if i < v.len() && v[i] == ']' {
        let es: Vec<ApiDocEntry> = Vec::new();
        proof {
            assert(models(es@) =~= Seq::<EntryModel>::empty());
        }
        return Some((es, i));
    }
    let ghost fuel = v@.len() as nat;
    proof {
        if i >= v@.len() {
            reveal_strlit("{\"id\":");
            assert(expect_lit(v@, i as int, "{\"id\":"@) is None);
        }
    }
    match parse_entry_exec(v, i) {
        None => {
            proof {
                if parse_entries_at(v@, i as int, fuel) is Some {
                    let (rws, _) = parse_entries_at(v@, i as int, fuel).unwrap();
                    // the head raw entry of the list is the refused one
                    assert(parse_entry_at(v@, i as int) is Some);
                    let raw = parse_entry_at(v@, i as int).unwrap().0;
                    assert(rws[0] == raw);
                    assert(0 < rws.len());
                    assert(raw_ts_unrenderable(rws[0]));
                }
            }
            None
        },
        Some((e, j)) => {
            if j < v.len() && v[j] == ',' {
                proof {
                    lemma_entries_fuel(v@, j + 1, v@.len() as nat, (fuel - 1) as nat);
                }
                match parse_entries_exec(v, j + 1) {
                    None => {
                        proof {
                            if parse_entries_at(v@, i as int, fuel) is Some {
                                let rws = parse_entries_at(v@, i as int, fuel).unwrap().0;
                                let rest = parse_entries_at(
                                    v@,
                                    j + 1,
                                    (fuel - 1) as nat,
                                ).unwrap().0;
                                let t0 = choose|t: int|
                                    0 <= t < rest.len() && raw_ts_unrenderable(#[trigger] rest[t]);
                                assert(rws[t0 + 1] == rest[t0]);
                                assert(raw_ts_unrenderable(rws[t0 + 1]));
                            }
                        }
                        None
                    },
                    Some((tail, k)) => {
                        let ghost tail_view = tail@;
                        let mut es: Vec<ApiDocEntry> = Vec::new();
                        es.push(e);
                        let mut rest = tail;
                        es.append(&mut rest);
                        proof {
                            let raw = parse_entry_at(v@, i as int).unwrap().0;
                            let rest_rws = parse_entries_at(
                                v@,
                                j + 1,
                                (fuel - 1) as nat,
                            ).unwrap().0;
                            let rws = parse_entries_at(v@, i as int, fuel).unwrap().0;
                            assert(rws == seq![raw] + rest_rws);
                            assert(es@ =~= seq![e] + tail_view);
                            assert forall|t: int|
                                0 <= t < rws.len() implies entry_matches_raw(
                                #[trigger] models(es@)[t],
                                rws[t],
                            ) by {
                                if t == 0 {
                                    assert(models(es@)[0] == e@);
                                    assert(rws[0] == raw);
                                } else {
                                    assert(es@[t] == tail_view[t - 1]);
                                    assert(models(es@)[t] == models(tail_view)[t - 1]);
                                    assert(rws[t] == rest_rws[t - 1]);
                                }
                            }
                        }
                        Some((es, k))
                    },
                }
            } else if j < v.len() && v[j] == ']' {
                let mut es: Vec<ApiDocEntry> = Vec::new();
                es.push(e);
                proof {
                    let raw = parse_entry_at(v@, i as int).unwrap().0;
                    assert(parse_entries_at(v@, i as int, fuel).unwrap().0 =~= seq![raw]);
                    assert(models(es@)[0] == e@);
                }
                Some((es, j))
            } else {
                None
            }
        },
    }
}

/// Reads the persisted discovery document back. Exactly the encoder's
/// canonical form is accepted — decoding inverts encoding, as the second
/// ensures states — and a foreign or corrupt text reads as absent, which the
/// sync engine treats as the empty catalogue.
pub fn decode_document(s: &str) -> (r: Option<DiscoveryConfig>)
    ensures
        match r {
            Some(c) => valid_timestamp(c.last_updated) && valid_timestamps(models(c.apis@)),
            None => true,
        },
        forall|ms: Seq<EntryModel>, ts: u64|
            valid_timestamps(ms) && valid_timestamp(ts) && s@ == #[trigger] json_of_document(
                ms,
                ts,
            ) ==> match r {
                Some(c) => models(c.apis@) == ms && c.last_updated == ts,
                None => false,
            },
{
    let v = chars_of_str(s);
    let p0 = match expect_lit_exec(&v, 0, "{\"apis\":[") {
        Some(p) => p,
        None => {
            proof {
                assert forall|ms: Seq<EntryModel>, ts: u64|
                    valid_timestamps(ms) && valid_timestamp(ts) && s@
                        == #[trigger] json_of_document(ms, ts) implies false by {
                    lemma_parse_document_inverts(s@, ms, ts);
                }
            }
            return None;
        },
    };
    let (entries, p1) = match parse_entries_exec(&v, p0) {
        Some(x) => x,
        None => {
            proof {
                assert forall|ms: Seq<EntryModel>, ts: u64|
                    valid_timestamps(ms) && valid_timestamp(ts) && s@
                        == #[trigger] json_of_document(ms, ts) implies false by {
                    lemma_parse_document_inverts(s@, ms, ts);
                    let rws = parse_entries_at(v@, p0 as int, v@.len() as nat).unwrap().0;
                    assert(rws == raws_of(ms));
                    let t0 = choose|t: int|
                        0 <= t < rws.len() && raw_ts_unrenderable(#[trigger] rws[t]);
                    assert(rws[t0] == raw_of(ms[t0]));
                    assert(valid_timestamp(ms[t0].last_updated));
                    assert(rws[t0].last_updated_text == rfc3339_of(ms[t0].last_updated));
                }
            }
            return None;
        },
    };
    let p2 = match expect_lit_exec(&v, p1, "],\"last_updated\":") {
        Some(p) => p,
        None => {
            proof {
                assert forall|ms: Seq<EntryModel>, ts: u64|
                    valid_timestamps(ms) && valid_timestamp(ts) && s@
                        == #[trigger] json_of_document(ms, ts) implies false by {
                    lemma_parse_document_inverts(s@, ms, ts);
                }
            }
            return None;
        },
    };
    let (ts_chars, p3) = match parse_string_exec(&v, p2) {
        Some(x) => x,
        None => {
            proof {
                assert forall|ms: Seq<EntryModel>, ts: u64|
                    valid_timestamps(ms) && valid_timestamp(ts) && s@
                        == #[trigger] json_of_document(ms, ts) implies false by {
                    lemma_parse_document_inverts(s@, ms, ts);
                }
            }
            return None;
        },
    };
    let p4 = match expect_lit_exec(&v, p3, "}") {
        Some(p) => p,
        None => {
            proof {
                assert forall|ms: Seq<EntryModel>, ts: u64|
                    valid_timestamps(ms) && valid_timestamp(ts) && s@
                        == #[trigger] json_of_document(ms, ts) implies false by {
                    lemma_parse_document_inverts(s@, ms, ts);
                }
            }
            return None;
        },
    };
    if p4 != v.len() {
        proof {
            assert forall|ms: Seq<EntryModel>, ts: u64|
                valid_timestamps(ms) && valid_timestamp(ts) && s@ == #[trigger] json_of_document(
                    ms,
                    ts,
                ) implies false by {
                lemma_parse_document_inverts(s@, ms, ts);
            }
        }
        return None;
    }
    let ts_text = string_of_chars(&ts_chars);
    let last_updated = match parse_rfc3339(ts_text.as_str()) {
        Some(ms0) => {
            if ms0 <= crate::entry::MAX_TIMESTAMP_MS {
                ms0
            } else {
                proof {
                    assert forall|ms: Seq<EntryModel>, ts: u64|
                        valid_timestamps(ms) && valid_timestamp(ts) && s@
                            == #[trigger] json_of_document(ms, ts) implies false by {
                        lemma_parse_document_inverts(s@, ms, ts);
                        assert(ts_chars@ == rfc3339_of(ts));
                    }
                }
                return None;
            }
        },
        None => {
            proof {
                assert forall|ms: Seq<EntryModel>, ts: u64|
                    valid_timestamps(ms) && valid_timestamp(ts) && s@
                        == #[trigger] json_of_document(ms, ts) implies false by {
                    lemma_parse_document_inverts(s@, ms, ts);
                    assert(ts_chars@ == rfc3339_of(ts));
                }
            }
            return None;
        },
    };
    let c = DiscoveryConfig { apis: entries, last_updated };
    proof {
        assert forall|ms: Seq<EntryModel>, ts: u64|
            valid_timestamps(ms) && valid_timestamp(ts) && s@ == #[trigger] json_of_document(
                ms,
                ts,
            ) implies models(c.apis@) == ms && c.last_updated == ts by {
            lemma_parse_document_inverts(s@, ms, ts);
            let rws = parse_entries_at(v@, p0 as int, v@.len() as nat).unwrap().0;
            assert(rws == raws_of(ms));
            assert(ts_chars@ == rfc3339_of(ts));
            assert(c.last_updated == ts);
            assert forall|t: int| 0 <= t < ms.len() implies models(c.apis@)[t] == ms[t] by {
                assert(rws[t] == raw_of(ms[t]));
                assert(entry_matches_raw(models(c.apis@)[t], rws[t]));
                assert(valid_timestamp(ms[t].last_updated));
                assert(models(c.apis@)[t].last_updated == ms[t].last_updated);
            }
            assert(models(c.apis@) =~= ms);
        }
    }
    Some(c)
}

/// The synthetic placeholder specification: a minimal JSON document carrying
/// the API's display name and the given description.
pub open spec fn default_spec_json(name: Seq<char>, description: Seq<char>) -> Seq<char> {
    "{\"openapi\":\"3.0.0\",\"info\":{\"title\":"@ + json_string(name)
        + ",\"version\":\"1.0.0\",\"description\":"@ + json_string(description)
        + "},\"paths\":{}}"@
}

/// Builds the placeholder specification substituted when a live
/// specification cannot be fetched.
pub fn create_default_spec(name: &str, description: &str) -> (r: String)
    ensures
        r@ == default_spec_json(name@, description@),
{
    let mut out: Vec<char> = Vec::new();
    push_str_chars(&mut out, "{\"openapi\":\"3.0.0\",\"info\":{\"title\":");
    push_json_string(&mut out, name);
    push_str_chars(&mut out, ",\"version\":\"1.0.0\",\"description\":");
    push_json_string(&mut out, description);
    push_str_chars(&mut out, "},\"paths\":{}}");
    proof {
        assert(out@ =~= default_spec_json(name@, description@));
    }
    string_of_chars(&out)
}

} // verus!
