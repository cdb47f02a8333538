//! The documentation renderers behind the catalogue viewer: a capability
//! interface over concrete frontends selected by configuration. The scalar
//! renderer embeds a verified configuration text into an outside HTML
//! template; the redoc renderer's markup is built and specified here in full.

use vstd::prelude::*;
use vstd::string::*;
use crate::annotations::view_opt;
use crate::codec::{json_bool, json_string, push_json_string, push_str_chars};
use crate::config::{
    FrontendConfig, FrontendOptions, RedocConfig, ScalarConfig, redoc_is_default,
    scalar_is_default,
};
use crate::text::{ascii_lowercase, lower, str_eq, string_of_chars};

verus! {

/// A documentation renderer: catalogue in, markup out.
pub trait DocFrontend {
    /// The documentation page for the given APIs.
    fn generate_html(&self, apis: &Vec<ApiInfo>) -> String;

    /// The page shown when no APIs are known.
    fn generate_empty_html(&self) -> String;
}

/// What a renderer needs of one API.
pub struct ApiInfo {
    pub name: String,
    pub slug: String,
    pub spec_url: String,
    pub description: Option<String>,
}

impl Clone for ApiInfo {
    fn clone(&self) -> (r: Self)
        ensures
            r.name@ == self.name@,
            r.slug@ == self.slug@,
            r.spec_url@ == self.spec_url@,
    {
        ApiInfo {
            name: self.name.clone(),
            slug: self.slug.clone(),
            spec_url: self.spec_url.clone(),
            description: match &self.description {
                Some(d) => Some(d.clone()),
                None => None,
            },
        }
    }
}

/// The available renderer kinds.
#[derive(Clone, Copy, PartialEq, Eq, Structural, Debug)]
pub enum FrontendType {
    Scalar,
    Redoc,
}

/// The canonical name of a renderer kind.
pub open spec fn spec_frontend_name(t: FrontendType) -> Seq<char> {
    match t {
        FrontendType::Scalar => "scalar"@,
        FrontendType::Redoc => "redoc"@,
    }
}

/// The renderer kind a name denotes, case-insensitively.
pub open spec fn spec_frontend_of_name(s: Seq<char>) -> Option<FrontendType> {
    if lower(s) == "scalar"@ {
        Some(FrontendType::Scalar)
    } else if lower(s) == "redoc"@ {
        Some(FrontendType::Redoc)
    } else {
        None
    }
}

impl FrontendType {
    /// The canonical name of this renderer kind.
    pub fn as_str(&self) -> (r: &'static str)
        ensures
            r@ == spec_frontend_name(*self),
    {
        match self {
            FrontendType::Scalar => "scalar",
            FrontendType::Redoc => "redoc",
        }
    }

    /// Parses a renderer kind from its name, case-insensitively.
    pub fn from_str(s: &str) -> (r: Option<FrontendType>)
        ensures
            r == spec_frontend_of_name(s@),
    {
        let low = ascii_lowercase(s);
        if str_eq(low.as_str(), "scalar") {
            Some(FrontendType::Scalar)
        } else if str_eq(low.as_str(), "redoc") {
            Some(FrontendType::Redoc)
        } else {
            None
        }
    }
}

/// The scalar renderer: holds its options, renders through the outside
/// template.
pub struct ScalarFrontend {
    pub config: ScalarConfig,
}

impl ScalarFrontend {
    /// A scalar renderer with the given options.
    pub fn new(config: ScalarConfig) -> (r: ScalarFrontend)
        ensures
            r.config == config,
    {
        ScalarFrontend { config }
    }
}

/// The redoc renderer: holds its options, builds its markup here.
pub struct RedocFrontend {
    pub config: RedocConfig,
}

impl RedocFrontend {
    /// A redoc renderer with the given options.
    pub fn new(config: RedocConfig) -> (r: RedocFrontend)
        ensures
            r.config == config,
    {
        RedocFrontend { config }
    }
}

impl Default for RedocFrontend {
    fn default() -> (r: Self)
        ensures
            redoc_is_default(r.config),
    {
        RedocFrontend { config: RedocConfig::default() }
    }
}

/// What the redoc renderer needs of one API.
pub struct RedocApiInfo {
    pub name: String,
    pub slug: String,
    pub spec_url: String,
}

impl RedocApiInfo {
    /// Projects a renderer-neutral API description onto the redoc fields.
    pub fn from(api: &ApiInfo) -> (r: RedocApiInfo)
        ensures
            r.name@ == api.name@,
            r.slug@ == api.slug@,
            r.spec_url@ == api.spec_url@,
    {
        RedocApiInfo {
            name: api.name.clone(),
            slug: api.slug.clone(),
            spec_url: api.spec_url.clone(),
        }
    }
}

/// A configured renderer instance of either kind.
pub enum Frontend {
    Scalar(ScalarFrontend),
    Redoc(RedocFrontend),
}

/// The markup the outside scalar template produces for a configuration text.
///
/// Named, not spelled out: the page is the outside crate's template; the
/// renderer relies only on it being a function of the configuration text.
pub uninterp spec fn scalar_page_of(config_json: Seq<char>) -> Seq<char>;

/// Relies on scalar_api_reference::render_scalar: it substitutes the
/// configuration text and the fixed CDN bundle URL into its bundled HTML
/// template, a function of the text alone.
#[verifier::external_body]
fn render_scalar_page(config_json: &str) -> (r: String)
    ensures
        r@ == scalar_page_of(config_json@),
{
    scalar_api_reference::render_scalar(config_json, None)
}

/// The leading string fields of one API's scalar configuration object.
pub open spec fn scalar_string_fields(c: ScalarConfig, a: ApiInfo) -> Seq<char> {
    "{\"title\":"@ + json_string(a.name@) + ",\"slug\":"@ + json_string(a.slug@) + ",\"url\":"@
        + json_string(a.spec_url@) + ",\"theme\":"@ + json_string(c.theme@) + ",\"layout\":"@
        + json_string(c.layout@)
}

/// The boolean option fields of a scalar configuration object.
pub open spec fn scalar_flag_fields(c: ScalarConfig) -> Seq<char> {
    ",\"darkMode\":"@ + json_bool(c.dark_mode) + ",\"showSidebar\":"@ + json_bool(c.show_sidebar)
        + ",\"hideDownloadButton\":"@ + json_bool(c.hide_download_button)
        + ",\"expandAllResponses\":"@ + json_bool(c.expand_all_responses)
        + ",\"expandAllModelSections\":"@ + json_bool(c.expand_all_model_sections)
}

/// The scalar configuration object of one API; the first listed API opens by
/// default.
pub open spec fn scalar_api_json(c: ScalarConfig, a: ApiInfo, first: bool) -> Seq<char> {
    scalar_string_fields(c, a) + scalar_flag_fields(c) + ",\"default\":"@ + json_bool(first)
        + "}"@
}

/// The scalar configuration objects of the first `i` APIs.
pub open spec fn scalar_configs_prefix(c: ScalarConfig, apis: Seq<ApiInfo>, i: int) -> Seq<char>
    decreases i,
{
    if i <= 0 {
        Seq::empty()
    } else if i == 1 {
        scalar_api_json(c, apis[0], true)
    } else {
        scalar_configs_prefix(c, apis, i - 1) + ","@ + scalar_api_json(c, apis[i - 1], false)
    }
}

/// The scalar configuration array of a catalogue.
pub open spec fn scalar_configs_json(c: ScalarConfig, apis: Seq<ApiInfo>) -> Seq<char> {
    "["@ + scalar_configs_prefix(c, apis, apis.len() as int) + "]"@
}

/// The scalar configuration shown when no APIs are known: one synthetic
/// entry whose embedded content names the empty state.
pub open spec fn scalar_empty_json(c: ScalarConfig) -> Seq<char> {
    "[{\"title\":\"No APIs Found\",\"content\":"@ + json_string(
        crate::codec::default_spec_json("No APIs Found"@, "No APIs are currently available"@),
    ) + ",\"theme\":"@ + json_string(c.theme@) + ",\"layout\":"@ + json_string(c.layout@)
        + scalar_flag_fields(c) + "}]"@
}

fn push_bool_json(out: &mut Vec<char>, b: bool)
    ensures
        final(out)@ == old(out)@ + json_bool(b),
{
    if b {
        push_str_chars(out, "true");
    } else {
        push_str_chars(out, "false");
    }
}

fn push_scalar_string_fields(out: &mut Vec<char>, c: &ScalarConfig, a: &ApiInfo)
    ensures
        final(out)@ == old(out)@ + scalar_string_fields(*c, *a),
{
    push_str_chars(out, "{\"title\":");
    push_json_string(out, a.name.as_str());
    push_str_chars(out, ",\"slug\":");
    push_json_string(out, a.slug.as_str());
    push_str_chars(out, ",\"url\":");
    push_json_string(out, a.spec_url.as_str());
    push_str_chars(out, ",\"theme\":");
    push_json_string(out, c.theme.as_str());
    push_str_chars(out, ",\"layout\":");
    push_json_string(out, c.layout.as_str());
    proof {
        assert(final(out)@ =~= old(out)@ + scalar_string_fields(*c, *a));
    }
}

#[verifier::rlimit(100)]
fn push_scalar_flag_fields(out: &mut Vec<char>, c: &ScalarConfig)
    ensures
        final(out)@ == old(out)@ + scalar_flag_fields(*c),
{
    push_str_chars(out, ",\"darkMode\":");
    push_bool_json(out, c.dark_mode);
    push_str_chars(out, ",\"showSidebar\":");
    push_bool_json(out, c.show_sidebar);
    push_str_chars(out, ",\"hideDownloadButton\":");
    push_bool_json(out, c.hide_download_button);
    push_str_chars(out, ",\"expandAllResponses\":");
    push_bool_json(out, c.expand_all_responses);
    push_str_chars(out, ",\"expandAllModelSections\":");
    push_bool_json(out, c.expand_all_model_sections);
    proof {
        assert(final(out)@ =~= old(out)@ + scalar_flag_fields(*c));
    }
}

fn push_scalar_api_json(out: &mut Vec<char>, c: &ScalarConfig, a: &ApiInfo, first: bool)
    ensures
        final(out)@ == old(out)@ + scalar_api_json(*c, *a, first),
{
    push_scalar_string_fields(out, c, a);
    push_scalar_flag_fields(out, c);
    push_str_chars(out, ",\"default\":");
    push_bool_json(out, first);
    push_str_chars(out, "}");
    proof {
        assert(final(out)@ =~= old(out)@ + scalar_api_json(*c, *a, first));
    }
}

#[verifier::rlimit(100)]
fn scalar_empty_config_chars(c: &ScalarConfig) -> (r: Vec<char>)
    ensures
        r@ == scalar_empty_json(*c),
{
    let mut out: Vec<char> = Vec::new();
    push_str_chars(&mut out, "[{\"title\":\"No APIs Found\",\"content\":");
    let content = crate::codec::create_default_spec(
        "No APIs Found",
        "No APIs are currently available",
    );
    push_json_string(&mut out, content.as_str());
    push_str_chars(&mut out, ",\"theme\":");
    push_json_string(&mut out, c.theme.as_str());
    push_str_chars(&mut out, ",\"layout\":");
    push_json_string(&mut out, c.layout.as_str());
    push_scalar_flag_fields(&mut out, c);
    push_str_chars(&mut out, "}]");
    proof {
        assert(out@ =~= scalar_empty_json(*c));
    }
    out
}

impl ScalarFrontend {
    /// The scalar page of a catalogue: the verified configuration text of all
    /// APIs — the first opens by default — embedded into the outside
    /// template; with no APIs, the synthetic empty-state configuration.
    pub fn html_for(&self, apis: &Vec<ApiInfo>) -> (r: String)
        ensures
            apis@.len() > 0 ==> r@ == scalar_page_of(scalar_configs_json(self.config, apis@)),
            apis@.len() == 0 ==> r@ == scalar_page_of(scalar_empty_json(self.config)),
    {
        if apis.len() == 0 {
            let cfg = scalar_empty_config_chars(&self.config);
            let cfg_text = string_of_chars(&cfg);
            return render_scalar_page(cfg_text.as_str());
        }
        let mut out: Vec<char> = Vec::new();
        push_str_chars(&mut out, "[");
        let ghost base = out@;
        let mut i: usize = 0;
        while i < apis.len()
            invariant
                i <= apis@.len(),
                base == "["@,
                out@ == base + scalar_configs_prefix(self.config, apis@, i as int),
            decreases apis@.len() - i,
        {
            if i > 0 {
                push_str_chars(&mut out, ",");
            }
            push_scalar_api_json(&mut out, &self.config, &apis[i], i == 0);
            proof {
                if i == 0 {
                    assert(out@ =~= base + scalar_configs_prefix(self.config, apis@, 1));
                } else {
                    assert(out@ =~= base + scalar_configs_prefix(self.config, apis@, i + 1));
                }
            }
            i = i + 1;
        }
        push_str_chars(&mut out, "]");
        proof {
            assert(out@ =~= scalar_configs_json(self.config, apis@));
        }
        let cfg_text = string_of_chars(&out);
        render_scalar_page(cfg_text.as_str())
    }
}

impl DocFrontend for ScalarFrontend {
    fn generate_html(&self, apis: &Vec<ApiInfo>) -> String {
        self.html_for(apis)
    }

    fn generate_empty_html(&self) -> String {
        let cfg = scalar_empty_config_chars(&self.config);
        let cfg_text = string_of_chars(&cfg);
        render_scalar_page(cfg_text.as_str())
    }
}

/// The HTML escape of one character: the four markup characters by their
/// entities, everything else by itself.
pub open spec fn html_esc_char(c: char) -> Seq<char> {
    if c == '&' {
        "&amp;"@
    } else if c == '<' {
        "&lt;"@
    } else if c == '>' {
        "&gt;"@
    } else if c == '"' {
        "&quot;"@
    } else {
        seq![c]
    }
}

/// The HTML escape of the first `i` characters of `s`.
pub open spec fn html_escaped_prefix(s: Seq<char>, i: int) -> Seq<char>
    decreases i,
{
    if i <= 0 {
        Seq::empty()
    } else {
        html_escaped_prefix(s, i - 1) + html_esc_char(s[i - 1])
    }
}

/// The HTML escape of a character sequence.
pub open spec fn html_escaped(s: Seq<char>) -> Seq<char> {
    html_escaped_prefix(s, s.len() as int)
}

fn push_html_escaped(out: &mut Vec<char>, s: &str)
    ensures
        final(out)@ == old(out)@ + html_escaped(s@),
{
    let cs = crate::text::chars_of_str(s);
    let mut i: usize = 0;
    while i < cs.len()
        invariant
            i <= cs@.len(),
            cs@ == s@,
            out@ == old(out)@ + html_escaped_prefix(s@, i as int),
        decreases cs@.len() - i,
    {
        let c = cs[i];
        if c == '&' {
            push_str_chars(out, "&amp;");
        } else if c == '<' {
            push_str_chars(out, "&lt;");
        } else if c == '>' {
            push_str_chars(out, "&gt;");
        } else if c == '"' {
            push_str_chars(out, "&quot;");
        } else {
            out.push(c);
        }
        proof {
            assert(out@ =~= old(out)@ + html_escaped_prefix(s@, i + 1));
        }
        i = i + 1;
    }
}

/// The selector item linking one API's specification.
pub open spec fn redoc_item(a: ApiInfo) -> Seq<char> {
    "<li><a href=\""@ + a.spec_url@ + "\">"@ + html_escaped(a.name@) + "</a></li>"@
}

/// The selector items of the first `i` APIs.
pub open spec fn redoc_items_prefix(apis: Seq<ApiInfo>, i: int) -> Seq<char>
    decreases i,
{
    if i <= 0 {
        Seq::empty()
    } else {
        redoc_items_prefix(apis, i - 1) + redoc_item(apis[i - 1])
    }
}

/// The redoc page of a catalogue: an optional API selector — shown when
/// configured and more than one API is known — and the redoc element bound to
/// the first API's specification.
pub open spec fn redoc_page(c: RedocConfig, apis: Seq<ApiInfo>) -> Seq<char> {
    "<!DOCTYPE html><html><head><meta charset=\"utf-8\"><title>API Documentation</title></head><body>"@
        + (if c.show_api_selector && apis.len() > 1 {
        "<ul class=\"api-selector\">"@ + redoc_items_prefix(apis, apis.len() as int) + "</ul>"@
    } else {
        Seq::empty()
    }) + "<redoc spec-url=\""@ + apis[0].spec_url@ + "\" expand-responses=\""@ + html_escaped(
        c.expand_responses@,
    ) + "\""@ + (if c.required_props_first {
        " required-props-first=\"true\""@
    } else {
        Seq::empty()
    }) + "></redoc><script src=\"https://cdn.redoc.ly/redoc/latest/bundles/redoc.standalone.js\"></script></body></html>"@
}

/// The redoc page shown when no APIs are known.
pub open spec fn redoc_empty_page() -> Seq<char> {
    "<!DOCTYPE html><html><head><meta charset=\"utf-8\"><title>API Documentation</title></head><body><p>No APIs are currently available</p></body></html>"@
}

impl RedocFrontend {
    /// The redoc page of a catalogue, markup fully specified here.
    pub fn html_for(&self, apis: &Vec<ApiInfo>) -> (r: String)
        ensures
            apis@.len() > 0 ==> r@ == redoc_page(self.config, apis@),
            apis@.len() == 0 ==> r@ == redoc_empty_page(),
    {
        if apis.len() == 0 {
            let mut out: Vec<char> = Vec::new();
            push_str_chars(
                &mut out,
                "<!DOCTYPE html><html><head><meta charset=\"utf-8\"><title>API Documentation</title></head><body><p>No APIs are currently available</p></body></html>",
            );
            proof {
                assert(out@ =~= redoc_empty_page());
            }
            return string_of_chars(&out);
        }
        let mut out: Vec<char> = Vec::new();
        push_str_chars(
            &mut out,
            "<!DOCTYPE html><html><head><meta charset=\"utf-8\"><title>API Documentation</title></head><body>",
        );
        if self.config.show_api_selector && apis.len() > 1 {
            push_str_chars(&mut out, "<ul class=\"api-selector\">");
            let ghost base = out@;
            let mut i: usize = 0;
            while i < apis.len()
                invariant
                    i <= apis@.len(),
                    out@ == base + redoc_items_prefix(apis@, i as int),
                decreases apis@.len() - i,
            {
                push_str_chars(&mut out, "<li><a href=\"");
                push_str_chars(&mut out, apis[i].spec_url.as_str());
                push_str_chars(&mut out, "\">");
                push_html_escaped(&mut out, apis[i].name.as_str());
                push_str_chars(&mut out, "</a></li>");
                proof {
                    assert(out@ =~= base + redoc_items_prefix(apis@, i + 1));
                }
                i = i + 1;
            }
            push_str_chars(&mut out, "</ul>");
        }
        push_str_chars(&mut out, "<redoc spec-url=\"");
        push_str_chars(&mut out, apis[0].spec_url.as_str());
        push_str_chars(&mut out, "\" expand-responses=\"");
        push_html_escaped(&mut out, self.config.expand_responses.as_str());
        push_str_chars(&mut out, "\"");
        if self.config.required_props_first {
            push_str_chars(&mut out, " required-props-first=\"true\"");
        }
        push_str_chars(
            &mut out,
            "></redoc><script src=\"https://cdn.redoc.ly/redoc/latest/bundles/redoc.standalone.js\"></script></body></html>",
        );
        proof {
            assert(out@ =~= redoc_page(self.config, apis@));
        }
        string_of_chars(&out)
    }
}

impl DocFrontend for RedocFrontend {
    fn generate_html(&self, apis: &Vec<ApiInfo>) -> String {
        self.html_for(apis)
    }

    fn generate_empty_html(&self) -> String {
        let empty: Vec<ApiInfo> = Vec::new();
        self.html_for(&empty)
    }
}

/// The page a configured renderer produces for a catalogue.
pub open spec fn frontend_page(f: Frontend, apis: Seq<ApiInfo>) -> Seq<char> {
    match f {
        Frontend::Scalar(sf) => if apis.len() > 0 {
            scalar_page_of(scalar_configs_json(sf.config, apis))
        } else {
            scalar_page_of(scalar_empty_json(sf.config))
        },
        Frontend::Redoc(rf) => if apis.len() > 0 {
            redoc_page(rf.config, apis)
        } else {
            redoc_empty_page()
        },
    }
}

impl Frontend {
    /// Renders the catalogue with this renderer.
    pub fn html_for(&self, apis: &Vec<ApiInfo>) -> (r: String)
        ensures
            r@ == frontend_page(*self, apis@),
    {
        match self {
            Frontend::Scalar(sf) => sf.html_for(apis),
            Frontend::Redoc(rf) => rf.html_for(apis),
        }
    }
}

impl DocFrontend for Frontend {
    fn generate_html(&self, apis: &Vec<ApiInfo>) -> String {
        self.html_for(apis)
    }

    fn generate_empty_html(&self) -> String {
        let empty: Vec<ApiInfo> = Vec::new();
        self.html_for(&empty)
    }
}

/// Whether a held renderer is the one its name and the configuration's
/// options call for; the scalar fallback with factory defaults is accepted
/// under its own name.
pub open spec fn frontend_entry_ok(config: FrontendConfig, name: Seq<char>, f: Frontend) -> bool {
    match f {
        Frontend::Scalar(sf) => spec_frontend_of_name(name) == Some(FrontendType::Scalar) && (
        match crate::config::opts_lookup(config.frontend_options@, name) {
            Some(FrontendOptions::Scalar(c)) => sf.config == c || scalar_is_default(sf.config),
            _ => scalar_is_default(sf.config),
        }),
        Frontend::Redoc(rf) => spec_frontend_of_name(name) == Some(FrontendType::Redoc) && (
        match crate::config::opts_lookup(config.frontend_options@, name) {
            Some(FrontendOptions::Redoc(c)) => rf.config == c,
            _ => redoc_is_default(rf.config),
        }),
    }
}

impl FrontendType {
    /// Builds a renderer of this kind: with its own options when given, with
    /// factory defaults otherwise.
    pub fn create_frontend(&self, options: Option<&FrontendOptions>) -> (r: Option<Frontend>)
        ensures
            match (*self, r) {
                (FrontendType::Scalar, Some(Frontend::Scalar(sf))) => match options {
                    Some(FrontendOptions::Scalar(c)) => sf.config == *c,
                    _ => scalar_is_default(sf.config),
                },
                (FrontendType::Redoc, Some(Frontend::Redoc(rf))) => match options {
                    Some(FrontendOptions::Redoc(c)) => rf.config == *c,
                    _ => redoc_is_default(rf.config),
                },
                _ => false,
            },
    {
        match self {
            FrontendType::Scalar => {
                let config = match options {
                    Some(FrontendOptions::Scalar(c)) => c.clone(),
                    _ => ScalarConfig::default(),
                };
                Some(Frontend::Scalar(ScalarFrontend::new(config)))
            },
            FrontendType::Redoc => {
                let config = match options {
                    Some(FrontendOptions::Redoc(c)) => c.clone(),
                    _ => RedocConfig::default(),
                };
                Some(Frontend::Redoc(RedocFrontend::new(config)))
            },
        }
    }
}

/// The renderer bound to a name at or after position `i`, first binding wins.
pub open spec fn fe_lookup_from(s: Seq<(String, Frontend)>, k: Seq<char>, i: int) -> Option<
    Frontend,
>
    decreases s.len() - i,
{
    if i < 0 || i >= s.len() {
        None
    } else if s[i].0@ == k {
        Some(s[i].1)
    } else {
        fe_lookup_from(s, k, i + 1)
    }
}

/// The renderer bound to a name.
pub open spec fn fe_lookup(s: Seq<(String, Frontend)>, k: Seq<char>) -> Option<Frontend> {
    fe_lookup_from(s, k, 0)
}

/// The configured renderer instances, and which answers the default route.
pub struct FrontendManager {
    pub frontends: Vec<(String, Frontend)>,
    pub default_frontend: Option<String>,
}

impl FrontendManager {
    /// The renderer enabled under a name, when held.
    pub fn get_frontend(&self, name: &str) -> (r: Option<&Frontend>)
        ensures
            match r {
                Some(f) => fe_lookup(self.frontends@, name@) == Some(*f),
                None => fe_lookup(self.frontends@, name@) is None,
            },
    {
        let mut i: usize = 0;
        while i < self.frontends.len()
            invariant
                i <= self.frontends@.len(),
                fe_lookup(self.frontends@, name@) == fe_lookup_from(
                    self.frontends@,
                    name@,
                    i as int,
                ),
            decreases self.frontends@.len() - i,
        {
            if str_eq(self.frontends[i].0.as_str(), name) {
                return Some(&self.frontends[i].1);
            }
            i = i + 1;
        }
        None
    }

    /// The renderer answering the default route, when one is configured and
    /// held.
    pub fn get_default_frontend(&self) -> (r: Option<&Frontend>)
        ensures
            match &self.default_frontend {
                Some(d) => match r {
                    Some(f) => fe_lookup(self.frontends@, d@) == Some(*f),
                    None => fe_lookup(self.frontends@, d@) is None,
                },
                None => r is None,
            },
    {
        match &self.default_frontend {
            Some(d) => self.get_frontend(d.as_str()),
            None => None,
        }
    }

    /// Builds the renderer set from the configuration: each enabled name that
    /// denotes a renderer kind is created with its options; with none left,
    /// the scalar renderer with factory defaults steps in; the configured
    /// default answers the default route when held, the first held renderer
    /// otherwise.
    pub fn from_config(config: &FrontendConfig) -> (r: FrontendManager)
        ensures
            r.frontends@.len() >= 1,
            forall|i: int|
                0 <= i < r.frontends@.len() ==> frontend_entry_ok(
                    *config,
                    #[trigger] r.frontends@[i].0@,
                    r.frontends@[i].1,
                ),
            match r.default_frontend {
                Some(d) => fe_lookup(r.frontends@, d@) is Some,
                None => false,
            },
            match config.default_frontend {
                Some(d) => fe_lookup(r.frontends@, d@) is Some ==> view_opt(r.default_frontend)
                    == Some(d@),
                None => true,
            },
    {
        let mut fes: Vec<(String, Frontend)> = Vec::new();
        let mut i: usize = 0;
        while i < config.enabled_frontends.len()
            invariant
                i <= config.enabled_frontends@.len(),
                forall|t: int|
                    0 <= t < fes@.len() ==> frontend_entry_ok(
                        *config,
                        #[trigger] fes@[t].0@,
                        fes@[t].1,
                    ),
            decreases config.enabled_frontends@.len() - i,
        {
            let name = &config.enabled_frontends[i];
            match FrontendType::from_str(name.as_str()) {
                Some(ft) => {
                    let opts = config.get_options(name.as_str());
                    match ft.create_frontend(opts) {
                        Some(fe) => {
                            let ghost pre = fes@;
                            proof {
                                assert(frontend_entry_ok(*config, name@, fe));
                            }
                            fes.push((name.clone(), fe));
                            proof {
                                assert(fes@.drop_last() =~= pre);
                            }
                        },
                        None => {},
                    }
                },
                None => {},
            }
            i = i + 1;
        }
        if fes.len() == 0 {
            let fe = Frontend::Scalar(ScalarFrontend::new(ScalarConfig::default()));
            proof {
                reveal_strlit("scalar");
                assert(lower("scalar"@) =~= "scalar"@);
                assert(frontend_entry_ok(*config, "scalar"@, fe));
            }
            fes.push((String::from_str("scalar"), fe));
        }
        let default_name = match &config.default_frontend {
            Some(d) => {
                let mut j: usize = 0;
                let mut found = false;
                while j < fes.len()
                    invariant
                        j <= fes@.len(),
                        found <==> exists|t: int| 0 <= t < j && fes@[t].0@ == d@,
                    decreases fes@.len() - j,
                {
                    if str_eq(fes[j].0.as_str(), d.as_str()) {
                        proof {
                            assert(fes@[j as int].0@ == d@);
                        }
                        found = true;
                    }
                    j = j + 1;
                }
                if found {
                    proof {
                        lemma_fe_lookup_found(fes@, d@);
                    }
                    Some(d.clone())
                } else {
                    proof {
                        lemma_fe_lookup_none_from(fes@, d@, 0);
                        assert(fe_lookup_from(fes@, fes@[0].0@, 0) == Some(fes@[0].1));
                    }
                    Some(fes[0].0.clone())
                }
            },
            None => {
                proof {
                    assert(fe_lookup_from(fes@, fes@[0].0@, 0) == Some(fes@[0].1));
                }
                Some(fes[0].0.clone())
            },
        };
        FrontendManager { frontends: fes, default_frontend: default_name }
    }
}

/// A key that some binding carries is found by the lookup.
proof fn lemma_fe_lookup_found(s: Seq<(String, Frontend)>, k: Seq<char>)
    requires
        exists|t: int| 0 <= t < s.len() && s[t].0@ == k,
    ensures
        fe_lookup(s, k) is Some,
{
    lemma_fe_lookup_found_from(s, k, 0);
}

/// A key that no binding carries is missed by the lookup.
proof fn lemma_fe_lookup_none_from(s: Seq<(String, Frontend)>, k: Seq<char>, i: int)
    requires
        0 <= i <= s.len(),
        forall|t: int| i <= t < s.len() ==> s[t].0@ != k,
    ensures
        fe_lookup_from(s, k, i) is None,
    decreases s.len() - i,
{
    if i < s.len() {
        lemma_fe_lookup_none_from(s, k, i + 1);
    }
}

proof fn lemma_fe_lookup_found_from(s: Seq<(String, Frontend)>, k: Seq<char>, i: int)
    requires
        0 <= i <= s.len(),
        exists|t: int| i <= t < s.len() && s[t].0@ == k,
    ensures
        fe_lookup_from(s, k, i) is Some,
    decreases s.len() - i,
{
    if s[i].0@ == k {
    } else {
        let t = choose|t: int| i <= t < s.len() && s[t].0@ == k;
        assert(t > i);
        lemma_fe_lookup_found_from(s, k, i + 1);
    }
}

} // verus!
