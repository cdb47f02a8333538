//! The viewer's frontend configuration: which documentation renderers are
//! enabled, which is the default, and each renderer's options. The
//! environment is read by the caller; parsing the settings into a
//! configuration is pure and verified.

use vstd::prelude::*;
use vstd::string::*;
use crate::annotations::view_opt;
use crate::namespaces::{spec_watch_list, split_list};
use crate::reconcile::{contains_str, contains_str_exec, str_views};
use crate::text::{ascii_lowercase, lower, str_eq};

verus! {

/// The scalar renderer's default theme.
pub fn default_theme() -> (r: String)
    ensures
        r@ == "purple"@,
{
    String::from_str("purple")
}

/// The scalar renderer's default layout.
pub fn default_layout() -> (r: String)
    ensures
        r@ == "modern"@,
{
    String::from_str("modern")
}

/// The default of options that start switched on.
pub fn default_true() -> (r: bool)
    ensures
        r,
{
    true
}

/// The default of options that start switched off.
pub fn default_false() -> (r: bool)
    ensures
        !r,
{
    false
}

/// The redoc renderer's default set of expanded response codes.
pub fn default_expand_responses() -> (r: String)
    ensures
        r@ == "200,201,400,401,403,404"@,
{
    String::from_str("200,201,400,401,403,404")
}

/// Whether the redoc renderer shows its API selector by default.
pub fn default_api_selector() -> (r: bool)
    ensures
        r,
{
    true
}

/// Options of the scalar renderer.
pub struct ScalarConfig {
    pub theme: String,
    pub layout: String,
    pub dark_mode: bool,
    pub show_sidebar: bool,
    pub expand_all_responses: bool,
    pub expand_all_model_sections: bool,
    pub hide_download_button: bool,
}

/// The scalar options' factory defaults.
pub open spec fn scalar_is_default(c: ScalarConfig) -> bool {
    &&& c.theme@ == "purple"@
    &&& c.layout@ == "modern"@
    &&& !c.dark_mode
    &&& c.show_sidebar
    &&& c.expand_all_responses
    &&& !c.expand_all_model_sections
    &&& !c.hide_download_button
}

impl Clone for ScalarConfig {
    fn clone(&self) -> (r: Self)
        ensures
            r == *self,
    {
        ScalarConfig {
            theme: self.theme.clone(),
            layout: self.layout.clone(),
            dark_mode: self.dark_mode,
            show_sidebar: self.show_sidebar,
            expand_all_responses: self.expand_all_responses,
            expand_all_model_sections: self.expand_all_model_sections,
            hide_download_button: self.hide_download_button,
        }
    }
}

impl Default for ScalarConfig {
    fn default() -> (r: Self)
        ensures
            scalar_is_default(r),
    {
        ScalarConfig {
            theme: default_theme(),
            layout: default_layout(),
            dark_mode: default_false(),
            show_sidebar: default_true(),
            expand_all_responses: default_true(),
            expand_all_model_sections: default_false(),
            hide_download_button: default_false(),
        }
    }
}

/// Options of the redoc renderer.
pub struct RedocConfig {
    pub expand_responses: String,
    pub required_props_first: bool,
    pub show_api_selector: bool,
}

/// The redoc options' factory defaults.
pub open spec fn redoc_is_default(c: RedocConfig) -> bool {
    &&& c.expand_responses@ == "200,201,400,401,403,404"@
    &&& c.required_props_first
    &&& c.show_api_selector
}

impl Clone for RedocConfig {
    fn clone(&self) -> (r: Self)
        ensures
            r == *self,
    {
        RedocConfig {
            expand_responses: self.expand_responses.clone(),
            required_props_first: self.required_props_first,
            show_api_selector: self.show_api_selector,
        }
    }
}

impl Default for RedocConfig {
    fn default() -> (r: Self)
        ensures
            redoc_is_default(r),
    {
        RedocConfig {
            expand_responses: default_expand_responses(),
            required_props_first: default_true(),
            show_api_selector: default_api_selector(),
        }
    }
}

/// Options of one specific renderer.
pub enum FrontendOptions {
    Scalar(ScalarConfig),
    Redoc(RedocConfig),
}

impl Clone for FrontendOptions {
    fn clone(&self) -> (r: Self)
        ensures
            r == *self,
    {
        match self {
            FrontendOptions::Scalar(c) => FrontendOptions::Scalar(c.clone()),
            FrontendOptions::Redoc(c) => FrontendOptions::Redoc(c.clone()),
        }
    }
}

/// The options bound to a renderer name at or after position `i`, first
/// binding wins.
pub open spec fn opts_lookup_from(
    s: Seq<(String, FrontendOptions)>,
    k: Seq<char>,
    i: int,
) -> Option<FrontendOptions>
    decreases s.len() - i,
{
    if i < 0 || i >= s.len() {
        None
    } else if s[i].0@ == k {
        Some(s[i].1)
    } else {
        opts_lookup_from(s, k, i + 1)
    }
}

/// The options bound to a renderer name.
pub open spec fn opts_lookup(s: Seq<(String, FrontendOptions)>, k: Seq<char>) -> Option<
    FrontendOptions,
> {
    opts_lookup_from(s, k, 0)
}

/// The viewer's whole frontend configuration.
pub struct FrontendConfig {
    pub enabled_frontends: Vec<String>,
    pub default_frontend: Option<String>,
    pub frontend_options: Vec<(String, FrontendOptions)>,
}

impl FrontendConfig {
    /// The options of a specific renderer, when configured.
    pub fn get_options(&self, frontend_name: &str) -> (r: Option<&FrontendOptions>)
        ensures
            match r {
                Some(v) => opts_lookup(self.frontend_options@, frontend_name@) == Some(*v),
                None => opts_lookup(self.frontend_options@, frontend_name@) is None,
            },
    {
        let mut i: usize = 0;
        while i < self.frontend_options.len()
            invariant
                i <= self.frontend_options@.len(),
                opts_lookup(self.frontend_options@, frontend_name@) == opts_lookup_from(
                    self.frontend_options@,
                    frontend_name@,
                    i as int,
                ),
            decreases self.frontend_options@.len() - i,
        {
            if str_eq(self.frontend_options[i].0.as_str(), frontend_name) {
                return Some(&self.frontend_options[i].1);
            }
            i = i + 1;
        }
        None
    }

    /// Builds the configuration from the raw settings: the enabled list is
    /// lower-cased and split on commas, the default lower-cased, and each
    /// enabled renderer keeps its options.
    pub fn from_settings(
        enabled_list: &str,
        default_frontend: Option<String>,
        scalar: ScalarConfig,
        redoc: RedocConfig,
    ) -> (r: FrontendConfig)
        ensures
            str_views(r.enabled_frontends@) == spec_watch_list(lower(enabled_list@)),
            view_opt(r.default_frontend) == (match default_frontend {
                Some(d) => Some(lower(d@)),
                None => None::<Seq<char>>,
            }),
            opts_lookup(r.frontend_options@, "scalar"@) == (if contains_str(
                spec_watch_list(lower(enabled_list@)),
                "scalar"@,
            ) {
                Some(FrontendOptions::Scalar(scalar))
            } else {
                None::<FrontendOptions>
            }),
            opts_lookup(r.frontend_options@, "redoc"@) == (if contains_str(
                spec_watch_list(lower(enabled_list@)),
                "redoc"@,
            ) {
                Some(FrontendOptions::Redoc(redoc))
            } else {
                None::<FrontendOptions>
            }),
    {
        let lowered = ascii_lowercase(enabled_list);
        let enabled = split_list(lowered.as_str());
        let default_lowered = match default_frontend {
            Some(d) => Some(ascii_lowercase(d.as_str())),
            None => None,
        };
        let mut opts: Vec<(String, FrontendOptions)> = Vec::new();
        let has_scalar = contains_str_exec(&enabled, "scalar");
        let has_redoc = contains_str_exec(&enabled, "redoc");
        if has_scalar {
            opts.push((String::from_str("scalar"), FrontendOptions::Scalar(scalar)));
        }
        if has_redoc {
            opts.push((String::from_str("redoc"), FrontendOptions::Redoc(redoc)));
        }
        proof {
            reveal_strlit("scalar");
            reveal_strlit("redoc");
            assert("scalar"@ != "redoc"@) by {
                assert("scalar"@.len() == 6 && "redoc"@.len() == 5);
            }
            let os = opts@;
            if has_scalar && has_redoc {
                assert(os[0].0@ == "scalar"@ && os[1].0@ == "redoc"@);
                assert(opts_lookup_from(os, "scalar"@, 0) == Some(os[0].1));
                assert(opts_lookup_from(os, "redoc"@, 0) == opts_lookup_from(os, "redoc"@, 1));
                assert(opts_lookup_from(os, "redoc"@, 1) == Some(os[1].1));
            } else if has_scalar {
                assert(os[0].0@ == "scalar"@ && os.len() == 1);
                assert(opts_lookup_from(os, "scalar"@, 0) == Some(os[0].1));
                assert(opts_lookup_from(os, "redoc"@, 0) == opts_lookup_from(os, "redoc"@, 1));
                assert(opts_lookup_from(os, "redoc"@, 1) is None);
            } else if has_redoc {
                assert(os[0].0@ == "redoc"@ && os.len() == 1);
                assert(opts_lookup_from(os, "redoc"@, 0) == Some(os[0].1));
                assert(opts_lookup_from(os, "scalar"@, 0) == opts_lookup_from(os, "scalar"@, 1));
                assert(opts_lookup_from(os, "scalar"@, 1) is None);
            } else {
                assert(os.len() == 0);
                assert(opts_lookup_from(os, "scalar"@, 0) is None);
                assert(opts_lookup_from(os, "redoc"@, 0) is None);
            }
        }
        FrontendConfig {
            enabled_frontends: enabled,
            default_frontend: default_lowered,
            frontend_options: opts,
        }
    }
}

} // verus!
