//! The display configuration and the rules that resolve it: user settings
//! override defaults, and unset colors fall back to the selected theme.

use vstd::prelude::*;

use crate::color::Color;
use crate::theme::{default_theme, spec_theme, theme_for, Theme};

verus! {

/// The configured colors, any of which may be left unset.
#[derive(Debug)]
pub struct ColorConfig {
    pub theme: Option<String>,
    pub scriptlet_name: Option<Color>,
    pub scriptlet_description: Option<Color>,
}

/// The mathematical content of a color configuration.
pub struct ColorConfigView {
    pub theme: Option<Seq<char>>,
    pub scriptlet_name: Option<Color>,
    pub scriptlet_description: Option<Color>,
}

impl View for ColorConfig {
    type V = ColorConfigView;

    open spec fn view(&self) -> ColorConfigView {
        ColorConfigView {
            theme: match self.theme {
                Some(t) => Some(t@),
                None => None,
            },
            scriptlet_name: self.scriptlet_name,
            scriptlet_description: self.scriptlet_description,
        }
    }
}

impl Default for ColorConfig {
    /// Nothing configured.
    fn default() -> (c: Self)
        ensures
            c@.theme is None,
            c@.scriptlet_name is None,
            c@.scriptlet_description is None,
    {
        ColorConfig { theme: None, scriptlet_name: None, scriptlet_description: None }
    }
}

/// The whole configuration.
#[derive(Debug)]
pub struct Config {
    pub colors: ColorConfig,
}

/// The mathematical content of a configuration.
pub struct ConfigView {
    pub colors: ColorConfigView,
}

impl View for Config {
    type V = ConfigView;

    open spec fn view(&self) -> ConfigView {
        ConfigView { colors: self.colors@ }
    }
}

impl Default for Config {
    /// Nothing configured.
    fn default() -> (c: Self)
        ensures
            c@.colors.theme is None,
            c@.colors.scriptlet_name is None,
            c@.colors.scriptlet_description is None,
    {
        Config { colors: ColorConfig::default() }
    }
}

/// What resolving a base configuration against an optional user one yields:
/// each user setting overrides the base one; the selected theme (or the
/// default theme, when the name is unset or unknown) fills any color still
/// missing.
pub open spec fn spec_resolve(base: ConfigView, user: Option<ConfigView>) -> ConfigView {
    let merged = match user {
        Some(u) => ColorConfigView {
            theme: if u.colors.theme is Some {
                u.colors.theme
            } else {
                base.colors.theme
            },
            scriptlet_name: if u.colors.scriptlet_name is Some {
                u.colors.scriptlet_name
            } else {
                base.colors.scriptlet_name
            },
            scriptlet_description: if u.colors.scriptlet_description is Some {
                u.colors.scriptlet_description
            } else {
                base.colors.scriptlet_description
            },
        },
        None => base.colors,
    };
    let th = match merged.theme {
        Some(t) => match spec_theme(t) {
            Some(th) => th,
            None => default_theme(),
        },
        None => default_theme(),
    };
    ConfigView {
        colors: ColorConfigView {
            theme: merged.theme,
            scriptlet_name: if merged.scriptlet_name is Some {
                merged.scriptlet_name
            } else {
                Some(th.scriptlet_name)
            },
            scriptlet_description: if merged.scriptlet_description is Some {
                merged.scriptlet_description
            } else {
                Some(th.scriptlet_description)
            },
        },
    }
}

/// Resolve a base configuration against an optional user configuration.
pub fn resolve_config(base: Config, user: Option<Config>) -> (r: Config)
    ensures
        r@ == spec_resolve(
            base@,
            match user {
                Some(u) => Some(u@),
                None => None,
            },
        ),
{
    let merged = match user {
        Some(u) => {
            let bc = base.colors;
            let uc = u.colors;
            ColorConfig {
                theme: match uc.theme {
                    Some(t) => Some(t),
                    None => bc.theme,
                },
                scriptlet_name: match uc.scriptlet_name {
                    Some(c) => Some(c),
                    None => bc.scriptlet_name,
                },
                scriptlet_description: match uc.scriptlet_description {
                    Some(c) => Some(c),
                    None => bc.scriptlet_description,
                },
            }
        },
        None => base.colors,
    };
    let th = match &merged.theme {
        Some(t) => match theme_for(t.as_str()) {
            Some(th) => th,
            None => Theme {
                scriptlet_name: Color { r: 200, g: 200, b: 0 },
                scriptlet_description: Color { r: 200, g: 200, b: 200 },
            },
        },
        None => Theme {
            scriptlet_name: Color { r: 200, g: 200, b: 0 },
            scriptlet_description: Color { r: 200, g: 200, b: 200 },
        },
    };
    let name_color = match merged.scriptlet_name {
        Some(c) => Some(c),
        None => Some(th.scriptlet_name),
    };
    let desc_color = match merged.scriptlet_description {
        Some(c) => Some(c),
        None => Some(th.scriptlet_description),
    };
    Config {
        colors: ColorConfig {
            theme: merged.theme,
            scriptlet_name: name_color,
            scriptlet_description: desc_color,
        },
    }
}

} // verus!
