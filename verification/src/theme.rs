//! The built-in display themes.

use vstd::prelude::*;

use crate::color::Color;
use crate::text::str_eq;

verus! {

/// A pair of display colors: one for scriptlet names, one for descriptions.
#[derive(Clone, Copy, PartialEq, Eq, Structural, Debug)]
pub struct Theme {
    pub scriptlet_name: Color,
    pub scriptlet_description: Color,
}

/// The theme used when nothing else is configured.
pub open spec fn default_theme() -> Theme {
    Theme {
        scriptlet_name: Color { r: 200, g: 200, b: 0 },
        scriptlet_description: Color { r: 200, g: 200, b: 200 },
    }
}

/// The built-in theme carrying this name, if any.
pub open spec fn spec_theme(name: Seq<char>) -> Option<Theme> {
    if name == "default"@ {
        Some(default_theme())
    } else if name == "ocean"@ {
        Some(
            Theme {
                scriptlet_name: Color { r: 0, g: 100, b: 200 },
                scriptlet_description: Color { r: 140, g: 180, b: 200 },
            },
        )
    } else if name == "forest"@ {
        Some(
            Theme {
                scriptlet_name: Color { r: 30, g: 120, b: 30 },
                scriptlet_description: Color { r: 120, g: 200, b: 120 },
            },
        )
    } else if name == "sunset"@ {
        Some(
            Theme {
                scriptlet_name: Color { r: 220, g: 140, b: 0 },
                scriptlet_description: Color { r: 220, g: 180, b: 0 },
            },
        )
    } else {
        None
    }
}

/// Look a built-in theme up by name.
pub fn theme_for(name: &str) -> (r: Option<Theme>)
    ensures
        r == spec_theme(name@),
{
    if str_eq(name, "default") {
        Some(
            Theme {
                scriptlet_name: Color { r: 200, g: 200, b: 0 },
                scriptlet_description: Color { r: 200, g: 200, b: 200 },
            },
        )
    } else if str_eq(name, "ocean") {
        Some(
            Theme {
                scriptlet_name: Color { r: 0, g: 100, b: 200 },
                scriptlet_description: Color { r: 140, g: 180, b: 200 },
            },
        )
    } else if str_eq(name, "forest") {
        Some(
            Theme {
                scriptlet_name: Color { r: 30, g: 120, b: 30 },
                scriptlet_description: Color { r: 120, g: 200, b: 120 },
            },
        )
    } else if str_eq(name, "sunset") {
        Some(
            Theme {
                scriptlet_name: Color { r: 220, g: 140, b: 0 },
                scriptlet_description: Color { r: 220, g: 180, b: 0 },
            },
        )
    } else {
        None
    }
}

/// The built-in themes, each under its name.
pub fn themes() -> (r: Vec<(String, Theme)>)
    ensures
        r@.len() == 4,
        r@[0].0@ == "default"@ && Some(r@[0].1) == spec_theme("default"@),
        r@[1].0@ == "ocean"@ && Some(r@[1].1) == spec_theme("ocean"@),
        r@[2].0@ == "forest"@ && Some(r@[2].1) == spec_theme("forest"@),
        r@[3].0@ == "sunset"@ && Some(r@[3].1) == spec_theme("sunset"@),
    {
    proof {
        reveal_strlit("default");
        reveal_strlit("ocean");
        reveal_strlit("forest");
        reveal_strlit("sunset");
        assert("default"@.len() == 7);
        assert("ocean"@.len() == 5);
        assert("forest"@.len() == 6);
        assert("sunset"@.len() == 6);
        assert("forest"@[0] == 'f');
        assert("sunset"@[0] == 's');
    }
    let mut r: Vec<(String, Theme)> = Vec::new();
    r.push(
        (
            "default".to_owned(),
            Theme {
                scriptlet_name: Color { r: 200, g: 200, b: 0 },
                scriptlet_description: Color { r: 200, g: 200, b: 200 },
            },
        ),
    );
    r.push(
        (
            "ocean".to_owned(),
            Theme {
                scriptlet_name: Color { r: 0, g: 100, b: 200 },
                scriptlet_description: Color { r: 140, g: 180, b: 200 },
            },
        ),
    );
    r.push(
        (
            "forest".to_owned(),
            Theme {
                scriptlet_name: Color { r: 30, g: 120, b: 30 },
                scriptlet_description: Color { r: 120, g: 200, b: 120 },
            },
        ),
    );
    r.push(
        (
            "sunset".to_owned(),
            Theme {
                scriptlet_name: Color { r: 220, g: 140, b: 0 },
                scriptlet_description: Color { r: 220, g: 180, b: 0 },
            },
        ),
    );
    r
}

} // verus!
