use docu::color::{default_scriptlet_description_color, default_scriptlet_name_color, Color};
use docu::config::{resolve_config, ColorConfig, Config};
use docu::theme::{theme_for, themes};

#[test]
fn hex_colors_parse() {
    let c = Color::try_from("#ff8000").unwrap();
    assert_eq!((c.r, c.g, c.b), (255, 128, 0));
    let c = Color::try_from("#00FFaa").unwrap();
    assert_eq!((c.r, c.g, c.b), (0, 255, 170));
}

#[test]
fn bad_hex_is_rejected() {
    let e = Color::try_from("#ff800").unwrap_err();
    assert_eq!(e, "Invalid hex color format. Use #RRGGBB");
    let e = Color::try_from("#ff80zz").unwrap_err();
    assert_eq!(e, "Invalid hex color format. Use #RRGGBB");
}

#[test]
fn rgb_colors_parse() {
    let c = Color::try_from("rgb(1, 2, 3)").unwrap();
    assert_eq!((c.r, c.g, c.b), (1, 2, 3));
    let c = Color::try_from("rgb(255,0,128)").unwrap();
    assert_eq!((c.r, c.g, c.b), (255, 0, 128));
}

#[test]
fn bad_rgb_is_rejected() {
    let e = Color::try_from("rgb(1, 2)").unwrap_err();
    assert_eq!(e, "Invalid RGB color format. Use rgb(r, g, b)");
    let e = Color::try_from("rgb(1, 2, 3, 4)").unwrap_err();
    assert_eq!(e, "Invalid RGB color format. Use rgb(r, g, b)");
    let e = Color::try_from("rgb(256, 0, 0)").unwrap_err();
    assert_eq!(e, "Invalid RGB color format. Use rgb(r, g, b)");
    let e = Color::try_from("rgb(a, 0, 0)").unwrap_err();
    assert_eq!(e, "Invalid RGB color format. Use rgb(r, g, b)");
}

#[test]
fn named_colors_parse_in_any_case() {
    let c = Color::try_from("magenta").unwrap();
    assert_eq!((c.r, c.g, c.b), (255, 0, 255));
    let c = Color::try_from("BLACK").unwrap();
    assert_eq!((c.r, c.g, c.b), (0, 0, 0));
    let c = Color::try_from("Yellow").unwrap();
    assert_eq!((c.r, c.g, c.b), (255, 255, 0));
}

#[test]
fn unknown_color_is_rejected() {
    let e = Color::try_from("chartreuse").unwrap_err();
    assert_eq!(e, "Invalid color");
    let e = Color::try_from("").unwrap_err();
    assert_eq!(e, "Invalid color");
}

#[test]
fn default_display_colors() {
    let name = default_scriptlet_name_color();
    assert_eq!((name.r, name.g, name.b), (255, 255, 0));
    let desc = default_scriptlet_description_color();
    assert_eq!((desc.r, desc.g, desc.b), (255, 255, 255));
    let d = Color::default();
    assert_eq!((d.r, d.g, d.b), (255, 255, 255));
}

#[test]
fn built_in_themes() {
    let all = themes();
    assert_eq!(all.len(), 4);
    assert_eq!(all[0].0, "default");
    assert_eq!(all[1].0, "ocean");
    assert_eq!(all[2].0, "forest");
    assert_eq!(all[3].0, "sunset");
    let ocean = theme_for("ocean").unwrap();
    assert_eq!(
        (ocean.scriptlet_name.r, ocean.scriptlet_name.g, ocean.scriptlet_name.b),
        (0, 100, 200)
    );
    assert!(theme_for("neon").is_none());
}

#[test]
fn resolve_prefers_user_settings() {
    let base = Config::default();
    let user = Config {
        colors: ColorConfig {
            theme: None,
            scriptlet_name: Some(Color { r: 1, g: 2, b: 3 }),
            scriptlet_description: None,
        },
    };
    let resolved = resolve_config(base, Some(user));
    let name = resolved.colors.scriptlet_name.unwrap();
    assert_eq!((name.r, name.g, name.b), (1, 2, 3));
    // the unset description falls back to the default theme
    let desc = resolved.colors.scriptlet_description.unwrap();
    assert_eq!((desc.r, desc.g, desc.b), (200, 200, 200));
}

#[test]
fn resolve_fills_colors_from_named_theme() {
    let base = Config {
        colors: ColorConfig {
            theme: Some("forest".to_string()),
            scriptlet_name: None,
            scriptlet_description: None,
        },
    };
    let resolved = resolve_config(base, None);
    let name = resolved.colors.scriptlet_name.unwrap();
    assert_eq!((name.r, name.g, name.b), (30, 120, 30));
}

#[test]
fn resolve_falls_back_to_default_theme_for_unknown_name() {
    let base = Config {
        colors: ColorConfig {
            theme: Some("neon".to_string()),
            scriptlet_name: None,
            scriptlet_description: None,
        },
    };
    let resolved = resolve_config(base, None);
    let name = resolved.colors.scriptlet_name.unwrap();
    assert_eq!((name.r, name.g, name.b), (200, 200, 0));
}
