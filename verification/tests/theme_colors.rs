use markie::theme::{
    builtin_theme_name, colors_from_alacritty, default_background, default_code_bg, default_code_text,
    default_heading, default_link, default_quote_border, default_quote_text, default_text,
    github_light_colors, list_builtins, normalize_theme_name, AlacrittyPalette,
};

#[test]
fn default_colors() {
    assert_eq!(default_background(), "#ffffff");
    assert_eq!(default_text(), "#24292f");
    assert_eq!(default_heading(), "#1b1f23");
    assert_eq!(default_link(), "#0969da");
    assert_eq!(default_code_bg(), "#f6f8fa");
    assert_eq!(default_code_text(), "#24292f");
    assert_eq!(default_quote_border(), "#d0d7de");
    assert_eq!(default_quote_text(), "#57606a");
    let c = github_light_colors();
    assert_eq!(c.background_color, "#ffffff");
    assert_eq!(c.quote_text_color, "#57606a");
}

#[test]
fn builtin_list() {
    let names = list_builtins();
    assert_eq!(names.len(), 13);
    assert!(names.iter().any(|n| n == "everforest"));
    assert_eq!(names[0], "catppuccin_latte");
    assert_eq!(names[12], "tokyo_night");
    assert!(names.iter().any(|n| n == "solarized_light"));
}

#[test]
fn builtin_names_ignore_case_dashes_and_spaces() {
    assert_eq!(builtin_theme_name("solarized_light").unwrap(), "solarized_light");
    assert_eq!(builtin_theme_name("Solarized-Light").unwrap(), "solarized_light");
    assert_eq!(builtin_theme_name("  NORD ").unwrap(), "nord");
    assert_eq!(normalize_theme_name(" Tokyo-Night "), "tokyo_night".chars().collect::<Vec<_>>());
}

#[test]
fn unknown_builtin_lists_the_themes() {
    let err = builtin_theme_name("Zenburn").unwrap_err();
    assert_eq!(
        err,
        "Unknown built-in theme 'Zenburn'. Available: catppuccin_latte, catppuccin_mocha, dracula, \
         everforest, github_dark, github_light, gruvbox_dark, gruvbox_light, monokai_pro, nord, solarized_dark, \
         solarized_light, tokyo_night"
    );
}

#[test]
fn alacritty_mapping() {
    let c = colors_from_alacritty(AlacrittyPalette {
        background: "#000001".to_string(),
        foreground: "#000002".to_string(),
        black: "#000003".to_string(),
        blue: "#000004".to_string(),
        cyan: "#000005".to_string(),
        white: "#000006".to_string(),
    });
    assert_eq!(c.background_color, "#000001");
    assert_eq!(c.text_color, "#000002");
    assert_eq!(c.heading_color, "#000004");
    assert_eq!(c.link_color, "#000005");
    assert_eq!(c.code_bg_color, "#000003");
    assert_eq!(c.code_text_color, "#000002");
    assert_eq!(c.quote_border_color, "#000006");
    assert_eq!(c.quote_text_color, "#000002");
}

#[test]
fn from_builtin_accepts_hyphenated_and_case_insensitive_names() {
    let underscore = builtin_theme_name("solarized_light").expect("underscore variant");
    let hyphen = builtin_theme_name("Solarized-Light").expect("hyphen variant");
    assert_eq!(underscore, hyphen);
}
