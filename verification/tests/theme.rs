use vimmail::theme::{
    generate_theme_css, hex_to_rgb as hex_to_rgb_chars, normalize_hex as normalize_hex_chars,
    parse_alacritty_colors, parse_ghostty_colors, ThemeColors,
};

fn normalize_hex(raw: &str) -> Option<String> {
    let chars: Vec<char> = raw.chars().collect();
    normalize_hex_chars(&chars).map(|v| v.into_iter().collect())
}

fn hex_to_rgb(hex: &str) -> String {
    let chars: Vec<char> = hex.chars().collect();
    hex_to_rgb_chars(&chars).into_iter().collect()
}


// -- Alacritty test fixtures --

const ALACRITTY_SOLARIZED: &str = "\
# Colors (Solarized Light)

# Default colors
[colors.primary]
background = '#fdf6e3'
foreground = '#586e75'

# Normal colors
[colors.normal]
black   = '#073642'
red     = '#dc322f'
green   = '#859900'
yellow  = '#b58900'
blue    = '#268bd2'
magenta = '#d33682'
cyan    = '#2aa198'
white   = '#eee8d5'

# Bright colors
[colors.bright]
black   = '#002b36'
red     = '#cb4b16'
green   = '#586e75'
yellow  = '#657b83'
blue    = '#839496'
magenta = '#6c71c4'
cyan    = '#93a1a1'
white   = '#fdf6e3'
";

const ALACRITTY_0X: &str = "\
[colors]

# Primary colors
[colors.primary]
background = \"0x1d2021\"
foreground = \"0xd4be98\"

# Selection colors
[colors.selection]
text = \"0x1d2021\"
background = \"0xd4be98\"

# Normal colors
[colors.normal]
black   = \"0x665c54\"
red     = \"0xea6962\"
green   = \"0xa9b665\"
yellow  = \"0xe78a4e\"
blue    = \"0x7daea3\"
magenta = \"0xd3869b\"
cyan    = \"0x89b482\"
white   = \"0xd4be98\"

# Bright colors
[colors.bright]
black   = \"0x928374\"
red     = \"0xea6962\"
green   = \"0xa9b665\"
yellow  = \"0xd8a657\"
blue    = \"0x7daea3\"
magenta = \"0xd3869b\"
cyan    = \"0x89b482\"
white   = \"0xd4be98\"
";

// -- Ghostty test fixture --

const GHOSTTY_GRUVU: &str = "\
# Background and Foreground
background =#1d2021
foreground =#d5c4a1

# Cursor
cursor-color=#d5c4a1
cursor-text=#1d2021

# Selection
selection-background =#665c54
selection-foreground =#d5c4a1

# Color Palette (based on Gruvbox Dark Hard)
palette = 0=#1d2021
palette = 1=#cc241d
palette = 2=#b8bb26
palette = 3=#d79921
palette = 4=#83a598
palette = 5=#d3869b
palette = 6=#8ec07c
palette = 7=#d5c4a1
palette = 8=#665c54
palette = 9=#cc241d
palette = 10=#b8bb26
palette = 11=#d79921
palette = 12=#83a598
palette = 13=#d3869b
palette = 14=#b8bb26
palette = 15=#ebdbb2
";

// -----------------------------------------------------------------------
// normalize_hex
// -----------------------------------------------------------------------

#[test]
fn normalize_hex_hash_prefix() {
    assert_eq!(normalize_hex("'#fdf6e3'"), Some("#fdf6e3".into()));
    assert_eq!(normalize_hex("\"#AABBCC\""), Some("#aabbcc".into()));
}

#[test]
fn normalize_hex_0x_prefix() {
    assert_eq!(normalize_hex("\"0x1d2021\""), Some("#1d2021".into()));
    assert_eq!(normalize_hex("'0xAABBCC'"), Some("#aabbcc".into()));
}

#[test]
fn normalize_hex_bare_hash() {
    // ghostty format: =#hex (no quotes)
    assert_eq!(normalize_hex("#1d2021"), Some("#1d2021".into()));
}

#[test]
fn normalize_hex_strips_inline_comments() {
    assert_eq!(
        normalize_hex("'#fdf6e3' # solarized light"),
        Some("#fdf6e3".into())
    );
    assert_eq!(normalize_hex("#1d2021 # dark bg"), Some("#1d2021".into()));
    assert_eq!(
        normalize_hex("\"0x1d2021\" # gruvbox"),
        Some("#1d2021".into())
    );
}

#[test]
fn normalize_hex_rejects_invalid() {
    assert_eq!(normalize_hex("'#xyz'"), None);
    assert_eq!(normalize_hex("'not-a-color'"), None);
    assert_eq!(normalize_hex("''"), None);
    assert_eq!(normalize_hex("'#12345'"), None);
    assert_eq!(normalize_hex("'#1234567'"), None);
}

// -----------------------------------------------------------------------
// hex_to_rgb
// -----------------------------------------------------------------------

#[test]
fn hex_to_rgb_converts_correctly() {
    assert_eq!(hex_to_rgb("#fdf6e3"), "253,246,227");
    assert_eq!(hex_to_rgb("#000000"), "0,0,0");
    assert_eq!(hex_to_rgb("#ffffff"), "255,255,255");
    assert_eq!(hex_to_rgb("#1d2021"), "29,32,33");
}

// -----------------------------------------------------------------------
// Ghostty parser
// -----------------------------------------------------------------------

#[test]
fn ghostty_parse_full_palette() {
    let colors = parse_ghostty_colors(GHOSTTY_GRUVU).unwrap();
    assert_eq!(colors.bg, "#1d2021");
    assert_eq!(colors.fg, "#d5c4a1");
    assert_eq!(colors.normal[0], "#1d2021"); // palette 0 = black
    assert_eq!(colors.normal[1], "#cc241d"); // palette 1 = red
    assert_eq!(colors.normal[6], "#8ec07c"); // palette 6 = cyan
    assert_eq!(colors.bright[0], "#665c54"); // palette 8
    assert_eq!(colors.bright[7], "#ebdbb2"); // palette 15
    assert_eq!(colors.selection_bg.as_deref(), Some("#665c54"));
}

#[test]
fn ghostty_returns_none_for_empty() {
    assert!(parse_ghostty_colors("").is_none());
}

#[test]
fn ghostty_returns_none_for_missing_palette() {
    let partial = "\
background =#1d2021
foreground =#d5c4a1
palette = 0=#1d2021
";
    assert!(parse_ghostty_colors(partial).is_none());
}

#[test]
fn ghostty_ignores_comments() {
    let with_comments = format!(
        "# Full theme\n\
         # with lots of comments\n\
         {}",
        GHOSTTY_GRUVU
    );
    assert!(parse_ghostty_colors(&with_comments).is_some());
}

// -----------------------------------------------------------------------
// Alacritty parser
// -----------------------------------------------------------------------

#[test]
fn alacritty_parse_hash_prefix() {
    let colors = parse_alacritty_colors(ALACRITTY_SOLARIZED).unwrap();
    assert_eq!(colors.bg, "#fdf6e3");
    assert_eq!(colors.fg, "#586e75");
    assert_eq!(colors.normal[0], "#073642"); // black
    assert_eq!(colors.normal[1], "#dc322f"); // red
    assert_eq!(colors.normal[6], "#2aa198"); // cyan
    assert_eq!(colors.normal[7], "#eee8d5"); // white
    assert_eq!(colors.bright[0], "#002b36"); // bright black
    assert_eq!(colors.bright[7], "#fdf6e3"); // bright white
    assert!(colors.selection_bg.is_none());
}

#[test]
fn alacritty_parse_0x_prefix() {
    let colors = parse_alacritty_colors(ALACRITTY_0X).unwrap();
    assert_eq!(colors.bg, "#1d2021");
    assert_eq!(colors.fg, "#d4be98");
    assert_eq!(colors.normal[0], "#665c54");
    assert_eq!(colors.normal[6], "#89b482");
    assert_eq!(colors.bright[0], "#928374");
    assert_eq!(colors.selection_bg.as_deref(), Some("#d4be98"));
}

#[test]
fn alacritty_returns_none_for_empty() {
    assert!(parse_alacritty_colors("").is_none());
}

#[test]
fn alacritty_returns_none_for_garbage() {
    assert!(parse_alacritty_colors("not a toml file at all").is_none());
}

#[test]
fn alacritty_returns_none_when_bright_missing() {
    let partial = "\
[colors.primary]
background = '#fdf6e3'
foreground = '#586e75'

[colors.normal]
black   = '#073642'
red     = '#dc322f'
green   = '#859900'
yellow  = '#b58900'
blue    = '#268bd2'
magenta = '#d33682'
cyan    = '#2aa198'
white   = '#eee8d5'
";
    assert!(parse_alacritty_colors(partial).is_none());
}

#[test]
fn alacritty_returns_none_when_color_missing() {
    // Missing normal.magenta
    let missing = "\
[colors.primary]
background = '#fdf6e3'
foreground = '#586e75'

[colors.normal]
black   = '#073642'
red     = '#dc322f'
green   = '#859900'
yellow  = '#b58900'
blue    = '#268bd2'
cyan    = '#2aa198'
white   = '#eee8d5'

[colors.bright]
black   = '#002b36'
red     = '#cb4b16'
green   = '#586e75'
yellow  = '#657b83'
blue    = '#839496'
magenta = '#6c71c4'
cyan    = '#93a1a1'
white   = '#fdf6e3'
";
    assert!(parse_alacritty_colors(missing).is_none());
}

#[test]
fn alacritty_handles_extra_whitespace() {
    let spaced = "\
[colors.primary]
background  =  '#aabbcc'
foreground  =  '#112233'

[colors.normal]
black   =   '#000000'
red     =   '#110000'
green   =   '#001100'
yellow  =   '#111100'
blue    =   '#000011'
magenta =   '#110011'
cyan    =   '#001111'
white   =   '#ffffff'

[colors.bright]
black   =   '#333333'
red     =   '#440000'
green   =   '#004400'
yellow  =   '#444400'
blue    =   '#000044'
magenta =   '#440044'
cyan    =   '#004444'
white   =   '#cccccc'
";
    let colors = parse_alacritty_colors(spaced).unwrap();
    assert_eq!(colors.bg, "#aabbcc");
    assert_eq!(colors.fg, "#112233");
    assert_eq!(colors.normal[0], "#000000");
}

// -----------------------------------------------------------------------
// CSS generation
// -----------------------------------------------------------------------

#[test]
fn generate_css_contains_all_variables() {
    let colors = parse_alacritty_colors(ALACRITTY_SOLARIZED).unwrap();
    let css = generate_theme_css(&colors, false);
    assert!(css.contains("--bg: #fdf6e3;"));
    assert!(css.contains("--bg-secondary: #073642;"));
    assert!(css.contains("--bg-tertiary: #002b36;"));
    assert!(css.contains("--fg: #586e75;"));
    assert!(css.contains("--fg-muted: #eee8d5;"));
    assert!(css.contains("--fg-dim: #002b36;"));
    assert!(css.contains("--accent: #2aa198;"));
    assert!(css.contains("--accent-dim: #268bd2;"));
    assert!(css.contains("--success: #859900;"));
    assert!(css.contains("--warning: #b58900;"));
    assert!(css.contains("--danger: #dc322f;"));
    assert!(css.contains("--selection: #002b36;"));
    assert!(css.contains("--border: #002b36;"));
}

#[test]
fn generate_css_overlay_uses_bg_rgba() {
    let colors = parse_alacritty_colors(ALACRITTY_SOLARIZED).unwrap();
    let css = generate_theme_css(&colors, false);
    assert!(css.contains("#help-overlay"));
    assert!(css.contains("rgba(253,246,227, 0.9)"));
    assert!(css.contains("#split-modal"));
}

#[test]
fn generate_css_light_mode_has_marker() {
    let colors = parse_alacritty_colors(ALACRITTY_SOLARIZED).unwrap();
    let css = generate_theme_css(&colors, true);
    assert!(css.contains("--light-mode"));
}

#[test]
fn generate_css_dark_mode_no_marker() {
    let colors = parse_alacritty_colors(ALACRITTY_SOLARIZED).unwrap();
    let css = generate_theme_css(&colors, false);
    assert!(!css.contains("--light-mode"));
}

#[test]
fn generate_css_uses_selection_bg_when_present() {
    let colors = parse_ghostty_colors(GHOSTTY_GRUVU).unwrap();
    let css = generate_theme_css(&colors, false);
    assert!(css.contains("--selection: #665c54;"));
}

#[test]
fn generate_css_falls_back_to_bright_black_for_selection() {
    let colors = parse_alacritty_colors(ALACRITTY_SOLARIZED).unwrap();
    let css = generate_theme_css(&colors, false);
    // No selection section → uses bright[0] (bright black) = #002b36
    assert!(css.contains("--selection: #002b36;"));
}


// ---------------------------------------------------------------------------
// Further cases
// ---------------------------------------------------------------------------

#[test]
fn normalize_hex_unclosed_quote_is_no_colour() {
    assert_eq!(normalize_hex("'#fdf6e3"), None);
    assert_eq!(normalize_hex("\"0x1d2021"), None);
}

#[test]
fn normalize_hex_upper_case_prefix() {
    assert_eq!(normalize_hex("0XAABBCC"), Some("#aabbcc".into()));
    assert_eq!(normalize_hex("  aabbcc  "), Some("#aabbcc".into()));
}

#[test]
fn hex_to_rgb_defaults_to_zero() {
    assert_eq!(hex_to_rgb(""), "0,0,0");
    assert_eq!(hex_to_rgb("#ff"), "255,0,0");
    assert_eq!(hex_to_rgb("#zz10+f"), "0,16,15");
    assert_eq!(hex_to_rgb("0A0b0C"), "10,11,12");
}

#[test]
fn ghostty_later_setting_replaces_earlier() {
    let text = format!("{}background = nonsense\n", GHOSTTY_GRUVU);
    assert!(parse_ghostty_colors(&text).is_none());
    let text = format!("{}background = #000000\npalette = +3=#010203\n", GHOSTTY_GRUVU);
    let colors = parse_ghostty_colors(&text).unwrap();
    assert_eq!(colors.bg, "#000000");
    assert_eq!(colors.normal[3], "#010203");
}

#[test]
fn ghostty_ignores_palette_numbers_out_of_range() {
    let text = format!("{}palette = 16=#ffffff\npalette = -1=#ffffff\n", GHOSTTY_GRUVU);
    let colors = parse_ghostty_colors(&text).unwrap();
    assert_eq!(colors.bright[7], "#ebdbb2");
}

#[test]
fn alacritty_ignores_settings_outside_colour_tables() {
    let text = format!("[font]\nblack = '#ffffff'\nbackground = '#ffffff'\n{}", ALACRITTY_SOLARIZED);
    let colors = parse_alacritty_colors(&text).unwrap();
    assert_eq!(colors.normal[0], "#073642");
    assert_eq!(colors.bg, "#fdf6e3");
}

#[test]
fn generate_css_exact_text() {
    let name = |s: &str| s.to_string();
    let colors = ThemeColors {
        bg: name("#010203"),
        fg: name("#f0f0f0"),
        normal: [
            name("#n0"), name("#n1"), name("#n2"), name("#n3"),
            name("#n4"), name("#n5"), name("#n6"), name("#n7"),
        ],
        bright: [
            name("#b0"), name("#b1"), name("#b2"), name("#b3"),
            name("#b4"), name("#b5"), name("#b6"), name("#b7"),
        ],
        selection_bg: None,
    };
    let expected = "\
:root {
    --bg: #010203;
    --bg-secondary: #n0;
    --bg-tertiary: #b0;
    --fg: #f0f0f0;
    --fg-muted: #n7;
    --fg-dim: #b0;
    --accent: #n6;
    --accent-dim: #n4;
    --success: #n2;
    --warning: #n3;
    --danger: #n1;
    --selection: #b0;
    --border: #b0;
}

#help-overlay {
    background: rgba(1,2,3, 0.9);
}

#split-modal {
    background: rgba(1,2,3, 0.9);
}";
    assert_eq!(generate_theme_css(&colors, false), format!("{}\n", expected));
    assert_eq!(
        generate_theme_css(&colors, true),
        format!("{}\n\n/* --light-mode */\n", expected)
    );
}
