use glry::config::{
    parse_config, split_lines, strip_comment, unquote, Color, Config, ConfigWarning,
    Theme, default_config_text,
};

fn chars(s: &str) -> Vec<char> {
    s.chars().collect()
}

fn text(v: &[char]) -> String {
    v.iter().collect()
}

#[test]
fn theme_default_palette() {
    let t = Theme::default();
    assert_eq!(t.header_fg, Color::Black);
    assert_eq!(t.header_bg, Color::Cyan);
    assert_eq!(t.selection_fg, Color::Black);
    assert_eq!(t.selection_bg, Color::Cyan);
    assert_eq!(t.status_fg, Color::Gray);
    assert_eq!(t.status_bg, Color::Black);
    assert_eq!(t.directory_fg, Color::Yellow);
    assert_eq!(t.error_fg, Color::Red);
    assert_eq!(t.loading_fg, Color::DarkGray);
}

#[test]
fn config_defaults() {
    let c = Config::default();
    assert_eq!(c.theme, Theme::default());
    assert!(c.thumbnail_crop);
    assert!(!c.fullscreen_hide_bars);
    assert!(!c.ai_enabled);
}

#[test]
fn empty_file_gives_defaults() {
    let (c, w) = parse_config("");
    assert_eq!(c, Config::default());
    assert!(w.is_empty());
}

#[test]
fn default_template_gives_defaults() {
    let text = default_config_text();
    assert!(text.starts_with("# glry configuration — uncomment a line to override the default.\n#\n"));
    assert!(text.ends_with("# ai_enabled = false\n"));
    assert_eq!(text.lines().count(), 23);
    let (c, w) = parse_config(&text);
    assert_eq!(c, Config::default());
    assert!(w.is_empty());
}

#[test]
fn readme_example_overrides() {
    let src = "# ~/.config/glry/config\nheader_fg    = \"black\"\nheader_bg    = \"cyan\"\nselection_fg = \"black\"\nselection_bg = \"cyan\"\nstatus_fg    = \"gray\"\nstatus_bg    = \"black\"\ndirectory_fg = \"yellow\"\nerror_fg     = \"red\"\nloading_fg   = \"darkgray\"\nthumbnail_crop = true\nfullscreen_hide_bars = false\n";
    let (c, w) = parse_config(src);
    assert!(w.is_empty(), "{w:?}");
    assert_eq!(c, Config::default());
}

#[test]
fn colors_by_name_index_and_hex() {
    let src = "header_fg = red\nheader_bg = '42'\nstatus_fg = \"#0a1B2c\"\nerror_fg = bright-blue\nloading_fg = grey\n";
    let (c, w) = parse_config(src);
    assert!(w.is_empty(), "{w:?}");
    assert_eq!(c.theme.header_fg, Color::Red);
    assert_eq!(c.theme.header_bg, Color::Indexed(42));
    assert_eq!(c.theme.status_fg, Color::Rgb(0x0a, 0x1b, 0x2c));
    assert_eq!(c.theme.error_fg, Color::LightBlue);
    assert_eq!(c.theme.loading_fg, Color::Gray);
    assert_eq!(c.theme.selection_bg, Color::Cyan);
}

#[test]
fn booleans() {
    let (c, w) = parse_config("thumbnail_crop = false\nfullscreen_hide_bars = \"true\"\nai_enabled = true\n");
    assert!(w.is_empty(), "{w:?}");
    assert!(!c.thumbnail_crop);
    assert!(c.fullscreen_hide_bars);
    assert!(c.ai_enabled);
}

#[test]
fn trailing_comment_and_crlf() {
    let (c, w) = parse_config("status_bg = blue   # note\r\n\r\n   # only a comment\r\ndirectory_fg=white\r\n");
    assert!(w.is_empty(), "{w:?}");
    assert_eq!(c.theme.status_bg, Color::Blue);
    assert_eq!(c.theme.directory_fg, Color::White);
}

#[test]
fn missing_equals_is_reported_with_line() {
    let (c, w) = parse_config("\nheader_fg red\n");
    assert_eq!(c, Config::default());
    assert_eq!(w.len(), 1);
    match &w[0] {
        ConfigWarning::MissingEquals { line } => assert_eq!(*line, 2),
        other => panic!("{other:?}"),
    }
}

#[test]
fn invalid_color_is_reported_and_skipped() {
    let (c, w) = parse_config("header_fg = blurple\nheader_bg = green\n");
    assert_eq!(c.theme.header_fg, Color::Black);
    assert_eq!(c.theme.header_bg, Color::Green);
    assert_eq!(w.len(), 1);
    match &w[0] {
        ConfigWarning::InvalidColor { line, key, value } => {
            assert_eq!(*line, 1);
            assert_eq!(key, "header_fg");
            assert_eq!(value, "blurple");
        }
        other => panic!("{other:?}"),
    }
}

#[test]
fn unknown_key_is_reported() {
    let (c, w) = parse_config("title_fg = red\nmystery = nonsense\n");
    assert_eq!(c, Config::default());
    assert_eq!(w.len(), 2);
    match &w[0] {
        ConfigWarning::UnknownKey { line, key } => {
            assert_eq!(*line, 1);
            assert_eq!(key, "title_fg");
        }
        other => panic!("{other:?}"),
    }
    // A value that is not a color is reported as such before the key is looked at.
    match &w[1] {
        ConfigWarning::InvalidColor { line, key, value } => {
            assert_eq!(*line, 2);
            assert_eq!(key, "mystery");
            assert_eq!(value, "nonsense");
        }
        other => panic!("{other:?}"),
    }
}

#[test]
fn invalid_bool_is_reported() {
    let (c, w) = parse_config("thumbnail_crop = yes\n");
    assert!(c.thumbnail_crop);
    match &w[0] {
        ConfigWarning::InvalidBool { line, key, value } => {
            assert_eq!(*line, 1);
            assert_eq!(key, "thumbnail_crop");
            assert_eq!(value, "yes");
        }
        other => panic!("{other:?}"),
    }
}

#[test]
fn later_lines_override_earlier_ones() {
    let (c, _) = parse_config("header_fg = red\nheader_fg = green\n");
    assert_eq!(c.theme.header_fg, Color::Green);
}

#[test]
fn value_keeps_text_after_first_equals() {
    let (_, w) = parse_config("header_fg = a=b\n");
    match &w[0] {
        ConfigWarning::InvalidColor { value, .. } => assert_eq!(value, "a=b"),
        other => panic!("{other:?}"),
    }
}

#[test]
fn split_lines_like_str_lines() {
    let got: Vec<String> = split_lines(&chars("a\nb\r\n\nc\r")).iter().map(|l| text(l)).collect();
    assert_eq!(got, vec!["a", "b", "", "c\r"]);
    assert!(split_lines(&chars("")).is_empty());
    let one: Vec<String> = split_lines(&chars("x\n")).iter().map(|l| text(l)).collect();
    assert_eq!(one, vec!["x"]);
}

#[test]
fn strip_comment_and_unquote() {
    assert_eq!(strip_comment("a = b # c"), "a = b ");
    assert_eq!(strip_comment("no comment"), "no comment");
    assert_eq!(strip_comment("k = \"#abcdef\" # hex"), "k = \"#abcdef\" ");
    assert_eq!(strip_comment("k = '#' #x"), "k = '#' ");
    assert_eq!(strip_comment("k = #abcdef"), "k = ");
    assert_eq!(unquote("\"red\""), "red");
    assert_eq!(unquote("'red'"), "red");
    assert_eq!(unquote("\"red'"), "\"red'");
    assert_eq!(unquote("\""), "\"");
    assert_eq!(unquote("\"\""), "");
}

#[test]
fn warning_messages_name_line_key_and_value() {
    let (_, w) = parse_config("header_fg\nheader_fg = \"nope\"\nthumbnail_crop = maybe\nfoo = red\n");
    assert_eq!(w.len(), 4);
    assert_eq!(w[0].line(), 1);
    assert_eq!(w[0].message(), "expected `key = value`");
    assert_eq!(w[1].line(), 2);
    assert_eq!(w[1].message(), "invalid color `nope` for `header_fg`");
    assert_eq!(w[2].line(), 3);
    assert_eq!(w[2].message(), "invalid boolean `maybe` for `thumbnail_crop`");
    assert_eq!(w[3].line(), 4);
    assert_eq!(w[3].message(), "unknown key `foo`");
}
