//! User configuration: the color theme and the viewer settings read from a
//! `key = value` file.

use vstd::prelude::*;
use ratatui::style::Color as R;
use crate::text::{chars_eq, chars_of, push_all, slice_chars, string_of, trim, trim_bounds};

verus! {

/// A terminal color, as the theme file names it: one of the 16 named colors,
/// the terminal default (`Reset`), an 8-bit palette index or a 24-bit RGB value.
#[derive(Debug, Clone, Copy, PartialEq, Eq, Structural)]
pub enum Color {
    Reset,
    Black,
    Red,
    Green,
    Yellow,
    Blue,
    Magenta,
    Cyan,
    Gray,
    DarkGray,
    LightRed,
    LightGreen,
    LightYellow,
    LightBlue,
    LightMagenta,
    LightCyan,
    White,
    Rgb(u8, u8, u8),
    Indexed(u8),
}

/// Resolved color palette used everywhere in the UI.
#[derive(Debug, Clone, Copy, PartialEq, Eq, Structural)]
pub struct Theme {
    pub header_fg: Color,
    pub header_bg: Color,
    pub selection_fg: Color,
    pub selection_bg: Color,
    pub status_fg: Color,
    pub status_bg: Color,
    pub directory_fg: Color,
    pub error_fg: Color,
    pub loading_fg: Color,
}

/// The built-in palette.
pub open spec fn default_theme() -> Theme {
    Theme {
        header_fg: Color::Black,
        header_bg: Color::Cyan,
        selection_fg: Color::Black,
        selection_bg: Color::Cyan,
        status_fg: Color::Gray,
        status_bg: Color::Black,
        directory_fg: Color::Yellow,
        error_fg: Color::Red,
        loading_fg: Color::DarkGray,
    }
}

impl Default for Theme {
    fn default() -> (t: Self)
        ensures
            t == default_theme(),
    {
        Theme {
            header_fg: Color::Black,
            header_bg: Color::Cyan,
            selection_fg: Color::Black,
            selection_bg: Color::Cyan,
            status_fg: Color::Gray,
            status_bg: Color::Black,
            directory_fg: Color::Yellow,
            error_fg: Color::Red,
            loading_fg: Color::DarkGray,
        }
    }
}

} // verus!
verus! {

/// What `ratatui::style::Color::from_str` returns for a string.
pub uninterp spec fn ratatui_color_of(s: Seq<char>) -> Option<Color>;

/// The value of an ASCII hexadecimal digit.
pub open spec fn hex_value(c: char) -> Option<int> {
    if '0' <= c <= '9' {
        Some(c as int - '0' as int)
    } else if 'a' <= c <= 'f' {
        Some(c as int - 'a' as int + 10)
    } else if 'A' <= c <= 'F' {
        Some(c as int - 'A' as int + 10)
    } else {
        None
    }
}

/// The byte written by the two hexadecimal digits at `i` and `i + 1` of `s`.
pub open spec fn hex_byte(s: Seq<char>, i: int) -> Option<u8> {
    match (hex_value(s[i]), hex_value(s[i + 1])) {
        (Some(a), Some(b)) => Some((16 * a + b) as u8),
        _ => None,
    }
}

/// `s` as a `#rrggbb` hex color.
pub open spec fn hex_rgb(s: Seq<char>) -> Option<(u8, u8, u8)> {
    if s.len() == 7 && s[0] == '#' {
        match (hex_byte(s, 1), hex_byte(s, 3), hex_byte(s, 5)) {
            (Some(r), Some(g), Some(b)) => Some((r, g, b)),
            _ => None,
        }
    } else {
        None
    }
}

/// The value of an ASCII decimal digit.
pub open spec fn digit_value(c: char) -> Option<int> {
    if '0' <= c <= '9' {
        Some(c as int - '0' as int)
    } else {
        None
    }
}

/// `s` as one to three decimal digits of a palette index below 256.
pub open spec fn palette_index(s: Seq<char>) -> Option<u8> {
    let v = if s.len() == 1 {
        match digit_value(s[0]) {
            Some(a) => Some(a),
            None => None,
        }
    } else if s.len() == 2 {
        match (digit_value(s[0]), digit_value(s[1])) {
            (Some(a), Some(b)) => Some(10 * a + b),
            _ => None,
        }
    } else if s.len() == 3 {
        match (digit_value(s[0]), digit_value(s[1]), digit_value(s[2])) {
            (Some(a), Some(b), Some(c)) => Some(100 * a + 10 * b + c),
            _ => None,
        }
    } else {
        None
    };
    match v {
        Some(n) => if n < 256 {
            Some(n as u8)
        } else {
            None
        },
        None => None,
    }
}

/// Calls `<ratatui::style::Color as FromStr>::from_str`.
#[verifier::external_body]
fn parse_color(s: &str) -> (r: Option<Color>)
    ensures
        r == ratatui_color_of(s@),
        s@ == "reset"@ ==> r == Some(Color::Reset),
        s@ == "black"@ ==> r == Some(Color::Black),
        s@ == "red"@ ==> r == Some(Color::Red),
        s@ == "green"@ ==> r == Some(Color::Green),
        s@ == "yellow"@ ==> r == Some(Color::Yellow),
        s@ == "blue"@ ==> r == Some(Color::Blue),
        s@ == "magenta"@ ==> r == Some(Color::Magenta),
        s@ == "cyan"@ ==> r == Some(Color::Cyan),
        s@ == "gray"@ ==> r == Some(Color::Gray),
        s@ == "darkgray"@ ==> r == Some(Color::DarkGray),
        s@ == "lightred"@ ==> r == Some(Color::LightRed),
        s@ == "lightgreen"@ ==> r == Some(Color::LightGreen),
        s@ == "lightyellow"@ ==> r == Some(Color::LightYellow),
        s@ == "lightblue"@ ==> r == Some(Color::LightBlue),
        s@ == "lightmagenta"@ ==> r == Some(Color::LightMagenta),
        s@ == "lightcyan"@ ==> r == Some(Color::LightCyan),
        s@ == "white"@ ==> r == Some(Color::White),
        s@.len() == 0 ==> r is None,
        hex_rgb(s@) matches Some((red, green, blue)) ==> r == Some(Color::Rgb(red, green, blue)),
        palette_index(s@) matches Some(i) ==> r == Some(Color::Indexed(i)),
{
    Some(match s.parse::<R>().ok()? {
        R::Reset => Color::Reset, R::Black => Color::Black, R::Red => Color::Red,
        R::Green => Color::Green, R::Yellow => Color::Yellow, R::Blue => Color::Blue,
        R::Magenta => Color::Magenta, R::Cyan => Color::Cyan, R::Gray => Color::Gray,
        R::DarkGray => Color::DarkGray, R::LightRed => Color::LightRed,
        R::LightGreen => Color::LightGreen, R::LightYellow => Color::LightYellow,
        R::LightBlue => Color::LightBlue, R::LightMagenta => Color::LightMagenta,
        R::LightCyan => Color::LightCyan, R::White => Color::White,
        R::Rgb(r, g, b) => Color::Rgb(r, g, b), R::Indexed(i) => Color::Indexed(i),
    })
}

} // verus!

verus! {

/// The settings read from the config file.
#[derive(Debug, Clone, Copy, PartialEq, Eq, Structural)]
pub struct Config {
    pub theme: Theme,
    /// Center-crop grid thumbnails to the cell aspect (else letterbox them).
    pub thumbnail_crop: bool,
    /// Start the fullscreen viewer with the header and status bars hidden.
    pub fullscreen_hide_bars: bool,
    /// Enable the AI describe feature (it also needs an API token).
    pub ai_enabled: bool,
}

/// The settings that apply when the file sets nothing.
pub open spec fn default_config() -> Config {
    Config {
        theme: default_theme(),
        thumbnail_crop: true,
        fullscreen_hide_bars: false,
        ai_enabled: false,
    }
}

impl Default for Config {
    fn default() -> (c: Self)
        ensures
            c == default_config(),
    {
        Config {
            theme: Theme::default(),
            thumbnail_crop: true,
            fullscreen_hide_bars: false,
            ai_enabled: false,
        }
    }
}

/// The lines of the template written to a fresh config file on first run.
/// All entries are commented so the built-in defaults apply until the user
/// opts in.
pub open spec fn template_lines() -> Seq<Seq<char>> {
    seq![
        "# glry configuration — uncomment a line to override the default."@,
        "#"@,
        "# Values are ratatui color strings: a named color (black, red, darkgray, …),"@,
        "# an 8-bit index (0-255), or \"#rrggbb\" hex."@,
        ""@,
        "# header_fg    = \"black\""@,
        "# header_bg    = \"cyan\""@,
        "# selection_fg = \"black\""@,
        "# selection_bg = \"cyan\""@,
        "# status_fg    = \"gray\""@,
        "# status_bg    = \"black\""@,
        "# directory_fg = \"yellow\""@,
        "# error_fg     = \"red\""@,
        "# loading_fg   = \"darkgray\""@,
        ""@,
        "# Center-crop grid thumbnails to the cell aspect so every cell is filled."@,
        "# thumbnail_crop = true"@,
        ""@,
        "# Hide the header and status bars when opening the fullscreen viewer."@,
        "# fullscreen_hide_bars = false"@,
        ""@,
        "# Describe images with an AI model (also needs SWIFTROUTER_API_KEY)."@,
        "# ai_enabled = false"@
    ]
}

/// The text of `ls`, each line followed by a newline.
pub open spec fn joined_lines(ls: Seq<Seq<char>>) -> Seq<char>
    decreases ls.len(),
{
    if ls.len() == 0 {
        Seq::empty()
    } else {
        joined_lines(ls.drop_last()) + ls.last() + seq!['\n']
    }
}

/// The text written to a fresh config file (see [`template_lines`]).
pub fn default_config_text() -> (r: String)
    ensures
        r@ == joined_lines(template_lines()),
{
    let lines: Vec<&str> = vec![
        "# glry configuration — uncomment a line to override the default.",
        "#",
        "# Values are ratatui color strings: a named color (black, red, darkgray, …),",
        "# an 8-bit index (0-255), or \"#rrggbb\" hex.",
        "",
        "# header_fg    = \"black\"",
        "# header_bg    = \"cyan\"",
        "# selection_fg = \"black\"",
        "# selection_bg = \"cyan\"",
        "# status_fg    = \"gray\"",
        "# status_bg    = \"black\"",
        "# directory_fg = \"yellow\"",
        "# error_fg     = \"red\"",
        "# loading_fg   = \"darkgray\"",
        "",
        "# Center-crop grid thumbnails to the cell aspect so every cell is filled.",
        "# thumbnail_crop = true",
        "",
        "# Hide the header and status bars when opening the fullscreen viewer.",
        "# fullscreen_hide_bars = false",
        "",
        "# Describe images with an AI model (also needs SWIFTROUTER_API_KEY).",
        "# ai_enabled = false"
    ];
    let ghost ls = template_lines();
    assert(lines@.len() == ls.len());
    assert forall|k: int| 0 <= k < ls.len() implies #[trigger] lines@[k]@ == ls[k] by {}
    let mut out: Vec<char> = Vec::new();
    let mut i: usize = 0;
    while i < lines.len()
        invariant
            i <= lines@.len() == ls.len(),
            forall|k: int| 0 <= k < ls.len() ==> #[trigger] lines@[k]@ == ls[k],
            out@ == joined_lines(ls.take(i as int)),
        decreases lines@.len() - i,
    {
        let ghost before = out@;
        push_all(&mut out, chars_of(lines[i]).as_slice());
        out.push('\n');
        assert(ls.take(i + 1).drop_last() =~= ls.take(i as int));
        assert(out@ =~= before + ls[i as int] + seq!['\n']);
        i = i + 1;
    }
    assert(ls.take(ls.len() as int) =~= ls);
    string_of(out.as_slice())
}

/// A problem with one line of the config file; the line is skipped.
#[derive(Debug)]
pub enum ConfigWarning {
    /// The line has no `=`.
    MissingEquals { line: usize },
    /// The value of a color key is not a color.
    InvalidColor { line: usize, key: String, value: String },
    /// The value of a boolean key is neither `true` nor `false`.
    InvalidBool { line: usize, key: String, value: String },
    /// The key is not one the gallery knows.
    UnknownKey { line: usize, key: String },
}

/// The value of a [`ConfigWarning`].
pub enum Warning {
    MissingEquals(nat),
    InvalidColor(nat, Seq<char>, Seq<char>),
    InvalidBool(nat, Seq<char>, Seq<char>),
    UnknownKey(nat, Seq<char>),
}

/// What a warning says of its line: `key`/`value` quoted as they appear.
pub open spec fn warning_text(w: Warning) -> Seq<char> {
    match w {
        Warning::MissingEquals(_) => "expected `key = value`"@,
        Warning::InvalidColor(_, key, value) => "invalid color `"@ + value + "` for `"@ + key
            + "`"@,
        Warning::InvalidBool(_, key, value) => "invalid boolean `"@ + value + "` for `"@ + key
            + "`"@,
        Warning::UnknownKey(_, key) => "unknown key `"@ + key + "`"@,
    }
}

/// The line a warning is about.
pub open spec fn warning_line(w: Warning) -> nat {
    match w {
        Warning::MissingEquals(l) => l,
        Warning::InvalidColor(l, _, _) => l,
        Warning::InvalidBool(l, _, _) => l,
        Warning::UnknownKey(l, _) => l,
    }
}

fn quoted_pair(head: &str, value: &str, mid: &str, key: &str) -> (r: Vec<char>)
    ensures
        r@ == head@ + value@ + mid@ + key@ + "`"@,
{
    let mut out = chars_of(head);
    push_all(&mut out, chars_of(value).as_slice());
    push_all(&mut out, chars_of(mid).as_slice());
    push_all(&mut out, chars_of(key).as_slice());
    push_all(&mut out, chars_of("`").as_slice());
    out
}

impl ConfigWarning {
    /// The line (counted from 1) the warning is about.
    pub fn line(&self) -> (r: usize)
        ensures
            r == warning_line(self@),
    {
        match self {
            ConfigWarning::MissingEquals { line } => *line,
            ConfigWarning::InvalidColor { line, .. } => *line,
            ConfigWarning::InvalidBool { line, .. } => *line,
            ConfigWarning::UnknownKey { line, .. } => *line,
        }
    }

    /// What is wrong with the line, as the gallery reports it.
    pub fn message(&self) -> (r: String)
        ensures
            r@ == warning_text(self@),
    {
        let v = match self {
            ConfigWarning::MissingEquals { .. } => chars_of("expected `key = value`"),
            ConfigWarning::InvalidColor { key, value, .. } => quoted_pair(
                "invalid color `",
                value.as_str(),
                "` for `",
                key.as_str(),
            ),
            ConfigWarning::InvalidBool { key, value, .. } => quoted_pair(
                "invalid boolean `",
                value.as_str(),
                "` for `",
                key.as_str(),
            ),
            ConfigWarning::UnknownKey { key, .. } => {
                let mut out = chars_of("unknown key `");
                push_all(&mut out, chars_of(key.as_str()).as_slice());
                push_all(&mut out, chars_of("`").as_slice());
                out
            },
        };
        string_of(v.as_slice())
    }
}

impl View for ConfigWarning {
    type V = Warning;

    open spec fn view(&self) -> Warning {
        match self {
            ConfigWarning::MissingEquals { line } => Warning::MissingEquals(*line as nat),
            ConfigWarning::InvalidColor { line, key, value } => Warning::InvalidColor(
                *line as nat,
                key@,
                value@,
            ),
            ConfigWarning::InvalidBool { line, key, value } => Warning::InvalidBool(
                *line as nat,
                key@,
                value@,
            ),
            ConfigWarning::UnknownKey { line, key } => Warning::UnknownKey(*line as nat, key@),
        }
    }
}

pub open spec fn warnings(v: Seq<ConfigWarning>) -> Seq<Warning> {
    v.map_values(|w: ConfigWarning| w@)
}

/// Index of the first `c` in `s`, searching from `i`.
pub open spec fn find_char(s: Seq<char>, c: char, i: nat) -> Option<int>
    decreases s.len() - i,
{
    if i >= s.len() {
        None
    } else if s[i as int] == c {
        Some(i as int)
    } else {
        find_char(s, c, i + 1)
    }
}

/// Where the comment of `line` starts, scanning from `i` with `quote` the
/// quote character of the string the scan is in, if any: the first `#` that
/// stands outside a `"..."` or `'...'` string, so that a quoted `"#rrggbb"`
/// stays a value.
pub open spec fn comment_start(line: Seq<char>, i: nat, quote: Option<char>) -> Option<int>
    decreases line.len() - i,
{
    if i >= line.len() {
        None
    } else {
        let c = line[i as int];
        match quote {
            None => if c == '#' {
                Some(i as int)
            } else if c == '"' || c == '\'' {
                comment_start(line, i + 1, Some(c))
            } else {
                comment_start(line, i + 1, None)
            },
            Some(q) => if c == q {
                comment_start(line, i + 1, None)
            } else {
                comment_start(line, i + 1, Some(q))
            },
        }
    }
}

/// `line` up to the `#` that starts its comment.
pub open spec fn comment_stripped(line: Seq<char>) -> Seq<char> {
    match comment_start(line, 0, None) {
        Some(i) => line.take(i),
        None => line,
    }
}

/// `s` without one pair of matching surrounding quotes (`"` or `'`).
pub open spec fn unquoted(s: Seq<char>) -> Seq<char> {
    if s.len() >= 2 && ((s[0] == '"' && s.last() == '"') || (s[0] == '\'' && s.last() == '\'')) {
        s.subrange(1, s.len() - 1)
    } else {
        s
    }
}

/// A line without its terminating `\r`, if it has one.
pub open spec fn strip_cr(l: Seq<char>) -> Seq<char> {
    if l.len() > 0 && l.last() == '\r' {
        l.drop_last()
    } else {
        l
    }
}

/// Splitting into lines as far as `s` goes: the finished lines and the
/// unfinished last one.
pub open spec fn lines_acc(s: Seq<char>) -> (Seq<Seq<char>>, Seq<char>)
    decreases s.len(),
{
    if s.len() == 0 {
        (Seq::empty(), Seq::empty())
    } else {
        let (done, cur) = lines_acc(s.drop_last());
        if s.last() == '\n' {
            (done.push(strip_cr(cur)), Seq::empty())
        } else {
            (done, cur.push(s.last()))
        }
    }
}

/// The lines of `s` as `str::lines` yields them: split at `\n`, a `\r`
/// before the `\n` dropped, no empty line after a final `\n`.
pub open spec fn text_lines(s: Seq<char>) -> Seq<Seq<char>> {
    let (done, cur) = lines_acc(s);
    if cur.len() > 0 {
        done.push(cur)
    } else {
        done
    }
}

/// What one line of the file says.
pub enum LineKind {
    Blank,
    NoEquals,
    Pair(Seq<char>, Seq<char>),
}

/// Reading a line: comments stripped, then `key = value` with both sides
/// trimmed and the value unquoted.
pub open spec fn line_kind(raw: Seq<char>) -> LineKind {
    let line = trim(comment_stripped(raw));
    if line.len() == 0 {
        LineKind::Blank
    } else {
        match find_char(line, '=', 0) {
            None => LineKind::NoEquals,
            Some(i) => LineKind::Pair(trim(line.take(i)), unquoted(trim(line.skip(i + 1)))),
        }
    }
}

pub open spec fn is_color_key(k: Seq<char>) -> bool {
    k == "header_fg"@ || k == "header_bg"@ || k == "selection_fg"@ || k == "selection_bg"@ || k
        == "status_fg"@ || k == "status_bg"@ || k == "directory_fg"@ || k == "error_fg"@ || k
        == "loading_fg"@
}

pub open spec fn is_bool_key(k: Seq<char>) -> bool {
    k == "thumbnail_crop"@ || k == "fullscreen_hide_bars"@ || k == "ai_enabled"@
}

pub open spec fn bool_value(v: Seq<char>) -> Option<bool> {
    if v == "true"@ {
        Some(true)
    } else if v == "false"@ {
        Some(false)
    } else {
        None
    }
}

/// `t` with the color named by `key` set to `c`.
pub open spec fn with_color(t: Theme, key: Seq<char>, c: Color) -> Theme {
    if key == "header_fg"@ {
        Theme { header_fg: c, ..t }
    } else if key == "header_bg"@ {
        Theme { header_bg: c, ..t }
    } else if key == "selection_fg"@ {
        Theme { selection_fg: c, ..t }
    } else if key == "selection_bg"@ {
        Theme { selection_bg: c, ..t }
    } else if key == "status_fg"@ {
        Theme { status_fg: c, ..t }
    } else if key == "status_bg"@ {
        Theme { status_bg: c, ..t }
    } else if key == "directory_fg"@ {
        Theme { directory_fg: c, ..t }
    } else if key == "error_fg"@ {
        Theme { error_fg: c, ..t }
    } else if key == "loading_fg"@ {
        Theme { loading_fg: c, ..t }
    } else {
        t
    }
}

/// The color a theme holds under a config key's name.
pub open spec fn color_named(t: Theme, key: Seq<char>) -> Option<Color> {
    if key == "header_fg"@ {
        Some(t.header_fg)
    } else if key == "header_bg"@ {
        Some(t.header_bg)
    } else if key == "selection_fg"@ {
        Some(t.selection_fg)
    } else if key == "selection_bg"@ {
        Some(t.selection_bg)
    } else if key == "status_fg"@ {
        Some(t.status_fg)
    } else if key == "status_bg"@ {
        Some(t.status_bg)
    } else if key == "directory_fg"@ {
        Some(t.directory_fg)
    } else if key == "error_fg"@ {
        Some(t.error_fg)
    } else if key == "loading_fg"@ {
        Some(t.loading_fg)
    } else {
        None
    }
}

/// A `key = value` line with a color key and a valid color sets the theme
/// color of that name to the color, changes no other color and no other
/// setting, and warns of nothing.
pub proof fn lemma_color_line_sets_its_field(
    c: Config,
    lineno: nat,
    key: Seq<char>,
    value: Seq<char>,
    other: Seq<char>,
)
    requires
        is_color_key(key),
        ratatui_color_of(value) is Some,
    ensures
        color_named(apply_pair(c, lineno, key, value).0.theme, key) == ratatui_color_of(value),
        other != key ==> color_named(apply_pair(c, lineno, key, value).0.theme, other)
            == color_named(c.theme, other),
        apply_pair(c, lineno, key, value).0.thumbnail_crop == c.thumbnail_crop,
        apply_pair(c, lineno, key, value).0.fullscreen_hide_bars == c.fullscreen_hide_bars,
        apply_pair(c, lineno, key, value).0.ai_enabled == c.ai_enabled,
        apply_pair(c, lineno, key, value).1 == Seq::<Warning>::empty(),
{
    reveal_strlit("header_fg");
    reveal_strlit("header_bg");
    reveal_strlit("selection_fg");
    reveal_strlit("selection_bg");
    reveal_strlit("status_fg");
    reveal_strlit("status_bg");
    reveal_strlit("directory_fg");
    reveal_strlit("error_fg");
    reveal_strlit("loading_fg");
    reveal_strlit("thumbnail_crop");
    reveal_strlit("fullscreen_hide_bars");
    reveal_strlit("ai_enabled");
    assert(!is_bool_key(key)) by {
        assert(key.len() != 14 && key.len() != 20);
        if key.len() == 10 {
            assert(key =~= "loading_fg"@);
            assert(key[0] != "ai_enabled"@[0]);
        }
    }
}

/// `c` with the boolean named by `key` set to `b`.
pub open spec fn with_bool(c: Config, key: Seq<char>, b: bool) -> Config {
    if key == "thumbnail_crop"@ {
        Config { thumbnail_crop: b, ..c }
    } else if key == "fullscreen_hide_bars"@ {
        Config { fullscreen_hide_bars: b, ..c }
    } else if key == "ai_enabled"@ {
        Config { ai_enabled: b, ..c }
    } else {
        c
    }
}

/// Applying `key = value` from line `lineno`: a boolean key takes `true` or
/// `false`; any other value must be a color, and then the key must be a
/// color key. Anything else is reported and changes nothing.
pub open spec fn apply_pair(c: Config, lineno: nat, key: Seq<char>, value: Seq<char>) -> (
    Config,
    Seq<Warning>,
) {
    if is_bool_key(key) {
        match bool_value(value) {
            Some(b) => (with_bool(c, key, b), Seq::empty()),
            None => (c, seq![Warning::InvalidBool(lineno, key, value)]),
        }
    } else {
        match ratatui_color_of(value) {
            None => (c, seq![Warning::InvalidColor(lineno, key, value)]),
            Some(col) => if is_color_key(key) {
                (Config { theme: with_color(c.theme, key, col), ..c }, Seq::empty())
            } else {
                (c, seq![Warning::UnknownKey(lineno, key)])
            },
        }
    }
}

/// Applying line number `lineno` (1-based).
pub open spec fn apply_line(c: Config, lineno: nat, raw: Seq<char>) -> (Config, Seq<Warning>) {
    match line_kind(raw) {
        LineKind::Blank => (c, Seq::empty()),
        LineKind::NoEquals => (c, seq![Warning::MissingEquals(lineno)]),
        LineKind::Pair(k, v) => apply_pair(c, lineno, k, v),
    }
}

/// Settings and warnings after the given lines, starting from the defaults.
pub open spec fn parse_lines(lines: Seq<Seq<char>>) -> (Config, Seq<Warning>)
    decreases lines.len(),
{
    if lines.len() == 0 {
        (default_config(), Seq::empty())
    } else {
        let (c, w) = parse_lines(lines.drop_last());
        let (c2, w2) = apply_line(c, lines.len(), lines.last());
        (c2, w + w2)
    }
}

/// Settings and warnings read from the text of a config file.
pub open spec fn parse_config_spec(text: Seq<char>) -> (Config, Seq<Warning>) {
    parse_lines(text_lines(text))
}

/// A line of the template: blank or a comment, with no line break in it.
pub open spec fn template_line_ok(l: Seq<char>) -> bool {
    &&& l.len() == 0 || l[0] == '#'
    &&& forall|i: int| 0 <= i < l.len() ==> l[i] != '\n' && l[i] != '\r'
}

proof fn lemma_lines_acc_line(a: Seq<char>, l: Seq<char>)
    requires
        lines_acc(a).1 == Seq::<char>::empty(),
        forall|i: int| 0 <= i < l.len() ==> #[trigger] l[i] != '\n',
    ensures
        lines_acc(a + l) == (lines_acc(a).0, l),
    decreases l.len(),
{
    if l.len() == 0 {
        assert(a + l =~= a);
    } else {
        let l2 = l.drop_last();
        assert forall|i: int| 0 <= i < l2.len() implies #[trigger] l2[i] != '\n' by {
            assert(l2[i] == l[i]);
        }
        lemma_lines_acc_line(a, l2);
        assert((a + l).drop_last() =~= a + l2);
        assert((a + l).last() == l[l.len() - 1]);
        assert(l2.push(l.last()) =~= l);
    }
}

proof fn lemma_joined_lines(ls: Seq<Seq<char>>)
    requires
        forall|k: int| 0 <= k < ls.len() ==> template_line_ok(#[trigger] ls[k]),
    ensures
        lines_acc(joined_lines(ls)) == (ls, Seq::<char>::empty()),
    decreases ls.len(),
{
    if ls.len() > 0 {
        let rest = ls.drop_last();
        assert forall|k: int| 0 <= k < rest.len() implies template_line_ok(#[trigger] rest[k]) by {
            assert(rest[k] == ls[k]);
        }
        lemma_joined_lines(rest);
        let l = ls.last();
        assert(template_line_ok(ls[ls.len() - 1]));
        let a = joined_lines(rest);
        lemma_lines_acc_line(a, l);
        let t = a + l + seq!['\n'];
        assert(t.drop_last() =~= a + l);
        assert(l.len() == 0 || l.last() != '\r');
        assert(strip_cr(l) == l);
        assert(rest.push(l) =~= ls);
    }
}

/// The template written to a fresh config file sets nothing and reports
/// nothing: the defaults apply.
pub proof fn lemma_template_gives_defaults()
    ensures
        parse_config_spec(joined_lines(template_lines())) == (default_config(), Seq::<Warning>::empty()),
{
    reveal_strlit("");
    reveal_strlit("#");
    reveal_strlit("# Center-crop grid thumbnails to the cell aspect so every cell is filled.");
    reveal_strlit("# Describe images with an AI model (also needs SWIFTROUTER_API_KEY).");
    reveal_strlit("# Hide the header and status bars when opening the fullscreen viewer.");
    reveal_strlit("# Values are ratatui color strings: a named color (black, red, darkgray, …),");
    reveal_strlit("# ai_enabled = false");
    reveal_strlit("# an 8-bit index (0-255), or \"#rrggbb\" hex.");
    reveal_strlit("# directory_fg = \"yellow\"");
    reveal_strlit("# error_fg     = \"red\"");
    reveal_strlit("# fullscreen_hide_bars = false");
    reveal_strlit("# glry configuration — uncomment a line to override the default.");
    reveal_strlit("# header_bg    = \"cyan\"");
    reveal_strlit("# header_fg    = \"black\"");
    reveal_strlit("# loading_fg   = \"darkgray\"");
    reveal_strlit("# selection_bg = \"cyan\"");
    reveal_strlit("# selection_fg = \"black\"");
    reveal_strlit("# status_bg    = \"black\"");
    reveal_strlit("# status_fg    = \"gray\"");
    reveal_strlit("# thumbnail_crop = true");
    let ls = template_lines();
    assert forall|k: int| 0 <= k < ls.len() implies template_line_ok(#[trigger] ls[k]) by {}
    lemma_joined_lines(ls);
    let text = joined_lines(ls);
    assert(text_lines(text) == ls);
    assert forall|k: int| 0 <= k < text_lines(text).len() implies trim(
        comment_stripped(#[trigger] text_lines(text)[k]),
    ).len() == 0 by {
        let l = ls[k];
        if l.len() == 0 {
            assert(comment_stripped(l) =~= l);
        } else {
            assert(comment_start(l, 0, None) == Some(0int));
            assert(comment_stripped(l) =~= Seq::<char>::empty());
        }
        assert(trim(Seq::<char>::empty()).len() == 0);
    }
    lemma_comment_only_file_gives_defaults(text);
}

/// Bad lines are reported and skipped: a line yields at most one warning,
/// and a line that yields one leaves the settings as they were.
pub proof fn lemma_reported_lines_are_skipped(c: Config, lineno: nat, raw: Seq<char>)
    ensures
        apply_line(c, lineno, raw).1.len() <= 1,
        apply_line(c, lineno, raw).1.len() == 1 ==> apply_line(c, lineno, raw).0 == c,
{
}

/// A file whose every line is blank or a comment sets nothing and reports
/// nothing: the defaults apply.
pub proof fn lemma_comment_only_file_gives_defaults(text: Seq<char>)
    requires
        forall|k: int|
            0 <= k < text_lines(text).len() ==> trim(comment_stripped(#[trigger] text_lines(text)[k])).len()
                == 0,
    ensures
        parse_config_spec(text) == (default_config(), Seq::<Warning>::empty()),
{
    lemma_blank_lines(text_lines(text));
}

proof fn lemma_blank_lines(ls: Seq<Seq<char>>)
    requires
        forall|k: int| 0 <= k < ls.len() ==> trim(comment_stripped(#[trigger] ls[k])).len() == 0,
    ensures
        parse_lines(ls) == (default_config(), Seq::<Warning>::empty()),
    decreases ls.len(),
{
    if ls.len() > 0 {
        let rest = ls.drop_last();
        assert forall|k: int| 0 <= k < rest.len() implies trim(comment_stripped(#[trigger] rest[k])).len() == 0 by {
            assert(rest[k] == ls[k]);
        }
        lemma_blank_lines(rest);
        assert(trim(comment_stripped(ls[ls.len() - 1])).len() == 0);
        assert(Seq::<Warning>::empty() + Seq::<Warning>::empty() =~= Seq::<Warning>::empty());
    }
}

/// The lines of `text` (see [`text_lines`]).
pub fn split_lines(text: &[char]) -> (r: Vec<Vec<char>>)
    ensures
        r@.map_values(|l: Vec<char>| l@) == text_lines(text@),
{
    let mut done: Vec<Vec<char>> = Vec::new();
    let mut cur: Vec<char> = Vec::new();
    let mut i: usize = 0;
    while i < text.len()
        invariant
            i <= text@.len(),
            (done@.map_values(|l: Vec<char>| l@), cur@) == lines_acc(text@.take(i as int)),
        decreases text@.len() - i,
    {
        let ghost before = done@.map_values(|l: Vec<char>| l@);
        assert(text@.take(i + 1).drop_last() =~= text@.take(i as int));
        let c = text[i];
        if c == '\n' {
            let mut line = cur;
            if line.len() > 0 && line[line.len() - 1] == '\r' {
                line.pop();
            }
            done.push(line);
            cur = Vec::new();
            assert(done@.map_values(|l: Vec<char>| l@) =~= before.push(line@));
        } else {
            cur.push(c);
            assert(done@.map_values(|l: Vec<char>| l@) =~= before);
        }
        i = i + 1;
    }
    assert(text@.take(text@.len() as int) =~= text@);
    if cur.len() > 0 {
        let ghost before = done@.map_values(|l: Vec<char>| l@);
        done.push(cur);
        assert(done@.map_values(|l: Vec<char>| l@) =~= before.push(cur@));
    }
    done
}

fn find_char_in(s: &[char], c: char) -> (r: Option<usize>)
    ensures
        r matches Some(i) ==> find_char(s@, c, 0) == Some(i as int) && i < s@.len(),
        r is None ==> find_char(s@, c, 0) is None,
{
    let mut i: usize = 0;
    while i < s.len()
        invariant
            i <= s@.len(),
            find_char(s@, c, 0) == find_char(s@, c, i as nat),
        decreases s@.len() - i,
    {
        if s[i] == c {
            return Some(i);
        }
        i = i + 1;
    }
    None
}

/// The text before the first `#` of a line.
fn strip_comment_in(line: &[char]) -> (r: Vec<char>)
    ensures
        r@ == comment_stripped(line@),
{
    let mut quote: Option<char> = None;
    let mut i: usize = 0;
    while i < line.len()
        invariant
            i <= line@.len(),
            comment_start(line@, 0, None) == comment_start(line@, i as nat, quote),
        decreases line@.len() - i,
    {
        let c = line[i];
        match quote {
            None => {
                if c == '#' {
                    return slice_chars(line, 0, i);
                } else if c == '"' || c == '\'' {
                    quote = Some(c);
                }
            },
            Some(q) => {
                if c == q {
                    quote = None;
                }
            },
        }
        i = i + 1;
    }
    slice_chars(line, 0, line.len())
}

/// A value without one pair of matching surrounding quotes.
fn unquote_in(s: &[char]) -> (r: Vec<char>)
    ensures
        r@ == unquoted(s@),
{
    let n = s.len();
    if n >= 2 {
        let first = s[0];
        let last = s[n - 1];
        if (first == '"' && last == '"') || (first == '\'' && last == '\'') {
            return slice_chars(s, 1, n - 1);
        }
    }
    slice_chars(s, 0, n)
}

/// `line` up to the `#` that starts its comment (see [`comment_stripped`]).
pub fn strip_comment(line: &str) -> (r: String)
    ensures
        r@ == comment_stripped(line@),
{
    let cs = chars_of(line);
    string_of(strip_comment_in(cs.as_slice()).as_slice())
}

/// `s` without one pair of matching surrounding quotes (see [`unquoted`]).
pub fn unquote(s: &str) -> (r: String)
    ensures
        r@ == unquoted(s@),
{
    let cs = chars_of(s);
    string_of(unquote_in(cs.as_slice()).as_slice())
}

fn trimmed_range(s: &[char], lo: usize, hi: usize) -> (r: Vec<char>)
    requires
        lo <= hi <= s@.len(),
    ensures
        r@ == trim(s@.subrange(lo as int, hi as int)),
{
    let part = slice_chars(s, lo, hi);
    let (a, b) = trim_bounds(part.as_slice());
    slice_chars(part.as_slice(), a, b)
}

/// The `LineKind` of a line, computed.
enum ParsedLine {
    Blank,
    NoEquals,
    Pair(Vec<char>, Vec<char>),
}

fn parse_line(raw: &[char]) -> (r: ParsedLine)
    ensures
        match (r, line_kind(raw@)) {
            (ParsedLine::Blank, LineKind::Blank) => true,
            (ParsedLine::NoEquals, LineKind::NoEquals) => true,
            (ParsedLine::Pair(k, v), LineKind::Pair(k2, v2)) => k@ == k2 && v@ == v2,
            _ => false,
        },
{
    let body = strip_comment_in(raw);
    let (a, b) = trim_bounds(body.as_slice());
    let line = slice_chars(body.as_slice(), a, b);
    if line.len() == 0 {
        return ParsedLine::Blank;
    }
    match find_char_in(line.as_slice(), '=') {
        None => ParsedLine::NoEquals,
        Some(i) => {
            let key = trimmed_range(line.as_slice(), 0, i);
            let value = trimmed_range(line.as_slice(), i + 1, line.len());
            let value = unquote_in(value.as_slice());
            assert(line@.subrange(0, i as int) =~= line@.take(i as int));
            assert(line@.subrange(i + 1, line@.len() as int) =~= line@.skip(i + 1));
            ParsedLine::Pair(key, value)
        },
    }
}

fn is_lit(a: &Vec<char>, lit: &str) -> (r: bool)
    ensures
        r == (a@ == lit@),
{
    let b = chars_of(lit);
    chars_eq(a.as_slice(), b.as_slice())
}

fn set_color(t: &mut Theme, key: &Vec<char>, c: Color)
    ensures
        *final(t) == with_color(*old(t), key@, c),
{
    if is_lit(key, "header_fg") {
        t.header_fg = c;
    } else if is_lit(key, "header_bg") {
        t.header_bg = c;
    } else if is_lit(key, "selection_fg") {
        t.selection_fg = c;
    } else if is_lit(key, "selection_bg") {
        t.selection_bg = c;
    } else if is_lit(key, "status_fg") {
        t.status_fg = c;
    } else if is_lit(key, "status_bg") {
        t.status_bg = c;
    } else if is_lit(key, "directory_fg") {
        t.directory_fg = c;
    } else if is_lit(key, "error_fg") {
        t.error_fg = c;
    } else if is_lit(key, "loading_fg") {
        t.loading_fg = c;
    }
}

fn color_key(key: &Vec<char>) -> (r: bool)
    ensures
        r == is_color_key(key@),
{
    is_lit(key, "header_fg") || is_lit(key, "header_bg") || is_lit(key, "selection_fg") || is_lit(
        key,
        "selection_bg",
    ) || is_lit(key, "status_fg") || is_lit(key, "status_bg") || is_lit(key, "directory_fg")
        || is_lit(key, "error_fg") || is_lit(key, "loading_fg")
}

fn apply_pair_exec(c: &mut Config, lineno: usize, key: Vec<char>, value: Vec<char>) -> (r: Option<
    ConfigWarning,
>)
    ensures
        *final(c) == apply_pair(*old(c), lineno as nat, key@, value@).0,
        match r {
            Some(w) => seq![w@],
            None => Seq::<Warning>::empty(),
        } == apply_pair(*old(c), lineno as nat, key@, value@).1,
{
    if is_lit(&key, "thumbnail_crop") || is_lit(&key, "fullscreen_hide_bars") || is_lit(
        &key,
        "ai_enabled",
    ) {
        let b = if is_lit(&value, "true") {
            Some(true)
        } else if is_lit(&value, "false") {
            Some(false)
        } else {
            None
        };
        match b {
            Some(b) => {
                if is_lit(&key, "thumbnail_crop") {
                    c.thumbnail_crop = b;
                } else if is_lit(&key, "fullscreen_hide_bars") {
                    c.fullscreen_hide_bars = b;
                } else {
                    c.ai_enabled = b;
                }
                None
            },
            None => Some(
                ConfigWarning::InvalidBool {
                    line: lineno,
                    key: string_of(key.as_slice()),
                    value: string_of(value.as_slice()),
                },
            ),
        }
    } else {
        let vs = string_of(value.as_slice());
        match parse_color(vs.as_str()) {
            None => Some(
                ConfigWarning::InvalidColor {
                    line: lineno,
                    key: string_of(key.as_slice()),
                    value: vs,
                },
            ),
            Some(col) => {
                if color_key(&key) {
                    set_color(&mut c.theme, &key, col);
                    None
                } else {
                    Some(ConfigWarning::UnknownKey { line: lineno, key: string_of(key.as_slice()) })
                }
            },
        }
    }
}

/// Read the settings from the text of a config file, starting from the
/// defaults. Lines are `key = value`; `#` starts a comment; values may be
/// quoted. Lines that cannot be used are reported and skipped.
pub fn parse_config(text: &str) -> (r: (Config, Vec<ConfigWarning>))
    ensures
        (r.0, warnings(r.1@)) == parse_config_spec(text@),
{
    let chars = chars_of(text);
    let lines = split_lines(chars.as_slice());
    let ghost ls = lines@.map_values(|l: Vec<char>| l@);
    let mut cfg = Config::default();
    let mut out: Vec<ConfigWarning> = Vec::new();
    let mut i: usize = 0;
    while i < lines.len()
        invariant
            i <= lines@.len(),
            ls == lines@.map_values(|l: Vec<char>| l@),
            ls == text_lines(text@),
            (cfg, warnings(out@)) == parse_lines(ls.take(i as int)),
        decreases lines@.len() - i,
    {
        let ghost w0 = warnings(out@);
        let ghost c0 = cfg;
        assert(ls.take(i + 1).drop_last() =~= ls.take(i as int));
        assert(ls.take(i + 1).last() == lines@[i as int]@);
        let lineno = i + 1;
        match parse_line(lines[i].as_slice()) {
            ParsedLine::Blank => {},
            ParsedLine::NoEquals => {
                out.push(ConfigWarning::MissingEquals { line: lineno });
                assert(warnings(out@) =~= w0 + seq![Warning::MissingEquals(lineno as nat)]);
            },
            ParsedLine::Pair(k, v) => {
                let w = apply_pair_exec(&mut cfg, lineno, k, v);
                match w {
                    Some(w) => {
                        let ghost wv = w@;
                        out.push(w);
                        assert(warnings(out@) =~= w0 + seq![wv]);
                    },
                    None => {
                        assert(warnings(out@) =~= w0 + Seq::<Warning>::empty());
                    },
                }
            },
        }
        i = i + 1;
    }
    assert(ls.take(lines@.len() as int) =~= ls);
    (cfg, out)
}

} // verus!
