//! Settings read from the environment: the prompt mode and program, and
//! the highlighter's colors. Reading the variables is left to the binary;
//! what their values mean is decided here.
use vstd::prelude::*;

use crate::builtins::jobs::ascii_upper_is;
use crate::numbers::without_sign;
use crate::text::{chars_of, is_hex_digit, trim, trim_chars};

verus! {

/// Which prompt the shell shows.
#[derive(Debug, Clone, Copy, PartialEq, Eq, Structural)]
pub enum PromptMode {
    Internal,
    Starship,
    Auto,
}

/// Whether `a` in ASCII lower case is `lower`, a word of lower-case ASCII
/// letters, `_` and `-` (`a.to_ascii_lowercase() == lower`).
pub open spec fn ascii_lower_is(a: Seq<char>, lower: Seq<char>) -> bool {
    &&& a.len() == lower.len()
    &&& forall|i: int|
        0 <= i < a.len() ==> #[trigger] a[i] == lower[i] || ('A' <= a[i] <= 'Z' && a[i] as int
            + 32 == lower[i] as int)
}

pub fn ascii_lower_matches(a: &Vec<char>, lower: &str) -> (b: bool)
    ensures
        b == ascii_lower_is(a@, lower@),
{
    let u = chars_of(lower);
    if a.len() != u.len() {
        return false;
    }
    let mut i: usize = 0;
    while i < a.len()
        invariant
            0 <= i <= a@.len(),
            a@.len() == u@.len(),
            u@ == lower@,
            forall|k: int|
                0 <= k < i ==> #[trigger] a@[k] == u@[k] || ('A' <= a@[k] <= 'Z' && a@[k] as int
                    + 32 == u@[k] as int),
        decreases a@.len() - i,
    {
        let c = crate::text::char_at(a.as_slice(), i);
        let d = crate::text::char_at(u.as_slice(), i);
        let same = c == d;
        let folded = 'A' <= c && c <= 'Z' && (c as u32) + 32 == (d as u32);
        if !(same || folded) {
            return false;
        }
        assert(a@[i as int] == u@[i as int] || ('A' <= a@[i as int] <= 'Z' && a@[i as int] as int
            + 32 == u@[i as int] as int));
        i += 1;
    }
    true
}

/// The mode a setting names, in any case and with surrounding whitespace;
/// anything else means `Auto`.
pub open spec fn prompt_mode_of(value: Seq<char>) -> PromptMode {
    let t = trim(value);
    if ascii_lower_is(t, "internal"@) {
        PromptMode::Internal
    } else if ascii_lower_is(t, "starship"@) {
        PromptMode::Starship
    } else {
        PromptMode::Auto
    }
}

impl PromptMode {
    pub fn parse(value: &str) -> (r: PromptMode)
        ensures
            r == prompt_mode_of(value@),
    {
        let chars = chars_of(value);
        let t = trim_chars(chars.as_slice());
        if ascii_lower_matches(&t, "internal") {
            PromptMode::Internal
        } else if ascii_lower_matches(&t, "starship") {
            PromptMode::Starship
        } else {
            PromptMode::Auto
        }
    }
}

impl Default for PromptMode {
    fn default() -> (r: PromptMode)
        ensures
            r == PromptMode::Auto,
    {
        PromptMode::Auto
    }
}

/// How the prompt is made: the mode, and the program that draws it.
#[derive(Debug, PartialEq, Eq)]
pub struct PromptConfig {
    mode: PromptMode,
    starship_binary: String,
}

impl PromptConfig {
    pub closed spec fn mode_view(&self) -> PromptMode {
        self.mode
    }

    pub closed spec fn binary_view(&self) -> Seq<char> {
        self.starship_binary@
    }

    /// The given mode with the program `starship`.
    pub fn new(mode: PromptMode) -> (r: Self)
        ensures
            r.mode_view() == mode,
            r.binary_view() == "starship"@,
    {
        PromptConfig { mode, starship_binary: "starship".to_string() }
    }

    /// The settings the variables give: `mode` is `GSHELL_PROMPT`,
    /// `binary` is `GSHELL_STARSHIP_BIN`, used unless blank.
    pub fn from_values(mode: Option<&str>, binary: Option<&str>) -> (r: Self)
        ensures
            r.mode_view() == match mode {
                Some(m) => prompt_mode_of(m@),
                None => PromptMode::Auto,
            },
            r.binary_view() == match binary {
                Some(b) => if trim(b@).len() > 0 {
                    b@
                } else {
                    "starship"@
                },
                None => "starship"@,
            },
    {
        let mut config = PromptConfig::new(PromptMode::Auto);
        if let Some(m) = mode {
            config.mode = PromptMode::parse(m);
        }
        if let Some(b) = binary {
            let chars = chars_of(b);
            if crate::text::has_non_whitespace(chars.as_slice()) {
                proof {
                    crate::text::lemma_trim_empty_iff_all_ws(b@);
                }
                config.starship_binary = b.to_string();
            } else {
                proof {
                    crate::text::lemma_trim_empty_iff_all_ws(b@);
                }
            }
        }
        config
    }

    pub fn mode(&self) -> (r: PromptMode)
        ensures
            r == self.mode_view(),
    {
        self.mode
    }

    pub fn starship_binary(&self) -> (r: &str)
        ensures
            r@ == self.binary_view(),
    {
        self.starship_binary.as_str()
    }

    pub fn with_starship_binary(self, binary: &str) -> (r: Self)
        ensures
            r.mode_view() == self.mode_view(),
            r.binary_view() == binary@,
    {
        PromptConfig { mode: self.mode, starship_binary: binary.to_string() }
    }

    /// A copy with the same settings.
    pub fn duplicate(&self) -> (r: Self)
        ensures
            r.mode_view() == self.mode_view(),
            r.binary_view() == self.binary_view(),
    {
        PromptConfig { mode: self.mode, starship_binary: self.starship_binary.clone() }
    }
}

impl Default for PromptConfig {
    fn default() -> (r: Self)
        ensures
            r.mode_view() == PromptMode::Auto,
            r.binary_view() == "starship"@,
    {
        PromptConfig::new(PromptMode::Auto)
    }
}

/// A terminal color.
#[derive(Debug, Clone, Copy, PartialEq, Eq, Structural)]
pub enum Color {
    Black,
    Red,
    Green,
    Yellow,
    Blue,
    Purple,
    Cyan,
    White,
    DarkGray,
    LightRed,
    LightGreen,
    LightYellow,
    LightBlue,
    LightPurple,
    LightCyan,
    LightGray,
    Rgb(u8, u8, u8),
}

pub open spec fn hex_digit_value(c: char) -> nat {
    if '0' <= c && c <= '9' {
        (c as u32 - '0' as u32) as nat
    } else if 'a' <= c && c <= 'f' {
        (c as u32 - 'a' as u32 + 10) as nat
    } else {
        (c as u32 - 'A' as u32 + 10) as nat
    }
}

/// The byte two hex digits at `i` stand for.
pub open spec fn hex_byte(h: Seq<char>, i: int) -> u8 {
    (hex_digit_value(h[i]) * 16 + hex_digit_value(h[i + 1])) as u8
}

/// Whether `h` is six hex digits.
pub open spec fn is_hex_color(h: Seq<char>) -> bool {
    h.len() == 6 && forall|i: int| 0 <= i < 6 ==> is_hex_digit(#[trigger] h[i])
}

/// The color a name stands for, in any case.
pub open spec fn named_color(v: Seq<char>) -> Option<Color> {
    if ascii_lower_is(v, "black"@) {
        Some(Color::Black)
    } else if ascii_lower_is(v, "red"@) {
        Some(Color::Red)
    } else if ascii_lower_is(v, "green"@) {
        Some(Color::Green)
    } else if ascii_lower_is(v, "yellow"@) {
        Some(Color::Yellow)
    } else if ascii_lower_is(v, "blue"@) {
        Some(Color::Blue)
    } else if ascii_lower_is(v, "purple"@) || ascii_lower_is(v, "magenta"@) {
        Some(Color::Purple)
    } else if ascii_lower_is(v, "cyan"@) {
        Some(Color::Cyan)
    } else if ascii_lower_is(v, "white"@) {
        Some(Color::White)
    } else if ascii_lower_is(v, "dark_gray"@) || ascii_lower_is(v, "dark-gray"@) || ascii_lower_is(
        v,
        "darkgray"@,
    ) {
        Some(Color::DarkGray)
    } else if ascii_lower_is(v, "light_red"@) || ascii_lower_is(v, "light-red"@) || ascii_lower_is(
        v,
        "lightred"@,
    ) {
        Some(Color::LightRed)
    } else if ascii_lower_is(v, "light_green"@) || ascii_lower_is(v, "light-green"@)
        || ascii_lower_is(v, "lightgreen"@) {
        Some(Color::LightGreen)
    } else if ascii_lower_is(v, "light_yellow"@) || ascii_lower_is(v, "light-yellow"@)
        || ascii_lower_is(v, "lightyellow"@) {
        Some(Color::LightYellow)
    } else if ascii_lower_is(v, "light_blue"@) || ascii_lower_is(v, "light-blue"@)
        || ascii_lower_is(v, "lightblue"@) {
        Some(Color::LightBlue)
    } else if ascii_lower_is(v, "light_purple"@) || ascii_lower_is(v, "light-purple"@)
        || ascii_lower_is(v, "lightpurple"@) {
        Some(Color::LightPurple)
    } else if ascii_lower_is(v, "light_cyan"@) || ascii_lower_is(v, "light-cyan"@)
        || ascii_lower_is(v, "lightcyan"@) {
        Some(Color::LightCyan)
    } else if ascii_lower_is(v, "light_gray"@) || ascii_lower_is(v, "light-gray"@)
        || ascii_lower_is(v, "lightgray"@) {
        Some(Color::LightGray)
    } else {
        None
    }
}

/// The color a setting names: six hex digits, with or without `#`, or a
/// color name, with surrounding whitespace ignored.
pub open spec fn color_of(value: Seq<char>) -> Option<Color> {
    let v = trim(value);
    let h = without_sign(v, '#');
    if is_hex_color(h) {
        Some(Color::Rgb(hex_byte(h, 0), hex_byte(h, 2), hex_byte(h, 4)))
    } else {
        named_color(v)
    }
}

fn hex_value(c: char) -> (r: u8)
    requires
        is_hex_digit(c),
    ensures
        r == hex_digit_value(c),
        r < 16,
{
    if '0' <= c && c <= '9' {
        (c as u32 - '0' as u32) as u8
    } else if 'a' <= c && c <= 'f' {
        (c as u32 - 'a' as u32 + 10) as u8
    } else {
        (c as u32 - 'A' as u32 + 10) as u8
    }
}

/// The color `value` names, if any.
pub fn parse_color(value: &str) -> (r: Option<Color>)
    ensures
        r == color_of(value@),
{
    let chars = chars_of(value);
    let v = trim_chars(chars.as_slice());
    let from: usize = if v.len() > 0 && v[0] == '#' {
        1
    } else {
        0
    };
    let mut h: Vec<char> = Vec::new();
    crate::lexer::push_range(&mut h, &v, from, v.len());
    assert(h@ =~= without_sign(v@, '#'));
    if h.len() == 6 {
        let mut all = true;
        let mut i: usize = 0;
        while i < 6
            invariant
                0 <= i <= 6,
                h@.len() == 6,
                all == forall|k: int| 0 <= k < i ==> is_hex_digit(#[trigger] h@[k]),
            decreases 6 - i,
        {
            let c = h[i];
            let is_hex = ('0' <= c && c <= '9') || ('a' <= c && c <= 'f') || ('A' <= c && c <= 'F');
            assert(is_hex == is_hex_digit(h@[i as int]));
            all = all && is_hex;
            i += 1;
        }
        if all {
            let red = hex_value(h[0]) * 16 + hex_value(h[1]);
            let green = hex_value(h[2]) * 16 + hex_value(h[3]);
            let blue = hex_value(h[4]) * 16 + hex_value(h[5]);
            return Some(Color::Rgb(red, green, blue));
        }
    }
    if ascii_lower_matches(&v, "black") {
        Some(Color::Black)
    } else if ascii_lower_matches(&v, "red") {
        Some(Color::Red)
    } else if ascii_lower_matches(&v, "green") {
        Some(Color::Green)
    } else if ascii_lower_matches(&v, "yellow") {
        Some(Color::Yellow)
    } else if ascii_lower_matches(&v, "blue") {
        Some(Color::Blue)
    } else if ascii_lower_matches(&v, "purple") || ascii_lower_matches(&v, "magenta") {
        Some(Color::Purple)
    } else if ascii_lower_matches(&v, "cyan") {
        Some(Color::Cyan)
    } else if ascii_lower_matches(&v, "white") {
        Some(Color::White)
    } else if ascii_lower_matches(&v, "dark_gray") || ascii_lower_matches(&v, "dark-gray")
        || ascii_lower_matches(&v, "darkgray") {
        Some(Color::DarkGray)
    } else if ascii_lower_matches(&v, "light_red") || ascii_lower_matches(&v, "light-red")
        || ascii_lower_matches(&v, "lightred") {
        Some(Color::LightRed)
    } else if ascii_lower_matches(&v, "light_green") || ascii_lower_matches(&v, "light-green")
        || ascii_lower_matches(&v, "lightgreen") {
        Some(Color::LightGreen)
    } else if ascii_lower_matches(&v, "light_yellow") || ascii_lower_matches(&v, "light-yellow")
        || ascii_lower_matches(&v, "lightyellow") {
        Some(Color::LightYellow)
    } else if ascii_lower_matches(&v, "light_blue") || ascii_lower_matches(&v, "light-blue")
        || ascii_lower_matches(&v, "lightblue") {
        Some(Color::LightBlue)
    } else if ascii_lower_matches(&v, "light_purple") || ascii_lower_matches(&v, "light-purple")
        || ascii_lower_matches(&v, "lightpurple") {
        Some(Color::LightPurple)
    } else if ascii_lower_matches(&v, "light_cyan") || ascii_lower_matches(&v, "light-cyan")
        || ascii_lower_matches(&v, "lightcyan") {
        Some(Color::LightCyan)
    } else if ascii_lower_matches(&v, "light_gray") || ascii_lower_matches(&v, "light-gray")
        || ascii_lower_matches(&v, "lightgray") {
        Some(Color::LightGray)
    } else {
        None
    }
}

/// The colors of the line highlighter.
#[derive(Debug, Clone, Copy, PartialEq, Eq, Structural)]
pub struct HighlighterConfig {
    pub command_color: Color,
    pub builtin_color: Color,
    pub argument_color: Color,
    pub flag_color: Color,
    pub hint_color: Color,
    pub operator_color: Color,
    pub redirect_color: Color,
}

/// A setting that names a color replaces the default; any other leaves it.
pub open spec fn color_or(value: Option<Seq<char>>, default: Color) -> Color {
    match value {
        Some(v) => match color_of(v) {
            Some(c) => c,
            None => default,
        },
        None => default,
    }
}

fn color_setting(value: Option<&str>, default: Color) -> (r: Color)
    ensures
        r == color_or(
            match value {
                Some(v) => Some(v@),
                None => None,
            },
            default,
        ),
{
    match value {
        Some(v) => match parse_color(v) {
            Some(c) => c,
            None => default,
        },
        None => default,
    }
}

impl HighlighterConfig {
    /// The default colors.
    pub fn new() -> (r: Self)
        ensures
            r == (HighlighterConfig {
                command_color: Color::Cyan,
                builtin_color: Color::Cyan,
                argument_color: Color::Green,
                flag_color: Color::Blue,
                hint_color: Color::DarkGray,
                operator_color: Color::Purple,
                redirect_color: Color::Purple,
            }),
    {
        HighlighterConfig {
            command_color: Color::Cyan,
            builtin_color: Color::Cyan,
            argument_color: Color::Green,
            flag_color: Color::Blue,
            hint_color: Color::DarkGray,
            operator_color: Color::Purple,
            redirect_color: Color::Purple,
        }
    }

    /// The colors that the settings `GSHELL_HIGHLIGHT_COMMAND`, `_BUILTIN`,
    /// `_ARGUMENT`, `_FLAG`, `_HINT`, `_OPERATOR` and `_REDIRECT` give.
    pub fn from_values(
        command: Option<&str>,
        builtin: Option<&str>,
        argument: Option<&str>,
        flag: Option<&str>,
        hint: Option<&str>,
        operator: Option<&str>,
        redirect: Option<&str>,
    ) -> (r: Self)
        ensures
            r.command_color == color_or(opt_view(command), Color::Cyan),
            r.builtin_color == color_or(opt_view(builtin), Color::Cyan),
            r.argument_color == color_or(opt_view(argument), Color::Green),
            r.flag_color == color_or(opt_view(flag), Color::Blue),
            r.hint_color == color_or(opt_view(hint), Color::DarkGray),
            r.operator_color == color_or(opt_view(operator), Color::Purple),
            r.redirect_color == color_or(opt_view(redirect), Color::Purple),
    {
        HighlighterConfig {
            command_color: color_setting(command, Color::Cyan),
            builtin_color: color_setting(builtin, Color::Cyan),
            argument_color: color_setting(argument, Color::Green),
            flag_color: color_setting(flag, Color::Blue),
            hint_color: color_setting(hint, Color::DarkGray),
            operator_color: color_setting(operator, Color::Purple),
            redirect_color: color_setting(redirect, Color::Purple),
        }
    }

    pub fn command_color(&self) -> (r: Color)
        ensures
            r == self.command_color,
    {
        self.command_color
    }

    pub fn builtin_color(&self) -> (r: Color)
        ensures
            r == self.builtin_color,
    {
        self.builtin_color
    }

    pub fn operator_color(&self) -> (r: Color)
        ensures
            r == self.operator_color,
    {
        self.operator_color
    }

    pub fn argument_color(&self) -> (r: Color)
        ensures
            r == self.argument_color,
    {
        self.argument_color
    }

    pub fn hint_color(&self) -> (r: Color)
        ensures
            r == self.hint_color,
    {
        self.hint_color
    }

    pub fn flag_color(&self) -> (r: Color)
        ensures
            r == self.flag_color,
    {
        self.flag_color
    }

    pub fn redirect_color(&self) -> (r: Color)
        ensures
            r == self.redirect_color,
    {
        self.redirect_color
    }
}

impl Default for HighlighterConfig {
    fn default() -> (r: Self)
        ensures
            r == HighlighterConfig::spec_default(),
    {
        HighlighterConfig::new()
    }
}

impl HighlighterConfig {
    pub open spec fn spec_default() -> Self {
        HighlighterConfig {
            command_color: Color::Cyan,
            builtin_color: Color::Cyan,
            argument_color: Color::Green,
            flag_color: Color::Blue,
            hint_color: Color::DarkGray,
            operator_color: Color::Purple,
            redirect_color: Color::Purple,
        }
    }
}

pub open spec fn opt_view(v: Option<&str>) -> Option<Seq<char>> {
    match v {
        Some(s) => Some(s@),
        None => None,
    }
}

} // verus!
