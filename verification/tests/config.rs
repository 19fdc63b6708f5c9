use gshell::config::{parse_color, Color, HighlighterConfig, PromptConfig, PromptMode};

#[test]
fn parses_hex_colors() {
    assert_eq!(parse_color("#31748f"), Some(Color::Rgb(0x31, 0x74, 0x8f)));
    assert_eq!(parse_color("eb6f92"), Some(Color::Rgb(0xeb, 0x6f, 0x92)));
}

#[test]
fn parses_named_colors() {
    assert_eq!(parse_color("blue"), Some(Color::Blue));
    assert_eq!(parse_color("light-purple"), Some(Color::LightPurple));
}

#[test]
fn rejects_invalid_colors() {
    assert_eq!(parse_color("rose-pine"), None);
    assert_eq!(parse_color("#12345"), None);
}

#[test]
fn color_names_ignore_case_and_surrounding_space() {
    assert_eq!(parse_color("  Magenta "), Some(Color::Purple));
    assert_eq!(parse_color("DARK_GRAY"), Some(Color::DarkGray));
    assert_eq!(parse_color("#ABCDEF"), Some(Color::Rgb(0xab, 0xcd, 0xef)));
    assert_eq!(parse_color("#abcdeg"), None);
}

#[test]
fn prompt_mode_parsing() {
    assert_eq!(PromptMode::parse(" Internal "), PromptMode::Internal);
    assert_eq!(PromptMode::parse("STARSHIP"), PromptMode::Starship);
    assert_eq!(PromptMode::parse("auto"), PromptMode::Auto);
    assert_eq!(PromptMode::parse("whatever"), PromptMode::Auto);
}

#[test]
fn prompt_config_from_values() {
    let c = PromptConfig::from_values(Some("internal"), Some("  "));
    assert_eq!(c.mode(), PromptMode::Internal);
    assert_eq!(c.starship_binary(), "starship");
    let c = PromptConfig::from_values(None, Some("/opt/starship"));
    assert_eq!(c.mode(), PromptMode::Auto);
    assert_eq!(c.starship_binary(), "/opt/starship");
    let c = PromptConfig::new(PromptMode::Starship).with_starship_binary("x");
    assert_eq!(c.starship_binary(), "x");
}

#[test]
fn highlighter_config_falls_back_on_unknown_colors() {
    let c = HighlighterConfig::from_values(Some("red"), Some("nope"), None, None, Some("#010203"), None, None);
    assert_eq!(c.command_color(), Color::Red);
    assert_eq!(c.builtin_color(), Color::Cyan);
    assert_eq!(c.argument_color(), Color::Green);
    assert_eq!(c.flag_color(), Color::Blue);
    assert_eq!(c.hint_color(), Color::Rgb(1, 2, 3));
    assert_eq!(c.operator_color(), Color::Purple);
    assert_eq!(c.redirect_color(), Color::Purple);
}
