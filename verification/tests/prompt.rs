use gshell::config::{PromptConfig, PromptMode};
use gshell::prompt::{
    history_search_indicator, ConfiguredPromptRenderer, FallbackPromptRenderer, PromptFrame,
    ReedlinePromptAdapter, StarshipPromptRenderer,
};
use gshell::shell::ShellError;

#[test]
fn fallback_prompt_renderer_returns_default_frame() {
    let renderer = FallbackPromptRenderer;
    let frame = renderer.render_frame();
    assert_eq!(frame, PromptFrame::default());
}

#[test]
fn configured_renderer_respects_internal_mode() {
    let config = PromptConfig::new(PromptMode::Internal);
    let renderer = ConfiguredPromptRenderer::new();
    assert!(!renderer.tries_starship(config.mode()));
    let frame = renderer.internal_frame();

    assert_eq!(frame.insert_prompt, "$ ");
    assert_eq!(frame.normal_indicator, ": ");
    assert_eq!(frame.multiline_prompt, "> ");
}

#[test]
fn configured_renderer_falls_back_when_starship_is_missing() {
    let config =
        PromptConfig::new(PromptMode::Starship).with_starship_binary("definitely-not-a-real-starship-binary");
    let renderer = ConfiguredPromptRenderer::new();
    assert!(renderer.tries_starship(config.mode()));
    let launch = Err(ShellError::message("starship launch failed: not found".to_string()));
    let frame = renderer.settle(launch);

    assert_eq!(frame, PromptFrame::default());
}

#[test]
fn adapter_uses_insert_and_normal_prompt_parts() {
    let mut menu_prompt = String::new();
    let mut adapter = ReedlinePromptAdapter::with_menu_prompt(ConfiguredPromptRenderer::new(), &mut menu_prompt);

    let rendered = Ok(ConfiguredPromptRenderer::new().internal_frame());
    adapter.refresh(rendered, &mut menu_prompt);

    assert_eq!(adapter.render_prompt_left(), "\n\n");
    assert_eq!(adapter.render_prompt_indicator(false), "$ ");
    assert_eq!(adapter.render_prompt_indicator(true), "$ : ");
    assert_eq!(adapter.render_prompt_multiline_indicator(), "> ");
    assert_eq!(menu_prompt.as_str(), "$ ");
}

#[test]
fn starship_answers_become_frames_or_errors() {
    let s = StarshipPromptRenderer::new("starship");
    assert_eq!(s.binary(), "starship");
    assert_eq!(s.prompt_arguments(130), vec!["prompt".to_string(), "--status=130".to_string()]);
    let f = s.frame_from(true, b"~/src \xe2\x9d\xaf \r\n\n", b"").expect("frame");
    assert_eq!(f.insert_prompt, "~/src \u{276f} ");
    assert_eq!(f.right_prompt, "");
    match s.left_prompt_from(true, b"\n", b"") {
        Err(ShellError::Message(m)) => assert_eq!(m, "starship prompt returned empty output"),
        other => panic!("unexpected {:?}", other),
    }
    match s.left_prompt_from(false, b"x", b"  boom \n") {
        Err(ShellError::Message(m)) => assert_eq!(m, "starship prompt failed: boom"),
        other => panic!("unexpected {:?}", other),
    }
    match s.left_prompt_from(false, b"x", b" \n") {
        Err(ShellError::Message(m)) => assert_eq!(m, "starship prompt failed"),
        other => panic!("unexpected {:?}", other),
    }
}

#[test]
fn refresh_failure_restores_the_default_prompt() {
    let mut menu = String::from("old");
    let mut adapter = ReedlinePromptAdapter::new(FallbackPromptRenderer);
    let custom = PromptFrame::around("λ ".to_string());
    adapter.refresh(Ok(custom), &mut menu);
    assert_eq!(menu, "λ ");
    assert_eq!(adapter.render_prompt_indicator(true), "λ : ");
    adapter.refresh(Err(ShellError::message("x".to_string())), &mut menu);
    assert_eq!(menu, "$ ");
    assert_eq!(adapter.render_prompt_right(), "");
    assert_eq!(history_search_indicator("ls"), "(history search: ls) ");
    assert_eq!(adapter.render_prompt_history_search_indicator(""), "(history search: ) ");
}

#[test]
fn decoded_prompt_text_keeps_non_ascii_characters() {
    let renderer = StarshipPromptRenderer::new("starship");
    assert_eq!(renderer.left_prompt_from_text(true, "λ ❯\r\n", "").unwrap(), "λ ❯");
    match renderer.left_prompt_from_text(false, "", "  kaputt ü \n") {
        Err(ShellError::Message(m)) => assert_eq!(m, "starship prompt failed: kaputt ü"),
        other => panic!("unexpected result: {other:?}"),
    }
}
