use ghostprompt::config::{
    default_llm_base_url, default_llm_model, AppConfig, AppMode, AudioSource, SubtitlePosition,
};

#[test]
fn default_config_values() {
    let c = AppConfig::default();
    assert_eq!(c.deepgram_api_key, "");
    assert_eq!(c.llm_api_key, "");
    assert_eq!(c.llm_base_url, "https://api.openai.com/v1");
    assert_eq!(c.llm_model, "gpt-4o-mini");
    assert_eq!(c.mode, AppMode::Translate);
    assert_eq!(c.font_size, 22);
    assert_eq!(c.subtitle_position, SubtitlePosition { x: 100, y: 100 });
    assert_eq!(c.system_prompt, "");
    assert_eq!(c.audio_source, AudioSource::System);
    assert!(!c.debug_mode);
}

#[test]
fn default_service_settings() {
    assert_eq!(default_llm_base_url(), "https://api.openai.com/v1");
    assert_eq!(default_llm_model(), "gpt-4o-mini");
}

#[test]
fn custom_prompt_takes_precedence() {
    let mut c = AppConfig::default();
    c.system_prompt = "  Summarise in English.  ".to_string();
    assert_eq!(c.effective_system_prompt(), "  Summarise in English.  ");
    c.mode = AppMode::Interview;
    assert_eq!(c.effective_system_prompt(), "  Summarise in English.  ");
}

#[test]
fn blank_prompt_selects_mode_prompt() {
    let mut c = AppConfig::default();
    c.system_prompt = " \t\n\u{3000}".to_string();
    let translate = c.effective_system_prompt();
    assert!(translate.starts_with("你是一个专业的实时翻译助手。"));
    assert!(translate.ends_with("直接输出译文，不要解释。"));
    c.mode = AppMode::Interview;
    let interview = c.effective_system_prompt();
    assert!(interview.starts_with("你是一个资深技术面试辅助专家。"));
    assert!(interview.contains("不超过 100 字"));
}

#[test]
fn empty_prompt_selects_mode_prompt() {
    let mut c = AppConfig::default();
    c.mode = AppMode::Interview;
    assert_eq!(
        c.effective_system_prompt(),
        "你是一个资深技术面试辅助专家。根据面试官问题的语音转录，给出回答的核心要点。输出要求：口语化、简洁、用 Bullet Points，不超过 100 字，突出专业词汇和解题思路，不要废话。"
    );
}
