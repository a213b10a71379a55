//! Application configuration.
use vstd::prelude::*;
use vstd::string::StringExecFns;
use crate::text::{all_ws, is_blank};

verus! {

/// What the assistant does with a transcript.
#[derive(Clone, Copy, PartialEq, Eq, Structural, Debug)]
pub enum AppMode {
    Translate,
    Interview,
}

/// Where audio is captured from.
#[derive(Clone, Copy, PartialEq, Eq, Structural, Debug)]
pub enum AudioSource {
    Microphone,
    System,
}


/// Where the subtitle window stands on screen.
#[derive(Clone, Copy, PartialEq, Eq, Structural, Debug)]
pub struct SubtitlePosition {
    pub x: i32,
    pub y: i32,
}

/// Everything the user configures.
#[derive(Clone, Debug)]
pub struct AppConfig {
    pub deepgram_api_key: String,
    /// Key of an OpenAI-compatible chat service.
    pub llm_api_key: String,
    /// Base URL of the chat service, such as `https://api.openai.com/v1`.
    pub llm_base_url: String,
    /// Model name, such as `gpt-4o-mini`.
    pub llm_model: String,
    pub mode: AppMode,
    pub font_size: u32,
    pub subtitle_position: SubtitlePosition,
    /// A custom system prompt; a blank one selects the mode's built-in prompt.
    pub system_prompt: String,
    pub audio_source: AudioSource,
    pub debug_mode: bool,
}

/// The chat service used when none is configured.
pub fn default_llm_base_url() -> (s: String)
    ensures
        s@ == "https://api.openai.com/v1"@,
{
    String::from_str("https://api.openai.com/v1")
}

/// The model used when none is configured.
pub fn default_llm_model() -> (s: String)
    ensures
        s@ == "gpt-4o-mini"@,
{
    String::from_str("gpt-4o-mini")
}

/// The built-in system prompt of each mode.
pub open spec fn mode_prompt(mode: AppMode) -> Seq<char> {
    match mode {
        AppMode::Translate => "你是一个专业的实时翻译助手。请将以下语音识别文本翻译成中文，语言简洁自然，像正常说话一样口语化，不要直译腔。直接输出译文，不要解释。"@,
        AppMode::Interview => "你是一个资深技术面试辅助专家。根据面试官问题的语音转录，给出回答的核心要点。输出要求：口语化、简洁、用 Bullet Points，不超过 100 字，突出专业词汇和解题思路，不要废话。"@,
    }
}

/// Law: the translate prompt asks for a translation into Chinese and the
/// interview prompt for the key points of an answer, each in the fixed
/// wording below.
pub proof fn law_builtin_prompts(mode: AppMode)
    ensures
        mode == AppMode::Translate ==> mode_prompt(mode)
            == "你是一个专业的实时翻译助手。请将以下语音识别文本翻译成中文，语言简洁自然，像正常说话一样口语化，不要直译腔。直接输出译文，不要解释。"@,
        mode == AppMode::Interview ==> mode_prompt(mode)
            == "你是一个资深技术面试辅助专家。根据面试官问题的语音转录，给出回答的核心要点。输出要求：口语化、简洁、用 Bullet Points，不超过 100 字，突出专业词汇和解题思路，不要废话。"@,
{
}

impl Default for AppConfig {
    fn default() -> (c: AppConfig)
        ensures
            c.deepgram_api_key@ == Seq::<char>::empty(),
            c.llm_api_key@ == Seq::<char>::empty(),
            c.llm_base_url@ == "https://api.openai.com/v1"@,
            c.llm_model@ == "gpt-4o-mini"@,
            c.mode == AppMode::Translate,
            c.font_size == 22,
            c.subtitle_position == (SubtitlePosition { x: 100, y: 100 }),
            c.system_prompt@ == Seq::<char>::empty(),
            c.audio_source == AudioSource::System,
            !c.debug_mode,
    {
        AppConfig {
            deepgram_api_key: String::new(),
            llm_api_key: String::new(),
            llm_base_url: default_llm_base_url(),
            llm_model: default_llm_model(),
            mode: AppMode::Translate,
            font_size: 22,
            subtitle_position: SubtitlePosition { x: 100, y: 100 },
            system_prompt: String::new(),
            audio_source: AudioSource::System,
            debug_mode: false,
        }
    }
}

impl AppConfig {
    /// The system prompt in effect: the custom one unless it is blank, else
    /// the built-in prompt of the mode.
    pub fn effective_system_prompt(&self) -> (p: String)
        ensures
            p@ == if !all_ws(self.system_prompt@) {
                self.system_prompt@
            } else {
                mode_prompt(self.mode)
            },
        all_ws(self.system_prompt@) && self.mode == AppMode::Translate ==> p@
            == "你是一个专业的实时翻译助手。请将以下语音识别文本翻译成中文，语言简洁自然，像正常说话一样口语化，不要直译腔。直接输出译文，不要解释。"@,
        all_ws(self.system_prompt@) && self.mode == AppMode::Interview ==> p@
            == "你是一个资深技术面试辅助专家。根据面试官问题的语音转录，给出回答的核心要点。输出要求：口语化、简洁、用 Bullet Points，不超过 100 字，突出专业词汇和解题思路，不要废话。"@,
    {
        if !is_blank(self.system_prompt.as_str()) {
            return self.system_prompt.clone();
        }
        match self.mode {
            AppMode::Translate => String::from_str(
                "你是一个专业的实时翻译助手。请将以下语音识别文本翻译成中文，语言简洁自然，像正常说话一样口语化，不要直译腔。直接输出译文，不要解释。",
            ),
            AppMode::Interview => String::from_str(
                "你是一个资深技术面试辅助专家。根据面试官问题的语音转录，给出回答的核心要点。输出要求：口语化、简洁、用 Bullet Points，不超过 100 字，突出专业词汇和解题思路，不要废话。",
            ),
        }
    }
}

} // verus!
