use ghostprompt::llm::{token_from_choices, LLMClient, LlmError};

#[test]
fn client_trims_trailing_slashes() {
    let c = LLMClient::new("key", "http://localhost:11434/v1//", "llama3");
    assert_eq!(c.api_key, "key");
    assert_eq!(c.base_url, "http://localhost:11434/v1");
    assert_eq!(c.model, "llama3");
}

#[test]
fn chat_refused_without_key() {
    let c = LLMClient::new("", "https://api.openai.com/v1", "gpt-4o-mini");
    match c.prepare_chat("sys", "hello") {
        Err(e) => {
            assert_eq!(e, LlmError::MissingApiKey);
            assert_eq!(e.message(), "LLM API key not configured");
        }
        Ok(_) => panic!("a request without a key"),
    }
}

#[test]
fn chat_request_fields() {
    let c = LLMClient::new("sk-1", "https://api.deepseek.com/v1/", "deepseek-chat");
    let q = c.prepare_chat("translate", "bonjour").ok().unwrap();
    assert_eq!(q.endpoint, "https://api.deepseek.com/v1/chat/completions");
    assert_eq!(q.authorization, "Bearer sk-1");
    assert_eq!(q.content_type, "application/json");
    assert_eq!(q.model, "deepseek-chat");
    assert_eq!(q.messages.len(), 2);
    assert_eq!(q.messages[0].role, "system");
    assert_eq!(q.messages[0].content, "translate");
    assert_eq!(q.messages[1].role, "user");
    assert_eq!(q.messages[1].content, "bonjour");
    assert!(q.stream);
}

#[test]
fn token_selection() {
    assert_eq!(token_from_choices(&vec![]), None);
    assert_eq!(token_from_choices(&vec![None]), None);
    assert_eq!(token_from_choices(&vec![Some(String::new()), Some("b".to_string())]), None);
    assert_eq!(
        token_from_choices(&vec![Some("Hel".to_string()), Some("x".to_string())]),
        Some("Hel".to_string())
    );
}
