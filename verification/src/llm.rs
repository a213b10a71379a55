//! Requests to an OpenAI-compatible chat completion service and the
//! selection of streamed tokens.
use vstd::prelude::*;
use vstd::string::StringExecFns;
use crate::text::{trim_end_char, trim_end_matches_char};

verus! {

/// Why a completion cannot be requested.
#[derive(Clone, Copy, PartialEq, Eq, Structural, Debug)]
pub enum LlmError {
    /// No key for the chat service is configured.
    MissingApiKey,
}

impl LlmError {
    /// The message that describes the error.
    pub fn message(&self) -> (s: String)
        ensures
            s@ == "LLM API key not configured"@,
    {
        String::from_str("LLM API key not configured")
    }
}

/// One chat message.
pub struct ChatMessage {
    pub role: String,
    pub content: String,
}

/// A streamed chat completion request, without the sampling temperature.
pub struct ChatRequest {
    /// The URL the request is posted to.
    pub endpoint: String,
    /// Value of the `Authorization` header.
    pub authorization: String,
    /// Value of the `Content-Type` header.
    pub content_type: String,
    pub model: String,
    pub messages: Vec<ChatMessage>,
    /// Whether the answer is streamed as Server-Sent Events.
    pub stream: bool,
}

/// A client of an OpenAI-compatible chat service.
pub struct LLMClient {
    pub api_key: String,
    /// Base URL without trailing slashes, such as `https://api.openai.com/v1`
    /// or `http://localhost:11434/v1`.
    pub base_url: String,
    /// Model name, such as `gpt-4o-mini`.
    pub model: String,
}

impl LLMClient {
    /// A client of the service at `base_url`, trailing slashes removed.
    pub fn new(api_key: &str, base_url: &str, model: &str) -> (c: LLMClient)
        ensures
            c.api_key@ == api_key@,
            c.base_url@ == trim_end_char(base_url@, '/'),
            c.model@ == model@,
    {
        LLMClient {
            api_key: String::from_str(api_key),
            base_url: trim_end_matches_char(base_url, '/'),
            model: String::from_str(model),
        }
    }

    /// The streamed completion request for a user message under a system
    /// prompt, refused when no key is configured.
    pub fn prepare_chat(&self, system_prompt: &str, user_message: &str) -> (r: Result<
        ChatRequest,
        LlmError,
    >)
        ensures
            r is Err <==> self.api_key@.len() == 0,
            r matches Err(e) ==> e == LlmError::MissingApiKey,
            r matches Ok(q) ==> {
                &&& q.endpoint@ == self.base_url@ + "/chat/completions"@
                &&& q.authorization@ == "Bearer "@ + self.api_key@
                &&& q.content_type@ == "application/json"@
                &&& q.model@ == self.model@
                &&& q.messages@.len() == 2
                &&& q.messages@[0].role@ == "system"@
                &&& q.messages@[0].content@ == system_prompt@
                &&& q.messages@[1].role@ == "user"@
                &&& q.messages@[1].content@ == user_message@
                &&& q.stream
            },
    {
        if self.api_key.as_str().is_empty() {
            return Err(LlmError::MissingApiKey);
        }
        let mut messages: Vec<ChatMessage> = Vec::new();
        messages.push(
            ChatMessage {
                role: String::from_str("system"),
                content: String::from_str(system_prompt),
            },
        );
        messages.push(
            ChatMessage { role: String::from_str("user"), content: String::from_str(user_message) },
        );
        Ok(
            ChatRequest {
                endpoint: self.base_url.clone().concat("/chat/completions"),
                authorization: String::from_str("Bearer ").concat(self.api_key.as_str()),
                content_type: String::from_str("application/json"),
                model: self.model.clone(),
                messages,
                stream: true,
            },
        )
    }
}

/// The token of a streamed completion chunk whose choices have the delta
/// contents `contents`: the first choice's content, when present and not
/// empty.
pub open spec fn first_token(contents: Seq<Option<String>>) -> Option<Seq<char>> {
    if contents.len() > 0 && contents[0] is Some && contents[0]->0@.len() > 0 {
        Some(contents[0]->0@)
    } else {
        None
    }
}

/// The token that a streamed completion chunk carries. `contents` holds,
/// per choice, the content of its delta.
pub fn token_from_choices(contents: &Vec<Option<String>>) -> (t: Option<String>)
    ensures
        (match t {
            Some(s) => Some(s@),
            None => None,
        }) == first_token(contents@),
        t is Some <==> (contents@.len() > 0 && contents@[0] is Some && contents@[0]->0@.len() > 0),
        t is Some ==> t->0@ == contents@[0]->0@,
{
    if contents.len() == 0 {
        return None;
    }
    match &contents[0] {
        Some(c) => {
            if c.as_str().is_empty() {
                None
            } else {
                Some(c.clone())
            }
        },
        None => None,
    }
}

/// Law: a chunk carries a token exactly when its first choice has content
/// of at least one character, and the token is that content unchanged:
/// spaces and line breaks are tokens like any other, and later choices are
/// never looked at.
pub proof fn law_first_nonempty_content_is_the_token(contents: Seq<Option<String>>)
    ensures
        first_token(contents) is Some <==> (contents.len() > 0 && contents[0] is Some
            && contents[0]->0@.len() > 0),
        first_token(contents) is Some ==> first_token(contents)->0 == contents[0]->0@,
        forall|c: String|
            #![trigger first_token(seq![Some(c)])]
            c@.len() > 0 ==> first_token(seq![Some(c)]) == Some(c@),
        forall|other: Seq<Option<String>>|
            #![trigger first_token(other)]
            contents.len() > 0 && other.len() > 0 && other[0] == contents[0] ==> first_token(other)
                == first_token(contents),
{
}

} // verus!
