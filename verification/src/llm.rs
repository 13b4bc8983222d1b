//! Requests to a language model.

use vstd::prelude::*;

use crate::text::{join, joined, texts};

verus! {

#[derive(Debug, Clone, Copy, PartialEq, Eq, Structural)]
pub enum ProviderType {
    Claude,
    OpenAi,
}

/// How the language model is reached. The temperature is kept as the bits of
/// the IEEE 754 single that it is. By default no model is named.
#[derive(Debug, Clone)]
pub struct LlmConfig {
    pub provider: ProviderType,
    pub api_key: String,
    pub model: String,
    pub base_url: Option<String>,
    pub max_tokens: u32,
    pub temperature_bits: u32,
}

impl Default for LlmConfig {
    fn default() -> (r: Self)
        ensures
            r.provider == ProviderType::Claude,
            r.api_key@ == Seq::<char>::empty(),
            r.model@ == Seq::<char>::empty(),
            r.base_url is None,
            r.max_tokens == 4096,
            r.temperature_bits == 0,
    {
        let api_key = String::new();
        let model = String::new();
        assert(api_key@ =~= Seq::<char>::empty());
        assert(model@ =~= Seq::<char>::empty());
        LlmConfig {
            provider: ProviderType::Claude,
            api_key,
            model,
            base_url: None,
            max_tokens: 4096,
            temperature_bits: 0,
        }
    }
}

#[derive(Debug, Clone, Copy, PartialEq, Eq, Structural)]
pub enum MessageRole {
    User,
    Assistant,
}

#[derive(Debug, Clone, Copy, PartialEq, Eq, Structural)]
pub enum ResponseFormat {
    Text,
    JsonObject,
}

#[derive(Debug, Clone)]
pub struct LlmMessage {
    pub role: MessageRole,
    pub content: String,
}

#[verifier::ext_equal]
pub struct MessageView {
    pub role: MessageRole,
    pub content: Seq<char>,
}

impl View for LlmMessage {
    type V = MessageView;

    open spec fn view(&self) -> MessageView {
        MessageView { role: self.role, content: self.content@ }
    }
}

#[derive(Debug, Clone)]
pub struct LlmRequest {
    pub system_prompt: String,
    pub messages: Vec<LlmMessage>,
    pub max_tokens: u32,
    pub temperature_bits: u32,
    pub response_format: Option<ResponseFormat>,
}

#[verifier::ext_equal]
pub struct RequestView {
    pub system_prompt: Seq<char>,
    pub messages: Seq<MessageView>,
    pub max_tokens: u32,
    pub temperature_bits: u32,
    pub response_format: Option<ResponseFormat>,
}

impl View for LlmRequest {
    type V = RequestView;

    open spec fn view(&self) -> RequestView {
        RequestView {
            system_prompt: self.system_prompt@,
            messages: self.messages@.map_values(|m: LlmMessage| m@),
            max_tokens: self.max_tokens,
            temperature_bits: self.temperature_bits,
            response_format: self.response_format,
        }
    }
}

/// What the model is told of its task.
pub const SYSTEM_PROMPT: &'static str =
    "You are a precise Java code analyzer. Your task is to extract behavioral semantics from Java code entities.\n\nRULES:\n1. Every claim MUST cite specific line number(s) from the source code.\n2. Claims without line citations will be REJECTED.\n3. Be factual and precise. Do not speculate beyond what the code shows.\n4. Return valid JSON only.\n\nOutput JSON schema:\n{\n  \"intent\": \"one-line purpose description\",\n  \"behavior\": \"step-by-step behavioral description\",\n  \"preconditions\": [\"condition: description (line X)\"],\n  \"postconditions\": [\"condition: description (line X)\"],\n  \"side_effects\": [\"effect description (line X)\"],\n  \"error_behavior\": \"how errors are handled (lines X-Y)\",\n  \"witnesses\": [{\"claim\": \"the claim text\", \"lines\": [start_line, end_line]}]\n}";

/// What the model is asked about an entity.
pub open spec fn behavior_question(
    entity_label: Seq<char>,
    entity_type: Seq<char>,
    source_code: Seq<char>,
    snippets: Seq<Seq<char>>,
) -> Seq<char> {
    "Analyze this Java "@ + entity_type + " `"@ + entity_label + "`:\n\n```java\n"@ + source_code + "\n```"@ + if snippets.len()
        == 0 {
        Seq::empty()
    } else {
        "\n\n## Related code:\n"@ + joined(snippets, "\n---\n"@)
    }
}

/// The request for an entity's behavior.
pub open spec fn behavior_request(
    entity_label: Seq<char>,
    entity_type: Seq<char>,
    source_code: Seq<char>,
    snippets: Seq<Seq<char>>,
) -> RequestView {
    RequestView {
        system_prompt: SYSTEM_PROMPT@,
        messages: seq![
            MessageView {
                role: MessageRole::User,
                content: behavior_question(entity_label, entity_type, source_code, snippets),
            },
        ],
        max_tokens: 2048,
        temperature_bits: 0,
        response_format: Some(ResponseFormat::JsonObject),
    }
}

pub fn behavior_extraction_prompt(
    entity_label: &str,
    entity_type: &str,
    source_code: &str,
    context_snippets: &[String],
) -> (r: LlmRequest)
    ensures
        r@ == behavior_request(entity_label@, entity_type@, source_code@, texts(context_snippets@)),
{
    let mut content = "Analyze this Java ".to_owned();
    content.append(entity_type);
    content.append(" `");
    content.append(entity_label);
    content.append("`:\n\n```java\n");
    content.append(source_code);
    content.append("\n```");
    assert(texts(context_snippets@).len() == context_snippets@.len());
    if context_snippets.len() > 0 {
        content.append("\n\n## Related code:\n");
        content.append(join(context_snippets, "\n---\n").as_str());
    }
    assert(content@ =~= behavior_question(entity_label@, entity_type@, source_code@, texts(context_snippets@)));
    let mut messages: Vec<LlmMessage> = Vec::new();
    messages.push(LlmMessage { role: MessageRole::User, content });
    let r = LlmRequest {
        system_prompt: SYSTEM_PROMPT.to_owned(),
        messages,
        max_tokens: 2048,
        temperature_bits: 0,
        response_format: Some(ResponseFormat::JsonObject),
    };
    assert(r@.messages =~= behavior_request(entity_label@, entity_type@, source_code@, texts(context_snippets@)).messages);
    r
}

} // verus!
