//! Assembling provider requests, and the helpers of the title request.
use vstd::prelude::*;
use vstd::string::*;
use crate::models::Message;
use crate::adapter::{WireMessage, MessageContent, ContentModel, wire_message_of, adapt_messages};
use crate::events::opt_text;

verus! {

/// The reasoning budget granted when extended reasoning is requested.
pub const THINKING_BUDGET_TOKENS: u32 = 10000;

/// With extended reasoning, an output limit below this is raised.
pub const THINKING_MIN_MAX_TOKENS: u32 = 12000;

/// The output limit that a too-low limit is raised to under extended reasoning.
pub const THINKING_MAX_TOKENS: u32 = 16000;

/// The output limit of a title request.
pub const TITLE_MAX_TOKENS: u32 = 20;

/// The most characters of the assistant's reply that a title prompt quotes.
pub const TITLE_EXCERPT_CHARS: usize = 500;

/// One request to the provider, without its sampling temperature.
pub struct ProviderRequest {
    pub model: String,
    pub max_tokens: u32,
    pub system: Option<String>,
    pub messages: Vec<WireMessage>,
    pub stream: bool,
    pub thinking_budget: Option<u32>,
}

/// The output limit sent: under extended reasoning, at least the raised limit
/// whenever the configured one is below the threshold.
pub open spec fn effective_max_tokens(configured: u32, extended_thinking: bool) -> u32 {
    if extended_thinking && configured < THINKING_MIN_MAX_TOKENS {
        THINKING_MAX_TOKENS
    } else {
        configured
    }
}

pub fn max_tokens_for(configured: u32, extended_thinking: bool) -> (r: u32)
    ensures
        r == effective_max_tokens(configured, extended_thinking),
{
    if extended_thinking && configured < THINKING_MIN_MAX_TOKENS {
        THINKING_MAX_TOKENS
    } else {
        configured
    }
}

/// A streaming request for the adapted messages.
pub fn build_request(
    model: String,
    max_tokens: u32,
    system: Option<String>,
    messages: Vec<WireMessage>,
    extended_thinking: bool,
) -> (r: ProviderRequest)
    ensures
        r.model@ == model@,
        r.max_tokens == effective_max_tokens(max_tokens, extended_thinking),
        opt_text(r.system) == opt_text(system),
        r.messages@ == messages@,
        r.stream,
        r.thinking_budget == if extended_thinking { Some(THINKING_BUDGET_TOKENS) } else { None },
{
    let thinking_budget = if extended_thinking { Some(THINKING_BUDGET_TOKENS) } else { None };
    ProviderRequest {
        model,
        max_tokens: max_tokens_for(max_tokens, extended_thinking),
        system,
        messages,
        stream: true,
        thinking_budget,
    }
}

/// The streaming request for a conversation history, oldest message first.
pub fn chat_request(
    model: String,
    max_tokens: u32,
    system: Option<String>,
    history: &Vec<Message>,
    extended_thinking: bool,
) -> (r: ProviderRequest)
    ensures
        r.model@ == model@,
        r.max_tokens == effective_max_tokens(max_tokens, extended_thinking),
        opt_text(r.system) == opt_text(system),
        r.stream,
        r.thinking_budget == if extended_thinking { Some(THINKING_BUDGET_TOKENS) } else { None },
        r.messages@.len() == history@.len(),
        forall|i: int| 0 <= i < history@.len() ==> #[trigger] r.messages@[i]@ == wire_message_of(
            history@[i].role@, history@[i].content@, opt_text(history@[i].images), opt_text(history@[i].documents)),
{
    let messages = adapt_messages(history);
    build_request(model, max_tokens, system, messages, extended_thinking)
}

/// The part of the reply that a title prompt quotes: its first characters.
pub open spec fn excerpt(s: Seq<char>) -> Seq<char> {
    if s.len() <= TITLE_EXCERPT_CHARS {
        s
    } else {
        s.subrange(0, TITLE_EXCERPT_CHARS as int)
    }
}

/// The prompt that asks for a title of a conversation's first exchange.
pub open spec fn title_prompt_of(user: Seq<char>, assistant: Seq<char>) -> Seq<char> {
    "Based on this conversation, generate a concise 3-5 word title that captures the main topic. Return ONLY the title, no quotes or extra text.\n\nUser: "@
        + user + "\n\nAssistant: "@ + excerpt(assistant)
}

pub fn title_prompt(user: &String, assistant: &String) -> (r: String)
    ensures
        r@ == title_prompt_of(user@, assistant@),
{
    let mut prompt = String::from_str(
        "Based on this conversation, generate a concise 3-5 word title that captures the main topic. Return ONLY the title, no quotes or extra text.\n\nUser: ",
    );
    prompt.append(user.as_str());
    prompt.append("\n\nAssistant: ");
    let n = assistant.as_str().unicode_len();
    if n <= TITLE_EXCERPT_CHARS {
        prompt.append(assistant.as_str());
    } else {
        prompt.append(assistant.as_str().substring_char(0, TITLE_EXCERPT_CHARS));
    }
    prompt
}

/// The one-shot request that asks for a chat title.
pub fn title_request(model: String, user: &String, assistant: &String) -> (r: ProviderRequest)
    ensures
        r.model@ == model@,
        r.max_tokens == TITLE_MAX_TOKENS,
        r.system.is_none(),
        !r.stream,
        r.thinking_budget.is_none(),
        r.messages@.len() == 1,
        r.messages@[0]@ == ("user"@, ContentModel::Text(title_prompt_of(user@, assistant@))),
{
    let message = WireMessage {
        role: String::from_str("user"),
        content: MessageContent::Text(title_prompt(user, assistant)),
    };
    let mut messages: Vec<WireMessage> = Vec::new();
    messages.push(message);
    ProviderRequest {
        model,
        max_tokens: TITLE_MAX_TOKENS,
        system: None,
        messages,
        stream: false,
        thinking_budget: None,
    }
}

/// The title used when the reply holds no content block.
pub open spec fn fallback_title() -> Seq<char> {
    "New Chat"@
}

/// A character with the Unicode White_Space property.
pub open spec fn is_white_space(c: char) -> bool {
    let v = c as u32;
    (0x9 <= v <= 0xd) || v == 0x20 || v == 0x85 || v == 0xa0 || v == 0x1680 || (0x2000 <= v <= 0x200a)
        || v == 0x2028 || v == 0x2029 || v == 0x202f || v == 0x205f || v == 0x3000
}

/// `t` is `s` without its leading and trailing white space: a contiguous
/// part of `s` that starts and ends with other characters, or is empty, with
/// only white space before and after it.
pub open spec fn is_trim_of(s: Seq<char>, t: Seq<char>) -> bool {
    exists|i: int, j: int|
        0 <= i <= j <= s.len() && t == s.subrange(i, j)
        && (forall|k: int| 0 <= k < i ==> is_white_space(#[trigger] s[k]))
        && (forall|k: int| j <= k < s.len() ==> is_white_space(#[trigger] s[k]))
        && (i < j ==> !is_white_space(s[i]) && !is_white_space(s[j - 1]))
}

/// Relies on str::trim, which removes the characters with the Unicode
/// White_Space property from both ends.
#[verifier::external_body]
fn trim_text(s: &str) -> (r: String)
    ensures
        is_trim_of(s@, r@),
{
    s.trim().to_string()
}

/// The title from the text of the reply's first content block, if any.
pub fn title_from_reply(first_text: Option<String>) -> (r: String)
    ensures
        match first_text {
            Some(t) => is_trim_of(t@, r@),
            None => r@ == fallback_title(),
        },
{
    match first_text {
        Some(t) => trim_text(t.as_str()),
        None => String::from_str("New Chat"),
    }
}

} // verus!
