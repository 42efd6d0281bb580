//! The requests that the OpenAI and ChatGPT services take.
use vstd::prelude::*;
use vstd::string::*;
use crate::json::{
    bool_value, empty_object, list_value, number_value, set_field, text_value, tree, trees, Tree,
};
use crate::types::{utterances, ServiceMessage, Utterance};

verus! {

/// Where the ChatGPT service takes its requests.
pub const CHATGPT_RESPONSES_URL: &'static str = "https://chatgpt.com/backend-api/codex/responses";

/// Where the OpenAI service takes its requests.
pub const OPENAI_COMPLETIONS_URL: &'static str = "https://api.openai.com/v1/chat/completions";

/// What a model is told to be where the caller does not say.
pub const DEFAULT_INSTRUCTIONS: &'static str = "You are a helpful assistant.";

/// What a list of headers holds.
pub open spec fn header_pairs(headers: Seq<(String, String)>) -> Seq<(Seq<char>, Seq<char>)> {
    headers.map_values(|h: (String, String)| (h.0@, h.1@))
}

/// The headers of a request that is authorized by `token`.
pub open spec fn bearer_headers(token: Seq<char>) -> Seq<(Seq<char>, Seq<char>)> {
    seq![
        ("Authorization"@, "Bearer "@ + token),
        ("Content-Type"@, "application/json"@),
    ]
}

fn headers_for(token: &str) -> (r: Vec<(String, String)>)
    ensures
        header_pairs(r@) == bearer_headers(token@),
{
    let mut bearer = "Bearer ".to_string();
    bearer.append(token);
    let mut headers: Vec<(String, String)> = Vec::new();
    headers.push(("Authorization".to_string(), bearer));
    headers.push(("Content-Type".to_string(), "application/json".to_string()));
    assert(header_pairs(headers@) == bearer_headers(token@));
    headers
}

/// A piece of text, as the ChatGPT service takes it.
pub open spec fn codex_part(text: Seq<char>) -> Tree {
    Tree::Object(map!["type"@ => Tree::Text("input_text"@), "text"@ => Tree::Text(text)])
}

/// A message, as the ChatGPT service takes it.
pub open spec fn codex_message(m: Utterance) -> Tree {
    Tree::Object(
        map![
            "type"@ => Tree::Text("message"@),
            "role"@ => Tree::Text(m.role),
            "content"@ => Tree::List(seq![codex_part(m.content)]),
        ],
    )
}

/// The system prompt, or what stands in for an empty one.
pub open spec fn instructions(system: Seq<char>) -> Seq<char> {
    if system.len() == 0 {
        DEFAULT_INSTRUCTIONS@
    } else {
        system
    }
}

/// The body of a request to the ChatGPT service.
pub open spec fn codex_body(
    model: Seq<char>,
    system: Seq<char>,
    messages: Seq<Utterance>,
    stream: bool,
) -> Tree {
    Tree::Object(
        map![
            "model"@ => Tree::Text(model),
            "instructions"@ => Tree::Text(instructions(system)),
            "input"@ => Tree::List(messages.map_values(|m: Utterance| codex_message(m))),
            "tools"@ => Tree::List(Seq::empty()),
            "tool_choice"@ => Tree::Text("auto"@),
            "parallel_tool_calls"@ => Tree::Bool(false),
            "reasoning"@ => Tree::Object(map!["summary"@ => Tree::Text("auto"@)]),
            "store"@ => Tree::Bool(false),
            "stream"@ => Tree::Bool(stream),
        ],
    )
}

fn codex_part_value(text: &str) -> (r: serde_json::Value)
    ensures
        tree(r) == codex_part(text@),
{
    let mut part = empty_object();
    set_field(&mut part, "type", text_value("input_text"));
    set_field(&mut part, "text", text_value(text));
    part
}

fn codex_message_value(m: &ServiceMessage) -> (r: serde_json::Value)
    ensures
        tree(r) == codex_message(m@),
{
    let mut parts: Vec<serde_json::Value> = Vec::new();
    parts.push(codex_part_value(m.content.as_str()));
    assert(trees(parts@) == seq![codex_part(m.content@)]);
    let mut message = empty_object();
    set_field(&mut message, "type", text_value("message"));
    set_field(&mut message, "role", text_value(m.role.as_str()));
    set_field(&mut message, "content", list_value(parts));
    message
}

fn codex_input(messages: &[ServiceMessage]) -> (r: Vec<serde_json::Value>)
    ensures
        trees(r@) == utterances(messages@).map_values(|m: Utterance| codex_message(m)),
{
    let mut input: Vec<serde_json::Value> = Vec::new();
    let mut i: usize = 0;
    while i < messages.len()
        invariant
            i <= messages@.len(),
            input@.len() == i,
            forall|k: int| 0 <= k < i ==> tree(#[trigger] input@[k]) == codex_message(messages@[k]@),
        decreases messages@.len() - i,
    {
        input.push(codex_message_value(&messages[i]));
        i += 1;
    }
    assert(trees(input@) == utterances(messages@).map_values(|m: Utterance| codex_message(m)));
    input
}

fn codex_body_value(
    model: &str,
    system: &str,
    messages: &[ServiceMessage],
) -> (r: serde_json::Value)
    ensures
        tree(r) == codex_body(model@, system@, utterances(messages@), false),
{
    let told = if system.is_empty() {
        DEFAULT_INSTRUCTIONS
    } else {
        system
    };
    let tools: Vec<serde_json::Value> = Vec::new();
    assert(trees(tools@) == Seq::<Tree>::empty());
    let mut reasoning = empty_object();
    set_field(&mut reasoning, "summary", text_value("auto"));
    let mut body = empty_object();
    set_field(&mut body, "model", text_value(model));
    set_field(&mut body, "instructions", text_value(told));
    set_field(&mut body, "input", list_value(codex_input(messages)));
    set_field(&mut body, "tools", list_value(tools));
    set_field(&mut body, "tool_choice", text_value("auto"));
    set_field(&mut body, "parallel_tool_calls", bool_value(false));
    set_field(&mut body, "reasoning", reasoning);
    set_field(&mut body, "store", bool_value(false));
    set_field(&mut body, "stream", bool_value(false));
    body
}

/// The address, headers and body of a request to the ChatGPT service. The service takes no limit
/// on the number of tokens, so `_max_tokens` is not sent.
pub fn build_codex_request(
    token: &str,
    model: &str,
    _max_tokens: u32,
    system: &str,
    messages: &[ServiceMessage],
) -> (r: (String, Vec<(String, String)>, serde_json::Value))
    ensures
        r.0@ == "https://chatgpt.com/backend-api/codex/responses"@,
        r.0@ == CHATGPT_RESPONSES_URL@,
        header_pairs(r.1@) == bearer_headers(token@),
        tree(r.2) == codex_body(model@, system@, utterances(messages@), false),
{
    (
        CHATGPT_RESPONSES_URL.to_string(),
        headers_for(token),
        codex_body_value(model, system, messages),
    )
}

/// The address, headers and body of a request to the ChatGPT service whose reply comes as a
/// stream.
pub fn build_codex_stream_request(
    token: &str,
    model: &str,
    max_tokens: u32,
    system: &str,
    messages: &[ServiceMessage],
) -> (r: (String, Vec<(String, String)>, serde_json::Value))
    ensures
        r.0@ == "https://chatgpt.com/backend-api/codex/responses"@,
        r.0@ == CHATGPT_RESPONSES_URL@,
        header_pairs(r.1@) == bearer_headers(token@),
        tree(r.2) == codex_body(model@, system@, utterances(messages@), true),
{
    let (url, headers, mut body) = build_codex_request(token, model, max_tokens, system, messages);
    set_field(&mut body, "stream", bool_value(true));
    assert(tree(body)->Object_0 == codex_body(
        model@,
        system@,
        utterances(messages@),
        true,
    )->Object_0);
    (url, headers, body)
}

/// A message, as the OpenAI service takes it.
pub open spec fn openai_message(role: Seq<char>, content: Seq<char>) -> Tree {
    Tree::Object(map!["role"@ => Tree::Text(role), "content"@ => Tree::Text(content)])
}

/// The messages of a request to the OpenAI service: the system prompt, then the others.
pub open spec fn openai_messages(system: Seq<char>, messages: Seq<Utterance>) -> Seq<Tree> {
    seq![openai_message("system"@, system)] + messages.map_values(
        |m: Utterance| openai_message(m.role, m.content),
    )
}

/// The body of a request to the OpenAI service.
pub open spec fn openai_body(
    model: Seq<char>,
    max_tokens: u32,
    system: Seq<char>,
    messages: Seq<Utterance>,
) -> Tree {
    Tree::Object(
        map![
            "model"@ => Tree::Text(model),
            "max_tokens"@ => Tree::Number(Some(max_tokens as u64)),
            "messages"@ => Tree::List(openai_messages(system, messages)),
        ],
    )
}

/// The body of a request to the OpenAI service whose reply comes as a stream, with the token
/// counts at its end.
pub open spec fn openai_stream_body(
    model: Seq<char>,
    max_tokens: u32,
    system: Seq<char>,
    messages: Seq<Utterance>,
) -> Tree {
    Tree::Object(
        map![
            "model"@ => Tree::Text(model),
            "max_tokens"@ => Tree::Number(Some(max_tokens as u64)),
            "messages"@ => Tree::List(openai_messages(system, messages)),
            "stream"@ => Tree::Bool(true),
            "stream_options"@ => Tree::Object(map!["include_usage"@ => Tree::Bool(true)]),
        ],
    )
}

fn openai_message_value(role: &str, content: &str) -> (r: serde_json::Value)
    ensures
        tree(r) == openai_message(role@, content@),
{
    let mut message = empty_object();
    set_field(&mut message, "role", text_value(role));
    set_field(&mut message, "content", text_value(content));
    message
}

fn openai_message_list(system: &str, messages: &[ServiceMessage]) -> (r: Vec<serde_json::Value>)
    ensures
        trees(r@) == openai_messages(system@, utterances(messages@)),
{
    let mut list: Vec<serde_json::Value> = Vec::new();
    list.push(openai_message_value("system", system));
    let mut i: usize = 0;
    while i < messages.len()
        invariant
            i <= messages@.len(),
            list@.len() == i + 1,
            tree(list@[0]) == openai_message("system"@, system@),
            forall|k: int|
                0 < k <= i ==> tree(#[trigger] list@[k]) == openai_message(
                    messages@[k - 1].role@,
                    messages@[k - 1].content@,
                ),
        decreases messages@.len() - i,
    {
        list.push(openai_message_value(messages[i].role.as_str(), messages[i].content.as_str()));
        i += 1;
    }
    assert(trees(list@) == openai_messages(system@, utterances(messages@)));
    list
}

/// The address, headers and body of a request to the OpenAI service.
pub fn build_openai_request(
    token: &str,
    model: &str,
    max_tokens: u32,
    system: &str,
    messages: &[ServiceMessage],
) -> (r: (String, Vec<(String, String)>, serde_json::Value))
    ensures
        r.0@ == "https://api.openai.com/v1/chat/completions"@,
        r.0@ == OPENAI_COMPLETIONS_URL@,
        header_pairs(r.1@) == bearer_headers(token@),
        tree(r.2) == openai_body(model@, max_tokens, system@, utterances(messages@)),
{
    let mut body = empty_object();
    set_field(&mut body, "model", text_value(model));
    set_field(&mut body, "max_tokens", number_value(max_tokens));
    set_field(&mut body, "messages", list_value(openai_message_list(system, messages)));
    (OPENAI_COMPLETIONS_URL.to_string(), headers_for(token), body)
}

/// The address, headers and body of a request to the OpenAI service whose reply comes as a stream.
pub fn build_openai_stream_request(
    token: &str,
    model: &str,
    max_tokens: u32,
    system: &str,
    messages: &[ServiceMessage],
) -> (r: (String, Vec<(String, String)>, serde_json::Value))
    ensures
        r.0@ == "https://api.openai.com/v1/chat/completions"@,
        r.0@ == OPENAI_COMPLETIONS_URL@,
        header_pairs(r.1@) == bearer_headers(token@),
        tree(r.2) == openai_stream_body(model@, max_tokens, system@, utterances(messages@)),
{
    let (url, headers, mut body) = build_openai_request(
        token,
        model,
        max_tokens,
        system,
        messages,
    );
    let mut options = empty_object();
    set_field(&mut options, "include_usage", bool_value(true));
    set_field(&mut body, "stream", bool_value(true));
    set_field(&mut body, "stream_options", options);
    (url, headers, body)
}

} // verus!
