//! What holds of every request to a service.
use vstd::prelude::*;
use crate::ai::openai::{
    bearer_headers, codex_body, codex_message, instructions, openai_body, openai_message, openai_stream_body,
    DEFAULT_INSTRUCTIONS,
};
use crate::json::{element_of, field_of, Tree};
use crate::types::Utterance;

verus! {

/// The keys of the bodies differ in their lengths or in a letter.
proof fn lemma_keys()
    ensures
        "model"@.len() == 5,
        "instructions"@.len() == 12,
        "input"@.len() == 5,
        "tools"@.len() == 5,
        "tool_choice"@.len() == 11,
        "parallel_tool_calls"@.len() == 19,
        "reasoning"@.len() == 9,
        "store"@.len() == 5,
        "stream"@.len() == 6,
        "max_tokens"@.len() == 10,
        "messages"@.len() == 8,
        "stream_options"@.len() == 14,
        "max_output_tokens"@.len() == 17,
        "system"@.len() == 6,
        "model"@[0] == 'm',
        "input"@[0] == 'i',
        "tools"@[0] == 't',
        "store"@[0] == 's',
        "stream"@[1] == 't',
        "system"@[1] == 'y',
{
    reveal_strlit("model");
    reveal_strlit("instructions");
    reveal_strlit("input");
    reveal_strlit("tools");
    reveal_strlit("tool_choice");
    reveal_strlit("parallel_tool_calls");
    reveal_strlit("reasoning");
    reveal_strlit("store");
    reveal_strlit("stream");
    reveal_strlit("max_tokens");
    reveal_strlit("messages");
    reveal_strlit("stream_options");
    reveal_strlit("max_output_tokens");
    reveal_strlit("system");
}

/// Whether a body has a field under `key`.
pub open spec fn has_field(body: Tree, key: Seq<char>) -> bool {
    body matches Tree::Object(fields) && fields.contains_key(key)
}

/// A request to the ChatGPT service asks that nothing be stored, always carries instructions that
/// are not empty, and sends neither a limit on tokens nor messages of the other service's shape.
pub proof fn codex_requests_keep_the_rules(
    model: Seq<char>,
    system: Seq<char>,
    messages: Seq<Utterance>,
    stream: bool,
)
    ensures
        ({
            let body = codex_body(model, system, messages, stream);
            &&& field_of(body, "store"@) == Tree::Bool(false)
            &&& field_of(body, "stream"@) == Tree::Bool(stream)
            &&& field_of(body, "model"@) == Tree::Text(model)
            &&& field_of(body, "instructions"@) == Tree::Text(instructions(system))
            &&& instructions(system).len() > 0
            &&& !has_field(body, "max_output_tokens"@)
            &&& !has_field(body, "messages"@)
            &&& has_field(body, "tools"@)
            &&& has_field(body, "tool_choice"@)
            &&& has_field(body, "parallel_tool_calls"@)
            &&& has_field(body, "reasoning"@)
        }),
{
    lemma_keys();
    reveal_strlit("You are a helpful assistant.");
    assert(DEFAULT_INSTRUCTIONS@.len() > 0);
}

/// The input of a request to the ChatGPT service is the messages, one for one and in their order,
/// and nothing else.
pub proof fn codex_input_is_the_messages(
    model: Seq<char>,
    system: Seq<char>,
    messages: Seq<Utterance>,
    stream: bool,
    i: int,
)
    ensures
        ({
            let input = field_of(codex_body(model, system, messages, stream), "input"@);
            &&& input is List
            &&& input->List_0.len() == messages.len()
            &&& 0 <= i < messages.len() ==> element_of(input, i) == codex_message(messages[i])
        }),
{
    lemma_keys();
}

/// A request to the ChatGPT service for a stream differs from one for a whole reply in the field
/// that says so, and in no other.
pub proof fn codex_stream_changes_one_field(
    model: Seq<char>,
    system: Seq<char>,
    messages: Seq<Utterance>,
    key: Seq<char>,
)
    requires
        key != "stream"@,
    ensures
        field_of(codex_body(model, system, messages, true), key) == field_of(
            codex_body(model, system, messages, false),
            key,
        ),
        has_field(codex_body(model, system, messages, true), key) == has_field(
            codex_body(model, system, messages, false),
            key,
        ),
{
}

/// A request to the OpenAI service carries the system prompt as its first message, then the other
/// messages in their order, and has no field for it beside them.
pub proof fn openai_system_comes_first(
    model: Seq<char>,
    max_tokens: u32,
    system: Seq<char>,
    messages: Seq<Utterance>,
    i: int,
)
    ensures
        ({
            let body = openai_body(model, max_tokens, system, messages);
            let list = field_of(body, "messages"@);
            &&& list is List
            &&& list->List_0.len() == messages.len() + 1
            &&& element_of(list, 0) == openai_message("system"@, system)
            &&& 0 <= i < messages.len() ==> element_of(list, i + 1) == openai_message(
                messages[i].role,
                messages[i].content,
            )
            &&& field_of(body, "model"@) == Tree::Text(model)
            &&& field_of(body, "max_tokens"@) == Tree::Number(Some(max_tokens as u64))
            &&& !has_field(body, "system"@)
        }),
{
    lemma_keys();
}

/// A request to the OpenAI service for a stream has the fields of one for a whole reply, and two
/// more: that a stream is wanted, and that it end with the token counts.
pub proof fn openai_stream_adds_two_fields(
    model: Seq<char>,
    max_tokens: u32,
    system: Seq<char>,
    messages: Seq<Utterance>,
    key: Seq<char>,
)
    ensures
        ({
            let whole = openai_body(model, max_tokens, system, messages);
            let stream = openai_stream_body(model, max_tokens, system, messages);
            &&& field_of(stream, "stream"@) == Tree::Bool(true)
            &&& field_of(field_of(stream, "stream_options"@), "include_usage"@) == Tree::Bool(true)
            &&& key != "stream"@ && key != "stream_options"@ ==> field_of(stream, key) == field_of(
                whole,
                key,
            ) && has_field(stream, key) == has_field(whole, key)
            &&& !has_field(whole, "stream"@)
            &&& !has_field(whole, "stream_options"@)
        }),
{
    lemma_keys();
}

/// The keys of the messages differ in their lengths or in a letter.
proof fn lemma_message_keys()
    ensures
        "type"@.len() == 4,
        "text"@.len() == 4,
        "role"@.len() == 4,
        "content"@.len() == 7,
        "type"@[0] == 't',
        "type"@[1] == 'y',
        "text"@[0] == 't',
        "text"@[1] == 'e',
        "role"@[0] == 'r',
{
    reveal_strlit("type");
    reveal_strlit("text");
    reveal_strlit("role");
    reveal_strlit("content");
}

/// A message to the ChatGPT service says that it is one, keeps its author and its words, the words
/// in a single piece of text, and holds nothing else.
pub proof fn codex_messages_keep_author_and_words(m: Utterance, key: Seq<char>)
    ensures
        ({
            let message = codex_message(m);
            let parts = field_of(message, "content"@);
            &&& field_of(message, "type"@) == Tree::Text("message"@)
            &&& field_of(message, "role"@) == Tree::Text(m.role)
            &&& parts is List
            &&& parts->List_0.len() == 1
            &&& field_of(parts->List_0[0], "type"@) == Tree::Text("input_text"@)
            &&& field_of(parts->List_0[0], "text"@) == Tree::Text(m.content)
            &&& has_field(message, key) ==> key == "type"@ || key == "role"@ || key == "content"@
            &&& has_field(parts->List_0[0], key) ==> key == "type"@ || key == "text"@
        }),
{
    lemma_message_keys();
}

/// A message to the OpenAI service keeps its author and its words, and holds nothing else.
pub proof fn openai_messages_keep_author_and_words(
    role: Seq<char>,
    content: Seq<char>,
    key: Seq<char>,
)
    ensures
        field_of(openai_message(role, content), "role"@) == Tree::Text(role),
        field_of(openai_message(role, content), "content"@) == Tree::Text(content),
        has_field(openai_message(role, content), key) ==> key == "role"@ || key == "content"@,
{
    lemma_message_keys();
}

/// The ChatGPT service is told what the caller says, in the caller's words; a caller who says
/// nothing has it told to be a helpful assistant.
pub proof fn instructions_are_the_callers(system: Seq<char>)
    ensures
        system.len() > 0 ==> instructions(system) == system,
        system.len() == 0 ==> instructions(system) == "You are a helpful assistant."@,
{
}

/// A request to the ChatGPT service offers no tools, leaves the choice to the model, allows no
/// calls side by side, asks for a summary of the reasoning, and holds nothing beyond what it must.
pub proof fn codex_requests_offer_no_tools(
    model: Seq<char>,
    system: Seq<char>,
    messages: Seq<Utterance>,
    stream: bool,
    key: Seq<char>,
)
    ensures
        ({
            let body = codex_body(model, system, messages, stream);
            let tools = field_of(body, "tools"@);
            let reasoning = field_of(body, "reasoning"@);
            &&& tools is List
            &&& tools->List_0.len() == 0
            &&& field_of(body, "tool_choice"@) == Tree::Text("auto"@)
            &&& field_of(body, "parallel_tool_calls"@) == Tree::Bool(false)
            &&& field_of(reasoning, "summary"@) == Tree::Text("auto"@)
            &&& has_field(reasoning, key) ==> key == "summary"@
            &&& has_field(body, key) ==> key == "model"@ || key == "instructions"@ || key
                == "input"@ || key == "tools"@ || key == "tool_choice"@ || key
                == "parallel_tool_calls"@ || key == "reasoning"@ || key == "store"@ || key
                == "stream"@
        }),
{
    lemma_keys();
}

/// A request to the OpenAI service holds the model, the limit on tokens and the messages; one for a
/// stream holds two fields more; and neither holds anything else.
pub proof fn openai_requests_hold_nothing_else(
    model: Seq<char>,
    max_tokens: u32,
    system: Seq<char>,
    messages: Seq<Utterance>,
    key: Seq<char>,
)
    ensures
        ({
            let whole = openai_body(model, max_tokens, system, messages);
            let stream = openai_stream_body(model, max_tokens, system, messages);
            let options = field_of(stream, "stream_options"@);
            &&& has_field(whole, key) ==> key == "model"@ || key == "max_tokens"@ || key
                == "messages"@
            &&& has_field(stream, key) ==> has_field(whole, key) || key == "stream"@ || key
                == "stream_options"@
            &&& has_field(options, key) ==> key == "include_usage"@
        }),
{
    lemma_keys();
}

/// Every request is authorized by its token, and says that it holds JSON.
pub proof fn requests_are_authorized_by_the_token(token: Seq<char>)
    ensures
        bearer_headers(token).len() == 2,
        bearer_headers(token)[0].0 == "Authorization"@,
        bearer_headers(token)[0].1 == "Bearer "@ + token,
        bearer_headers(token)[1].0 == "Content-Type"@,
        bearer_headers(token)[1].1 == "application/json"@,
{
}

} // verus!
