//! What the replies of the services mean.
use vstd::prelude::*;
use vstd::string::*;
use crate::ai::errors::{can_tell, error_text, message_in, try_map_error, Service};
use crate::json::{element, element_of, field, field_of, integer_of, parse, parsed, text_of, tree, trees, Tree};
use crate::types::{AIServiceResponse, Reply};

verus! {

/// Whether an item of a reply says that it is of the kind `kind`.
pub open spec fn of_kind(t: Tree, kind: Seq<char>) -> bool {
    text_of(field_of(t, "type"@)) == Some(kind)
}

/// The first of `items` that is of the kind `kind`.
pub open spec fn first_of_kind(items: Seq<Tree>, kind: Seq<char>) -> Option<Tree>
    decreases items.len(),
{
    if items.len() == 0 {
        None
    } else if of_kind(items.first(), kind) {
        Some(items.first())
    } else {
        first_of_kind(items.drop_first(), kind)
    }
}

/// The first item of the kind `kind` in a value that is a list.
pub open spec fn listed_of_kind(t: Tree, kind: Seq<char>) -> Option<Tree> {
    match t {
        Tree::List(items) => first_of_kind(items, kind),
        _ => None,
    }
}

/// The text, or an empty one where there is none.
pub open spec fn or_empty(s: Option<Seq<char>>) -> Seq<char> {
    match s {
        Some(t) => t,
        None => Seq::empty(),
    }
}

/// The model that a reply names, or the one that was asked.
pub open spec fn model_named(t: Tree, model: Seq<char>) -> Seq<char> {
    match text_of(field_of(t, "model"@)) {
        Some(name) => name,
        None => model,
    }
}

/// The text of a ChatGPT reply: that of the first piece of output text in its first message.
pub open spec fn codex_content(t: Tree) -> Seq<char> {
    match listed_of_kind(field_of(t, "output"@), "message"@) {
        Some(message) => match listed_of_kind(field_of(message, "content"@), "output_text"@) {
            Some(part) => or_empty(text_of(field_of(part, "text"@))),
            None => Seq::empty(),
        },
        None => Seq::empty(),
    }
}

/// The number under `key` in a reply's account of its tokens.
pub open spec fn usage(t: Tree, key: Seq<char>) -> Option<u64> {
    integer_of(field_of(field_of(t, "usage"@), key))
}

/// What a ChatGPT reply means.
pub open spec fn codex_reply(t: Tree, model: Seq<char>) -> Reply {
    Reply {
        content: codex_content(t),
        model: model_named(t, model),
        input_tokens: usage(t, "input_tokens"@),
        output_tokens: usage(t, "output_tokens"@),
    }
}

/// The text of an OpenAI reply: that of its first choice.
pub open spec fn openai_content(t: Tree) -> Seq<char> {
    or_empty(
        text_of(
            field_of(
                field_of(element_of(field_of(t, "choices"@), 0), "message"@),
                "content"@,
            ),
        ),
    )
}

/// A count, or zero where there is none.
pub open spec fn or_zero(n: Option<u64>) -> u64 {
    match n {
        Some(k) => k,
        None => 0,
    }
}

/// What an OpenAI reply means.
pub open spec fn openai_reply(t: Tree, model: Seq<char>) -> Reply {
    Reply {
        content: openai_content(t),
        model: model_named(t, model),
        input_tokens: Some(or_zero(usage(t, "prompt_tokens"@))),
        output_tokens: Some(or_zero(usage(t, "completion_tokens"@))),
    }
}

fn is_of_kind(v: &serde_json::Value, kind: &str) -> (r: bool)
    ensures
        r == of_kind(tree(*v), kind@),
{
    match field(v, "type").as_str() {
        Some(s) => s.to_string() == kind.to_string(),
        None => false,
    }
}

fn find_of_kind<'a>(v: &'a serde_json::Value, kind: &str) -> (r: Option<&'a serde_json::Value>)
    ensures
        match r {
            Some(item) => listed_of_kind(tree(*v), kind@) == Some(tree(*item)),
            None => listed_of_kind(tree(*v), kind@) is None,
        },
{
    match v.as_array() {
        Some(items) => {
            let ghost all = trees(items@);
            let mut i: usize = 0;
            assert(all.skip(0) == all);
            while i < items.len()
                invariant
                    i <= items@.len(),
                    all == trees(items@),
                    tree(*v) == Tree::List(all),
                    first_of_kind(all, kind@) == first_of_kind(all.skip(i as int), kind@),
                decreases items@.len() - i,
            {
                assert(all.skip(i as int).drop_first() == all.skip(i + 1));
                if is_of_kind(&items[i], kind) {
                    return Some(&items[i]);
                }
                i += 1;
            }
            None
        },
        None => None,
    }
}

fn text_or_empty(v: &serde_json::Value) -> (r: String)
    ensures
        r@ == or_empty(text_of(tree(*v))),
{
    match v.as_str() {
        Some(s) => s.to_string(),
        None => String::new(),
    }
}

fn model_or(json: &serde_json::Value, model: &str) -> (r: String)
    ensures
        r@ == model_named(tree(*json), model@),
{
    match field(json, "model").as_str() {
        Some(name) => name.to_string(),
        None => model.to_string(),
    }
}

fn codex_text(json: &serde_json::Value) -> (r: String)
    ensures
        r@ == codex_content(tree(*json)),
{
    match find_of_kind(field(json, "output"), "message") {
        Some(message) => match find_of_kind(field(message, "content"), "output_text") {
            Some(part) => text_or_empty(field(part, "text")),
            None => String::new(),
        },
        None => String::new(),
    }
}

/// Reads a ChatGPT reply to a request for `model`.
pub fn read_codex_reply(json: &serde_json::Value, model: &str) -> (r: AIServiceResponse)
    ensures
        r@ == codex_reply(tree(*json), model@),
{
    AIServiceResponse {
        content: codex_text(json),
        model: model_or(json, model),
        input_tokens: field(field(json, "usage"), "input_tokens").as_u64(),
        output_tokens: field(field(json, "usage"), "output_tokens").as_u64(),
    }
}

fn count_or_zero(json: &serde_json::Value, key: &str) -> (r: u64)
    ensures
        r == or_zero(usage(tree(*json), key@)),
{
    match field(field(json, "usage"), key).as_u64() {
        Some(n) => n,
        None => 0,
    }
}

/// Reads an OpenAI reply to a request for `model`.
pub fn read_openai_reply(json: &serde_json::Value, model: &str) -> (r: AIServiceResponse)
    ensures
        r@ == openai_reply(tree(*json), model@),
{
    let first = element(field(json, "choices"), 0);
    AIServiceResponse {
        content: text_or_empty(field(field(first, "message"), "content")),
        model: model_or(json, model),
        input_tokens: Some(count_or_zero(json, "prompt_tokens")),
        output_tokens: Some(count_or_zero(json, "completion_tokens")),
    }
}

/// What a service's reply means.
pub open spec fn reply_of(service: Service, t: Tree, model: Seq<char>) -> Reply {
    match service {
        Service::ChatGpt => codex_reply(t, model),
        Service::OpenAi => openai_reply(t, model),
    }
}

/// What comes of a request for `model` that was answered with `status` and `text`: the reply; or
/// what the user is told. `parsed` is what parsing the text gives.
pub open spec fn outcome(
    service: Service,
    status: u16,
    text: Seq<char>,
    model: Seq<char>,
    parsed: Result<Tree, Seq<char>>,
) -> Result<Reply, Seq<char>> {
    if status != 200 {
        Err(error_text(service, status, text, message_in(parsed)))
    } else {
        match parsed {
            Ok(t) => Ok(reply_of(service, t, model)),
            Err(e) => Err("Parse error: "@ + e),
        }
    }
}

/// What the outcome of a request holds.
pub open spec fn outcome_view(r: Result<AIServiceResponse, String>) -> Result<Reply, Seq<char>> {
    match r {
        Ok(reply) => Ok(reply@),
        Err(e) => Err(e@),
    }
}

/// What comes of a request for `model` that was answered with `status` and `text`; nothing where
/// the user is to be told the beginning of the text and it cannot be cut off.
pub fn read_answer(service: Service, status: u16, text: &str, model: &str) -> (r: Option<
    Result<AIServiceResponse, String>,
>)
    ensures
        r is Some <==> status == 200 || can_tell(
            service,
            status,
            text@,
            message_in(parsed(text@)),
        ),
        r matches Some(o) ==> outcome_view(o) == outcome(
            service,
            status,
            text@,
            model@,
            parsed(text@),
        ),
{
    if status != 200 {
        return match try_map_error(service, status, text) {
            Some(message) => Some(Err(message)),
            None => None,
        };
    }
    match parse(text) {
        Ok(json) => Some(
            Ok(
                match service {
                    Service::ChatGpt => read_codex_reply(&json, model),
                    Service::OpenAi => read_openai_reply(&json, model),
                },
            ),
        ),
        Err(e) => {
            let mut out = "Parse error: ".to_string();
            out.append(e.as_str());
            Some(Err(out))
        },
    }
}

} // verus!
