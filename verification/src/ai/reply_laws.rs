//! What is read out of every reply, and what is said of every refusal.
use vstd::prelude::*;
use crate::ai::errors::{can_tell, error_text, message_in, Service};
use crate::ai::replies::{
    codex_content, first_of_kind, openai_content, outcome, reply_of,
};
use crate::json::{element_of, field_of, integer_of, text_of, Tree};
use crate::text::{cuts, decimal, first_bytes};
use crate::types::Reply;

verus! {

/// Whether the item at position `i` of a list names its kind as `kind`, and none before it does.
pub open spec fn first_named(items: Seq<Tree>, kind: Seq<char>, i: int) -> bool {
    &&& 0 <= i < items.len()
    &&& text_of(field_of(items[i], "type"@)) == Some(kind)
    &&& forall|k: int| 0 <= k < i ==> text_of(field_of(#[trigger] items[k], "type"@)) != Some(kind)
}

/// Whether no item of a list names its kind as `kind`.
pub open spec fn none_named(items: Seq<Tree>, kind: Seq<char>) -> bool {
    forall|k: int|
        0 <= k < items.len() ==> text_of(field_of(#[trigger] items[k], "type"@)) != Some(kind)
}

proof fn lemma_first(items: Seq<Tree>, kind: Seq<char>, i: int)
    requires
        first_named(items, kind, i),
    ensures
        first_of_kind(items, kind) == Some(items[i]),
    decreases items.len(),
{
    if i > 0 {
        let rest = items.drop_first();
        assert(text_of(field_of(items[0], "type"@)) != Some(kind));
        assert forall|k: int| 0 <= k < i - 1 implies text_of(field_of(#[trigger] rest[k], "type"@))
            != Some(kind) by {
            assert(rest[k] == items[k + 1]);
        }
        assert(rest[i - 1] == items[i]);
        lemma_first(rest, kind, i - 1);
    }
}

proof fn lemma_none(items: Seq<Tree>, kind: Seq<char>)
    requires
        none_named(items, kind),
    ensures
        first_of_kind(items, kind) is None,
    decreases items.len(),
{
    if items.len() > 0 {
        let rest = items.drop_first();
        assert(text_of(field_of(items[0], "type"@)) != Some(kind));
        assert forall|k: int| 0 <= k < rest.len() implies text_of(
            field_of(#[trigger] rest[k], "type"@),
        ) != Some(kind) by {
            assert(rest[k] == items[k + 1]);
        }
        lemma_none(rest, kind);
    }
}

/// The text of a ChatGPT reply stands in the first message of its output, in the first piece there
/// that is output text.
pub proof fn codex_text_is_in_the_first_message(
    t: Tree,
    items: Seq<Tree>,
    parts: Seq<Tree>,
    i: int,
    j: int,
    text: Seq<char>,
)
    requires
        field_of(t, "output"@) == Tree::List(items),
        first_named(items, "message"@, i),
        field_of(items[i], "content"@) == Tree::List(parts),
        first_named(parts, "output_text"@, j),
        field_of(parts[j], "text"@) == Tree::Text(text),
    ensures
        codex_content(t) == text,
{
    lemma_first(items, "message"@, i);
    lemma_first(parts, "output_text"@, j);
}

/// A ChatGPT reply without a list of output, without a message in it, or without output text in
/// the first message, has an empty text.
pub proof fn codex_replies_without_text_are_empty(
    t: Tree,
    items: Seq<Tree>,
    parts: Seq<Tree>,
    i: int,
    j: int,
)
    ensures
        !(field_of(t, "output"@) is List) ==> codex_content(t).len() == 0,
        field_of(t, "output"@) == Tree::List(items) && none_named(items, "message"@)
            ==> codex_content(t).len() == 0,
        field_of(t, "output"@) == Tree::List(items) && first_named(items, "message"@, i) ==> {
            &&& !(field_of(items[i], "content"@) is List) ==> codex_content(t).len() == 0
            &&& field_of(items[i], "content"@) == Tree::List(parts) && none_named(
                parts,
                "output_text"@,
            ) ==> codex_content(t).len() == 0
            &&& field_of(items[i], "content"@) == Tree::List(parts) && first_named(
                parts,
                "output_text"@,
                j,
            ) && !(field_of(parts[j], "text"@) is Text) ==> codex_content(t).len() == 0
        },
{
    if field_of(t, "output"@) == Tree::List(items) {
        if none_named(items, "message"@) {
            lemma_none(items, "message"@);
        }
        if first_named(items, "message"@, i) {
            lemma_first(items, "message"@, i);
            if none_named(parts, "output_text"@) {
                lemma_none(parts, "output_text"@);
            }
            if first_named(parts, "output_text"@, j) {
                lemma_first(parts, "output_text"@, j);
            }
        }
    }
}

/// The text of an OpenAI reply is the content of the message of its first choice, and empty where
/// that is no text.
pub proof fn openai_text_is_in_the_first_choice(t: Tree)
    ensures
        ({
            let content = field_of(
                field_of(element_of(field_of(t, "choices"@), 0), "message"@),
                "content"@,
            );
            &&& content matches Tree::Text(text) ==> openai_content(t) == text
            &&& !(content is Text) ==> openai_content(t).len() == 0
        }),
{
}

/// A reply is by the model that it names, or by the one that was asked where it names none; and
/// the tokens are those that it counts. A ChatGPT reply may leave them out; in an OpenAI reply
/// what is left out counts as zero.
pub proof fn replies_name_model_and_tokens(service: Service, t: Tree, model: Seq<char>)
    ensures
        ({
            let reply = reply_of(service, t, model);
            let account = field_of(t, "usage"@);
            let (read, written) = match service {
                Service::ChatGpt => (
                    field_of(account, "input_tokens"@),
                    field_of(account, "output_tokens"@),
                ),
                Service::OpenAi => (
                    field_of(account, "prompt_tokens"@),
                    field_of(account, "completion_tokens"@),
                ),
            };
            &&& field_of(t, "model"@) matches Tree::Text(name) ==> reply.model == name
            &&& !(field_of(t, "model"@) is Text) ==> reply.model == model
            &&& integer_of(read) is Some ==> reply.input_tokens == integer_of(read)
            &&& integer_of(written) is Some ==> reply.output_tokens == integer_of(written)
            &&& service == Service::ChatGpt && integer_of(read) is None ==> reply.input_tokens
                is None
            &&& service == Service::ChatGpt && integer_of(written) is None ==> reply.output_tokens
                is None
            &&& service == Service::OpenAi && integer_of(read) is None ==> reply.input_tokens
                == Some(0u64)
            &&& service == Service::OpenAi && integer_of(written) is None ==> reply.output_tokens
                == Some(0u64)
            &&& service == Service::ChatGpt ==> reply.content == codex_content(t)
            &&& service == Service::OpenAi ==> reply.content == openai_content(t)
        }),
{
}

/// Only a status of 200 with a text that parses gives a reply, which is then read out of that
/// text; a text that does not parse is told as such, and any other status as a refusal.
pub proof fn only_success_is_a_reply(
    service: Service,
    status: u16,
    text: Seq<char>,
    model: Seq<char>,
    parsed: Result<Tree, Seq<char>>,
)
    ensures
        ({
            let o = outcome(service, status, text, model, parsed);
            &&& o is Ok <==> status == 200 && parsed is Ok
            &&& status == 200 && parsed is Ok ==> o == Ok::<Reply, Seq<char>>(
                reply_of(service, parsed->Ok_0, model),
            )
            &&& status == 200 && parsed is Err ==> o == Err::<Reply, Seq<char>>(
                "Parse error: "@ + parsed->Err_0,
            )
            &&& status != 200 ==> o == Err::<Reply, Seq<char>>(
                error_text(service, status, text, message_in(parsed)),
            )
        }),
{
}

/// A refusal for lack of a valid token, for lack of permission, for too many requests, or for the
/// service being down, is told in the same words whatever the service wrote.
pub proof fn known_refusals_are_told_in_words(
    service: Service,
    status: u16,
    body: Seq<char>,
    message: Option<Seq<char>>,
)
    ensures
        ({
            let told = error_text(service, status, body, message);
            &&& service == Service::ChatGpt && status == 401 ==> told
                == "ChatGPT token invalid or expired. Please sign in again via Settings."@
            &&& service == Service::ChatGpt && status == 403 ==> told
                == "ChatGPT token does not have the required permissions."@
            &&& service == Service::ChatGpt && status == 429 ==> told
                == "ChatGPT rate limit — try again shortly."@
            &&& service == Service::ChatGpt && 500 <= status < 600 ==> told
                == "ChatGPT service unavailable. Try again later."@
            &&& service == Service::OpenAi && status == 401 ==> told
                == "Invalid OpenAI API key or bearer token."@
            &&& service == Service::OpenAi && status == 403 ==> told
                == "Token does not have the required permissions."@
            &&& service == Service::OpenAi && status == 429 ==> told
                == "OpenAI rate limit — try again shortly."@
            &&& service == Service::OpenAi && 500 <= status < 600 ==> told
                == "OpenAI service unavailable. Try again later."@
            &&& status == 401 || status == 403 || status == 429 || 500 <= status < 600 ==> can_tell(
                service,
                status,
                body,
                message,
            )
        }),
{
}

/// Any other refusal is told by the first two hundred characters of the message that came with it;
/// without a message, by the status and the first two hundred bytes of what the service wrote.
pub proof fn other_refusals_are_told_as_they_came(
    service: Service,
    status: u16,
    body: Seq<char>,
    message: Option<Seq<char>>,
)
    requires
        status != 401,
        status != 403,
        status != 429,
        !(500 <= status < 600),
    ensures
        ({
            let told = error_text(service, status, body, message);
            let label = match service {
                Service::ChatGpt => "ChatGPT Codex error ("@,
                Service::OpenAi => "OpenAI API error ("@,
            };
            &&& message matches Some(m) ==> told.is_prefix_of(m) && (told == m || told.len() == 200)
                && told.len() <= 200
            &&& message is None ==> told == label + decimal(status as nat) + "): "@ + first_bytes(
                body,
                200,
            )
            &&& can_tell(service, status, body, message) <==> message is Some || cuts(body, 200)
        }),
{
}

/// The message of a refusal is the text under `message` in the object under `error`; there is none
/// where that is no text or what the service wrote does not parse.
pub proof fn messages_stand_under_error(body: Result<Tree, Seq<char>>)
    ensures
        body is Err ==> message_in(body) is None,
        body matches Ok(t) ==> {
            let m = field_of(field_of(t, "error"@), "message"@);
            &&& m matches Tree::Text(text) ==> message_in(body) == Some(text)
            &&& !(m is Text) ==> message_in(body) is None
        },
{
}

} // verus!
