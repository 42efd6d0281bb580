//! What the user is told when a service refuses a request.
use vstd::prelude::*;
use vstd::string::*;
use crate::json::{field, field_of, parse, parsed, text_of, tree, Tree};
use crate::text::{can_cut, cut, cuts, decimal, decimal_text, first_bytes, first_chars, optional_text, shortened};

verus! {

/// The services that requests go to.
#[derive(Debug, Clone, Copy, PartialEq, Eq, Structural)]
pub enum Service {
    ChatGpt,
    OpenAi,
}

pub const CHATGPT_UNAUTHORIZED: &'static str =
    "ChatGPT token invalid or expired. Please sign in again via Settings.";

pub const CHATGPT_FORBIDDEN: &'static str = "ChatGPT token does not have the required permissions.";

pub const CHATGPT_LIMITED: &'static str = "ChatGPT rate limit — try again shortly.";

pub const CHATGPT_DOWN: &'static str = "ChatGPT service unavailable. Try again later.";

pub const OPENAI_UNAUTHORIZED: &'static str = "Invalid OpenAI API key or bearer token.";

pub const OPENAI_FORBIDDEN: &'static str = "Token does not have the required permissions.";

pub const OPENAI_LIMITED: &'static str = "OpenAI rate limit — try again shortly.";

pub const OPENAI_DOWN: &'static str = "OpenAI service unavailable. Try again later.";

/// What is said of a status whatever the service wrote.
pub open spec fn known_error(service: Service, status: u16) -> Option<Seq<char>> {
    if status == 401 {
        Some(
            match service {
                Service::ChatGpt => CHATGPT_UNAUTHORIZED@,
                Service::OpenAi => OPENAI_UNAUTHORIZED@,
            },
        )
    } else if status == 403 {
        Some(
            match service {
                Service::ChatGpt => CHATGPT_FORBIDDEN@,
                Service::OpenAi => OPENAI_FORBIDDEN@,
            },
        )
    } else if status == 429 {
        Some(
            match service {
                Service::ChatGpt => CHATGPT_LIMITED@,
                Service::OpenAi => OPENAI_LIMITED@,
            },
        )
    } else if 500 <= status <= 599 {
        Some(
            match service {
                Service::ChatGpt => CHATGPT_DOWN@,
                Service::OpenAi => OPENAI_DOWN@,
            },
        )
    } else {
        None
    }
}

/// How a message on any other status begins.
pub open spec fn error_label(service: Service) -> Seq<char> {
    match service {
        Service::ChatGpt => "ChatGPT Codex error ("@,
        Service::OpenAi => "OpenAI API error ("@,
    }
}

/// What is said of a status, where the service wrote `body`, and `message` is the message in it:
/// the text known for the status; or the beginning of the message; or the status itself and the
/// beginning of what the service wrote.
pub open spec fn error_text(
    service: Service,
    status: u16,
    body: Seq<char>,
    message: Option<Seq<char>>,
) -> Seq<char> {
    match known_error(service, status) {
        Some(text) => text,
        None => match message {
            Some(m) => first_chars(m, 200),
            None => error_label(service) + decimal(status as nat) + "): "@ + first_bytes(body, 200),
        },
    }
}

/// Whether the beginning of what the service wrote is not needed, or can be cut off.
pub open spec fn can_tell(
    service: Service,
    status: u16,
    body: Seq<char>,
    message: Option<Seq<char>>,
) -> bool {
    known_error(service, status) is Some || message is Some || cuts(body, 200)
}

/// The error message in what a service wrote.
pub open spec fn message_in(body: Result<Tree, Seq<char>>) -> Option<Seq<char>> {
    match body {
        Ok(t) => text_of(field_of(field_of(t, "error"@), "message"@)),
        Err(_) => None,
    }
}

/// What is said of a status whatever the service wrote.
fn known(service: Service, status: u16) -> (r: Option<&'static str>)
    ensures
        match r {
            Some(text) => known_error(service, status) == Some(text@),
            None => known_error(service, status) is None,
        },
{
    if status == 401 {
        Some(
            match service {
                Service::ChatGpt => CHATGPT_UNAUTHORIZED,
                Service::OpenAi => OPENAI_UNAUTHORIZED,
            },
        )
    } else if status == 403 {
        Some(
            match service {
                Service::ChatGpt => CHATGPT_FORBIDDEN,
                Service::OpenAi => OPENAI_FORBIDDEN,
            },
        )
    } else if status == 429 {
        Some(
            match service {
                Service::ChatGpt => CHATGPT_LIMITED,
                Service::OpenAi => OPENAI_LIMITED,
            },
        )
    } else if 500 <= status && status <= 599 {
        Some(
            match service {
                Service::ChatGpt => CHATGPT_DOWN,
                Service::OpenAi => OPENAI_DOWN,
            },
        )
    } else {
        None
    }
}

/// The error message in a parsed reply.
fn message_field(json: &serde_json::Value) -> (r: Option<String>)
    ensures
        optional_text(r) == text_of(field_of(field_of(tree(*json), "error"@), "message"@)),
{
    match field(field(json, "error"), "message").as_str() {
        Some(m) => Some(m.to_string()),
        None => None,
    }
}

/// The error message in what a service wrote.
pub fn find_message(body: &str) -> (r: Option<String>)
    ensures
        optional_text(r) == message_in(parsed(body@)),
{
    match parse(body) {
        Ok(json) => message_field(&json),
        Err(_) => None,
    }
}

/// What the user is told of a status, where the service wrote `body`, and `message` is the message
/// in it.
pub fn describe_error(service: Service, status: u16, body: &str, message: &Option<String>) -> (r:
    String)
    requires
        can_tell(service, status, body@, optional_text(*message)),
    ensures
        r@ == error_text(service, status, body@, optional_text(*message)),
{
    if let Some(text) = known(service, status) {
        return text.to_string();
    }
    match message {
        Some(m) => shortened(m.as_str(), 200),
        None => {
            let mut out = match service {
                Service::ChatGpt => "ChatGPT Codex error (".to_string(),
                Service::OpenAi => "OpenAI API error (".to_string(),
            };
            out.append(decimal_text(status as u32).as_str());
            out.append("): ");
            out.append(cut(body, 200).as_str());
            out
        },
    }
}

/// What the user is told of a status of the ChatGPT service.
pub fn map_codex_error(status: u16, body: &str) -> (r: String)
    requires
        can_tell(Service::ChatGpt, status, body@, message_in(parsed(body@))),
    ensures
        r@ == error_text(Service::ChatGpt, status, body@, message_in(parsed(body@))),
{
    describe_error(Service::ChatGpt, status, body, &find_message(body))
}

/// What the user is told of a status of the OpenAI service.
pub fn map_openai_error(status: u16, body: &str) -> (r: String)
    requires
        can_tell(Service::OpenAi, status, body@, message_in(parsed(body@))),
    ensures
        r@ == error_text(Service::OpenAi, status, body@, message_in(parsed(body@))),
{
    describe_error(Service::OpenAi, status, body, &find_message(body))
}

/// What the user is told of a status of `service`; nothing where the beginning of what the service
/// wrote is needed and cannot be cut off.
pub fn try_map_error(service: Service, status: u16, body: &str) -> (r: Option<String>)
    ensures
        optional_text(r) == if can_tell(service, status, body@, message_in(parsed(body@))) {
            Some(error_text(service, status, body@, message_in(parsed(body@))))
        } else {
            None
        },
{
    let message = find_message(body);
    if known(service, status).is_some() || message.is_some() || can_cut(body, 200) {
        Some(
            match service {
                Service::ChatGpt => map_codex_error(status, body),
                Service::OpenAi => map_openai_error(status, body),
            },
        )
    } else {
        None
    }
}

pub const CHATGPT_UNREACHABLE: &'static str = "Could not reach ChatGPT — check your connection.";

pub const OPENAI_UNREACHABLE: &'static str = "Could not reach OpenAI — check your connection.";

/// What the user is told where a request could not be sent: whether the service could not be
/// reached, or else why it failed.
pub fn send_error(service: Service, unreachable: bool, reason: &str) -> (r: String)
    ensures
        unreachable && service == Service::ChatGpt ==> r@
            == "Could not reach ChatGPT — check your connection."@,
        unreachable && service == Service::OpenAi ==> r@
            == "Could not reach OpenAI — check your connection."@,
        r@ == if unreachable {
            match service {
                Service::ChatGpt => CHATGPT_UNREACHABLE@,
                Service::OpenAi => OPENAI_UNREACHABLE@,
            }
        } else {
            "Network error: "@ + reason@
        },
{
    if unreachable {
        match service {
            Service::ChatGpt => CHATGPT_UNREACHABLE.to_string(),
            Service::OpenAi => OPENAI_UNREACHABLE.to_string(),
        }
    } else {
        let mut out = "Network error: ".to_string();
        out.append(reason);
        out
    }
}

/// What the user is told where a reply could not be read.
pub fn read_error(reason: &str) -> (r: String)
    ensures
        r@ == "Read error: "@ + reason@,
{
    let mut out = "Read error: ".to_string();
    out.append(reason);
    out
}

/// A message that a service sends with its refusal is passed on, its first two hundred characters
/// at most, whatever else the service wrote.
pub proof fn messages_are_passed_on(
    service: Service,
    status: u16,
    body: Seq<char>,
    message: Seq<char>,
)
    requires
        known_error(service, status) is None,
    ensures
        can_tell(service, status, body, Some(message)),
        error_text(service, status, body, Some(message)).len() <= 200,
        error_text(service, status, body, Some(message)).is_prefix_of(message),
        message.len() <= 200 ==> error_text(service, status, body, Some(message)) == message,
{
}

} // verus!
