//! One turn of a conversation: what the language model is asked, and what is done with its answer.
use vstd::prelude::*;
use vstd::string::*;
use crate::chat::engine::ChatEngine;
use crate::chat::prompt::{
    build_rag_prompt, build_system_prompt, passages, rag_prompt, system_prompt, Numbered,
};
use crate::chat::rank::{
    answer_or_canned, best_score, found, top_score, Candidate, Passage, NO_MATCH_ANSWER,
};
use crate::chat::suggest::suggested;
use crate::score::{Score, FLOOR_BITS};
use crate::text::{lowercase, texts};
use crate::types::{
    conversation, copied_citations, optional_sources, sources, titles_of, utterances, ChatMessage,
    ChatRole, Citation, Message, Profile, ServiceMessage, Source, UserProfile, Utterance,
};

verus! {

/// How many earlier messages a turn takes into account.
pub const HISTORY_LENGTH: usize = 6;

/// The messages before the last one, the latest six at most, in their order.
pub open spec fn recent(messages: Seq<Message>) -> Seq<Message> {
    let n = messages.len() as int;
    if n == 0 {
        Seq::empty()
    } else if n - 1 <= HISTORY_LENGTH {
        messages.take(n - 1)
    } else {
        messages.subrange(n - 1 - HISTORY_LENGTH, n - 1)
    }
}

/// The messages that a turn takes into account: of those before the last one, which is the
/// question itself, the latest six at most.
pub fn recent_history(messages: &[ChatMessage]) -> (r: Vec<ChatMessage>)
    ensures
        conversation(r@) == recent(conversation(messages@)),
{
    let mut out: Vec<ChatMessage> = Vec::new();
    if messages.len() == 0 {
        assert(conversation(out@) == recent(conversation(messages@)));
        return out;
    }
    let end: usize = messages.len() - 1;
    let start: usize = if end <= HISTORY_LENGTH {
        0
    } else {
        end - HISTORY_LENGTH
    };
    let mut i: usize = start;
    while i < end
        invariant
            start <= i <= end < messages@.len(),
            out@.len() == i - start,
            forall|k: int| 0 <= k < out@.len() ==> (#[trigger] out@[k])@ == messages@[start + k]@,
        decreases end - i,
    {
        out.push(messages[i].copied());
        i += 1;
    }
    assert(conversation(out@) == recent(conversation(messages@)));
    out
}

/// How many passages of the document `id` are in `list`.
pub open spec fn count_of(list: Seq<Passage>, id: Seq<char>) -> nat
    decreases list.len(),
{
    if list.len() == 0 {
        0
    } else {
        count_of(list.drop_last(), id) + if list.last().doc_id == id {
            1nat
        } else {
            0nat
        }
    }
}

/// How many passages of one document are cited.
pub const CITED_PER_DOCUMENT: usize = 3;

/// The passages of `list` that have fewer than three of the same document before them.
pub open spec fn capped(list: Seq<Passage>) -> Seq<Passage>
    decreases list.len(),
{
    if list.len() == 0 {
        Seq::empty()
    } else {
        let before = capped(list.drop_last());
        if count_of(before, list.last().doc_id) >= CITED_PER_DOCUMENT {
            before
        } else {
            before.push(list.last())
        }
    }
}

fn count_passages(list: &Vec<Candidate>, id: &String) -> (r: usize)
    ensures
        r == count_of(found(list@), id@),
{
    let ghost all = found(list@);
    let mut count: usize = 0;
    let mut i: usize = 0;
    while i < list.len()
        invariant
            i <= list@.len(),
            count <= i,
            all == found(list@),
            count == count_of(all.take(i as int), id@),
        decreases list@.len() - i,
    {
        assert(all.take(i + 1).drop_last() == all.take(i as int));
        if list[i].doc_id == *id {
            count += 1;
        }
        i += 1;
    }
    assert(all.take(i as int) == all);
    count
}

/// The passages of `list`, no more than three of any document.
pub fn cap_per_document(list: Vec<Candidate>) -> (r: Vec<Candidate>)
    ensures
        found(r@) == capped(found(list@)),
{
    let ghost all = found(list@);
    let mut out: Vec<Candidate> = Vec::new();
    assert(found(out@) == capped(all.take(0)));
    for c in it: list
        invariant
            it.seq() == list@,
            all == found(list@),
            found(out@) == capped(all.take(it.index() as int)),
    {
        let ghost before = found(out@);
        assert(all.take(it.index() + 1).drop_last() == all.take(it.index() as int));
        assert(all.take(it.index() + 1).last() == c@);
        if count_passages(&out, &c.doc_id) < CITED_PER_DOCUMENT {
            out.push(c);
            assert(found(out@) == before.push(c@));
        }
    }
    assert(all.take(all.len() as int) == all);
    out
}

/// The citation of the passage at position `i`, numbered from one.
pub open spec fn citation_of(list: Seq<Passage>, i: int) -> Source {
    Source {
        index: (i + 1) as u32,
        doc_id: list[i].doc_id,
        doc_title: list[i].doc_title,
        chunk_start: list[i].window.start,
        chunk_end: list[i].window.end,
    }
}

/// The citations of the passages of `list`, numbered from one.
pub open spec fn citations_of(list: Seq<Passage>) -> Seq<Source> {
    Seq::new(list.len(), |i: int| citation_of(list, i))
}

/// The passages of `list` as the prompt gets them: a number, a title and a text each.
pub open spec fn numbered(list: Seq<Passage>) -> Seq<Numbered> {
    Seq::new(list.len(), |i: int| ((i + 1) as u32, list[i].doc_title, list[i].window.text))
}

/// The citations of the passages of `list`, numbered from one.
pub fn cite(list: &Vec<Candidate>) -> (r: Vec<Citation>)
    ensures
        sources(r@) == citations_of(found(list@)),
{
    let mut out: Vec<Citation> = Vec::new();
    let mut i: usize = 0;
    while i < list.len()
        invariant
            i <= list@.len(),
            out@.len() == i,
            forall|k: int| 0 <= k < i ==> (#[trigger] out@[k])@ == citation_of(found(list@), k),
        decreases list@.len() - i,
    {
        let c = &list[i];
        out.push(
            Citation {
                index: (i + 1) as u32,
                doc_id: c.doc_id.clone(),
                doc_title: c.doc_title.clone(),
                chunk_start: c.chunk.start,
                chunk_end: c.chunk.end,
            },
        );
        i += 1;
    }
    assert(sources(out@) == citations_of(found(list@)));
    out
}

/// What a language model is asked.
#[derive(Debug, Clone, PartialEq)]
pub struct ChatRequest {
    pub system_prompt: String,
    pub messages: Vec<ServiceMessage>,
    pub max_tokens: u32,
}

/// What a request holds.
pub struct Request {
    pub system_prompt: Seq<char>,
    pub messages: Seq<Utterance>,
    pub max_tokens: u32,
}

impl View for ChatRequest {
    type V = Request;

    open spec fn view(&self) -> Request {
        Request {
            system_prompt: self.system_prompt@,
            messages: utterances(self.messages@),
            max_tokens: self.max_tokens,
        }
    }
}

/// How long an answer may be, in tokens.
pub const ANSWER_TOKENS: u32 = 4096;

/// What the language model knows an author as.
pub open spec fn role_name(role: ChatRole) -> Seq<char> {
    match role {
        ChatRole::User => "user"@,
        ChatRole::Assistant => "assistant"@,
    }
}

/// A message of the conversation as the language model gets it.
pub open spec fn retold(m: Message) -> Utterance {
    Utterance { role: role_name(m.role), content: m.content }
}

/// What the language model is asked: the earlier messages, then the question together with the
/// passages found for it.
pub open spec fn request_for(
    system: Seq<char>,
    history: Seq<Message>,
    list: Seq<Passage>,
    query: Seq<char>,
) -> Request {
    Request {
        system_prompt: system,
        messages: history.map_values(|m: Message| retold(m)).push(
            Utterance { role: "user"@, content: rag_prompt(numbered(list), query) },
        ),
        max_tokens: ANSWER_TOKENS,
    }
}

fn retell(m: &ChatMessage) -> (r: ServiceMessage)
    ensures
        r@ == retold(m@),
{
    let role = match m.role {
        ChatRole::User => "user".to_string(),
        ChatRole::Assistant => "assistant".to_string(),
    };
    ServiceMessage { role, content: m.content.clone() }
}

fn prompt_for(system: &str, list: &Vec<Candidate>, query: &str) -> (r: String)
    ensures
        r@ == rag_prompt(numbered(found(list@)), query@),
{
    let mut docs: Vec<(u32, &str, &str)> = Vec::new();
    let mut i: usize = 0;
    while i < list.len()
        invariant
            i <= list@.len(),
            docs@.len() == i,
            forall|k: int|
                0 <= k < i ==> (#[trigger] docs@[k]).0 == (k + 1) as u32 && docs@[k].1@
                    == list@[k]@.doc_title && docs@[k].2@ == list@[k]@.window.text,
        decreases list@.len() - i,
    {
        docs.push(((i + 1) as u32, list[i].doc_title.as_str(), list[i].chunk.text.as_str()));
        i += 1;
    }
    assert(passages(docs@) == numbered(found(list@)));
    build_rag_prompt(system, docs.as_slice(), query)
}

/// What the language model is asked, given what the user told about themselves, the earlier
/// messages, the passages found and the question.
pub fn build_request(
    profile: &UserProfile,
    history: &[ChatMessage],
    list: &Vec<Candidate>,
    query: &str,
) -> (r: ChatRequest)
    ensures
        r@ == request_for(
            system_prompt(profile@),
            conversation(history@),
            found(list@),
            query@,
        ),
{
    let system = build_system_prompt(profile);
    let mut messages: Vec<ServiceMessage> = Vec::new();
    let mut i: usize = 0;
    while i < history.len()
        invariant
            i <= history@.len(),
            messages@.len() == i,
            forall|k: int| 0 <= k < i ==> (#[trigger] messages@[k])@ == retold(history@[k]@),
        decreases history@.len() - i,
    {
        messages.push(retell(&history[i]));
        i += 1;
    }
    let content = prompt_for(system.as_str(), list, query);
    messages.push(ServiceMessage { role: "user".to_string(), content });
    assert(utterances(messages@) == request_for(
        system@,
        conversation(history@),
        found(list@),
        query@,
    ).messages);
    ChatRequest { system_prompt: system, messages, max_tokens: ANSWER_TOKENS }
}

/// What happens while the language model answers.
#[derive(Debug, PartialEq)]
pub enum TurnEvent {
    /// A piece of the answer came.
    Token { token: String, cumulative_index: u32 },
    /// The answer is complete.
    Done { input_tokens: Option<u64>, output_tokens: Option<u64> },
    /// The request or the answer failed.
    Failed { message: String },
    /// Nothing more comes, though the answer was not said to be complete.
    Ended,
}

/// What an event holds.
pub enum Happening {
    Token { token: Seq<char>, cumulative_index: u32 },
    Done { input_tokens: Option<u64>, output_tokens: Option<u64> },
    Failed { message: Seq<char> },
    Ended,
}

impl View for TurnEvent {
    type V = Happening;

    open spec fn view(&self) -> Happening {
        match *self {
            TurnEvent::Token { token, cumulative_index } => Happening::Token {
                token: token@,
                cumulative_index,
            },
            TurnEvent::Done { input_tokens, output_tokens } => Happening::Done {
                input_tokens,
                output_tokens,
            },
            TurnEvent::Failed { message } => Happening::Failed { message: message@ },
            TurnEvent::Ended => Happening::Ended,
        }
    }
}

/// What is to be done in a turn.
#[derive(Debug, PartialEq)]
pub enum TurnAction {
    /// Show a piece of the answer.
    Token { token: String, cumulative_index: u32 },
    /// Say that the answer is complete, and what it rests on.
    Complete {
        citations: Vec<Citation>,
        input_tokens: Option<u64>,
        output_tokens: Option<u64>,
    },
    /// Say that the turn failed.
    Fail { error: String },
    /// Offer questions to go on with.
    Suggest { suggestions: Vec<String> },
    /// Keep the assistant's message.
    Persist { content: String, cited: Option<Vec<Citation>> },
    /// End the turn.
    Finish { result: Result<(), String> },
}

/// What an action holds.
pub enum Step {
    Token { token: Seq<char>, cumulative_index: u32 },
    Complete {
        citations: Seq<Source>,
        input_tokens: Option<u64>,
        output_tokens: Option<u64>,
    },
    Fail { error: Seq<char> },
    Suggest { suggestions: Seq<Seq<char>> },
    Persist { content: Seq<char>, cited: Option<Seq<Source>> },
    Finish { result: Result<(), Seq<char>> },
}

/// What the result of a turn holds.
pub open spec fn result_view(r: Result<(), String>) -> Result<(), Seq<char>> {
    match r {
        Ok(_) => Ok(()),
        Err(e) => Err(e@),
    }
}

impl View for TurnAction {
    type V = Step;

    open spec fn view(&self) -> Step {
        match *self {
            TurnAction::Token { token, cumulative_index } => Step::Token {
                token: token@,
                cumulative_index,
            },
            TurnAction::Complete { citations, input_tokens, output_tokens } => Step::Complete {
                citations: sources(citations@),
                input_tokens,
                output_tokens,
            },
            TurnAction::Fail { error } => Step::Fail { error: error@ },
            TurnAction::Suggest { suggestions } => Step::Suggest {
                suggestions: texts(suggestions@),
            },
            TurnAction::Persist { content, cited } => Step::Persist {
                content: content@,
                cited: optional_sources(cited),
            },
            TurnAction::Finish { result } => Step::Finish { result: result_view(result) },
        }
    }
}

/// What a list of actions holds.
pub open spec fn steps(actions: Seq<TurnAction>) -> Seq<Step> {
    actions.map_values(|a: TurnAction| a@)
}

/// The turn that needs no language model: the canned answer is shown, said to be complete, and
/// kept.
pub open spec fn canned_steps() -> Seq<Step> {
    seq![
        Step::Token { token: NO_MATCH_ANSWER@, cumulative_index: 1 },
        Step::Complete { citations: Seq::empty(), input_tokens: None, output_tokens: None },
        Step::Persist { content: NO_MATCH_ANSWER@, cited: None },
        Step::Finish { result: Ok(()) },
    ]
}

/// What to do without asking the language model, where the best score is below the floor.
pub fn canned_turn(best_score: Score) -> (r: Option<Vec<TurnAction>>)
    ensures
        r is Some <==> best_score.less((Score { bits: FLOOR_BITS })),
        r matches Some(actions) ==> steps(actions@) == canned_steps(),
{
    match answer_or_canned(best_score) {
        Some(text) => {
            let none: Vec<Citation> = Vec::new();
            assert(sources(none@) == Seq::<Source>::empty());
            let mut actions: Vec<TurnAction> = Vec::new();
            actions.push(TurnAction::Token { token: text.to_string(), cumulative_index: 1 });
            actions.push(
                TurnAction::Complete { citations: none, input_tokens: None, output_tokens: None },
            );
            actions.push(TurnAction::Persist { content: text.to_string(), cited: None });
            actions.push(TurnAction::Finish { result: Ok(()) });
            assert(steps(actions@) == canned_steps());
            Some(actions)
        },
        None => None,
    }
}

/// The language model's answer to a question, as far as it has come.
#[derive(Debug)]
pub struct ChatTurn {
    pub query: String,
    pub citations: Vec<Citation>,
    pub content: String,
}

/// What is known of an answer: the question, the passages it may rest on, and what came so far.
pub struct Answer {
    pub query: Seq<char>,
    pub citations: Seq<Source>,
    pub content: Seq<char>,
}

impl View for ChatTurn {
    type V = Answer;

    open spec fn view(&self) -> Answer {
        Answer {
            query: self.query@,
            citations: sources(self.citations@),
            content: self.content@,
        }
    }
}

/// How a turn begins.
#[derive(Debug)]
pub enum Opening {
    /// No language model is asked; this is all there is to do.
    Canned { actions: Vec<TurnAction> },
    /// The language model is asked, and the turn waits for its answer.
    Asked { request: ChatRequest, turn: ChatTurn },
}

/// What the beginning of a turn holds.
pub enum Opened {
    Canned { actions: Seq<Step> },
    Asked { request: Request, turn: Answer },
}

impl View for Opening {
    type V = Opened;

    open spec fn view(&self) -> Opened {
        match *self {
            Opening::Canned { actions } => Opened::Canned { actions: steps(actions@) },
            Opening::Asked { request, turn } => Opened::Asked { request: request@, turn: turn@ },
        }
    }
}

/// How a turn begins, given the passages found for the question: where the best of them is below
/// the floor, the canned turn is all there is; else the language model is asked the question with
/// the passages, no more than three of any document, and the answer will cite the same.
pub open spec fn opened(
    profile: Profile,
    history: Seq<Message>,
    list: Seq<Passage>,
    query: Seq<char>,
) -> Opened {
    if top_score(list).less((Score { bits: FLOOR_BITS })) {
        Opened::Canned { actions: canned_steps() }
    } else {
        Opened::Asked {
            request: request_for(system_prompt(profile), history, capped(list), query),
            turn: Answer { query, citations: citations_of(capped(list)), content: Seq::empty() },
        }
    }
}

/// Begins a turn, given the passages found for the question.
pub fn open_turn(
    profile: &UserProfile,
    history: &[ChatMessage],
    list: Vec<Candidate>,
    query: String,
) -> (r: Opening)
    ensures
        r@ == opened(profile@, conversation(history@), found(list@), query@),
{
    if let Some(actions) = canned_turn(best_score(&list)) {
        return Opening::Canned { actions };
    }
    let cited = cap_per_document(list);
    let request = build_request(profile, history, &cited, query.as_str());
    Opening::Asked { request, turn: ChatTurn::new(query, &cited) }
}

/// The offer of `suggestions`, where there are any.
pub open spec fn offer(suggestions: Seq<Seq<char>>) -> Seq<Step> {
    if suggestions.len() == 0 {
        Seq::empty()
    } else {
        seq![Step::Suggest { suggestions }]
    }
}

/// What is done when an answer is complete: that is said, the answer is kept with its citations,
/// and `suggestions` are offered.
pub open spec fn complete_steps(
    answer: Answer,
    input_tokens: Option<u64>,
    output_tokens: Option<u64>,
    suggestions: Seq<Seq<char>>,
) -> Seq<Step> {
    seq![
        Step::Complete { citations: answer.citations, input_tokens, output_tokens },
        Step::Persist { content: answer.content, cited: Some(answer.citations) },
    ] + offer(suggestions) + seq![Step::Finish { result: Ok(()) }]
}

/// What is done when a turn fails: that is said, and the error is kept in the place of an answer.
pub open spec fn failed_steps(message: Seq<char>) -> Seq<Step> {
    seq![
        Step::Fail { error: message },
        Step::Persist { content: message, cited: None },
        Step::Finish { result: Err(message) },
    ]
}

/// What is done when something happens, where `suggestions` are the questions to offer.
pub open spec fn response(
    answer: Answer,
    event: Happening,
    suggestions: Seq<Seq<char>>,
) -> Seq<Step> {
    match event {
        Happening::Token { token, cumulative_index } => seq![
            Step::Token { token, cumulative_index },
        ],
        Happening::Done { input_tokens, output_tokens } => complete_steps(
            answer,
            input_tokens,
            output_tokens,
            suggestions,
        ),
        Happening::Failed { message } => failed_steps(message),
        Happening::Ended => complete_steps(answer, None, None, suggestions),
    }
}

/// What is known of the answer once something has happened.
pub open spec fn answer_after(answer: Answer, event: Happening) -> Answer {
    match event {
        Happening::Token { token, .. } => Answer { content: answer.content + token, ..answer },
        _ => answer,
    }
}

/// The questions to offer once the question in lower case is `lower`.
pub open spec fn offered(answer: Answer, lower: Seq<char>) -> Seq<Seq<char>> {
    suggested(lower, titles_of(answer.citations))
}

impl ChatTurn {
    /// The turn in which `query` is answered from the passages of `list`.
    pub fn new(query: String, list: &Vec<Candidate>) -> (r: ChatTurn)
        ensures
            r@ == (Answer {
                query: query@,
                citations: citations_of(found(list@)),
                content: Seq::empty(),
            }),
    {
        let content = String::new();
        assert(content@ == Seq::<char>::empty());
        ChatTurn { query, citations: cite(list), content }
    }

    fn complete(
        &self,
        input_tokens: Option<u64>,
        output_tokens: Option<u64>,
        suggestions: Vec<String>,
    ) -> (r: Vec<TurnAction>)
        ensures
            steps(r@) == complete_steps(self@, input_tokens, output_tokens, texts(suggestions@)),
    {
        let mut actions: Vec<TurnAction> = Vec::new();
        actions.push(
            TurnAction::Complete {
                citations: copied_citations(&self.citations),
                input_tokens,
                output_tokens,
            },
        );
        actions.push(
            TurnAction::Persist {
                content: self.content.clone(),
                cited: Some(copied_citations(&self.citations)),
            },
        );
        if suggestions.len() > 0 {
            actions.push(TurnAction::Suggest { suggestions });
        }
        actions.push(TurnAction::Finish { result: Ok(()) });
        assert(steps(actions@) == complete_steps(
            self@,
            input_tokens,
            output_tokens,
            texts(suggestions@),
        ));
        actions
    }

    /// What to do now that `event` has happened, where `suggestions` are the questions to offer.
    pub fn respond(&mut self, event: TurnEvent, suggestions: Vec<String>) -> (r: Vec<TurnAction>)
        ensures
            steps(r@) == response(old(self)@, event@, texts(suggestions@)),
            final(self)@ == answer_after(old(self)@, event@),
    {
        match event {
            TurnEvent::Token { token, cumulative_index } => {
                self.content.append(token.as_str());
                let mut actions: Vec<TurnAction> = Vec::new();
                actions.push(TurnAction::Token { token, cumulative_index });
                assert(steps(actions@) == response(old(self)@, event@, texts(suggestions@)));
                actions
            },
            TurnEvent::Done { input_tokens, output_tokens } => {
                self.complete(input_tokens, output_tokens, suggestions)
            },
            TurnEvent::Failed { message } => {
                let mut actions: Vec<TurnAction> = Vec::new();
                actions.push(TurnAction::Fail { error: message.clone() });
                actions.push(TurnAction::Persist { content: message.clone(), cited: None });
                actions.push(TurnAction::Finish { result: Err(message) });
                assert(steps(actions@) == failed_steps(message@));
                actions
            },
            TurnEvent::Ended => self.complete(None, None, suggestions),
        }
    }

    /// What to do now that `event` has happened.
    pub fn step(&mut self, event: TurnEvent) -> (r: Vec<TurnAction>)
        ensures
            steps(r@) == response(
                old(self)@,
                event@,
                offered(old(self)@, lowercase(old(self)@.query)),
            ),
            final(self)@ == answer_after(old(self)@, event@),
    {
        let suggestions = match event {
            TurnEvent::Done { .. } | TurnEvent::Ended => ChatEngine::generate_suggestions(
                self.query.as_str(),
                self.citations.as_slice(),
            ),
            _ => Vec::new(),
        };
        self.respond(event, suggestions)
    }
}

/// The assistant's message, as it is kept.
pub fn assistant_message(
    id: &str,
    content: String,
    citations: Option<Vec<Citation>>,
    now: String,
) -> (r: ChatMessage)
    ensures
        r@ == (Message {
            id: id@,
            role: ChatRole::Assistant,
            content: content@,
            citations: optional_sources(citations),
            created_at: now@,
        }),
        r.id@ == id@,
        r.role == ChatRole::Assistant,
        r.content@ == content@,
        r.citations == citations,
        r.created_at@ == now@,
{
    ChatMessage {
        id: id.to_string(),
        role: ChatRole::Assistant,
        content,
        citations,
        created_at: now,
    }
}

} // verus!
