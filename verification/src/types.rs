//! The records that the parts of the program hand to each other.
use vstd::prelude::*;
use crate::score::Score;
use crate::text::texts;

verus! {

/// A relative of the user, and how they are related.
#[derive(Debug, Clone, PartialEq)]
pub struct FamilyMember {
    pub name: String,
    pub relation: String,
}

/// What the user told about themselves. All of it may be empty.
#[derive(Debug, Clone, PartialEq)]
pub struct UserProfile {
    pub display_name: String,
    pub aliases: Vec<String>,
    pub family_members: Vec<FamilyMember>,
    pub countries: Vec<String>,
    pub currencies: Vec<String>,
}

/// What a family member's record holds.
pub struct Relative {
    pub name: Seq<char>,
    pub relation: Seq<char>,
}

impl View for FamilyMember {
    type V = Relative;

    open spec fn view(&self) -> Relative {
        Relative { name: self.name@, relation: self.relation@ }
    }
}

/// What a profile holds.
pub struct Profile {
    pub display_name: Seq<char>,
    pub aliases: Seq<Seq<char>>,
    pub family_members: Seq<Relative>,
    pub countries: Seq<Seq<char>>,
    pub currencies: Seq<Seq<char>>,
}

impl View for UserProfile {
    type V = Profile;

    open spec fn view(&self) -> Profile {
        Profile {
            display_name: self.display_name@,
            aliases: texts(self.aliases@),
            family_members: self.family_members@.map_values(|f: FamilyMember| f@),
            countries: texts(self.countries@),
            currencies: texts(self.currencies@),
        }
    }
}

/// The profile of a user who told nothing.
pub open spec fn empty_profile() -> Profile {
    Profile {
        display_name: Seq::empty(),
        aliases: Seq::empty(),
        family_members: Seq::empty(),
        countries: Seq::empty(),
        currencies: Seq::empty(),
    }
}

impl Default for UserProfile {
    fn default() -> (r: UserProfile)
        ensures
            r@ == empty_profile(),
            r.display_name@.len() == 0,
            r.aliases@.len() == 0,
            r.family_members@.len() == 0,
            r.countries@.len() == 0,
            r.currencies@.len() == 0,
    {
        let r = UserProfile {
            display_name: String::new(),
            aliases: Vec::new(),
            family_members: Vec::new(),
            countries: Vec::new(),
            currencies: Vec::new(),
        };
        assert(r@.aliases == empty_profile().aliases);
        assert(r@.family_members == empty_profile().family_members);
        r
    }
}

/// A passage that an answer refers to, by its number in the prompt.
#[derive(Debug, Clone, PartialEq)]
pub struct Citation {
    pub index: u32,
    pub doc_id: String,
    pub doc_title: String,
    pub chunk_start: u32,
    pub chunk_end: u32,
}

/// What a citation holds.
pub struct Source {
    pub index: u32,
    pub doc_id: Seq<char>,
    pub doc_title: Seq<char>,
    pub chunk_start: u32,
    pub chunk_end: u32,
}

impl View for Citation {
    type V = Source;

    open spec fn view(&self) -> Source {
        Source {
            index: self.index,
            doc_id: self.doc_id@,
            doc_title: self.doc_title@,
            chunk_start: self.chunk_start,
            chunk_end: self.chunk_end,
        }
    }
}

/// What a list of citations holds.
pub open spec fn sources(citations: Seq<Citation>) -> Seq<Source> {
    citations.map_values(|c: Citation| c@)
}

/// The document titles that a list of sources names.
pub open spec fn titles_of(sources: Seq<Source>) -> Seq<Seq<char>> {
    sources.map_values(|s: Source| s.doc_title)
}

impl Citation {
    /// Another citation that holds the same.
    pub fn copied(&self) -> (r: Citation)
        ensures
            r@ == self@,
            r.index == self.index,
            r.doc_id@ == self.doc_id@,
            r.doc_title@ == self.doc_title@,
            r.chunk_start == self.chunk_start,
            r.chunk_end == self.chunk_end,
    {
        Citation {
            index: self.index,
            doc_id: self.doc_id.clone(),
            doc_title: self.doc_title.clone(),
            chunk_start: self.chunk_start,
            chunk_end: self.chunk_end,
        }
    }
}

/// Another list of citations that holds the same.
pub fn copied_citations(list: &Vec<Citation>) -> (r: Vec<Citation>)
    ensures
        sources(r@) == sources(list@),
        r@.len() == list@.len(),
        forall|k: int| 0 <= k < r@.len() ==> (#[trigger] r@[k])@ == list@[k]@,
{
    let mut out: Vec<Citation> = Vec::new();
    let mut i: usize = 0;
    while i < list.len()
        invariant
            i <= list@.len(),
            out@.len() == i,
            forall|k: int| 0 <= k < i ==> (#[trigger] out@[k])@ == list@[k]@,
        decreases list@.len() - i,
    {
        out.push(list[i].copied());
        i += 1;
    }
    assert(sources(out@) == sources(list@));
    out
}

/// Who wrote a message.
#[derive(Debug, Clone, Copy, PartialEq, Eq, Structural)]
pub enum ChatRole {
    User,
    Assistant,
}

/// A message of a conversation.
#[derive(Debug, Clone, PartialEq)]
pub struct ChatMessage {
    pub id: String,
    pub role: ChatRole,
    pub content: String,
    pub citations: Option<Vec<Citation>>,
    pub created_at: String,
}

/// What a message of a conversation holds.
pub struct Message {
    pub id: Seq<char>,
    pub role: ChatRole,
    pub content: Seq<char>,
    pub citations: Option<Seq<Source>>,
    pub created_at: Seq<char>,
}

/// What an optional list of citations holds.
pub open spec fn optional_sources(citations: Option<Vec<Citation>>) -> Option<Seq<Source>> {
    match citations {
        Some(list) => Some(sources(list@)),
        None => None,
    }
}

impl View for ChatMessage {
    type V = Message;

    open spec fn view(&self) -> Message {
        Message {
            id: self.id@,
            role: self.role,
            content: self.content@,
            citations: optional_sources(self.citations),
            created_at: self.created_at@,
        }
    }
}

impl ChatMessage {
    /// Another message that holds the same.
    pub fn copied(&self) -> (r: ChatMessage)
        ensures
            r@ == self@,
            r.id@ == self.id@,
            r.role == self.role,
            r.content@ == self.content@,
            r.citations is Some <==> self.citations is Some,
            r.created_at@ == self.created_at@,
    {
        let citations = match &self.citations {
            Some(list) => Some(copied_citations(list)),
            None => None,
        };
        ChatMessage {
            id: self.id.clone(),
            role: self.role,
            content: self.content.clone(),
            citations,
            created_at: self.created_at.clone(),
        }
    }
}

/// What a conversation holds.
pub open spec fn conversation(messages: Seq<ChatMessage>) -> Seq<Message> {
    messages.map_values(|m: ChatMessage| m@)
}

/// A message as a language model gets it.
#[derive(Debug, Clone, PartialEq)]
pub struct ServiceMessage {
    pub role: String,
    pub content: String,
}

/// What a message to a language model holds.
pub struct Utterance {
    pub role: Seq<char>,
    pub content: Seq<char>,
}

impl View for ServiceMessage {
    type V = Utterance;

    open spec fn view(&self) -> Utterance {
        Utterance { role: self.role@, content: self.content@ }
    }
}

/// What a list of messages to a language model holds.
pub open spec fn utterances(messages: Seq<ServiceMessage>) -> Seq<Utterance> {
    messages.map_values(|m: ServiceMessage| m@)
}

/// What a language model answered, and the tokens it took.
#[derive(Debug, Clone, PartialEq)]
pub struct AIServiceResponse {
    pub content: String,
    pub model: String,
    pub input_tokens: Option<u64>,
    pub output_tokens: Option<u64>,
}

/// What a response holds.
pub struct Reply {
    pub content: Seq<char>,
    pub model: Seq<char>,
    pub input_tokens: Option<u64>,
    pub output_tokens: Option<u64>,
}

impl View for AIServiceResponse {
    type V = Reply;

    open spec fn view(&self) -> Reply {
        Reply {
            content: self.content@,
            model: self.model@,
            input_tokens: self.input_tokens,
            output_tokens: self.output_tokens,
        }
    }
}

/// A person, organization or other thing that documents mention, under the name chosen for it.
#[derive(Debug, Clone, PartialEq)]
pub struct CanonicalEntity {
    pub id: String,
    pub canonical_name: String,
    pub entity_type: String,
    pub aliases: Vec<String>,
    pub document_count: u32,
    pub canonical_short_name: Option<String>,
}

/// What an entity's record holds, as far as names and kinds go.
pub struct Entity {
    pub id: Seq<char>,
    pub canonical_name: Seq<char>,
    pub entity_type: Seq<char>,
    pub aliases: Seq<Seq<char>>,
}

impl View for CanonicalEntity {
    type V = Entity;

    open spec fn view(&self) -> Entity {
        Entity {
            id: self.id@,
            canonical_name: self.canonical_name@,
            entity_type: self.entity_type@,
            aliases: texts(self.aliases@),
        }
    }
}

/// A question whether two entities are the same.
#[derive(Debug, Clone, PartialEq)]
pub struct QuizQuestion {
    pub id: String,
    pub kind: String,
    pub entity_type: String,
    pub entity_id_a: String,
    pub name_a: String,
    pub entity_id_b: String,
    pub name_b: String,
    pub similarity: Score,
}

/// What a question holds.
pub struct Question {
    pub id: Seq<char>,
    pub kind: Seq<char>,
    pub entity_type: Seq<char>,
    pub entity_id_a: Seq<char>,
    pub name_a: Seq<char>,
    pub entity_id_b: Seq<char>,
    pub name_b: Seq<char>,
    pub similarity: Score,
}

impl View for QuizQuestion {
    type V = Question;

    open spec fn view(&self) -> Question {
        Question {
            id: self.id@,
            kind: self.kind@,
            entity_type: self.entity_type@,
            entity_id_a: self.entity_id_a@,
            name_a: self.name_a@,
            entity_id_b: self.entity_id_b@,
            name_b: self.name_b@,
            similarity: self.similarity,
        }
    }
}

/// What a list of questions holds.
pub open spec fn questions(list: Seq<QuizQuestion>) -> Seq<Question> {
    list.map_values(|q: QuizQuestion| q@)
}

/// The user's answer to a question.
#[derive(Debug, Clone, PartialEq)]
pub struct QuizAnswer {
    pub question_id: String,
    pub kind: String,
    pub entity_id_a: String,
    pub entity_id_b: String,
    pub confirmed: bool,
}

/// An answer, and when it was given.
#[derive(Debug, Clone, PartialEq)]
pub struct QuizFeedbackEntry {
    pub question_id: String,
    pub kind: String,
    pub entity_id_a: String,
    pub entity_id_b: String,
    pub confirmed: bool,
    pub answered_at: String,
}

/// What a feedback entry holds.
pub struct Feedback {
    pub question_id: Seq<char>,
    pub kind: Seq<char>,
    pub entity_id_a: Seq<char>,
    pub entity_id_b: Seq<char>,
    pub confirmed: bool,
    pub answered_at: Seq<char>,
}

impl View for QuizFeedbackEntry {
    type V = Feedback;

    open spec fn view(&self) -> Feedback {
        Feedback {
            question_id: self.question_id@,
            kind: self.kind@,
            entity_id_a: self.entity_id_a@,
            entity_id_b: self.entity_id_b@,
            confirmed: self.confirmed,
            answered_at: self.answered_at@,
        }
    }
}

/// What a list of feedback entries holds.
pub open spec fn feedback(entries: Seq<QuizFeedbackEntry>) -> Seq<Feedback> {
    entries.map_values(|e: QuizFeedbackEntry| e@)
}

} // verus!
