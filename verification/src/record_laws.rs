//! What the contracts say of a record is what its fields hold.
use vstd::prelude::*;
use crate::chat::chunk::Chunk;
use crate::chat::rank::Candidate;
use crate::chat::retrieval::{optional_record, optional_set, Document};
use crate::chat::turn::{ChatRequest, ChatTurn, Opened, Opening, Step, TurnAction};
use crate::table::TextSet;
use crate::text::{optional_text, texts};
use crate::types::{
    AIServiceResponse, CanonicalEntity, ChatMessage, Citation, FamilyMember, QuizFeedbackEntry,
    QuizQuestion, ServiceMessage, UserProfile,
};

verus! {

/// What is said of a profile is said of all that the user told, one for one and in its order.
pub proof fn profiles_show_what_they_hold(p: UserProfile, f: FamilyMember, i: int)
    ensures
        p@.display_name == p.display_name@,
        p@.aliases.len() == p.aliases@.len(),
        0 <= i < p.aliases@.len() ==> p@.aliases[i] == p.aliases@[i]@,
        p@.family_members.len() == p.family_members@.len(),
        0 <= i < p.family_members@.len() ==> p@.family_members[i].name
            == p.family_members@[i].name@ && p@.family_members[i].relation
            == p.family_members@[i].relation@,
        p@.countries.len() == p.countries@.len(),
        0 <= i < p.countries@.len() ==> p@.countries[i] == p.countries@[i]@,
        p@.currencies.len() == p.currencies@.len(),
        0 <= i < p.currencies@.len() ==> p@.currencies[i] == p.currencies@[i]@,
        f@.name == f.name@,
        f@.relation == f.relation@,
{
}

/// What is said of a message is said of all that it holds, its citations one for one.
pub proof fn messages_show_what_they_hold(m: ChatMessage, c: Citation, u: ServiceMessage, i: int)
    ensures
        m@.id == m.id@,
        m@.role == m.role,
        m@.content == m.content@,
        m@.created_at == m.created_at@,
        m@.citations is Some <==> m.citations is Some,
        m.citations matches Some(list) ==> m@.citations->Some_0.len() == list@.len() && (0 <= i
            < list@.len() ==> m@.citations->Some_0[i] == list@[i]@),
        c@.index == c.index,
        c@.doc_id == c.doc_id@,
        c@.doc_title == c.doc_title@,
        c@.chunk_start == c.chunk_start,
        c@.chunk_end == c.chunk_end,
        u@.role == u.role@,
        u@.content == u.content@,
{
}

/// What is said of a passage is said of all that it holds.
pub proof fn passages_show_what_they_hold(c: Candidate, k: Chunk)
    ensures
        c@.doc_id == c.doc_id@,
        c@.doc_title == c.doc_title@,
        c@.score == c.score,
        c@.window == c.chunk@,
        k@.text == k.text@,
        k@.start == k.start,
        k@.end == k.end,
{
}

/// What is said of a document is said of all that is known of it.
pub proof fn documents_show_what_they_hold(d: Document)
    ensures
        d@.title == d.title@,
        d@.path == d.path@,
        d@.excerpt is Some <==> d.excerpt is Some,
        d.excerpt matches Some(text) ==> d@.excerpt == Some(text@),
{
}

/// What is said of a question, of an answer that is kept, or of an entity is said of all that it
/// holds.
pub proof fn questions_show_what_they_hold(
    q: QuizQuestion,
    e: QuizFeedbackEntry,
    c: CanonicalEntity,
    i: int,
)
    ensures
        q@.id == q.id@,
        q@.kind == q.kind@,
        q@.entity_type == q.entity_type@,
        q@.entity_id_a == q.entity_id_a@,
        q@.name_a == q.name_a@,
        q@.entity_id_b == q.entity_id_b@,
        q@.name_b == q.name_b@,
        q@.similarity == q.similarity,
        e@.question_id == e.question_id@,
        e@.kind == e.kind@,
        e@.entity_id_a == e.entity_id_a@,
        e@.entity_id_b == e.entity_id_b@,
        e@.confirmed == e.confirmed,
        e@.answered_at == e.answered_at@,
        c@.id == c.id@,
        c@.canonical_name == c.canonical_name@,
        c@.entity_type == c.entity_type@,
        c@.aliases.len() == c.aliases@.len(),
        0 <= i < c.aliases@.len() ==> c@.aliases[i] == c.aliases@[i]@,
{
}

/// What is said of a request, of a reply or of the answer so far is said of all that it holds.
pub proof fn requests_show_what_they_hold(
    r: ChatRequest,
    a: AIServiceResponse,
    t: ChatTurn,
    i: int,
)
    ensures
        r@.system_prompt == r.system_prompt@,
        r@.max_tokens == r.max_tokens,
        r@.messages.len() == r.messages@.len(),
        0 <= i < r.messages@.len() ==> r@.messages[i] == r.messages@[i]@,
        a@.content == a.content@,
        a@.model == a.model@,
        a@.input_tokens == a.input_tokens,
        a@.output_tokens == a.output_tokens,
        t@.query == t.query@,
        t@.content == t.content@,
        t@.citations.len() == t.citations@.len(),
        0 <= i < t.citations@.len() ==> t@.citations[i] == t.citations@[i]@,
{
}

/// What is said of an action or of the beginning of a turn is said of all that it holds.
pub proof fn actions_show_what_they_hold(a: TurnAction, o: Opening, i: int)
    ensures
        match a {
            TurnAction::Token { token, cumulative_index } => a@ == (Step::Token {
                token: token@,
                cumulative_index,
            }),
            TurnAction::Complete { citations, input_tokens, output_tokens } => {
                &&& a@ matches Step::Complete { citations: c, input_tokens: x, output_tokens: y }
                &&& x == input_tokens && y == output_tokens && c.len() == citations@.len()
                &&& 0 <= i < c.len() ==> c[i] == citations@[i]@
            },
            TurnAction::Fail { error } => a@ == (Step::Fail { error: error@ }),
            TurnAction::Suggest { suggestions } => a@ matches Step::Suggest { suggestions: s }
                && s.len() == suggestions@.len() && (0 <= i < s.len() ==> s[i]
                == suggestions@[i]@),
            TurnAction::Persist { content, cited } => {
                &&& a@ matches Step::Persist { content: s, cited: c }
                &&& s == content@ && (c is Some <==> cited is Some)
                &&& cited matches Some(list) ==> c->Some_0.len() == list@.len() && (0 <= i
                    < list@.len() ==> c->Some_0[i] == list@[i]@)
            },
            TurnAction::Finish { result } => a@ matches Step::Finish { result: r } && (r is Ok
                <==> result is Ok) && (result matches Err(e) ==> r->Err_0 == e@),
        },
        match o {
            Opening::Canned { actions } => o@ matches Opened::Canned { actions: list }
                && list.len() == actions@.len() && (0 <= i < list.len() ==> list[i]
                == actions@[i]@),
            Opening::Asked { request, turn } => o@ == (Opened::Asked {
                request: request@,
                turn: turn@,
            }),
        },
{
}

/// What may be missing is missing in what is said of it, and only then.
pub proof fn what_may_be_missing_shows(
    s: Option<String>,
    set: Option<TextSet>,
    d: Option<Document>,
    list: Seq<String>,
    i: int,
)
    ensures
        s is None <==> optional_text(s) is None,
        s matches Some(text) ==> optional_text(s) == Some(text@),
        set is None <==> optional_set(set) is None,
        set matches Some(x) ==> optional_set(set) == Some(x@),
        d is None <==> optional_record(d) is None,
        d matches Some(x) ==> optional_record(d) == Some(x@),
        texts(list).len() == list.len(),
        0 <= i < list.len() ==> texts(list)[i] == list[i]@,
{
}

} // verus!
