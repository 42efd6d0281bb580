//! What the language model is asked in a turn, and what is done with its answer, step by step.
use vstd::prelude::*;
use crate::chat::laws::three_passages_per_document;
use crate::chat::prompt::{rag_prompt, system_prompt};
use crate::chat::prompt_laws::{
    the_message_gives_every_passage, the_prompt_gives_the_aliases, the_prompt_gives_the_countries,
    the_prompt_gives_the_currencies, the_prompt_gives_the_family, the_prompt_gives_the_name,
};
use crate::chat::rank::{top_score, Passage};
use crate::chat::suggest::suggested;
use crate::chat::turn::{
    answer_after, canned_steps, capped, count_of, numbered, offered, opened, recent, request_for,
    response, Answer, Happening, Opened, Step,
};
use crate::score::Score;
use crate::text::{decimal, occurs, trimmed};
use crate::types::{ChatRole, Message, Profile, Source};

verus! {

/// Whatever the user told about themselves stands in the system prompt of what the language model
/// is asked: the name, each other name, each family member with the relation, each country and each
/// currency.
pub proof fn the_model_is_told_what_the_user_told(
    profile: Profile,
    history: Seq<Message>,
    list: Seq<Passage>,
    query: Seq<char>,
    i: int,
)
    ensures
        opened(profile, history, list, query) matches Opened::Asked { request, turn } ==> {
            &&& request.system_prompt == system_prompt(profile)
            &&& trimmed(profile.display_name).len() > 0 ==> occurs(
                request.system_prompt,
                "\n- The user's name is "@ + trimmed(profile.display_name) + "."@,
            )
            &&& 0 <= i < profile.aliases.len() ==> occurs(
                request.system_prompt,
                profile.aliases[i],
            )
            &&& 0 <= i < profile.family_members.len() ==> occurs(
                request.system_prompt,
                profile.family_members[i].name + " ("@ + profile.family_members[i].relation + ")"@,
            )
            &&& 0 <= i < profile.countries.len() ==> occurs(
                request.system_prompt,
                profile.countries[i],
            )
            &&& 0 <= i < profile.currencies.len() ==> occurs(
                request.system_prompt,
                profile.currencies[i],
            )
        },
{
    if trimmed(profile.display_name).len() > 0 {
        the_prompt_gives_the_name(profile);
    }
    if 0 <= i < profile.aliases.len() {
        the_prompt_gives_the_aliases(profile, i);
    }
    if 0 <= i < profile.family_members.len() {
        the_prompt_gives_the_family(profile, i);
    }
    if 0 <= i < profile.countries.len() {
        the_prompt_gives_the_countries(profile, i);
    }
    if 0 <= i < profile.currencies.len() {
        the_prompt_gives_the_currencies(profile, i);
    }
}

/// The language model is asked unless the best score is below `0.20`. It gets the earlier messages,
/// each under the name of its author and with its own words, and last, from the user, the question
/// behind the passages; the answer may take 4096 tokens.
pub proof fn the_model_is_asked_the_conversation(
    profile: Profile,
    history: Seq<Message>,
    list: Seq<Passage>,
    query: Seq<char>,
    i: int,
)
    ensures
        opened(profile, history, list, query) is Canned <==> top_score(list).less(
            (Score { bits: 0x3e4c_cccd }),
        ),
        opened(profile, history, list, query) matches Opened::Asked { request, turn } ==> {
            &&& request == request_for(system_prompt(profile), history, capped(list), query)
            &&& request.max_tokens == 4096
            &&& request.messages.len() == history.len() + 1
            &&& request.messages[history.len() as int].role == "user"@
            &&& request.messages[history.len() as int].content == rag_prompt(
                numbered(capped(list)),
                query,
            )
            &&& 0 <= i < history.len() ==> {
                &&& request.messages[i].content == history[i].content
                &&& history[i].role == ChatRole::User ==> request.messages[i].role == "user"@
                &&& history[i].role == ChatRole::Assistant ==> request.messages[i].role
                    == "assistant"@
            }
            &&& turn.query == query
            &&& turn.content.len() == 0
        },
{
}

/// Each passage that the answer will cite stands in the last message, in a line with the number and
/// the title that the citation has; the citations are of the passages found, none is added.
pub proof fn what_is_cited_was_shown(
    profile: Profile,
    history: Seq<Message>,
    list: Seq<Passage>,
    query: Seq<char>,
    i: int,
)
    requires
        0 <= i < capped(list).len() < u32::MAX,
    ensures
        opened(profile, history, list, query) matches Opened::Asked { request, turn } ==> {
            &&& turn.citations.len() == capped(list).len()
            &&& turn.citations[i].index == i + 1
            &&& turn.citations[i].doc_id == capped(list)[i].doc_id
            &&& turn.citations[i].doc_title == capped(list)[i].doc_title
            &&& turn.citations[i].chunk_start == capped(list)[i].window.start
            &&& turn.citations[i].chunk_end == capped(list)[i].window.end
            &&& occurs(
                request.messages.last().content,
                "["@ + decimal((i + 1) as nat) + "] "@ + capped(list)[i].doc_title + ": "@
                    + capped(list)[i].window.text + "\n"@,
            )
            &&& ("Question: "@ + query).is_suffix_of(request.messages.last().content)
        },
{
    the_message_gives_every_passage(numbered(capped(list)), query, i);
}

/// One more passage is cited exactly where fewer than three of its document were found before it;
/// what was cited before stays as it is.
pub proof fn a_fourth_passage_is_left_out(list: Seq<Passage>, p: Passage)
    ensures
        count_of(list, p.doc_id) < 3 ==> capped(list.push(p)) == capped(list).push(p),
        count_of(list, p.doc_id) >= 3 ==> capped(list.push(p)) == capped(list),
        capped(Seq::empty()).len() == 0,
{
    assert(list.push(p).drop_last() == list);
    three_passages_per_document(list, p.doc_id);
}

/// The passages of a document are counted one by one.
pub proof fn passages_count_one_each(list: Seq<Passage>, p: Passage, id: Seq<char>)
    ensures
        count_of(Seq::empty(), id) == 0,
        p.doc_id == id ==> count_of(list.push(p), id) == count_of(list, id) + 1,
        p.doc_id != id ==> count_of(list.push(p), id) == count_of(list, id),
{
    assert(list.push(p).drop_last() == list);
}

/// Of the messages before the question the last six count, or all where there are fewer; the
/// question, which is the last message, does not, and nothing else changes what counts.
pub proof fn the_last_six_messages_count(messages: Seq<Message>, question: Message, k: int)
    ensures
        recent(Seq::empty()).len() == 0,
        messages.len() <= 6 ==> recent(messages.push(question)) == messages,
        messages.len() > 6 ==> recent(messages.push(question)).len() == 6,
        messages.len() > 6 && 0 <= k < 6 ==> recent(messages.push(question))[k]
            == messages[messages.len() - 6 + k],
{
}

/// A turn without the language model shows one sentence, says that it is complete with nothing
/// cited, keeps the same sentence, and ends well.
pub proof fn the_canned_turn_says_so()
    ensures
        canned_steps().len() == 4,
        canned_steps()[0] == (Step::Token {
            token: "I couldn't find anything relevant in your library."@,
            cumulative_index: 1,
        }),
        canned_steps()[1] matches Step::Complete { citations, input_tokens, output_tokens }
            && citations.len() == 0 && input_tokens is None && output_tokens is None,
        canned_steps()[2] == (Step::Persist {
            content: "I couldn't find anything relevant in your library."@,
            cited: None,
        }),
        canned_steps()[3] == (Step::Finish { result: Ok(()) }),
{
}

/// A completed answer is announced with the citations of the turn and the tokens that were
/// reported; an answer that just ends is announced without tokens. It is kept with its citations,
/// the questions to go on with are offered where there are any, and the turn ends well.
pub proof fn a_completed_answer_is_announced(
    answer: Answer,
    event: Happening,
    suggestions: Seq<Seq<char>>,
)
    requires
        event is Done || event is Ended,
    ensures
        ({
            let list = response(answer, event, suggestions);
            &&& list[0] matches Step::Complete { citations, input_tokens, output_tokens }
            &&& citations == answer.citations
            &&& event is Ended ==> input_tokens is None && output_tokens is None
            &&& event matches Happening::Done { input_tokens: i, output_tokens: o } ==> input_tokens
                == i && output_tokens == o
            &&& list[1] == (Step::Persist {
                content: answer.content,
                cited: Some(answer.citations),
            })
            &&& suggestions.len() == 0 ==> list.len() == 3
            &&& suggestions.len() > 0 ==> list.len() == 4 && list[2] == (Step::Suggest {
                suggestions,
            })
            &&& list.last() == (Step::Finish { result: Ok(()) })
        }),
{
}

/// A failure is shown, kept in the place of an answer without citations, and ends the turn with
/// the same message; nothing else is done.
pub proof fn a_failure_is_shown_and_kept(
    answer: Answer,
    message: Seq<char>,
    suggestions: Seq<Seq<char>>,
)
    ensures
        ({
            let list = response(answer, Happening::Failed { message }, suggestions);
            &&& list.len() == 3
            &&& list[0] == (Step::Fail { error: message })
            &&& list[1] == (Step::Persist { content: message, cited: None })
            &&& list[2] == (Step::Finish { result: Err(message) })
        }),
{
}

/// A piece of the answer is shown as it came and put behind what came before; no other event
/// changes the answer, and none changes the question or the citations.
pub proof fn pieces_are_shown_and_added(
    answer: Answer,
    event: Happening,
    suggestions: Seq<Seq<char>>,
)
    ensures
        event matches Happening::Token { token, cumulative_index } ==> {
            &&& response(answer, event, suggestions).len() == 1
            &&& response(answer, event, suggestions)[0] == (Step::Token {
                token,
                cumulative_index,
            })
            &&& answer_after(answer, event).content == answer.content + token
        },
        !(event is Token) ==> answer_after(answer, event).content == answer.content,
        answer_after(answer, event).query == answer.query,
        answer_after(answer, event).citations == answer.citations,
{
}

/// What is offered goes by the titles of the documents that the answer cites.
pub proof fn offers_go_by_the_cited_titles(answer: Answer, lower: Seq<char>)
    ensures
        offered(answer, lower) == suggested(
            lower,
            Seq::new(answer.citations.len(), |i: int| answer.citations[i].doc_title),
        ),
{
    assert(Seq::new(answer.citations.len(), |i: int| answer.citations[i].doc_title)
        == answer.citations.map_values(|s: Source| s.doc_title));
}

} // verus!
