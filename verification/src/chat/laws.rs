//! What holds of every turn of a conversation.
use vstd::prelude::*;
use vstd::relations::injective_on;
use crate::chat::prompt::{rag_prompt, system_prompt};
use crate::chat::query::{
    any_named, last_answer, last_two, lower_names, mentioned, mentions_are_found, retrieval_query,
    user_turns,
};
use crate::chat::rank::{best, score_ranks, scores_of, the_best_descend, top_score, Passage};
use crate::chat::retrieval::{
    documents_of, gathered, lemma_gathered, listed_under, prepared, retrieved, DOCUMENTS_USED,
    PASSAGES_IN_ALL, PASSAGES_PER_DOCUMENT,
};
use crate::chat::turn::{
    answer_after, canned_steps, capped, citations_of, count_of, numbered, opened, recent,
    request_for, response, Answer, Happening, Opened, Step, CITED_PER_DOCUMENT, HISTORY_LENGTH,
};
use crate::order::{comes_first, order_exists, order_of};
use crate::score::{Score, FLOOR_BITS};
use crate::table::TextMap;
use crate::text::{joined, texts, trimmed};
use crate::types::{CanonicalEntity, Message, Profile, Utterance};

verus! {

/// Of every document the passages are cited that come first, three at most: all of them where
/// there are no more.
pub proof fn three_passages_per_document(list: Seq<Passage>, id: Seq<char>)
    ensures
        count_of(capped(list), id) == if count_of(list, id) < CITED_PER_DOCUMENT {
            count_of(list, id)
        } else {
            CITED_PER_DOCUMENT as nat
        },
        capped(list).len() <= list.len(),
    decreases list.len(),
{
    if list.len() > 0 {
        let before = capped(list.drop_last());
        let last = list.last();
        three_passages_per_document(list.drop_last(), id);
        three_passages_per_document(list.drop_last(), last.doc_id);
        assert(before.push(last).drop_last() == before);
    }
}

/// Nothing is cited that was not found.
pub proof fn cited_passages_were_found(list: Seq<Passage>, p: Passage)
    requires
        capped(list).contains(p),
    ensures
        list.contains(p),
    decreases list.len(),
{
    let before = capped(list.drop_last());
    let k = choose|k: int| 0 <= k < capped(list).len() && capped(list)[k] == p;
    if k < before.len() {
        assert(before[k] == p);
        cited_passages_were_found(list.drop_last(), p);
        let i = choose|i: int| 0 <= i < list.drop_last().len() && list.drop_last()[i] == p;
        assert(list[i] == p);
    } else {
        assert(list[list.len() - 1] == p);
    }
}

/// Where the language model is asked, there is something to cite: the best score reaches the floor
/// only where something was found, and the best of it is never left out.
pub proof fn answers_have_sources(list: Seq<Passage>)
    requires
        !top_score(list).less((Score { bits: FLOOR_BITS })),
    ensures
        list.len() > 0,
        capped(list).len() > 0,
        capped(list)[0] == list[0],
        citations_of(capped(list)).len() > 0,
{
    lemma_first_is_cited(list);
}

proof fn lemma_first_is_cited(list: Seq<Passage>)
    requires
        list.len() > 0,
    ensures
        capped(list).len() > 0,
        capped(list)[0] == list[0],
    decreases list.len(),
{
    if list.len() > 1 {
        lemma_first_is_cited(list.drop_last());
    } else {
        assert(capped(list.drop_last()) == Seq::<Passage>::empty());
    }
}

/// Whether the language model is asked goes by the best score alone: below the floor a turn is the
/// canned one, whatever was found, asked or told; at the floor and above, what is asked and what is
/// cited rest on the same passages, and the system prompt is the one for the user's own profile.
pub proof fn the_floor_decides(
    profile: Profile,
    history: Seq<Message>,
    list: Seq<Passage>,
    query: Seq<char>,
)
    ensures
        opened(profile, history, list, query) is Canned <==> top_score(list).less(
            (Score { bits: FLOOR_BITS }),
        ),
        opened(profile, history, list, query) matches Opened::Canned { actions } ==> actions
            == canned_steps(),
        opened(profile, history, list, query) matches Opened::Asked { request, turn } ==> {
            &&& request == request_for(system_prompt(profile), history, capped(list), query)
            &&& request.system_prompt == system_prompt(profile)
            &&& request.messages.last().content == rag_prompt(numbered(capped(list)), query)
            &&& turn.citations == citations_of(capped(list))
            &&& turn.citations.len() > 0
            &&& turn.content.len() == 0
            &&& turn.query == query
        },
{
    if !top_score(list).less((Score { bits: FLOOR_BITS })) {
        answers_have_sources(list);
    }
}

/// The number under which a passage stands in the prompt is that of its citation, which names the
/// same document and the span that the passage was cut from; the numbers count from one.
pub proof fn citations_match_the_prompt(list: Seq<Passage>, i: int)
    requires
        0 <= i < list.len() <= u32::MAX,
    ensures
        citations_of(list).len() == numbered(list).len() == list.len(),
        citations_of(list)[i].index == i + 1,
        numbered(list)[i].0 == citations_of(list)[i].index,
        numbered(list)[i].1 == citations_of(list)[i].doc_title,
        numbered(list)[i].2 == list[i].window.text,
        citations_of(list)[i].doc_id == list[i].doc_id,
        citations_of(list)[i].chunk_start == list[i].window.start,
        citations_of(list)[i].chunk_end == list[i].window.end,
{
}

/// A turn takes the messages before the question into account that come last, six at most, in
/// their order, and never the question itself.
pub proof fn history_is_what_came_before(messages: Seq<Message>, k: int)
    requires
        messages.len() > 0,
    ensures
        recent(messages).len() == if messages.len() - 1 < HISTORY_LENGTH {
            messages.len() - 1
        } else {
            HISTORY_LENGTH as int
        },
        0 <= k < recent(messages).len() ==> recent(messages)[k] == messages[messages.len() - 1
            - recent(messages).len() + k],
{
}

/// The language model is asked the question last, in one message with the passages; the earlier
/// messages come before it, one for one.
pub proof fn the_question_comes_last(
    system: Seq<char>,
    history: Seq<Message>,
    list: Seq<Passage>,
    query: Seq<char>,
    i: int,
)
    ensures
        ({
            let request = request_for(system, history, list, query);
            &&& request.system_prompt == system
            &&& request.messages.len() == history.len() + 1
            &&& request.messages.last() == (Utterance {
                role: "user"@,
                content: rag_prompt(numbered(list), query),
            })
            &&& 0 <= i < history.len() ==> request.messages[i].content == history[i].content
        }),
{
}

/// What is known of an answer once `events` have happened.
pub open spec fn answer_then(answer: Answer, events: Seq<Happening>) -> Answer
    decreases events.len(),
{
    if events.len() == 0 {
        answer
    } else {
        answer_after(answer_then(answer, events.drop_last()), events.last())
    }
}

/// The pieces of an answer that came, one after the other.
pub open spec fn spoken(events: Seq<Happening>) -> Seq<char>
    decreases events.len(),
{
    if events.len() == 0 {
        Seq::empty()
    } else {
        match events.last() {
            Happening::Token { token, .. } => spoken(events.drop_last()) + token,
            _ => spoken(events.drop_last()),
        }
    }
}

/// An answer is the pieces that came, in their order and none left out; the question and the
/// citations stay the same throughout.
pub proof fn answers_are_what_was_spoken(answer: Answer, events: Seq<Happening>)
    ensures
        answer_then(answer, events).content == answer.content + spoken(events),
        answer_then(answer, events).citations == answer.citations,
        answer_then(answer, events).query == answer.query,
    decreases events.len(),
{
    if events.len() > 0 {
        answers_are_what_was_spoken(answer, events.drop_last());
    }
    assert(answer_then(answer, events).content == answer.content + spoken(events));
}

/// Whether a step keeps a message.
pub open spec fn keeps(s: Step) -> bool {
    s is Persist
}

/// Whether a step ends the turn.
pub open spec fn ends(s: Step) -> bool {
    s is Finish
}

/// A turn goes on while pieces of the answer come, and each is shown as it comes. Any other event
/// ends the turn, in its last step and only there, after exactly one message is kept.
pub proof fn a_turn_ends_once(answer: Answer, event: Happening, suggestions: Seq<Seq<char>>)
    ensures
        event is Token ==> response(answer, event, suggestions) == seq![
            Step::Token { token: event->token, cumulative_index: event->cumulative_index },
        ],
        !(event is Token) ==> ({
            let list = response(answer, event, suggestions);
            &&& list.len() >= 3
            &&& keeps(list[1])
            &&& ends(list.last())
            &&& forall|i: int| 0 <= i < list.len() && i != 1 ==> !keeps(#[trigger] list[i])
            &&& forall|i: int| 0 <= i < list.len() - 1 ==> !ends(#[trigger] list[i])
        }),
{
}

/// When an answer is complete, or nothing more comes, all that was spoken is kept, with the
/// citations of the turn; when the turn fails, the error is kept, without any.
pub proof fn the_whole_answer_is_kept(
    answer: Answer,
    events: Seq<Happening>,
    event: Happening,
    suggestions: Seq<Seq<char>>,
)
    requires
        answer.content.len() == 0,
        !(event is Token),
    ensures
        response(answer_then(answer, events), event, suggestions)[1] == if event is Failed {
            Step::Persist { content: event->message, cited: None }
        } else {
            Step::Persist { content: spoken(events), cited: Some(answer.citations) }
        },
        response(answer_then(answer, events), event, suggestions).last() == (Step::Finish {
            result: if event is Failed {
                Err(event->message)
            } else {
                Ok(())
            },
        }),
{
    answers_are_what_was_spoken(answer, events);
    assert(answer.content + spoken(events) == spoken(events));
}

/// A question without a conversation before it is searched for as it stands, but for the white
/// space at its ends; and whatever came before, the search text ends with the question.
pub proof fn the_question_is_searched_for(history: Seq<Message>, current: Seq<char>)
    ensures
        history.len() == 0 ==> retrieval_query(history, current) == trimmed(current),
        trimmed(current).is_suffix_of(retrieval_query(history, current)),
{
    let context = last_two(user_turns(history)) + last_answer(history);
    let parts = context + seq![trimmed(current)];
    assert(parts.drop_last() == context);
    assert(parts.last() == trimmed(current));
    let all = joined(parts, " "@);
    let n = trimmed(current).len() as int;
    assert(all.subrange(all.len() - n, all.len() as int) == trimmed(current));
}

/// An entity that a query names is listed once, however many of its names the query holds.
pub proof fn mentions_are_listed_once(query: Seq<char>, walk: Seq<(Seq<char>, CanonicalEntity)>)
    requires
        forall|i: int, j: int|
            0 <= i < j < walk.len() ==> (#[trigger] walk[i]).0 != (#[trigger] walk[j]).0,
    ensures
        mentioned(query, walk).no_duplicates(),
    decreases walk.len(),
{
    if walk.len() > 0 {
        let short = walk.drop_last();
        let last = walk.last();
        mentions_are_listed_once(query, short);
        let before = mentioned(query, short);
        mentions_are_found(query, short, last.0);
        if before.contains(last.0) {
            let i = choose|i: int|
                0 <= i < short.len() && (#[trigger] short[i]).0 == last.0 && any_named(
                    query,
                    lower_names(short[i].1@),
                );
            assert(walk[i].0 == walk[walk.len() - 1].0);
        }
        let longer = before.push(last.0);
        assert forall|k: int, l: int| 0 <= k < l < longer.len() implies longer[k]
            != longer[l] by {
            if l == before.len() {
                assert(before.contains(longer[k]));
            }
        }
    }
}

proof fn lemma_mentioned_in_both(
    table: TextMap<CanonicalEntity>,
    v: Seq<(Seq<char>, CanonicalEntity)>,
    w: Seq<(Seq<char>, CanonicalEntity)>,
    query: Seq<char>,
    key: Seq<char>,
)
    requires
        table.is_walk(v),
        table.is_walk(w),
        mentioned(query, v).contains(key),
    ensures
        mentioned(query, w).contains(key),
{
    mentions_are_found(query, v, key);
    mentions_are_found(query, w, key);
    let i = choose|i: int|
        0 <= i < v.len() && (#[trigger] v[i]).0 == key && any_named(
            query,
            lower_names(v[i].1@),
        );
    assert(table@.contains_key(v[i].0));
    let j = choose|j: int| 0 <= j < w.len() && #[trigger] w[j] == (key, table@[key]);
    assert(w[j].0 == key && any_named(query, lower_names(w[j].1@)));
}

proof fn lemma_listed_in_both(
    index: Map<Seq<char>, Vec<String>>,
    a: Seq<Seq<char>>,
    b: Seq<Seq<char>>,
    doc: Seq<char>,
)
    requires
        forall|k: Seq<char>| a.contains(k) ==> b.contains(k),
        listed_under(index, a, doc),
    ensures
        listed_under(index, b, doc),
{
    let i = choose|i: int|
        0 <= i < a.len() && index.contains_key(#[trigger] a[i]) && texts(
            index[a[i]]@,
        ).contains(doc);
    assert(a.contains(a[i]));
    let j = choose|j: int| 0 <= j < b.len() && b[j] == a[i];
    assert(index.contains_key(b[j]));
}

/// What is searched does not depend on the order in which the table of entities is walked.
pub proof fn searches_forget_the_walk(
    table: TextMap<CanonicalEntity>,
    v: Seq<(Seq<char>, CanonicalEntity)>,
    w: Seq<(Seq<char>, CanonicalEntity)>,
    query: Seq<char>,
    candidates: Option<Set<Seq<char>>>,
    index: Map<Seq<char>, Vec<String>>,
    years: Seq<Seq<char>>,
)
    requires
        table.is_walk(v),
        table.is_walk(w),
    ensures
        prepared(candidates, mentioned(query, v), index, years) == prepared(
            candidates,
            mentioned(query, w),
            index,
            years,
        ),
{
    let a = mentioned(query, v);
    let b = mentioned(query, w);
    assert forall|k: Seq<char>| a.contains(k) <==> b.contains(k) by {
        if a.contains(k) {
            lemma_mentioned_in_both(table, v, w, query, k);
        }
        if b.contains(k) {
            lemma_mentioned_in_both(table, w, v, query, k);
        }
    }
    mentions_are_listed_once(query, v);
    mentions_are_listed_once(query, w);
    assert(a.to_set() == b.to_set());
    a.unique_seq_to_set();
    b.unique_seq_to_set();
    assert forall|doc: Seq<char>| listed_under(index, a, doc) == listed_under(index, b, doc) by {
        if listed_under(index, a, doc) {
            lemma_listed_in_both(index, a, b, doc);
        }
        if listed_under(index, b, doc) {
            lemma_listed_in_both(index, b, a, doc);
        }
    }
    assert(documents_of(index, a) == documents_of(index, b));
}

/// Whether `documents` are the passages of different documents, whose ids are `ids`.
pub open spec fn belong(documents: Seq<Seq<Passage>>, ids: Seq<Seq<char>>) -> bool {
    &&& ids.len() == documents.len()
    &&& ids.no_duplicates()
    &&& forall|i: int, p: Passage|
        0 <= i < documents.len() && (#[trigger] documents[i]).contains(p) ==> (#[trigger] p.doc_id)
            == ids[i]
}

/// The ids of the documents that passages are of.
pub open spec fn document_ids(list: Seq<Passage>) -> Set<Seq<char>> {
    list.map_values(|p: Passage| p.doc_id).to_set()
}

/// The positions of the passages of the document `id`.
spec fn places_of(list: Seq<Passage>, id: Seq<char>) -> Set<int> {
    Set::new(|k: int| 0 <= k < list.len() && list[k].doc_id == id)
}

proof fn lemma_places(list: Seq<Passage>, id: Seq<char>)
    ensures
        places_of(list, id).finite(),
        places_of(list, id).len() == count_of(list, id),
    decreases list.len(),
{
    if list.len() == 0 {
        assert(places_of(list, id) == Set::<int>::empty());
    } else {
        let short = list.drop_last();
        lemma_places(short, id);
        if list.last().doc_id == id {
            assert(places_of(list, id) == places_of(short, id).insert(list.len() - 1));
        } else {
            assert(places_of(list, id) == places_of(short, id));
        }
    }
}

proof fn lemma_best_counts(list: Seq<Passage>, limit: nat, id: Seq<char>)
    ensures
        count_of(best(list, limit), id) <= count_of(list, id),
{
    let ranks = score_ranks(scores_of(list));
    let order = order_of(ranks);
    let few = best(list, limit);
    order_exists(ranks);
    let from = places_of(few, id);
    let to = places_of(list, id);
    lemma_places(few, id);
    lemma_places(list, id);
    let image = from.map(|k: int| order[k]);
    assert forall|i: int| image.contains(i) implies to.contains(i) by {
        let k = choose|k: int| from.contains(k) && order[k] == i;
        assert(few[k] == list[order[k]]);
    }
    assert(injective_on(|k: int| order[k], from)) by {
        assert forall|k: int, l: int|
            from.contains(k) && from.contains(l) && order[k] == order[l] implies k == l by {
            if k < l {
                assert(comes_first(ranks, order[k], order[l]));
            } else if l < k {
                assert(comes_first(ranks, order[l], order[k]));
            }
        }
    }
    vstd::set_lib::lemma_map_size(from, image, |k: int| order[k]);
    vstd::set_lib::lemma_len_subset(image, to);
}

proof fn lemma_count_of_both(a: Seq<Passage>, b: Seq<Passage>, id: Seq<char>)
    ensures
        count_of(a + b, id) == count_of(a, id) + count_of(b, id),
    decreases b.len(),
{
    if b.len() == 0 {
        assert(a + b == a);
    } else {
        lemma_count_of_both(a, b.drop_last(), id);
        assert((a + b).drop_last() == a + b.drop_last());
    }
}

proof fn lemma_count_bounds(list: Seq<Passage>, id: Seq<char>)
    ensures
        count_of(list, id) <= list.len(),
        (forall|p: Passage| #[trigger] list.contains(p) ==> p.doc_id != id) ==> count_of(list, id)
            == 0,
    decreases list.len(),
{
    if list.len() > 0 {
        let short = list.drop_last();
        lemma_count_bounds(short, id);
        assert(list.contains(list[list.len() - 1]));
        assert forall|p: Passage| #[trigger] short.contains(p) implies list.contains(p) by {
            let k = choose|k: int| 0 <= k < short.len() && short[k] == p;
            assert(list[k] == p);
        }
    }
}

proof fn lemma_gathered_bounds(documents: Seq<Seq<Passage>>, ids: Seq<Seq<char>>, id: Seq<char>)
    requires
        belong(documents, ids),
    ensures
        gathered(documents).documents <= DOCUMENTS_USED,
        gathered(documents).kept.len() <= gathered(documents).documents * PASSAGES_PER_DOCUMENT,
        count_of(gathered(documents).kept, id) <= PASSAGES_PER_DOCUMENT,
        document_ids(gathered(documents).kept).finite(),
        document_ids(gathered(documents).kept).len() <= gathered(documents).documents,
    decreases documents.len(),
{
    let g = gathered(documents);
    if documents.len() == 0 {
        assert(document_ids(g.kept) == Set::<Seq<char>>::empty());
    } else {
        let n = documents.len() - 1;
        let short = documents.drop_last();
        let before = gathered(short);
        let last = documents.last();
        let few = best(last, PASSAGES_PER_DOCUMENT as nat);
        assert(belong(short, ids.drop_last())) by {
            assert forall|i: int, p: Passage|
                0 <= i < short.len() && (#[trigger] short[i]).contains(p) implies (
            #[trigger] p.doc_id) == ids.drop_last()[i] by {
                assert(documents[i].contains(p));
            }
        }
        lemma_gathered_bounds(short, ids.drop_last(), id);
        the_best_descend(last, PASSAGES_PER_DOCUMENT as nat);
        assert forall|p: Passage| #[trigger] few.contains(p) implies p.doc_id == ids[n] by {
            assert(documents[n].contains(p));
        }
        lemma_count_of_both(before.kept, few, id);
        lemma_count_bounds(few, id);
        if id == ids[n] {
            assert forall|p: Passage| #[trigger] before.kept.contains(p) implies p.doc_id != id by {
                lemma_gathered(short, p);
                let i = choose|i: int| 0 <= i < short.len() && (#[trigger] short[i]).contains(p);
                assert(documents[i].contains(p));
            }
            lemma_count_bounds(before.kept, id);
        }
        let had = document_ids(before.kept);
        let both = before.kept + few;
        assert forall|x: Seq<char>| #[trigger] document_ids(both).contains(x) implies had.insert(
            ids[n],
        ).contains(x) by {
            let names = both.map_values(|p: Passage| p.doc_id);
            let k = choose|k: int| 0 <= k < names.len() && names[k] == x;
            if k < before.kept.len() {
                assert(before.kept.map_values(|p: Passage| p.doc_id)[k] == x);
            } else {
                assert(few.contains(few[k - before.kept.len()]));
            }
        }
        vstd::set_lib::lemma_len_subset(document_ids(both), had.insert(ids[n]));
    }
}

/// However many documents are found, an answer rests on at most twelve passages, of at most eight
/// documents, three of each at most; and these are chosen from at most twenty-four.
pub proof fn twelve_passages_of_eight_documents(
    documents: Seq<Seq<Passage>>,
    ids: Seq<Seq<char>>,
    id: Seq<char>,
)
    requires
        belong(documents, ids),
    ensures
        retrieved(documents).len() <= 12,
        count_of(retrieved(documents), id) <= 3,
        document_ids(retrieved(documents)).len() <= 8,
        gathered(documents).kept.len() <= 24,
{
    let kept = gathered(documents).kept;
    let few = retrieved(documents);
    lemma_gathered_bounds(documents, ids, id);
    lemma_best_counts(kept, PASSAGES_IN_ALL as nat, id);
    the_best_descend(kept, PASSAGES_IN_ALL as nat);
    assert forall|x: Seq<char>| #[trigger] document_ids(few).contains(x) implies document_ids(
        kept,
    ).contains(x) by {
        let names = few.map_values(|p: Passage| p.doc_id);
        let k = choose|k: int| 0 <= k < names.len() && names[k] == x;
        assert(few.contains(few[k]));
        assert(kept.contains(few[k]));
        let i = choose|i: int| 0 <= i < kept.len() && kept[i] == few[k];
        assert(kept.map_values(|p: Passage| p.doc_id)[i] == x);
    }
    vstd::set_lib::lemma_len_subset(document_ids(few), document_ids(kept));
}

} // verus!
