//! What a question is searched by: the text that carries the conversation's subject, and the
//! entities that the question names.
use vstd::prelude::*;
use vstd::utf8::encode_utf8;
use crate::chat::engine::ChatEngine;
use crate::table::TextMap;
use crate::text::{contains_text, first_chars, has_bytes, join, joined, lowercase, occurs, shortened, texts, trim, trimmed};
use crate::types::{conversation, CanonicalEntity, ChatMessage, ChatRole, Entity, Message};

verus! {

/// The contents of the messages that the user wrote, in their order, without white space at their
/// ends.
pub open spec fn user_turns(history: Seq<Message>) -> Seq<Seq<char>>
    decreases history.len(),
{
    if history.len() == 0 {
        Seq::empty()
    } else {
        let before = user_turns(history.drop_last());
        if history.last().role == ChatRole::User {
            before.push(trimmed(history.last().content))
        } else {
            before
        }
    }
}

/// The last two of `list`, or all where there are fewer.
pub open spec fn last_two(list: Seq<Seq<char>>) -> Seq<Seq<char>> {
    if list.len() > 2 {
        list.skip(list.len() - 2)
    } else {
        list
    }
}

/// How much of the last answer is searched for.
pub const ANSWER_LENGTH: usize = 400;

/// The beginning of the assistant's last message, without white space at its ends, in a list; the
/// list is empty where there is no such message.
pub open spec fn last_answer(history: Seq<Message>) -> Seq<Seq<char>>
    decreases history.len(),
{
    if history.len() == 0 {
        Seq::empty()
    } else if history.last().role == ChatRole::Assistant {
        seq![trimmed(first_chars(history.last().content, ANSWER_LENGTH as nat))]
    } else {
        last_answer(history.drop_last())
    }
}

/// What is searched for: the user's last two turns, the beginning of the last answer and the
/// question, each without white space at its ends, with a space between each two.
pub open spec fn retrieval_query(history: Seq<Message>, current: Seq<char>) -> Seq<char> {
    joined(
        last_two(user_turns(history)) + last_answer(history) + seq![trimmed(current)],
        " "@,
    )
}

fn find_user_turns(history: &[ChatMessage]) -> (r: Vec<String>)
    ensures
        texts(r@) == user_turns(conversation(history@)),
{
    let ghost all = conversation(history@);
    let mut turns: Vec<String> = Vec::new();
    assert(texts(turns@) == user_turns(all.take(0)));
    let mut i: usize = 0;
    while i < history.len()
        invariant
            i <= history@.len(),
            all == conversation(history@),
            texts(turns@) == user_turns(all.take(i as int)),
        decreases history@.len() - i,
    {
        let ghost before = texts(turns@);
        assert(all.take(i + 1).drop_last() == all.take(i as int));
        if history[i].role == ChatRole::User {
            turns.push(trim(history[i].content.as_str()));
            assert(texts(turns@) == before.push(trimmed(history@[i as int].content@)));
        }
        i += 1;
    }
    assert(all.take(i as int) == all);
    turns
}

fn find_last_answer(history: &[ChatMessage]) -> (r: Option<String>)
    ensures
        match r {
            Some(text) => last_answer(conversation(history@)) == seq![text@],
            None => last_answer(conversation(history@)) == Seq::<Seq<char>>::empty(),
        },
{
    let ghost all = conversation(history@);
    let mut i: usize = history.len();
    assert(all.take(i as int) == all);
    while i > 0
        invariant
            i <= history@.len(),
            all == conversation(history@),
            last_answer(all) == last_answer(all.take(i as int)),
        decreases i,
    {
        assert(all.take(i as int).drop_last() == all.take(i - 1));
        i -= 1;
        if history[i].role == ChatRole::Assistant {
            let start = shortened(history[i].content.as_str(), ANSWER_LENGTH);
            return Some(trim(start.as_str()));
        }
    }
    None
}

impl ChatEngine {
    /// What is searched for, given the conversation so far and the question.
    pub fn build_retrieval_query(history: &[ChatMessage], current: &str) -> (r: String)
        ensures
            r@ == retrieval_query(conversation(history@), current@),
    {
        let ghost all = conversation(history@);
        let turns = find_user_turns(history);
        let mut parts: Vec<String> = Vec::new();
        let first: usize = if turns.len() > 2 {
            turns.len() - 2
        } else {
            0
        };
        let mut i: usize = first;
        while i < turns.len()
            invariant
                first <= i <= turns@.len(),
                texts(parts@) == texts(turns@).subrange(first as int, i as int),
            decreases turns@.len() - i,
        {
            let ghost before = texts(parts@);
            parts.push(turns[i].clone());
            assert(texts(parts@) == before.push(turns@[i as int]@));
            i += 1;
        }
        assert(texts(parts@) == last_two(user_turns(all)));
        let ghost turns_part = texts(parts@);
        if let Some(text) = find_last_answer(history) {
            parts.push(text);
        }
        assert(texts(parts@) == turns_part + last_answer(all));
        let ghost context = texts(parts@);
        parts.push(trim(current));
        assert(texts(parts@) == context + seq![trimmed(current@)]);
        join(&parts, " ")
    }
}

/// Whether a query in lower case names something by `name`, which is in lower case too: names of
/// fewer than three bytes do not count.
pub open spec fn named(query: Seq<char>, name: Seq<char>) -> bool {
    encode_utf8(name).len() >= 3 && occurs(query, name)
}

/// Whether a query in lower case names something by one of `names`, which are in lower case too.
pub open spec fn any_named(query: Seq<char>, names: Seq<Seq<char>>) -> bool {
    exists|i: int| 0 <= i < names.len() && named(query, #[trigger] names[i])
}

/// The names of an entity, in lower case.
pub open spec fn lower_names(e: Entity) -> Seq<Seq<char>> {
    seq![lowercase(e.canonical_name)] + e.aliases.map_values(|a: Seq<char>| lowercase(a))
}

/// The keys of the entries whose entities a query in lower case names, in the order of the
/// entries.
pub open spec fn mentioned(
    query: Seq<char>,
    walk: Seq<(Seq<char>, CanonicalEntity)>,
) -> Seq<Seq<char>>
    decreases walk.len(),
{
    if walk.len() == 0 {
        Seq::empty()
    } else {
        let before = mentioned(query, walk.drop_last());
        if any_named(query, lower_names(walk.last().1@)) {
            before.push(walk.last().0)
        } else {
            before
        }
    }
}

/// Whether a query in lower case names something by one of `names`, which are in lower case too.
pub fn names_any(query: &str, names: &Vec<String>) -> (r: bool)
    ensures
        r == any_named(query@, texts(names@)),
{
    let mut i: usize = 0;
    while i < names.len()
        invariant
            i <= names@.len(),
            forall|k: int| 0 <= k < i ==> !named(query@, #[trigger] texts(names@)[k]),
        decreases names@.len() - i,
    {
        if has_bytes(names[i].as_str(), 3) && contains_text(query, names[i].as_str()) {
            assert(named(query@, texts(names@)[i as int]));
            return true;
        }
        i += 1;
    }
    false
}

fn names_of(entity: &CanonicalEntity) -> (r: Vec<String>)
    ensures
        texts(r@) == lower_names(entity@),
{
    let mut names: Vec<String> = Vec::new();
    names.push(entity.canonical_name.as_str().to_lowercase());
    let mut i: usize = 0;
    while i < entity.aliases.len()
        invariant
            i <= entity.aliases@.len(),
            names@.len() == i + 1,
            names@[0]@ == lowercase(entity.canonical_name@),
            forall|k: int|
                0 < k <= i ==> (#[trigger] names@[k])@ == lowercase(entity.aliases@[k - 1]@),
        decreases entity.aliases@.len() - i,
    {
        names.push(entity.aliases[i].as_str().to_lowercase());
        i += 1;
    }
    assert(texts(names@) == lower_names(entity@));
    names
}

impl ChatEngine {
    /// The keys of the entities that `query` names, by their names or by aliases, whatever the
    /// case of letters.
    pub fn entities_mentioned_in_query(query: &str, canonicals: &TextMap<CanonicalEntity>) -> (r:
        Vec<String>)
        ensures
            texts(r@) == mentioned(lowercase(query@), canonicals.walk()),
            canonicals.is_walk(canonicals.walk()),
    {
        let lower = query.to_lowercase();
        let ghost walk = canonicals.walk();
        let n = canonicals.len();
        let mut ids: Vec<String> = Vec::new();
        assert(texts(ids@) == mentioned(lower@, walk.take(0)));
        let mut i: usize = 0;
        while i < n
            invariant
                i <= n == walk.len(),
                walk == canonicals.walk(),
                texts(ids@) == mentioned(lower@, walk.take(i as int)),
            decreases n - i,
        {
            let ghost before = texts(ids@);
            assert(walk.take(i + 1).drop_last() == walk.take(i as int));
            if names_any(lower.as_str(), &names_of(canonicals.value(i))) {
                ids.push(canonicals.key(i).clone());
                assert(texts(ids@) == before.push(walk[i as int].0));
            }
            i += 1;
        }
        assert(walk.take(i as int) == walk);
        ids
    }
}

/// The keys found are those of the entries whose entities are named, and every such key is found.
pub proof fn mentions_are_found(
    query: Seq<char>,
    walk: Seq<(Seq<char>, CanonicalEntity)>,
    key: Seq<char>,
)
    ensures
        mentioned(query, walk).contains(key) <==> exists|i: int|
            0 <= i < walk.len() && (#[trigger] walk[i]).0 == key && any_named(
                query,
                lower_names(walk[i].1@),
            ),
    decreases walk.len(),
{
    if walk.len() > 0 {
        let short = walk.drop_last();
        let last = walk.last();
        mentions_are_found(query, short, key);
        let before = mentioned(query, short);
        let all = mentioned(query, walk);
        assert(walk[walk.len() - 1] == last);
        assert forall|i: int| 0 <= i < short.len() implies #[trigger] walk[i] == short[i] by {}
        if before.contains(key) {
            let k = choose|k: int| 0 <= k < before.len() && before[k] == key;
            assert(all[k] == key);
        }
        if any_named(query, lower_names(last.1@)) {
            assert(all[before.len() as int] == last.0);
            if all.contains(key) && key != last.0 {
                let k = choose|k: int| 0 <= k < all.len() && all[k] == key;
                assert(before[k] == key);
            }
        }
        if exists|i: int|
            0 <= i < short.len() && (#[trigger] short[i]).0 == key && any_named(
                query,
                lower_names(short[i].1@),
            ) {
            let i = choose|i: int|
                0 <= i < short.len() && (#[trigger] short[i]).0 == key && any_named(
                    query,
                    lower_names(short[i].1@),
                );
            assert(walk[i] == short[i]);
        }
        if exists|i: int|
            0 <= i < walk.len() && (#[trigger] walk[i]).0 == key && any_named(
                query,
                lower_names(walk[i].1@),
            ) {
            let i = choose|i: int|
                0 <= i < walk.len() && (#[trigger] walk[i]).0 == key && any_named(
                    query,
                    lower_names(walk[i].1@),
                );
            if i < short.len() {
                assert(short[i].0 == key);
            }
        }
    }
}

} // verus!
