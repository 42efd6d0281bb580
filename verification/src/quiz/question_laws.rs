//! What a question is about, which questions are asked, and what is kept of the answers.
use vstd::prelude::*;
use crate::order::{sorted, sorted_items_ascend, sorting_keeps_the_items};
use crate::quiz::candidates::{
    alias_questions, all_asked, asked, entities_in, likeness, lower_words, name_tokens,
    nested, question_rank, tokens,
};
use crate::quiz::daily::{asked_for, daily_questions, first_of, unanswered};
use crate::quiz::laws::{ambiguous_pairs_are_asked, every_pair_is_considered};
use crate::quiz::store::{answered, entry_of, question_ids};
use crate::score::{share, Score};
use crate::text::{ascii_lowered, lowercase, text_le, words};
use crate::types::{CanonicalEntity, Entity, Feedback, Question, QuizAnswer};

verus! {

/// A name is compared by its words, each in lower case.
pub proof fn names_are_compared_by_their_words(s: Seq<char>, w: Seq<char>)
    ensures
        tokens(s).contains(w) <==> exists|i: int|
            0 <= i < words(s).len() && lowercase(#[trigger] words(s)[i]) == w,
{
    let list = lower_words(s);
    if tokens(s).contains(w) {
        let i = choose|i: int| 0 <= i < list.len() && list[i] == w;
        assert(lowercase(words(s)[i]) == w);
    }
    if exists|i: int| 0 <= i < words(s).len() && lowercase(#[trigger] words(s)[i]) == w {
        let i = choose|i: int| 0 <= i < words(s).len() && lowercase(#[trigger] words(s)[i]) == w;
        assert(list[i] == w);
        assert(list.contains(w));
    }
}

/// How alike two names are is how many of their different words are in both, out of those in
/// either; and nothing is like a name without words.
pub proof fn likeness_is_the_share_of_common_words(a: Set<Seq<char>>, b: Set<Seq<char>>)
    ensures
        a.len() > 0 && b.len() > 0 ==> likeness(a, b) == share(
            Set::new(|w: Seq<char>| a.contains(w) && b.contains(w)).len(),
            Set::new(|w: Seq<char>| a.contains(w) || b.contains(w)).len(),
        ),
        a.len() == 0 || b.len() == 0 ==> likeness(a, b) == (Score { bits: 0 }),
        likeness(a, b) == likeness(b, a),
{
    assert(Set::new(|w: Seq<char>| a.contains(w) && b.contains(w)) == a.intersect(b));
    assert(Set::new(|w: Seq<char>| a.contains(w) || b.contains(w)) == a.union(b));
    assert(a.intersect(b) == b.intersect(a));
    assert(a.union(b) == b.union(a));
}

/// A question is asked on two entities exactly where they are of one kind, their names differ by
/// more than the case of letters, some word is in both names, and each name has a word that the
/// other lacks.
pub proof fn doubtful_pairs_are_asked(a: Entity, ta: Set<Seq<char>>, b: Entity, tb: Set<Seq<char>>)
    requires
        ta.finite(),
        tb.finite(),
        ta.union(tb).len() <= 0x2_0000_0000_0000_0000,
    ensures
        asked(a, ta, b, tb) is Some <==> {
            &&& a.entity_type == b.entity_type
            &&& ascii_lowered(a.canonical_name) != ascii_lowered(b.canonical_name)
            &&& exists|w: Seq<char>| ta.contains(w) && tb.contains(w)
            &&& exists|w: Seq<char>| ta.contains(w) && !tb.contains(w)
            &&& exists|w: Seq<char>| tb.contains(w) && !ta.contains(w)
        },
{
    ambiguous_pairs_are_asked(a, ta, b, tb);
    if exists|w: Seq<char>| ta.contains(w) && tb.contains(w) {
        let w = choose|w: Seq<char>| ta.contains(w) && tb.contains(w);
        assert(ta.len() > 0 && tb.len() > 0);
    }
    if !ta.subset_of(tb) {
        assert(exists|w: Seq<char>| ta.contains(w) && !tb.contains(w));
    }
    if !tb.subset_of(ta) {
        assert(exists|w: Seq<char>| tb.contains(w) && !ta.contains(w));
    }
}

/// Whether `q` asks if `first` and `second` are the same.
pub open spec fn asks_about(q: Question, first: Entity, second: Entity) -> bool {
    &&& q.entity_id_a == first.id
    &&& q.name_a == first.canonical_name
    &&& q.entity_id_b == second.id
    &&& q.name_b == second.canonical_name
}

/// A question names both entities, the one whose id comes first before the other, and says of what
/// kind they are, what it asks, and how alike their names are. Its id is made of their ids.
pub proof fn a_question_is_about_its_pair(
    a: Entity,
    ta: Set<Seq<char>>,
    b: Entity,
    tb: Set<Seq<char>>,
    q: Question,
)
    requires
        asked(a, ta, b, tb) == Some(q),
    ensures
        text_le(a.id, b.id) ==> asks_about(q, a, b),
        !text_le(a.id, b.id) ==> asks_about(q, b, a),
        q.id == "quiz-alias-"@ + q.entity_id_a + "-"@ + q.entity_id_b,
        q.kind == "alias_confirm"@,
        q.entity_type == a.entity_type,
        q.entity_type == b.entity_type,
        q.similarity == likeness(ta, tb),
{
}

/// The questions on some entities are those on their pairs, compared by the words of their names;
/// where enough may be asked, none is missing.
pub proof fn questions_come_from_the_names(entities: Seq<Entity>, limit: nat, q: Question)
    ensures
        alias_questions(entities, limit).contains(q) ==> exists|i: int, j: int|
            0 <= i < j < entities.len() && #[trigger] asked(
                entities[i],
                tokens(entities[i].canonical_name),
                entities[j],
                tokens(entities[j].canonical_name),
            ) == Some(q),
        (exists|i: int, j: int|
            0 <= i < j < entities.len() && #[trigger] asked(
                entities[i],
                tokens(entities[i].canonical_name),
                entities[j],
                tokens(entities[j].canonical_name),
            ) == Some(q)) && alias_questions(entities, limit).len() < limit ==> alias_questions(
            entities,
            limit,
        ).contains(q),
{
    let ts = name_tokens(entities);
    let list = all_asked(entities, ts);
    let rank = |p: Question| question_rank(p);
    let all = sorted(list, list.map_values(rank));
    let few = alias_questions(entities, limit);
    sorting_keeps_the_items(list, list.map_values(rank));
    every_pair_is_considered(entities, ts, q);
    if few.contains(q) {
        let k = choose|k: int| 0 <= k < few.len() && few[k] == q;
        assert(all[k] == q);
        assert(all.contains(q));
        assert(list.contains(q));
        let (i, j) = choose|i: int, j: int|
            0 <= i < j < entities.len() && #[trigger] asked(
                entities[i],
                ts[i],
                entities[j],
                ts[j],
            ) == Some(q);
        assert(asked(
            entities[i],
            tokens(entities[i].canonical_name),
            entities[j],
            tokens(entities[j].canonical_name),
        ) == Some(q));
    }
    if (exists|i: int, j: int|
        0 <= i < j < entities.len() && #[trigger] asked(
            entities[i],
            tokens(entities[i].canonical_name),
            entities[j],
            tokens(entities[j].canonical_name),
        ) == Some(q)) && few.len() < limit {
        let (i, j) = choose|i: int, j: int|
            0 <= i < j < entities.len() && #[trigger] asked(
                entities[i],
                tokens(entities[i].canonical_name),
                entities[j],
                tokens(entities[j].canonical_name),
            ) == Some(q);
        assert(asked(entities[i], ts[i], entities[j], ts[j]) == Some(q));
        assert(list.contains(q));
        assert(all.contains(q));
        assert(few == all);
    }
}

/// Whether `p` may stand before `q`: it is on more similar names, or on equally similar ones and
/// its first id comes first, or that is the same and its second id does.
pub open spec fn may_come_before(p: Question, q: Question) -> bool {
    if p.similarity.rank() != q.similarity.rank() {
        p.similarity.rank() > q.similarity.rank()
    } else if p.entity_id_a != q.entity_id_a {
        text_le(p.entity_id_a, q.entity_id_a)
    } else {
        text_le(p.entity_id_b, q.entity_id_b)
    }
}

/// Questions come in the order of similarity, then of the first id, then of the second; and none
/// that is left out would come before one that is asked.
pub proof fn questions_come_by_similarity_then_ids(
    entities: Seq<Entity>,
    limit: nat,
    k: int,
    l: int,
    out: Question,
)
    ensures
        0 <= k < l < alias_questions(entities, limit).len() ==> may_come_before(
            alias_questions(entities, limit)[k],
            alias_questions(entities, limit)[l],
        ),
        0 <= k < alias_questions(entities, limit).len() && all_asked(
            entities,
            name_tokens(entities),
        ).contains(out) && !alias_questions(entities, limit).contains(out) ==> may_come_before(
            alias_questions(entities, limit)[k],
            out,
        ),
        alias_questions(entities, limit).len() <= limit,
{
    let list = all_asked(entities, name_tokens(entities));
    let rank = |p: Question| question_rank(p);
    let all = sorted(list, list.map_values(rank));
    let few = alias_questions(entities, limit);
    sorting_keeps_the_items(list, list.map_values(rank));
    if 0 <= k < l < few.len() {
        assert(few[k] == all[k] && few[l] == all[l]);
        sorted_items_ascend(list, rank, k, l);
    }
    if 0 <= k < few.len() && list.contains(out) && !few.contains(out) {
        assert(all.contains(out));
        let m = choose|m: int| 0 <= m < all.len() && all[m] == out;
        if m < few.len() {
            assert(few[m] == out);
        }
        assert(few[k] == all[k]);
        sorted_items_ascend(list, rank, k, m);
    }
}

/// The entities of a table are those under its keys, one for each entry.
pub proof fn every_entry_gives_its_entity(walk: Seq<(Seq<char>, CanonicalEntity)>, i: int)
    requires
        0 <= i < walk.len(),
    ensures
        entities_in(walk).len() == walk.len(),
        entities_in(walk)[i].id == walk[i].1.id@,
        entities_in(walk)[i].canonical_name == walk[i].1.canonical_name@,
        entities_in(walk)[i].entity_type == walk[i].1.entity_type@,
{
}

proof fn lemma_unanswered_keeps(list: Seq<Question>, done: Set<Seq<char>>, q: Question)
    ensures
        unanswered(list, done).contains(q) <==> list.contains(q) && !done.contains(q.id),
    decreases list.len(),
{
    if list.len() > 0 {
        let short = list.drop_last();
        let last = list.last();
        lemma_unanswered_keeps(short, done, q);
        let rest = unanswered(short, done);
        assert(list == short.push(last));
        assert(list.contains(q) <==> short.contains(q) || q == last) by {
            if short.contains(q) {
                let k = choose|k: int| 0 <= k < short.len() && short[k] == q;
                assert(list[k] == q);
            }
            assert(list[list.len() - 1] == last);
        }
        let longer = rest.push(last);
        assert(longer.contains(q) <==> rest.contains(q) || q == last) by {
            if rest.contains(q) {
                let k = choose|k: int| 0 <= k < rest.len() && rest[k] == q;
                assert(longer[k] == q);
            }
            assert(longer[rest.len() as int] == last);
        }
    }
}

/// The questions of the day are unanswered ones out of the first few, five times as many as are
/// asked for and ten more; and none of these is missing unless as many as asked for are there.
pub proof fn the_day_asks_what_is_unanswered(
    entities: Seq<Entity>,
    done: Set<Seq<char>>,
    limit: nat,
    q: Question,
)
    ensures
        daily_questions(entities, done, limit).len() <= limit,
        daily_questions(entities, done, limit).contains(q) ==> alias_questions(
            entities,
            5 * limit + 10,
        ).contains(q) && !done.contains(q.id),
        alias_questions(entities, 5 * limit + 10).contains(q) && !done.contains(q.id)
            && daily_questions(entities, done, limit).len() < limit ==> daily_questions(
            entities,
            done,
            limit,
        ).contains(q),
        daily_questions(entities, done, limit).is_prefix_of(
            unanswered(alias_questions(entities, 5 * limit + 10), done),
        ),
        asked_for(None) == 1,
        limit <= usize::MAX ==> asked_for(Some(limit as usize)) == limit,
{
    let list = alias_questions(entities, 5 * limit + 10);
    assert(5 * limit + 10 == limit * 5 + 10);
    let open = unanswered(list, done);
    let few = first_of(open, limit);
    lemma_unanswered_keeps(list, done, q);
    if few.contains(q) {
        let k = choose|k: int| 0 <= k < few.len() && few[k] == q;
        assert(open[k] == q);
    }
}

/// The questions of the day keep the order they come in: answering changes nothing of it.
pub proof fn the_day_keeps_the_order(a: Seq<Question>, b: Seq<Question>, done: Set<Seq<char>>)
    ensures
        unanswered(a + b, done) == unanswered(a, done) + unanswered(b, done),
        a.len() == 1 && !done.contains(a[0].id) ==> unanswered(a, done) == a,
        a.len() == 1 && done.contains(a[0].id) ==> unanswered(a, done).len() == 0,
    decreases b.len(),
{
    if a.len() == 1 {
        assert(a.drop_last() == Seq::<Question>::empty());
        assert(unanswered(a.drop_last(), done) == Seq::<Question>::empty());
        if !done.contains(a[0].id) {
            assert(unanswered(a, done) == a);
        }
    }
    if b.len() == 0 {
        assert(a + b == a);
        assert(unanswered(a, done) + unanswered(b, done) == unanswered(a, done));
    } else {
        the_day_keeps_the_order(a, b.drop_last(), done);
        assert((a + b).drop_last() == a + b.drop_last());
        assert((a + b).last() == b.last());
        assert(unanswered(a + b, done) == unanswered(a, done) + unanswered(b, done));
    }
}

/// The first questions are the front of the list: as many as asked for, or all there are.
pub proof fn the_first_questions_are_the_front(list: Seq<Question>, n: nat)
    ensures
        first_of(list, n).is_prefix_of(list),
        first_of(list, n).len() == if list.len() < n {
            list.len()
        } else {
            n
        },
{
}

/// A question counts as answered exactly where some entry answers it.
pub proof fn a_question_is_answered_by_an_entry(entries: Seq<Feedback>, id: Seq<char>)
    ensures
        answered(entries).contains(id) <==> exists|i: int|
            0 <= i < entries.len() && (#[trigger] entries[i]).question_id == id,
{
    let ids = question_ids(entries);
    if answered(entries).contains(id) {
        let i = choose|i: int| 0 <= i < ids.len() && ids[i] == id;
        assert(entries[i].question_id == id);
    }
    if exists|i: int| 0 <= i < entries.len() && (#[trigger] entries[i]).question_id == id {
        let i = choose|i: int| 0 <= i < entries.len() && (#[trigger] entries[i]).question_id == id;
        assert(ids[i] == id);
        assert(ids.contains(id));
    }
}

/// An answer is kept as it was given: the verdict, the question and both entities are the user's
/// own, and answers that differ in any of them are kept as different entries.
pub proof fn answers_are_kept_as_given(
    answer: QuizAnswer,
    other: QuizAnswer,
    now: Seq<char>,
    later: Seq<char>,
)
    ensures
        entry_of(answer, now).confirmed == answer.confirmed,
        entry_of(answer, now).question_id == answer.question_id@,
        entry_of(answer, now).kind == answer.kind@,
        entry_of(answer, now).entity_id_a == answer.entity_id_a@,
        entry_of(answer, now).entity_id_b == answer.entity_id_b@,
        entry_of(answer, now).answered_at == now,
        answer.confirmed != other.confirmed ==> entry_of(answer, now) != entry_of(other, later),
        answer.question_id@ != other.question_id@ ==> entry_of(answer, now) != entry_of(other, later),
        answer.entity_id_a@ != other.entity_id_a@ ==> entry_of(answer, now) != entry_of(other, later),
        answer.entity_id_b@ != other.entity_id_b@ ==> entry_of(answer, now) != entry_of(other, later),
        now != later ==> entry_of(answer, now) != entry_of(answer, later),
{
}

/// Of two names one is nested in the other exactly where both have words and all the words of one
/// are words of the other.
pub proof fn nested_names_share_all_words_of_one(a: Set<Seq<char>>, b: Set<Seq<char>>)
    requires
        a.finite(),
        b.finite(),
    ensures
        nested(a, b) <==> {
            &&& exists|w: Seq<char>| a.contains(w)
            &&& exists|w: Seq<char>| b.contains(w)
            &&& (forall|w: Seq<char>| a.contains(w) ==> b.contains(w)) || (forall|w: Seq<char>|
                b.contains(w) ==> a.contains(w))
        },
{
    if a.len() > 0 {
        assert(a.contains(a.choose()));
    }
    if b.len() > 0 {
        assert(b.contains(b.choose()));
    }
}

} // verus!
