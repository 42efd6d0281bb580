//! What holds of the questions on every set of entities.
use vstd::prelude::*;
use crate::order::{rank_le, sorted, sorted_items_ascend, sorting_forgets_the_order, sorting_keeps_the_items};
use crate::quiz::candidates::{
    alias_questions, all_asked, asked, asked_before, asked_on, entities_in, likeness,
    name_tokens, nested, question_rank,
};
use crate::score::{share_is_positive, share_of_the_whole_is_one, Score};
use crate::table::TextMap;
use crate::text::{ascii_lowered, text_le, text_order_is_antisymmetric, text_order_is_total};
use crate::types::{CanonicalEntity, Entity, Question};

verus! {

/// A question is asked on two entities exactly where they are of one kind, their names differ by
/// more than the case of letters, the words of neither name are all in the other, and the two
/// names share a word.
pub proof fn ambiguous_pairs_are_asked(
    a: Entity,
    ta: Set<Seq<char>>,
    b: Entity,
    tb: Set<Seq<char>>,
)
    requires
        ta.finite(),
        tb.finite(),
        ta.union(tb).len() <= 0x2_0000_0000_0000_0000,
    ensures
        asked(a, ta, b, tb) is Some <==> {
            &&& a.entity_type == b.entity_type
            &&& ascii_lowered(a.canonical_name) != ascii_lowered(b.canonical_name)
            &&& !nested(ta, tb)
            &&& exists|w: Seq<char>| ta.contains(w) && tb.contains(w)
        },
{
    let both = ta.intersect(tb);
    vstd::set_lib::lemma_set_intersect_union_lens(ta, tb);
    vstd::set_lib::lemma_len_intersect(ta, tb);
    vstd::set_lib::lemma_len_intersect(tb, ta);
    assert(both == tb.intersect(ta));
    if exists|w: Seq<char>| ta.contains(w) && tb.contains(w) {
        let w = choose|w: Seq<char>| ta.contains(w) && tb.contains(w);
        assert(both.contains(w));
        assert(both.len() > 0);
        share_is_positive(both.len(), ta.union(tb).len());
    } else {
        assert(both == Set::<Seq<char>>::empty());
    }
}

/// Two names with the same words, and at least one, are alike to the degree `1.0`.
pub proof fn the_same_words_are_wholly_alike(words: Set<Seq<char>>)
    requires
        words.len() > 0,
    ensures
        likeness(words, words) == (Score { bits: 0x3f80_0000 }),
{
    assert(words.intersect(words) == words);
    assert(words.union(words) == words);
    share_of_the_whole_is_one(words.len());
}

/// The question on two entities with different ids does not depend on which of them comes first.
pub proof fn questions_are_symmetric(a: Entity, ta: Set<Seq<char>>, b: Entity, tb: Set<Seq<char>>)
    requires
        a.id != b.id,
    ensures
        asked(a, ta, b, tb) == asked(b, tb, a, ta),
        likeness(ta, tb) == likeness(tb, ta),
{
    assert(ta.intersect(tb) == tb.intersect(ta));
    assert(ta.union(tb) == tb.union(ta));
    text_order_is_total(a.id, b.id);
    if text_le(a.id, b.id) && text_le(b.id, a.id) {
        text_order_is_antisymmetric(a.id, b.id);
    }
}

proof fn lemma_asked_on(
    entities: Seq<Entity>,
    tokens: Seq<Set<Seq<char>>>,
    i: int,
    to: int,
    q: Question,
)
    requires
        0 <= i < entities.len() == tokens.len(),
        to <= entities.len(),
    ensures
        asked_on(entities, tokens, i, to).contains(q) <==> exists|j: int|
            i < j < to && #[trigger] asked(entities[i], tokens[i], entities[j], tokens[j]) == Some(
                q,
            ),
    decreases
            if to > i {
                to - i
            } else {
                0
            },
{
    if to > i + 1 {
        lemma_asked_on(entities, tokens, i, to - 1, q);
        let shorter = asked_on(entities, tokens, i, to - 1);
        let last = asked(entities[i], tokens[i], entities[to - 1], tokens[to - 1]);
        let longer = asked_on(entities, tokens, i, to);
        if let Some(p) = last {
            assert(longer == shorter.push(p));
            assert(longer[shorter.len() as int] == p);
            if shorter.contains(q) {
                let k = choose|k: int| 0 <= k < shorter.len() && shorter[k] == q;
                assert(longer[k] == q);
            }
        }
    }
}

proof fn lemma_asked_before(
    entities: Seq<Entity>,
    tokens: Seq<Set<Seq<char>>>,
    n: nat,
    q: Question,
)
    requires
        n <= entities.len() == tokens.len(),
    ensures
        asked_before(entities, tokens, n).contains(q) <==> exists|i: int, j: int|
            0 <= i < n && i < j < entities.len() && #[trigger] asked(
                entities[i],
                tokens[i],
                entities[j],
                tokens[j],
            ) == Some(q),
    decreases n,
{
    if n > 0 {
        let m = (n - 1) as nat;
        lemma_asked_before(entities, tokens, m, q);
        lemma_asked_on(entities, tokens, m as int, entities.len() as int, q);
        let a = asked_before(entities, tokens, m);
        let b = asked_on(entities, tokens, m as int, entities.len() as int);
        let both = a + b;
        if a.contains(q) {
            let k = choose|k: int| 0 <= k < a.len() && a[k] == q;
            assert(both[k] == q);
        }
        if b.contains(q) {
            let k = choose|k: int| 0 <= k < b.len() && b[k] == q;
            assert(both[a.len() + k] == q);
        }
        if both.contains(q) {
            let k = choose|k: int| 0 <= k < both.len() && both[k] == q;
            if k < a.len() {
                assert(a[k] == q);
            } else {
                assert(b[k - a.len()] == q);
            }
        }
    }
}

/// The questions are those on the pairs of entities, and every pair that has one is among them.
pub proof fn every_pair_is_considered(
    entities: Seq<Entity>,
    tokens: Seq<Set<Seq<char>>>,
    q: Question,
)
    requires
        entities.len() == tokens.len(),
    ensures
        all_asked(entities, tokens).contains(q) <==> exists|i: int, j: int|
            0 <= i < j < entities.len() && #[trigger] asked(
                entities[i],
                tokens[i],
                entities[j],
                tokens[j],
            ) == Some(q),
{
    lemma_asked_before(entities, tokens, entities.len(), q);
}

/// There are at most `limit` questions, all of them on pairs of the entities, and none is on more
/// similar names than one before it.
pub proof fn alias_questions_descend(entities: Seq<Entity>, limit: nat)
    ensures
        alias_questions(entities, limit).len() <= limit,
        forall|q: Question|
            alias_questions(entities, limit).contains(q) ==> all_asked(
                entities,
                name_tokens(entities),
            ).contains(q),
        forall|k: int, l: int|
            0 <= k < l < alias_questions(entities, limit).len() ==> alias_questions(
                entities,
                limit,
            )[k].similarity.rank() >= alias_questions(entities, limit)[l].similarity.rank(),
{
    let list = all_asked(entities, name_tokens(entities));
    let rank = |q: Question| question_rank(q);
    let all = sorted(list, list.map_values(rank));
    let few = alias_questions(entities, limit);
    sorting_keeps_the_items(list, list.map_values(rank));
    assert forall|q: Question| few.contains(q) implies list.contains(q) by {
        let k = choose|k: int| 0 <= k < few.len() && few[k] == q;
        assert(all[k] == q);
        assert(all.contains(q));
    }
    assert forall|k: int, l: int| 0 <= k < l < few.len() implies few[k].similarity.rank()
        >= few[l].similarity.rank() by {
        assert(few[k] == all[k] && few[l] == all[l]);
        sorted_items_ascend(list, rank, k, l);
    }
}

/// Whether no two of `entities` have the same id.
pub open spec fn ids_differ(entities: Seq<Entity>) -> bool {
    forall|i: int, j: int|
        0 <= i < j < entities.len() ==> (#[trigger] entities[i]).id != (#[trigger] entities[j]).id
}

proof fn lemma_ids_of(
    a: Entity,
    ta: Set<Seq<char>>,
    b: Entity,
    tb: Set<Seq<char>>,
    q: Question,
)
    requires
        asked(a, ta, b, tb) == Some(q),
    ensures
        (q.entity_id_a == a.id && q.entity_id_b == b.id) || (q.entity_id_a == b.id && q.entity_id_b
            == a.id),
{
}

proof fn lemma_asked_on_once(
    entities: Seq<Entity>,
    tokens: Seq<Set<Seq<char>>>,
    i: int,
    to: int,
)
    requires
        0 <= i < entities.len() == tokens.len(),
        to <= entities.len(),
        ids_differ(entities),
    ensures
        asked_on(entities, tokens, i, to).no_duplicates(),
    decreases
            if to > i {
                to - i
            } else {
                0
            },
{
    if to > i + 1 {
        let last = to - 1;
        lemma_asked_on_once(entities, tokens, i, last);
        let shorter = asked_on(entities, tokens, i, last);
        if let Some(q) = asked(entities[i], tokens[i], entities[last], tokens[last]) {
            lemma_asked_on(entities, tokens, i, last, q);
            if shorter.contains(q) {
                let j = choose|j: int|
                    i < j < last && #[trigger] asked(
                        entities[i],
                        tokens[i],
                        entities[j],
                        tokens[j],
                    ) == Some(q);
                lemma_ids_of(entities[i], tokens[i], entities[j], tokens[j], q);
                lemma_ids_of(entities[i], tokens[i], entities[last], tokens[last], q);
                assert(false);
            }
            let longer = shorter.push(q);
            assert forall|k: int, l: int| 0 <= k < l < longer.len() implies longer[k]
                != longer[l] by {
                if l == shorter.len() {
                    assert(shorter.contains(longer[k]));
                }
            }
        }
    }
}

proof fn lemma_asked_once(entities: Seq<Entity>, tokens: Seq<Set<Seq<char>>>, n: nat)
    requires
        n <= entities.len() == tokens.len(),
        ids_differ(entities),
    ensures
        asked_before(entities, tokens, n).no_duplicates(),
    decreases n,
{
    if n > 0 {
        let m = (n - 1) as nat;
        let a = asked_before(entities, tokens, m);
        let b = asked_on(entities, tokens, m as int, entities.len() as int);
        lemma_asked_once(entities, tokens, m);
        lemma_asked_on_once(entities, tokens, m as int, entities.len() as int);
        assert forall|q: Question| a.contains(q) implies !b.contains(q) by {
            lemma_asked_before(entities, tokens, m, q);
            lemma_asked_on(entities, tokens, m as int, entities.len() as int, q);
            if b.contains(q) {
                let (i, j) = choose|i: int, j: int|
                    0 <= i < m && i < j < entities.len() && #[trigger] asked(
                        entities[i],
                        tokens[i],
                        entities[j],
                        tokens[j],
                    ) == Some(q);
                let k = choose|k: int|
                    m < k < entities.len() && #[trigger] asked(
                        entities[m as int],
                        tokens[m as int],
                        entities[k],
                        tokens[k],
                    ) == Some(q);
                lemma_ids_of(entities[i], tokens[i], entities[j], tokens[j], q);
                lemma_ids_of(entities[m as int], tokens[m as int], entities[k], tokens[k], q);
                assert(entities[i].id != entities[m as int].id);
                assert(entities[i].id != entities[k].id);
            }
        }
        let both = a + b;
        assert forall|k: int, l: int| 0 <= k < l < both.len() implies both[k] != both[l] by {
            if k < a.len() && l >= a.len() {
                assert(a.contains(both[k]));
                assert(b.contains(both[l]));
            }
        }
    }
}

/// Two questions on the same pair of ids are one.
proof fn lemma_pairs_ask_once(
    entities: Seq<Entity>,
    tokens: Seq<Set<Seq<char>>>,
    p: Question,
    q: Question,
)
    requires
        entities.len() == tokens.len(),
        ids_differ(entities),
        all_asked(entities, tokens).contains(p),
        all_asked(entities, tokens).contains(q),
        p.entity_id_a == q.entity_id_a,
        p.entity_id_b == q.entity_id_b,
    ensures
        p == q,
{
    every_pair_is_considered(entities, tokens, p);
    every_pair_is_considered(entities, tokens, q);
    let (i, j) = choose|i: int, j: int|
        0 <= i < j < entities.len() && #[trigger] asked(
            entities[i],
            tokens[i],
            entities[j],
            tokens[j],
        ) == Some(p);
    let (k, l) = choose|k: int, l: int|
        0 <= k < l < entities.len() && #[trigger] asked(
            entities[k],
            tokens[k],
            entities[l],
            tokens[l],
        ) == Some(q);
    lemma_ids_of(entities[i], tokens[i], entities[j], tokens[j], p);
    lemma_ids_of(entities[k], tokens[k], entities[l], tokens[l], q);
    assert(i == k && j == l);
}

proof fn lemma_walks_ask_the_same(
    table: TextMap<CanonicalEntity>,
    v: Seq<(Seq<char>, CanonicalEntity)>,
    w: Seq<(Seq<char>, CanonicalEntity)>,
    q: Question,
)
    requires
        table.is_walk(v),
        table.is_walk(w),
        ids_differ(entities_in(v)),
        all_asked(entities_in(v), name_tokens(entities_in(v))).contains(q),
    ensures
        all_asked(entities_in(w), name_tokens(entities_in(w))).contains(q),
{
    let a = entities_in(v);
    let b = entities_in(w);
    let ta = name_tokens(a);
    let tb = name_tokens(b);
    every_pair_is_considered(a, ta, q);
    every_pair_is_considered(b, tb, q);
    let (i, j) = choose|i: int, j: int|
        0 <= i < j < a.len() && #[trigger] asked(a[i], ta[i], a[j], ta[j]) == Some(q);
    assert(v[i].0 != v[j].0);
    assert(table@.contains_key(v[i].0) && table@.contains_key(v[j].0));
    let x = choose|x: int| 0 <= x < w.len() && #[trigger] w[x] == (v[i].0, table@[v[i].0]);
    let y = choose|y: int| 0 <= y < w.len() && #[trigger] w[y] == (v[j].0, table@[v[j].0]);
    assert(b[x] == a[i] && b[y] == a[j]);
    assert(tb[x] == ta[i] && tb[y] == ta[j]);
    if x < y {
        assert(asked(b[x], tb[x], b[y], tb[y]) == Some(q));
    } else {
        questions_are_symmetric(a[i], ta[i], a[j], ta[j]);
        assert(asked(b[y], tb[y], b[x], tb[x]) == Some(q));
    }
}

proof fn lemma_walks_ids_differ(
    table: TextMap<CanonicalEntity>,
    v: Seq<(Seq<char>, CanonicalEntity)>,
    w: Seq<(Seq<char>, CanonicalEntity)>,
)
    requires
        table.is_walk(v),
        table.is_walk(w),
        ids_differ(entities_in(v)),
    ensures
        ids_differ(entities_in(w)),
{
    let a = entities_in(v);
    let b = entities_in(w);
    assert forall|i: int, j: int| 0 <= i < j < b.len() implies (#[trigger] b[i]).id != (
    #[trigger] b[j]).id by {
        assert(w[i].0 != w[j].0);
        assert(table@.contains_key(w[i].0) && table@.contains_key(w[j].0));
        let x = choose|x: int| 0 <= x < v.len() && #[trigger] v[x] == (w[i].0, table@[w[i].0]);
        let y = choose|y: int| 0 <= y < v.len() && #[trigger] v[y] == (w[j].0, table@[w[j].0]);
        assert(a[x] == b[i] && a[y] == b[j]);
    }
}

/// The questions on the entities of a table do not depend on the order in which the table is
/// walked, where no two entities have the same id.
pub proof fn questions_forget_the_walk(
    table: TextMap<CanonicalEntity>,
    v: Seq<(Seq<char>, CanonicalEntity)>,
    w: Seq<(Seq<char>, CanonicalEntity)>,
    limit: nat,
)
    requires
        table.is_walk(v),
        table.is_walk(w),
        ids_differ(entities_in(v)),
    ensures
        alias_questions(entities_in(v), limit) == alias_questions(entities_in(w), limit),
{
    let a = all_asked(entities_in(v), name_tokens(entities_in(v)));
    let b = all_asked(entities_in(w), name_tokens(entities_in(w)));
    let rank = |q: Question| question_rank(q);
    lemma_walks_ids_differ(table, v, w);
    lemma_asked_once(entities_in(v), name_tokens(entities_in(v)), entities_in(v).len());
    lemma_asked_once(entities_in(w), name_tokens(entities_in(w)), entities_in(w).len());
    assert forall|q: Question| a.contains(q) <==> b.contains(q) by {
        if a.contains(q) {
            lemma_walks_ask_the_same(table, v, w, q);
        }
        if b.contains(q) {
            lemma_walks_ask_the_same(table, w, v, q);
        }
    }
    assert forall|x: Question, y: Question|
        a.contains(x) && a.contains(y) && #[trigger] rank_le(rank(x), rank(y)) && rank_le(
            rank(y),
            rank(x),
        ) implies x == y by {
        if x.entity_id_a != y.entity_id_a {
            text_order_is_antisymmetric(x.entity_id_a, y.entity_id_a);
        } else {
            text_order_is_antisymmetric(x.entity_id_b, y.entity_id_b);
        }
        lemma_pairs_ask_once(entities_in(v), name_tokens(entities_in(v)), x, y);
    }
    sorting_forgets_the_order(a, b, rank, limit);
}

} // verus!
