//! Pairs of entities that may be the same: of one kind, with a word of their names in common, and
//! not so alike that no question is needed.
use vstd::prelude::*;
use vstd::string::*;
use crate::order::{first_sorted, lemma_first_sorted_map, ranks, take_first, Rank, SortKey};
use crate::score::{share, share_of, Score};
use crate::table::{lemma_take_to_set, TextMap, TextSet};
use crate::text::{
    ascii_lowered, at_most, lowercase, same_ignoring_ascii_case, split_words, text_le, texts, words,
};
use crate::types::{questions, CanonicalEntity, Entity, Question, QuizQuestion};

verus! {

/// The words of `s`, each in lower case.
pub open spec fn lower_words(s: Seq<char>) -> Seq<Seq<char>> {
    words(s).map_values(|w: Seq<char>| lowercase(w))
}

/// The different words of `s` in lower case.
pub open spec fn tokens(s: Seq<char>) -> Set<Seq<char>> {
    lower_words(s).to_set()
}

/// The different words of `s` in lower case.
pub fn tokens_of(s: &str) -> (r: TextSet)
    ensures
        r@ == tokens(s@),
{
    let list = split_words(s);
    let ghost all = lower_words(s@);
    let mut out = TextSet::new();
    let mut i: usize = 0;
    assert(all.take(0).to_set() == Set::<Seq<char>>::empty());
    while i < list.len()
        invariant
            i <= list@.len() == all.len(),
            all == lower_words(s@),
            texts(list@) == words(s@),
            out@ == all.take(i as int).to_set(),
        decreases list@.len() - i,
    {
        assert(words(s@)[i as int] == list@[i as int]@);
        out.insert(list[i].as_str().to_lowercase());
        proof {
            lemma_take_to_set(all, i as int);
        }
        i += 1;
    }
    assert(all.take(i as int) == all);
    out
}

/// How alike two sets of words are: the share of those in both among those in either. Nothing is
/// like an empty set.
pub open spec fn likeness(a: Set<Seq<char>>, b: Set<Seq<char>>) -> Score {
    if a.len() == 0 || b.len() == 0 {
        Score { bits: 0 }
    } else {
        share(a.intersect(b).len(), a.union(b).len())
    }
}

/// Whether one of two sets, neither of them empty, lies within the other.
pub open spec fn nested(a: Set<Seq<char>>, b: Set<Seq<char>>) -> bool {
    a.len() > 0 && b.len() > 0 && (a.subset_of(b) || b.subset_of(a))
}

/// How many texts of `a` are in `b`.
fn shared_count(a: &TextSet, b: &TextSet) -> (r: usize)
    ensures
        r == a@.intersect(b@).len(),
        r <= a@.len(),
        (r == a@.len()) == a@.subset_of(b@),
        a@.finite(),
{
    let n = a.len();
    let ghost list = a.listed();
    let mut count: usize = 0;
    let mut i: usize = 0;
    assert(list.take(0).to_set().intersect(b@) == Set::<Seq<char>>::empty());
    while i < n
        invariant
            i <= n == list.len(),
            list == a.listed(),
            list.no_duplicates(),
            count <= i,
            count == list.take(i as int).to_set().intersect(b@).len(),
            (count == i) == list.take(i as int).to_set().subset_of(b@),
        decreases n - i,
    {
        let ghost before = list.take(i as int).to_set();
        let ghost after = list.take(i + 1).to_set();
        proof {
            lemma_take_to_set(list, i as int);
            vstd::seq_lib::seq_to_set_is_finite(list.take(i as int));
            assert(!before.contains(list[i as int])) by {
                if list.take(i as int).contains(list[i as int]) {
                    let k = choose|k: int|
                        0 <= k < i && list.take(i as int)[k] == list[i as int];
                    assert(list[k] == list[i as int]);
                }
            }
            vstd::set_lib::lemma_len_intersect(before, b@);
        }
        if b.contains(a.item(i).as_str()) {
            proof {
                assert(after.intersect(b@) == before.intersect(b@).insert(list[i as int]));
            }
            count += 1;
            assert(after.subset_of(b@) == before.subset_of(b@)) by {
                if before.subset_of(b@) {
                    assert(after.subset_of(b@));
                }
                if after.subset_of(b@) {
                    assert(before.subset_of(after));
                }
            }
        } else {
            proof {
                assert(after.intersect(b@) == before.intersect(b@));
                assert(after.contains(list[i as int]));
            }
        }
        i += 1;
    }
    assert(list.take(i as int) == list);
    count
}

/// How alike two sets of words are.
pub fn likeness_of(a: &TextSet, b: &TextSet) -> (r: Score)
    ensures
        r == likeness(a@, b@),
        r.number(),
        0 <= r.rank() <= 0x3f80_0000,
{
    let n = a.len();
    let m = b.len();
    if n == 0 || m == 0 {
        return Score { bits: 0 };
    }
    let both = shared_count(a, b);
    proof {
        vstd::set_lib::lemma_set_intersect_union_lens(a@, b@);
        vstd::set_lib::lemma_len_intersect(b@, a@);
        assert(a@.intersect(b@) == b@.intersect(a@));
    }
    let either: u128 = n as u128 + (m - both) as u128;
    share_of(both as u128, either)
}

/// How alike two names are: the share of the words in both among the words in either, whatever
/// their case.
pub fn token_jaccard(a: &str, b: &str) -> (r: Score)
    ensures
        r == likeness(tokens(a@), tokens(b@)),
        r.number(),
        0 <= r.rank() <= 0x3f80_0000,
{
    likeness_of(&tokens_of(a), &tokens_of(b))
}

/// Whether one of two sets, neither of them empty, lies within the other.
pub fn is_nested(a: &TextSet, b: &TextSet) -> (r: bool)
    ensures
        r == nested(a@, b@),
{
    let n = a.len();
    let m = b.len();
    n > 0 && m > 0 && (shared_count(a, b) == n || shared_count(b, a) == m)
}

/// Whether the words of one name, whatever their case, are all among those of the other, and
/// neither name is without words.
pub fn is_token_subset(a: &str, b: &str) -> (r: bool)
    ensures
        r == nested(tokens(a@), tokens(b@)),
{
    is_nested(&tokens_of(a), &tokens_of(b))
}

/// The question whether `first` and `second` are the same.
pub open spec fn question_on(first: Entity, second: Entity, similarity: Score) -> Question {
    Question {
        id: "quiz-alias-"@ + first.id + "-"@ + second.id,
        kind: "alias_confirm"@,
        entity_type: first.entity_type,
        entity_id_a: first.id,
        name_a: first.canonical_name,
        entity_id_b: second.id,
        name_b: second.canonical_name,
        similarity,
    }
}

/// The question on `a` and `b`, whose names hold the words `ta` and `tb`: there is one where the
/// two are of one kind, their names differ by more than the case of letters, neither name's words
/// are all in the other, and some are in both. The entity whose id comes first is named first.
pub open spec fn asked(
    a: Entity,
    ta: Set<Seq<char>>,
    b: Entity,
    tb: Set<Seq<char>>,
) -> Option<Question> {
    if a.entity_type != b.entity_type || ascii_lowered(a.canonical_name) == ascii_lowered(
        b.canonical_name,
    ) || nested(ta, tb) || likeness(ta, tb).rank() <= 0 {
        None
    } else if text_le(a.id, b.id) {
        Some(question_on(a, b, likeness(ta, tb)))
    } else {
        Some(question_on(b, a, likeness(ta, tb)))
    }
}

/// What an optional question holds.
pub open spec fn optional_question(q: Option<QuizQuestion>) -> Option<Question> {
    match q {
        Some(question) => Some(question@),
        None => None,
    }
}

fn put_question(
    first: &CanonicalEntity,
    second: &CanonicalEntity,
    similarity: Score,
) -> (r: QuizQuestion)
    ensures
        r@ == question_on(first@, second@, similarity),
{
    let mut id = "quiz-alias-".to_string();
    id.append(first.id.as_str());
    id.append("-");
    id.append(second.id.as_str());
    QuizQuestion {
        id,
        kind: "alias_confirm".to_string(),
        entity_type: first.entity_type.clone(),
        entity_id_a: first.id.clone(),
        name_a: first.canonical_name.clone(),
        entity_id_b: second.id.clone(),
        name_b: second.canonical_name.clone(),
        similarity,
    }
}

/// The question on two entities, whose names hold the words `ta` and `tb`.
pub fn ask(a: &CanonicalEntity, ta: &TextSet, b: &CanonicalEntity, tb: &TextSet) -> (r: Option<
    QuizQuestion,
>)
    ensures
        optional_question(r) == asked(a@, ta@, b@, tb@),
{
    if a.entity_type != b.entity_type {
        return None;
    }
    if same_ignoring_ascii_case(a.canonical_name.as_str(), b.canonical_name.as_str()) {
        return None;
    }
    if is_nested(ta, tb) {
        return None;
    }
    let similarity = likeness_of(ta, tb);
    if similarity.rank_value() <= 0 {
        return None;
    }
    if at_most(a.id.as_str(), b.id.as_str()) {
        Some(put_question(a, b, similarity))
    } else {
        Some(put_question(b, a, similarity))
    }
}

/// `list`, with the question in `q` behind it where there is one.
pub open spec fn with_question(list: Seq<Question>, q: Option<Question>) -> Seq<Question> {
    match q {
        Some(question) => list.push(question),
        None => list,
    }
}

/// The questions on entity `i` and those behind it, up to but not counting entity `to`.
pub open spec fn asked_on(
    entities: Seq<Entity>,
    tokens: Seq<Set<Seq<char>>>,
    i: int,
    to: int,
) -> Seq<Question>
    decreases
            if to > i {
                to - i
            } else {
                0
            },
{
    if to <= i + 1 {
        Seq::empty()
    } else {
        with_question(
            asked_on(entities, tokens, i, to - 1),
            asked(entities[i], tokens[i], entities[to - 1], tokens[to - 1]),
        )
    }
}

/// The questions on the pairs of entities whose first comes before entity `n`.
pub open spec fn asked_before(
    entities: Seq<Entity>,
    tokens: Seq<Set<Seq<char>>>,
    n: nat,
) -> Seq<Question>
    decreases n,
{
    if n == 0 {
        Seq::empty()
    } else {
        asked_before(entities, tokens, (n - 1) as nat) + asked_on(
            entities,
            tokens,
            n - 1,
            entities.len() as int,
        )
    }
}

/// The questions on all pairs of entities, whose names hold the words `tokens`.
pub open spec fn all_asked(entities: Seq<Entity>, tokens: Seq<Set<Seq<char>>>) -> Seq<Question> {
    asked_before(entities, tokens, entities.len())
}

/// What questions are sorted by: the more alike two names are, the sooner the question comes; of
/// equally alike pairs, the one whose first id comes first, and then the one whose second id does.
pub open spec fn question_rank(q: Question) -> Rank {
    Rank { weight: -q.similarity.rank(), label: q.entity_id_a, second: q.entity_id_b }
}

/// The first `limit` of `list` once it is sorted.
pub open spec fn best_questions(list: Seq<Question>, limit: nat) -> Seq<Question> {
    first_sorted(list, list.map_values(|q: Question| question_rank(q)), limit)
}

/// What a list of entities holds.
pub open spec fn entities_of(list: Seq<&CanonicalEntity>) -> Seq<Entity> {
    list.map_values(|e: &CanonicalEntity| e@)
}

/// The words in each of a list of sets.
pub open spec fn contents(sets: Seq<TextSet>) -> Seq<Set<Seq<char>>> {
    sets.map_values(|s: TextSet| s@)
}

fn sort_keys(list: &Vec<QuizQuestion>) -> (r: Vec<SortKey>)
    ensures
        r@.len() == list@.len(),
        ranks(r@) == questions(list@).map_values(|q: Question| question_rank(q)),
{
    let mut keys: Vec<SortKey> = Vec::new();
    let mut i: usize = 0;
    while i < list.len()
        invariant
            i <= list@.len(),
            keys@.len() == i,
            forall|k: int| 0 <= k < i ==> (#[trigger] keys@[k])@ == question_rank(list@[k]@),
        decreases list@.len() - i,
    {
        keys.push(
            SortKey {
                weight: -list[i].similarity.rank_value(),
                label: list[i].entity_id_a.clone(),
                second: list[i].entity_id_b.clone(),
            },
        );
        i += 1;
    }
    assert(ranks(keys@) == questions(list@).map_values(|q: Question| question_rank(q)));
    keys
}

/// The first `limit` questions on pairs of `list`, whose names hold the words `tokens`.
pub fn candidates_among(list: &Vec<&CanonicalEntity>, tokens: &Vec<TextSet>, limit: usize) -> (r:
    Vec<QuizQuestion>)
    requires
        list@.len() == tokens@.len(),
    ensures
        questions(r@) == best_questions(
            all_asked(entities_of(list@), contents(tokens@)),
            limit as nat,
        ),
{
    let ghost es = entities_of(list@);
    let ghost ts = contents(tokens@);
    let mut found: Vec<QuizQuestion> = Vec::new();
    assert(questions(found@) == asked_before(es, ts, 0));
    let n = list.len();
    let mut i: usize = 0;
    while i < n
        invariant
            i <= n == list@.len() == tokens@.len(),
            es == entities_of(list@),
            ts == contents(tokens@),
            questions(found@) == asked_before(es, ts, i as nat),
        decreases n - i,
    {
        let ghost before = asked_before(es, ts, i as nat);
        let mut j: usize = i + 1;
        assert(before + asked_on(es, ts, i as int, j as int) == before);
        while j < n
            invariant
                i < j <= n == list@.len() == tokens@.len(),
                es == entities_of(list@),
                ts == contents(tokens@),
                questions(found@) == before + asked_on(es, ts, i as int, j as int),
            decreases n - j,
        {
            let ghost prior = questions(found@);
            let question = ask(list[i], &tokens[i], list[j], &tokens[j]);
            let ghost got = optional_question(question);
            assert(got == asked(es[i as int], ts[i as int], es[j as int], ts[j as int]));
            if let Some(q) = question {
                found.push(q);
                assert(questions(found@) == prior.push(q@));
            }
            assert(questions(found@) == with_question(prior, got));
            assert(with_question(prior, got) == before + with_question(
                asked_on(es, ts, i as int, j as int),
                got,
            ));
            j += 1;
        }
        i += 1;
    }
    let keys = sort_keys(&found);
    proof {
        lemma_first_sorted_map(
            found@,
            ranks(keys@),
            limit as nat,
            |q: QuizQuestion| q@,
        );
    }
    take_first(found, &keys, limit)
}

/// The entities of a table, in the order of its entries.
pub open spec fn entities_in(walk: Seq<(Seq<char>, CanonicalEntity)>) -> Seq<Entity> {
    walk.map_values(|e: (Seq<char>, CanonicalEntity)| e.1@)
}

/// The words of each entity's name.
pub open spec fn name_tokens(entities: Seq<Entity>) -> Seq<Set<Seq<char>>> {
    entities.map_values(|e: Entity| tokens(e.canonical_name))
}

/// The first `limit` questions on pairs of `entities`.
pub open spec fn alias_questions(entities: Seq<Entity>, limit: nat) -> Seq<Question> {
    best_questions(all_asked(entities, name_tokens(entities)), limit)
}

/// Up to `limit` questions whether two of the entities are the same, those on the most similar
/// names first.
pub fn generate_alias_candidates(canonicals: &TextMap<CanonicalEntity>, limit: usize) -> (r: Vec<
    QuizQuestion,
>)
    ensures
        questions(r@) == alias_questions(entities_in(canonicals.walk()), limit as nat),
        canonicals.is_walk(canonicals.walk()),
{
    let mut list: Vec<&CanonicalEntity> = Vec::new();
    let mut sets: Vec<TextSet> = Vec::new();
    let n = canonicals.len();
    let ghost walk = canonicals.walk();
    let mut i: usize = 0;
    while i < n
        invariant
            i <= n == walk.len(),
            walk == canonicals.walk(),
            list@.len() == i,
            sets@.len() == i,
            forall|k: int| 0 <= k < i ==> (#[trigger] list@[k])@ == walk[k].1@,
            forall|k: int|
                0 <= k < i ==> (#[trigger] sets@[k])@ == tokens(walk[k].1@.canonical_name),
        decreases n - i,
    {
        let entity = canonicals.value(i);
        list.push(entity);
        sets.push(tokens_of(entity.canonical_name.as_str()));
        i += 1;
    }
    assert(entities_of(list@) == entities_in(walk));
    assert(contents(sets@) == name_tokens(entities_in(walk)));
    candidates_among(&list, &sets, limit)
}

} // verus!
