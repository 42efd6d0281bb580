//! The passages that were found: how they are ranked, and whether the best is good enough.
use vstd::prelude::*;
use crate::chat::chunk::{Chunk, Window};
use crate::order::{
    first_sorted, lemma_first_sorted_map, ranks, sorted, sorted_items_ascend,
    sorting_keeps_the_items, take_first, Rank, SortKey,
};
use crate::score::{Score, FLOOR_BITS, LEAST_BITS};

verus! {

/// A passage of a document, and how well it fits the query.
#[derive(Debug)]
pub struct Candidate {
    pub doc_id: String,
    pub doc_title: String,
    pub chunk: Chunk,
    pub score: Score,
}

/// What a candidate holds.
pub struct Passage {
    pub doc_id: Seq<char>,
    pub doc_title: Seq<char>,
    pub window: Window,
    pub score: Score,
}

impl View for Candidate {
    type V = Passage;

    open spec fn view(&self) -> Passage {
        Passage {
            doc_id: self.doc_id@,
            doc_title: self.doc_title@,
            window: self.chunk@,
            score: self.score,
        }
    }
}

/// What a list of candidates holds.
pub open spec fn found(list: Seq<Candidate>) -> Seq<Passage> {
    list.map_values(|c: Candidate| c@)
}

/// The scores of a list of passages.
pub open spec fn scores_of(list: Seq<Passage>) -> Seq<Score> {
    list.map_values(|p: Passage| p.score)
}

/// Whether all of `scores` are numbers.
pub open spec fn all_numbers(scores: Seq<Score>) -> bool {
    forall|i: int| 0 <= i < scores.len() ==> (#[trigger] scores[i]).number()
}

/// Whether all the numbers among `scores` are equal.
pub open spec fn numbers_tie(scores: Seq<Score>) -> bool {
    forall|i: int, j: int|
        0 <= i < scores.len() && 0 <= j < scores.len() && (#[trigger] scores[i]).number() && (
        #[trigger] scores[j]).number() ==> scores[i].rank() == scores[j].rank()
}

/// Whether `scores` can be put in an order. What is no number ties with every score; where there
/// is such a one, two numbers that differ would both tie with it.
pub open spec fn sortable(scores: Seq<Score>) -> bool {
    all_numbers(scores) || numbers_tie(scores)
}

/// What a score is sorted by: the greater come first where all scores are numbers, and all tie
/// where one is not.
pub open spec fn score_rank(score: Score, numbers: bool) -> Rank {
    Rank {
        weight: if numbers {
            -score.rank()
        } else {
            0
        },
        label: Seq::empty(),
        second: Seq::empty(),
    }
}

/// What each of `scores` is sorted by.
pub open spec fn score_ranks(scores: Seq<Score>) -> Seq<Rank> {
    scores.map_values(|s: Score| score_rank(s, all_numbers(scores)))
}

/// The `limit` best of `list`, the best first; of equals, those that stand first.
pub open spec fn best(list: Seq<Passage>, limit: nat) -> Seq<Passage> {
    first_sorted(list, score_ranks(scores_of(list)), limit)
}

fn are_numbers(scores: &Vec<Score>) -> (r: bool)
    ensures
        r == all_numbers(scores@),
{
    let mut i: usize = 0;
    while i < scores.len()
        invariant
            i <= scores@.len(),
            forall|k: int| 0 <= k < i ==> (#[trigger] scores@[k]).number(),
        decreases scores@.len() - i,
    {
        if !scores[i].is_number() {
            return false;
        }
        i += 1;
    }
    true
}

fn sort_keys(scores: &Vec<Score>) -> (r: Vec<SortKey>)
    ensures
        r@.len() == scores@.len(),
        ranks(r@) == score_ranks(scores@),
{
    let numbers = are_numbers(scores);
    let mut keys: Vec<SortKey> = Vec::new();
    let mut i: usize = 0;
    while i < scores.len()
        invariant
            i <= scores@.len(),
            keys@.len() == i,
            forall|k: int| 0 <= k < i ==> (#[trigger] keys@[k])@ == score_rank(scores@[k], numbers),
        decreases scores@.len() - i,
    {
        let weight: i64 = if numbers {
            -scores[i].rank_value()
        } else {
            0
        };
        let key = SortKey { weight, label: String::new(), second: String::new() };
        assert(key@.label == Seq::<char>::empty() && key@.second == Seq::<char>::empty());
        keys.push(key);
        i += 1;
    }
    assert(ranks(keys@) == score_ranks(scores@));
    keys
}

fn scores_in(list: &Vec<Candidate>) -> (r: Vec<Score>)
    ensures
        r@ == scores_of(found(list@)),
{
    let mut scores: Vec<Score> = Vec::new();
    let mut i: usize = 0;
    while i < list.len()
        invariant
            i <= list@.len(),
            scores@ == scores_of(found(list@)).take(i as int),
        decreases list@.len() - i,
    {
        scores.push(list[i].score);
        i += 1;
        assert(scores_of(found(list@)).take(i as int) == scores_of(found(list@)).take(i - 1).push(
            list@[i - 1].score,
        ));
    }
    assert(scores_of(found(list@)).take(i as int) == scores_of(found(list@)));
    scores
}

/// Whether the scores of `list` can be put in an order.
pub fn can_sort(list: &Vec<Candidate>) -> (r: bool)
    ensures
        r == sortable(scores_of(found(list@))),
{
    let scores = scores_in(list);
    if are_numbers(&scores) {
        return true;
    }
    let mut first: usize = 0;
    while first < scores.len() && !scores[first].is_number()
        invariant
            first <= scores@.len(),
            forall|k: int| 0 <= k < first ==> !(#[trigger] scores@[k]).number(),
        decreases scores@.len() - first,
    {
        first += 1;
    }
    let mut i: usize = first;
    while i < scores.len()
        invariant
            first <= i <= scores@.len(),
            first < scores@.len() ==> scores@[first as int].number(),
            forall|k: int| 0 <= k < first ==> !(#[trigger] scores@[k]).number(),
            forall|k: int|
                first <= k < i && (#[trigger] scores@[k]).number() ==> scores@[k].rank()
                    == scores@[first as int].rank(),
            !all_numbers(scores@),
            scores@ == scores_of(found(list@)),
        decreases scores@.len() - i,
    {
        if scores[i].is_number() && scores[i].rank_value() != scores[first].rank_value() {
            assert(!numbers_tie(scores@));
            return false;
        }
        i += 1;
    }
    true
}

/// The `limit` best of `list`, the best first; of equals, those that stand first.
pub fn keep_best(list: Vec<Candidate>, limit: usize) -> (r: Vec<Candidate>)
    requires
        sortable(scores_of(found(list@))),
    ensures
        found(r@) == best(found(list@), limit as nat),
{
    let scores = scores_in(&list);
    let keys = sort_keys(&scores);
    proof {
        lemma_first_sorted_map(list@, ranks(keys@), limit as nat, |c: Candidate| c@);
    }
    take_first(list, &keys, limit)
}

/// What a list of scored chunks holds.
pub open spec fn scored(list: Seq<(String, Chunk, Score)>) -> Seq<(Seq<char>, Window, Score)> {
    list.map_values(|c: (String, Chunk, Score)| (c.0@, c.1@, c.2))
}

/// The scores of a list of scored chunks.
pub open spec fn chunk_scores(list: Seq<(Seq<char>, Window, Score)>) -> Seq<Score> {
    list.map_values(|c: (Seq<char>, Window, Score)| c.2)
}

/// The `limit` best of a list of scored chunks, the best first; of equals, those that stand first.
pub open spec fn reranked(list: Seq<(Seq<char>, Window, Score)>, limit: nat) -> Seq<
    (Seq<char>, Window, Score),
> {
    first_sorted(list, score_ranks(chunk_scores(list)), limit)
}

/// Sorts `candidates` by their scores, the greatest first, and keeps the first `top_k`.
pub fn rerank_chunks(candidates: Vec<(String, Chunk, Score)>, top_k: usize) -> (r: Vec<
    (String, Chunk, Score),
>)
    requires
        sortable(chunk_scores(scored(candidates@))),
    ensures
        scored(r@) == reranked(scored(candidates@), top_k as nat),
{
    let ghost all = chunk_scores(scored(candidates@));
    let mut scores: Vec<Score> = Vec::new();
    let mut i: usize = 0;
    while i < candidates.len()
        invariant
            i <= candidates@.len(),
            all == chunk_scores(scored(candidates@)),
            scores@ == all.take(i as int),
        decreases candidates@.len() - i,
    {
        scores.push(candidates[i].2);
        i += 1;
        assert(all.take(i as int) == all.take(i - 1).push(candidates@[i - 1].2));
    }
    assert(all.take(i as int) == all);
    let keys = sort_keys(&scores);
    proof {
        lemma_first_sorted_map(
            candidates@,
            ranks(keys@),
            top_k as nat,
            |c: (String, Chunk, Score)| (c.0@, c.1@, c.2),
        );
    }
    take_first(candidates, &keys, top_k)
}

/// Of the best passages there are at most `limit`, each was in the list, and where the scores can
/// be put in an order, none scores higher than one before it.
pub proof fn the_best_descend(list: Seq<Passage>, limit: nat)
    ensures
        best(list, limit).len() == if limit < list.len() {
            limit
        } else {
            list.len()
        },
        forall|p: Passage| best(list, limit).contains(p) ==> list.contains(p),
        sortable(scores_of(list)) ==> forall|k: int, l: int|
            0 <= k < l < best(list, limit).len() ==> !best(list, limit)[k].score.less(
                best(list, limit)[l].score,
            ),
{
    let all = sorted(list, score_ranks(scores_of(list)));
    let few = best(list, limit);
    sorting_keeps_the_items(list, score_ranks(scores_of(list)));
    assert forall|p: Passage| few.contains(p) implies list.contains(p) by {
        let k = choose|k: int| 0 <= k < few.len() && few[k] == p;
        assert(all[k] == p);
        assert(all.contains(p));
    }
    if sortable(scores_of(list)) {
        assert forall|k: int, l: int| 0 <= k < l < few.len() implies !few[k].score.less(
            few[l].score,
        ) by {
            assert(few[k] == all[k] && few[l] == all[l]);
            lemma_sorted_scores(list, k, l);
        }
    }
}

proof fn lemma_sorted_scores(list: Seq<Passage>, k: int, l: int)
    requires
        sortable(scores_of(list)),
        0 <= k < l < list.len(),
    ensures
        !sorted(list, score_ranks(scores_of(list)))[k].score.less(
            sorted(list, score_ranks(scores_of(list)))[l].score,
        ),
{
    let scores = scores_of(list);
    let numbers = all_numbers(scores);
    let rank = |p: Passage| score_rank(p.score, numbers);
    let all = sorted(list, list.map_values(rank));
    assert(list.map_values(rank) == score_ranks(scores));
    sorted_items_ascend(list, rank, k, l);
    sorting_keeps_the_items(list, list.map_values(rank));
    assert(all.contains(all[k]) && all.contains(all[l]));
    assert(list.contains(all[k]) && list.contains(all[l]));
    let i = choose|i: int| 0 <= i < list.len() && list[i] == all[k];
    let j = choose|j: int| 0 <= j < list.len() && list[j] == all[l];
    assert(scores[i] == all[k].score && scores[j] == all[l].score);
}

/// No passage that is left out scores higher than one that is kept.
pub proof fn the_best_are_kept(list: Seq<Passage>, limit: nat, out: Passage, kept: Passage)
    requires
        sortable(scores_of(list)),
        list.contains(out),
        !best(list, limit).contains(out),
        best(list, limit).contains(kept),
    ensures
        !kept.score.less(out.score),
{
    let all = sorted(list, score_ranks(scores_of(list)));
    let few = best(list, limit);
    sorting_keeps_the_items(list, score_ranks(scores_of(list)));
    assert(all.contains(out));
    let l = choose|l: int| 0 <= l < all.len() && all[l] == out;
    let k = choose|k: int| 0 <= k < few.len() && few[k] == kept;
    if l < few.len() {
        assert(few[l] == out);
    }
    assert(all[k] == kept);
    lemma_sorted_scores(list, k, l);
}

/// What is answered where nothing was found that fits well enough.
pub const NO_MATCH_ANSWER: &'static str = "I couldn't find anything relevant in your library.";

/// The answer to give without asking a language model: there is one where the best score is below
/// the floor.
pub fn answer_or_canned(best_score: Score) -> (r: Option<&'static str>)
    ensures
        r is Some <==> best_score.less((Score { bits: FLOOR_BITS })),
        r matches Some(text) ==> text@ == NO_MATCH_ANSWER@,
{
    if best_score.is_less(&Score { bits: FLOOR_BITS }) {
        Some(NO_MATCH_ANSWER)
    } else {
        None
    }
}

/// The greatest of the numbers among the scores, and at least the least finite one.
pub open spec fn greatest(list: Seq<Passage>) -> Score
    decreases list.len(),
{
    if list.len() == 0 {
        Score { bits: LEAST_BITS }
    } else {
        let before = greatest(list.drop_last());
        if before.less(list.last().score) {
            list.last().score
        } else {
            before
        }
    }
}

/// The score of the best passage; `0.0` where there is none.
pub open spec fn top_score(list: Seq<Passage>) -> Score {
    if list.len() == 0 {
        Score { bits: 0 }
    } else {
        greatest(list)
    }
}

/// The score of the best passage; `0.0` where there is none.
pub fn best_score(list: &Vec<Candidate>) -> (r: Score)
    ensures
        r == top_score(found(list@)),
{
    if list.len() == 0 {
        return Score { bits: 0 };
    }
    let ghost all = found(list@);
    let mut top = Score { bits: LEAST_BITS };
    let mut i: usize = 0;
    while i < list.len()
        invariant
            i <= list@.len(),
            all == found(list@),
            top == greatest(all.take(i as int)),
        decreases list@.len() - i,
    {
        assert(all.take(i + 1).drop_last() == all.take(i as int));
        if top.is_less(&list[i].score) {
            top = list[i].score;
        }
        i += 1;
    }
    assert(all.take(i as int) == all);
    top
}

/// Nothing that was found means no answer from a language model; and of what was found, no score
/// that is a number is above the best.
pub proof fn the_top_score_bounds_the_others(list: Seq<Passage>, i: int)
    requires
        0 <= i < list.len(),
    ensures
        greatest(list).number(),
        list[i].score.number() ==> list[i].score.rank() <= greatest(list).rank(),
        top_score(Seq::<Passage>::empty()).less((Score { bits: FLOOR_BITS })),
    decreases list.len(),
{
    lemma_greatest_is_number(list.drop_last());
    if i < list.len() - 1 {
        the_top_score_bounds_the_others(list.drop_last(), i);
        assert(list.drop_last()[i] == list[i]);
    }
}

proof fn lemma_greatest_is_number(list: Seq<Passage>)
    ensures
        greatest(list).number(),
    decreases list.len(),
{
    if list.len() > 0 {
        lemma_greatest_is_number(list.drop_last());
    }
}

} // verus!
