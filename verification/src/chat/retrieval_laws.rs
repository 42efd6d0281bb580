//! Which documents may be used for a question, which are, and what is used of them.
use vstd::prelude::*;
use crate::chat::chunk::{chunked, stands, stride, windows_stand_a_stride_apart, Window};
use crate::chat::rank::{
    all_numbers, best, chunk_scores, greatest, reranked, score_ranks, scores_of, sortable,
    the_best_are_kept, the_best_descend, the_top_score_bounds_the_others, top_score, Passage,
};
use crate::chat::retrieval::{
    combined, document_years, documents_of, gathered, judged, listed_under, passages_of,
    prepared, retrieved, shares_year, text_used, with_document, with_ordered, Gathered,
    Record, Verdict,
};
use crate::chat::search_laws::{
    a_year_that_stands_alone_is_found, numeral, only_years_that_stand_alone_are_found,
};
use crate::chat::years::years;
use crate::order::{lemma_first_sorted_map, order_exists, sorted, sorting_is_stable};
use crate::score::{Score, LEAST_BITS};
use crate::text::{text_order_is_total, texts};

verus! {

/// Whether a restriction lets the document `doc` through; no restriction lets all through.
pub open spec fn admits(candidates: Option<Set<Seq<char>>>, doc: Seq<char>) -> bool {
    match candidates {
        None => true,
        Some(set) => set.contains(doc),
    }
}

/// A document passes two filters exactly where it passes each of them; and together they restrict
/// nothing only where neither does.
pub proof fn two_filters_admit_what_both_admit(
    a: Option<Set<Seq<char>>>,
    b: Option<Set<Seq<char>>>,
    doc: Seq<char>,
)
    ensures
        admits(combined(a, b), doc) <==> admits(a, doc) && admits(b, doc),
        combined(a, b) is None <==> a is None && b is None,
{
}

/// The documents of some entities are those listed under any of them.
pub proof fn documents_are_those_listed(
    index: Map<Seq<char>, Vec<String>>,
    ids: Seq<Seq<char>>,
    id: Seq<char>,
    doc: Seq<char>,
)
    ensures
        ids.contains(id) && index.contains_key(id) && texts(index[id]@).contains(doc)
            ==> documents_of(index, ids).contains(doc),
        documents_of(index, ids).contains(doc) ==> exists|x: Seq<char>|
            ids.contains(x) && index.contains_key(x) && texts((#[trigger] index[x])@).contains(doc),
{
    if ids.contains(id) && index.contains_key(id) && texts(index[id]@).contains(doc) {
        let i = choose|i: int| 0 <= i < ids.len() && ids[i] == id;
        assert(index.contains_key(ids[i]));
        assert(listed_under(index, ids, doc));
    }
    if documents_of(index, ids).contains(doc) {
        let i = choose|i: int|
            0 <= i < ids.len() && index.contains_key(#[trigger] ids[i]) && texts(
                index[ids[i]]@,
            ).contains(doc);
        assert(ids.contains(ids[i]));
        assert(texts(index[ids[i]]@).contains(doc));
    }
}

/// Where a question names one to three entities and some document is listed under them, a document
/// is used only where it is listed under one of them and was let through before. In all other cases
/// the entities change nothing.
pub proof fn named_entities_restrict_the_search(
    candidates: Option<Set<Seq<char>>>,
    ids: Seq<Seq<char>>,
    index: Map<Seq<char>, Vec<String>>,
    query_years: Seq<Seq<char>>,
    some: Seq<char>,
    doc: Seq<char>,
)
    ensures
        1 <= ids.len() <= 3 && documents_of(index, ids).contains(some) ==> {
            let r = prepared(candidates, ids, index, query_years).candidates;
            r is Some && (admits(r, doc) <==> admits(candidates, doc) && documents_of(
                index,
                ids,
            ).contains(doc))
        },
        ids.len() == 0 || ids.len() > 3 ==> prepared(
            candidates,
            ids,
            index,
            query_years,
        ).candidates == candidates,
        (forall|d: Seq<char>| !#[trigger] documents_of(index, ids).contains(d)) ==> prepared(
            candidates,
            ids,
            index,
            query_years,
        ).candidates == candidates,
        prepared(candidates, ids, index, query_years).query_years == query_years,
        prepared(candidates, ids, index, query_years).gathered.kept.len() == 0,
        prepared(candidates, ids, index, query_years).gathered.documents == 0,
{
    let docs = documents_of(index, ids);
    if forall|d: Seq<char>| !#[trigger] docs.contains(d) {
        assert(docs == Set::<Seq<char>>::empty());
    }
}

/// Whether a year of the document is one that the question names.
pub open spec fn same_year(d: Record, query_years: Seq<Seq<char>>, y: Seq<char>) -> bool {
    query_years.contains(y) && (years(d.title).contains(y) || years(d.path).contains(y))
}

proof fn lemma_first_part_years(t: Seq<char>, p: Seq<char>, y: Seq<char>)
    requires
        years(t).contains(y),
    ensures
        years(t + " "@ + p).contains(y),
{
    let s = t + " "@ + p;
    let n = t.len() as int;
    assert(" "@.len() == 1 && " "@[0] == ' ') by {
        reveal_strlit(" ");
    }
    assert(!numeral(' '));
    only_years_that_stand_alone_are_found(t, y);
    let i = choose|i: int|
        0 <= i && i + 4 <= t.len() && #[trigger] t.subrange(i, i + 4) == y && (i == 0
            || !numeral(t[i - 1])) && (i + 4 == t.len() || !numeral(t[i + 4]));
    let a = t.take(i);
    let b = t.skip(i + 4) + " "@ + p;
    assert(s == a + y + b) by {
        assert forall|k: int| 0 <= k < s.len() implies s[k] == (a + y + b)[k] by {
            if i <= k < i + 4 {
                assert(t.subrange(i, i + 4)[k - i] == t[k]);
            }
        }
    }
    if a.len() > 0 {
        assert(a.last() == t[i - 1]);
    }
    if i + 4 == n {
        assert(b.first() == ' ');
    } else {
        assert(b.first() == t[i + 4]);
    }
    a_year_that_stands_alone_is_found(a, y, b);
}

proof fn lemma_second_part_years(t: Seq<char>, p: Seq<char>, y: Seq<char>)
    requires
        years(p).contains(y),
    ensures
        years(t + " "@ + p).contains(y),
{
    let s = t + " "@ + p;
    let n = t.len() as int;
    assert(" "@.len() == 1 && " "@[0] == ' ') by {
        reveal_strlit(" ");
    }
    assert(!numeral(' '));
    only_years_that_stand_alone_are_found(p, y);
    let i = choose|i: int|
        0 <= i && i + 4 <= p.len() && #[trigger] p.subrange(i, i + 4) == y && (i == 0
            || !numeral(p[i - 1])) && (i + 4 == p.len() || !numeral(p[i + 4]));
    let a = t + " "@ + p.take(i);
    let b = p.skip(i + 4);
    assert(s == a + y + b) by {
        assert forall|k: int| 0 <= k < s.len() implies s[k] == (a + y + b)[k] by {
            if n + 1 + i <= k < n + 1 + i + 4 {
                assert(p.subrange(i, i + 4)[k - n - 1 - i] == p[k - n - 1]);
            }
        }
    }
    if i == 0 {
        assert(a.last() == ' ');
    } else {
        assert(a.last() == p[i - 1]);
    }
    if b.len() > 0 {
        assert(b.first() == p[i + 4]);
    }
    a_year_that_stands_alone_is_found(a, y, b);
}

proof fn lemma_years_of_parts(t: Seq<char>, p: Seq<char>, y: Seq<char>)
    requires
        years(t + " "@ + p).contains(y),
    ensures
        years(t).contains(y) || years(p).contains(y),
{
    let s = t + " "@ + p;
    let n = t.len() as int;
    assert(" "@.len() == 1 && " "@[0] == ' ') by {
        reveal_strlit(" ");
    }
    assert(!numeral(' '));
    only_years_that_stand_alone_are_found(s, y);
    let i = choose|i: int|
        0 <= i && i + 4 <= s.len() && #[trigger] s.subrange(i, i + 4) == y && (i == 0
            || !numeral(s[i - 1])) && (i + 4 == s.len() || !numeral(s[i + 4]));
    assert(numeral(y[0]) && numeral(y[1]) && numeral(y[2]) && numeral(y[3]));
    assert(s[n] == ' ');
    assert forall|k: int| 0 <= k < 4 implies s[i + k] == #[trigger] y[k] by {
        assert(s.subrange(i, i + 4)[k] == s[i + k]);
    }
    assert(s[i] == y[0] && s[i + 1] == y[1] && s[i + 2] == y[2] && s[i + 3] == y[3]);
    assert(i + 4 <= n || n < i);
    if i + 4 <= n {
        let a = t.take(i);
        let b = t.skip(i + 4);
        assert(t == a + y + b);
        if a.len() > 0 {
            assert(a.last() == s[i - 1]);
        }
        if b.len() > 0 {
            assert(b.first() == s[i + 4]);
        }
        a_year_that_stands_alone_is_found(a, y, b);
    } else {
        let j = i - n - 1;
        let a = p.take(j);
        let b = p.skip(j + 4);
        assert(p == a + y + b);
        if a.len() > 0 {
            assert(a.last() == s[i - 1]);
        }
        if b.len() > 0 {
            assert(b.first() == s[i + 4]);
        }
        a_year_that_stands_alone_is_found(a, y, b);
    }
}

/// The years of a document are those that its title names, and those that its path names.
pub proof fn title_and_path_give_the_years(d: Record, y: Seq<char>)
    ensures
        document_years(d).contains(y) <==> years(d.title).contains(y) || years(d.path).contains(y),
{
    if years(d.title).contains(y) {
        lemma_first_part_years(d.title, d.path, y);
    }
    if years(d.path).contains(y) {
        lemma_second_part_years(d.title, d.path, y);
    }
    if document_years(d).contains(y) {
        lemma_years_of_parts(d.title, d.path, y);
    }
}

/// A document scores higher exactly where it is let through, something is known of it, and one of
/// the years that the question names, whichever it is, is one of its own.
pub proof fn any_shared_year_boosts(
    id: Seq<char>,
    document: Option<Record>,
    candidates: Option<Set<Seq<char>>>,
    query_years: Seq<Seq<char>>,
    y: Seq<char>,
)
    ensures
        admits(candidates, id) && document is Some && same_year(document->Some_0, query_years, y)
            ==> judged(id, document, candidates, query_years) == Verdict::Boosted,
        judged(id, document, candidates, query_years) == Verdict::Boosted ==> admits(candidates, id)
            && document is Some && exists|z: Seq<char>|
            #[trigger] same_year(document->Some_0, query_years, z),
{
    if let Some(d) = document {
        let own = document_years(d);
        title_and_path_give_the_years(d, y);
        if same_year(d, query_years, y) {
            let i = choose|i: int| 0 <= i < query_years.len() && query_years[i] == y;
            assert(own.contains(query_years[i]));
            assert(shares_year(query_years, own));
        }
        if shares_year(query_years, own) {
            let i = choose|i: int|
                0 <= i < query_years.len() && own.contains(#[trigger] query_years[i]);
            let z = query_years[i];
            title_and_path_give_the_years(d, z);
            assert(query_years.contains(z));
            assert(same_year(d, query_years, z));
        }
    }
}

/// A document is left out exactly where it is not let through, or nothing is known of it, or where
/// nothing restricts the search, the question names years, the document has years of its own and
/// shares none of them.
pub proof fn documents_of_other_years_are_left_out(
    id: Seq<char>,
    document: Option<Record>,
    candidates: Option<Set<Seq<char>>>,
    query_years: Seq<Seq<char>>,
)
    ensures
        judged(id, document, candidates, query_years) == Verdict::Skip <==> {
            ||| !admits(candidates, id)
            ||| document is None
            ||| {
                &&& candidates is None
                &&& query_years.len() > 0
                &&& exists|y: Seq<char>|
                    #![trigger years(document->Some_0.title).contains(y)]
                    #![trigger years(document->Some_0.path).contains(y)]
                    years(document->Some_0.title).contains(y) || years(
                        document->Some_0.path,
                    ).contains(y)
                &&& forall|y: Seq<char>| !#[trigger] same_year(document->Some_0, query_years, y)
            }
        },
{
    if let Some(d) = document {
        let own = document_years(d);
        if own.len() > 0 {
            assert(own.contains(own[0]));
            title_and_path_give_the_years(d, own[0]);
        }
        if exists|y: Seq<char>|
            #![trigger years(d.title).contains(y)]
            #![trigger years(d.path).contains(y)]
            years(d.title).contains(y) || years(d.path).contains(y) {
            let y = choose|y: Seq<char>|
                #![trigger years(d.title).contains(y)]
                #![trigger years(d.path).contains(y)]
                years(d.title).contains(y) || years(d.path).contains(y);
            title_and_path_give_the_years(d, y);
            assert(own.len() > 0);
        }
        if shares_year(query_years, own) {
            let i = choose|i: int|
                0 <= i < query_years.len() && own.contains(#[trigger] query_years[i]);
            title_and_path_give_the_years(d, query_years[i]);
            assert(query_years.contains(query_years[i]));
            assert(same_year(d, query_years, query_years[i]));
        } else {
            assert forall|y: Seq<char>| !#[trigger] same_year(d, query_years, y) by {
                if same_year(d, query_years, y) {
                    title_and_path_give_the_years(d, y);
                    let i = choose|i: int| 0 <= i < query_years.len() && query_years[i] == y;
                    assert(own.contains(query_years[i]));
                }
            }
        }
    }
}

/// The text of a document is that of its file, where it has a path and the file could be read; else
/// its excerpt; and empty where there is none.
pub proof fn the_file_comes_first(d: Record, text: Seq<char>)
    ensures
        d.path.len() > 0 ==> text_used(d, Some(text)) == text,
        d.path.len() == 0 && d.excerpt is Some ==> text_used(d, Some(text)) == d.excerpt->Some_0,
        d.excerpt is Some ==> text_used(d, None) == d.excerpt->Some_0,
        d.excerpt is None ==> text_used(d, None).len() == 0,
        d.excerpt is None && d.path.len() == 0 ==> text_used(d, Some(text)).len() == 0,
{
}

/// The window numbered `k` of a text holds its characters from `k` strides on, `size` of them or as
/// many as are left, and says where they stand. A stride is `size - overlap`, and at least one. All
/// but the last window end before the text does; the last one ends with it.
pub proof fn a_window_holds_what_stands_there(s: Seq<char>, size: nat, overlap: nat, k: int)
    requires
        size > 0,
        0 <= k < chunked(s, size, overlap).len(),
    ensures
        ({
            let step: int = if size > overlap {
                size - overlap
            } else {
                1
            };
            let from = k * step;
            let to = if from + size < s.len() {
                from + size
            } else {
                s.len() as int
            };
            let w = chunked(s, size, overlap)[k];
            &&& 0 <= from <= s.len()
            &&& w.text == s.subrange(from, to)
            &&& w.start == from as u32
            &&& w.end == to as u32
            &&& k < chunked(s, size, overlap).len() - 1 ==> to < s.len()
            &&& k == chunked(s, size, overlap).len() - 1 ==> to == s.len()
        }),
        s.len() > size ==> chunked(s, size, overlap).len() > 1,
        chunked(s, size, overlap).len() > 0,
{
    windows_stand_a_stride_apart(s, size, overlap);
    assert(stands(
        s,
        0,
        size,
        stride(size, overlap),
        chunked(s, size, overlap),
        k,
    ));
    if s.len() > size {
        assert(stands(
            s,
            0,
            size,
            stride(size, overlap),
            chunked(s, size, overlap),
            0,
        ));
    }
}

/// A text that is not empty has at least one window.
pub proof fn every_text_has_a_window(s: Seq<char>, size: nat, overlap: nat)
    requires
        size > 0,
    ensures
        chunked(s, size, overlap).len() > 0,
{
    if s.len() > 0 {
        windows_stand_a_stride_apart(s, size, overlap);
    }
}

/// A document is scored by windows of five hundred characters that overlap by fifty, and one
/// without text by none.
pub proof fn documents_are_scored_by_windows_of_five_hundred(text: Seq<char>)
    ensures
        text.len() > 0 ==> passages_of(text) == chunked(text, 500, 50),
        text.len() == 0 ==> passages_of(text).len() == 0,
{
}

/// The passages of one more document add the three best of them, in the order of their scores, as
/// long as fewer than eight documents were used.
pub proof fn a_document_adds_its_three_best(g: Gathered, scored: Seq<Passage>)
    ensures
        scored.len() > 0 && g.documents < 8 ==> with_document(g, scored).kept == g.kept + best(
            scored,
            3,
        ) && with_document(g, scored).documents == g.documents + 1,
        scored.len() == 0 || g.documents >= 8 ==> with_document(g, scored) == g,
{
}

/// What an answer may rest on are the twelve best of what was kept.
pub proof fn the_twelve_best_are_used(documents: Seq<Seq<Passage>>)
    ensures
        retrieved(documents) == best(gathered(documents).kept, 12),
        gathered(Seq::empty()).kept.len() == 0,
        gathered(Seq::empty()).documents == 0,
{
}

/// Of two passages in a list, the one that stands first comes first among the best too, unless the
/// other scores higher.
pub proof fn equals_keep_their_order(list: Seq<Passage>, i: int, j: int)
    requires
        0 <= i < j < list.len(),
        all_numbers(scores_of(list)),
        list[i].score.rank() >= list[j].score.rank(),
    ensures
        exists|k: int, l: int|
            0 <= k < l < list.len() && #[trigger] best(list, list.len())[k] == list[i]
                && #[trigger] best(list, list.len())[l] == list[j],
{
    let ranks = score_ranks(scores_of(list));
    order_exists(ranks);
    text_order_is_total(Seq::empty(), Seq::empty());
    assert(scores_of(list)[i] == list[i].score && scores_of(list)[j] == list[j].score);
    sorting_is_stable(list, ranks, i, j);
    let all = sorted(list, ranks);
    assert(best(list, list.len()) == all);
    let (k, l) = choose|k: int, l: int|
        0 <= k < l < list.len() && #[trigger] all[k] == list[i] && #[trigger] all[l] == list[j];
    assert(best(list, list.len())[k] == list[i] && best(list, list.len())[l] == list[j]);
}

/// Keeping fewer keeps the front of what keeping all would.
pub proof fn fewer_are_the_front_of_all(list: Seq<Passage>, limit: nat)
    ensures
        best(list, limit).is_prefix_of(best(list, list.len())),
        best(list, limit).len() == if list.len() < limit {
            list.len()
        } else {
            limit
        },
{
    order_exists(score_ranks(scores_of(list)));
}

/// The best score is one that was found, or the least there is.
pub proof fn the_top_score_was_found(list: Seq<Passage>)
    requires
        list.len() > 0,
    ensures
        top_score(list) == (Score { bits: LEAST_BITS }) || exists|i: int|
            0 <= i < list.len() && (#[trigger] list[i]).score == top_score(list),
        forall|i: int|
            0 <= i < list.len() && (#[trigger] list[i]).score.number() ==> list[i].score.rank()
                <= top_score(list).rank(),
        top_score(Seq::<Passage>::empty()) == (Score { bits: 0 }),
{
    lemma_greatest_was_found(list);
    assert forall|i: int| 0 <= i < list.len() && (#[trigger] list[i]).score.number() implies list[
    i].score.rank() <= top_score(list).rank() by {
        the_top_score_bounds_the_others(list, i);
    }
}

proof fn lemma_greatest_was_found(list: Seq<Passage>)
    ensures
        greatest(list) == (Score { bits: LEAST_BITS }) || exists|i: int|
            0 <= i < list.len() && (#[trigger] list[i]).score == greatest(list),
    decreases list.len(),
{
    if list.len() > 0 {
        let short = list.drop_last();
        lemma_greatest_was_found(short);
        if greatest(list) != (Score { bits: LEAST_BITS }) {
            if greatest(list) == list.last().score {
                assert(list[list.len() - 1].score == greatest(list));
            } else {
                let i = choose|i: int|
                    0 <= i < short.len() && (#[trigger] short[i]).score == greatest(short);
                assert(list[i].score == greatest(list));
            }
        }
    }
}

/// The passages of one more document that come in an order of their own add the first three of
/// them, as long as fewer than eight documents were used.
pub proof fn ordered_passages_add_the_first_three(g: Gathered, list: Seq<Passage>)
    ensures
        list.len() > 0 && g.documents < 8 ==> {
            &&& with_ordered(g, list).documents == g.documents + 1
            &&& with_ordered(g, list).kept == g.kept + list.take(
                if list.len() < 3 {
                    list.len() as int
                } else {
                    3
                },
            )
        },
        list.len() == 0 || g.documents >= 8 ==> with_ordered(g, list) == g,
{
    assert(list.take(list.len() as int) == list);
}

/// Scores can be put in an order exactly where all are numbers, or all the numbers among them are
/// the same.
pub proof fn numbers_can_be_put_in_an_order(scores: Seq<Score>)
    ensures
        sortable(scores) <==> (forall|i: int|
            0 <= i < scores.len() ==> (#[trigger] scores[i]).number()) || (forall|i: int, j: int|
            0 <= i < scores.len() && 0 <= j < scores.len() && (#[trigger] scores[i]).number() && (
            #[trigger] scores[j]).number() ==> scores[i].rank() == scores[j].rank()),
{
}

/// Scored chunks are ranked as the passages of documents are: which are kept, and in what order,
/// goes by the scores and by where they stand.
pub proof fn chunks_are_ranked_like_passages(
    list: Seq<(Seq<char>, Window, Score)>,
    title: Seq<char>,
    limit: nat,
)
    ensures
        reranked(list, limit).map_values(
            |c: (Seq<char>, Window, Score)|
                Passage { doc_id: c.0, doc_title: title, window: c.1, score: c.2 },
        ) == best(
            list.map_values(
                |c: (Seq<char>, Window, Score)|
                    Passage { doc_id: c.0, doc_title: title, window: c.1, score: c.2 },
            ),
            limit,
        ),
{
    let f = |c: (Seq<char>, Window, Score)|
        Passage { doc_id: c.0, doc_title: title, window: c.1, score: c.2 };
    let scores = chunk_scores(list);
    assert(scores_of(list.map_values(f)) == scores);
    lemma_first_sorted_map(list, score_ranks(scores), limit, f);
}

/// The scored chunks that are kept are as many as asked for, or all; each was given; none scores
/// higher than one before it, and none that is left out scores higher than one that is kept.
pub proof fn the_best_chunks_are_kept(
    list: Seq<(Seq<char>, Window, Score)>,
    limit: nat,
    out: (Seq<char>, Window, Score),
)
    requires
        sortable(chunk_scores(list)),
    ensures
        reranked(list, limit).len() == if limit < list.len() {
            limit
        } else {
            list.len()
        },
        forall|k: int|
            0 <= k < reranked(list, limit).len() ==> list.contains(
                #[trigger] reranked(list, limit)[k],
            ),
        forall|k: int, l: int|
            0 <= k < l < reranked(list, limit).len() ==> !(#[trigger] reranked(
                list,
                limit,
            )[k]).2.less((#[trigger] reranked(list, limit)[l]).2),
        list.contains(out) && !reranked(list, limit).contains(out) ==> forall|k: int|
            0 <= k < reranked(list, limit).len() ==> !(#[trigger] reranked(
                list,
                limit,
            )[k]).2.less(out.2),
{
    let none = Seq::<char>::empty();
    let f = |c: (Seq<char>, Window, Score)|
        Passage { doc_id: c.0, doc_title: none, window: c.1, score: c.2 };
    let few = reranked(list, limit);
    let passages = list.map_values(f);
    assert(scores_of(passages) == chunk_scores(list));
    chunks_are_ranked_like_passages(list, none, limit);
    let kept = best(passages, limit);
    assert(few.map_values(f) == kept);
    the_best_descend(passages, limit);
    assert forall|k: int| 0 <= k < few.len() implies list.contains(#[trigger] few[k]) by {
        assert(kept[k] == f(few[k]));
        assert(kept.contains(kept[k]));
        assert(passages.contains(kept[k]));
        let i = choose|i: int| 0 <= i < passages.len() && passages[i] == kept[k];
        assert(passages[i] == f(list[i]));
        assert(list[i] == few[k]);
    }
    assert forall|k: int, l: int| 0 <= k < l < few.len() implies !(#[trigger] few[k]).2.less(
        (#[trigger] few[l]).2,
    ) by {
        assert(kept[k] == f(few[k]) && kept[l] == f(few[l]));
        assert(!best(passages, limit)[k].score.less(best(passages, limit)[l].score));
    }
    if list.contains(out) && !few.contains(out) {
        let i = choose|i: int| 0 <= i < list.len() && list[i] == out;
        assert(passages[i] == f(out));
        if kept.contains(f(out)) {
            let k = choose|k: int| 0 <= k < kept.len() && kept[k] == f(out);
            assert(f(few[k]) == f(out));
            assert(few[k] == out);
        }
        assert forall|k: int| 0 <= k < few.len() implies !(#[trigger] few[k]).2.less(out.2) by {
            assert(kept[k] == f(few[k]));
            assert(kept.contains(kept[k]));
            the_best_are_kept(passages, limit, f(out), kept[k]);
        }
    }
}

} // verus!
