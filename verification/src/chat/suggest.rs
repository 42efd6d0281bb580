//! Follow-up questions to offer after an answer.
use vstd::prelude::*;
use vstd::string::*;
use crate::chat::engine::ChatEngine;
use crate::chat::years::years;
use crate::order::{
    comes_first, order_covers, order_exists, order_of, ranks, sorted, take_first, Rank, SortKey,
};
use crate::text::{
    add_text, contains_text, lemma_with_item, lowercase, occurs, text_le, text_order_is_total, texts,
    with_item,
};
use crate::types::{sources, titles_of, Citation};

verus! {

/// `list`, with each text of `more` behind it that is not there already.
pub open spec fn with_all(list: Seq<Seq<char>>, more: Seq<Seq<char>>) -> Seq<Seq<char>>
    decreases more.len(),
{
    if more.len() == 0 {
        list
    } else {
        with_item(with_all(list, more.drop_last()), more.last())
    }
}

/// The years that titles name, each once, in the order they first occur in.
pub open spec fn title_years(titles: Seq<Seq<char>>) -> Seq<Seq<char>>
    decreases titles.len(),
{
    if titles.len() == 0 {
        Seq::empty()
    } else {
        with_all(title_years(titles.drop_last()), years(titles.last()))
    }
}

/// The ranks by which texts are sorted.
pub open spec fn text_ranks(list: Seq<Seq<char>>) -> Seq<Rank> {
    list.map_values(|t: Seq<char>| Rank { weight: 0, label: t, second: Seq::empty() })
}

/// The latest of the years that titles name.
pub open spec fn latest_year(titles: Seq<Seq<char>>) -> Seq<char> {
    sorted(title_years(titles), text_ranks(title_years(titles))).last()
}

/// Whether a query, in lower case, asks for a sum or a count.
pub open spec fn asks_for_total(lower: Seq<char>) -> bool {
    occurs(lower, "total"@) || occurs(lower, "how much"@) || occurs(lower, "how many"@) || occurs(
        lower,
        "sum"@,
    )
}

/// Whether titles name more than one document.
pub open spec fn several(titles: Seq<Seq<char>>) -> bool {
    exists|i: int, j: int|
        0 <= i < titles.len() && 0 <= j < titles.len() && #[trigger] titles[i]
            != #[trigger] titles[j]
}

/// `text` as a list of one, or an empty list where `wanted` does not hold.
pub open spec fn if_wanted(wanted: bool, text: Seq<char>) -> Seq<Seq<char>> {
    if wanted {
        seq![text]
    } else {
        Seq::empty()
    }
}

/// The follow-up questions that what was asked and what was cited call for.
pub open spec fn called_for(lower: Seq<char>, titles: Seq<Seq<char>>) -> Seq<Seq<char>> {
    if_wanted(
        asks_for_total(lower) && title_years(titles).len() > 1,
        "Can you break that down by year?"@,
    ) + if_wanted(several(titles), "Which documents did you use for this answer?"@) + if_wanted(
        asks_for_total(lower) && years(lower).len() == 0 && title_years(titles).len() > 0,
        "What about just "@ + latest_year(titles) + "?"@,
    )
}

/// The follow-up questions to offer: those called for or, where there are none but something was
/// cited, a general one.
pub open spec fn suggested(lower: Seq<char>, titles: Seq<Seq<char>>) -> Seq<Seq<char>> {
    if called_for(lower, titles).len() == 0 && titles.len() > 0 {
        seq!["Can you show me more detail on this?"@]
    } else {
        called_for(lower, titles)
    }
}

/// Puts each text of `more` behind `list` that is not there already.
fn add_all(list: &mut Vec<String>, more: &Vec<String>)
    ensures
        texts(final(list)@) == with_all(texts(old(list)@), texts(more@)),
{
    let mut i: usize = 0;
    while i < more.len()
        invariant
            i <= more@.len(),
            texts(list@) == with_all(texts(old(list)@), texts(more@).take(i as int)),
        decreases more@.len() - i,
    {
        assert(texts(more@).take(i + 1).drop_last() == texts(more@).take(i as int));
        add_text(list, more[i].clone());
        i += 1;
    }
    assert(texts(more@).take(i as int) == texts(more@));
}

/// The years that the titles of `citations` name.
fn cited_years(citations: &[Citation]) -> (r: Vec<String>)
    ensures
        texts(r@) == title_years(titles_of(sources(citations@))),
{
    let ghost titles = titles_of(sources(citations@));
    let mut found: Vec<String> = Vec::new();
    let mut i: usize = 0;
    assert(texts(found@) == title_years(titles.take(0)));
    while i < citations.len()
        invariant
            i <= citations@.len(),
            titles == titles_of(sources(citations@)),
            texts(found@) == title_years(titles.take(i as int)),
        decreases citations@.len() - i,
    {
        assert(titles.take(i + 1).drop_last() == titles.take(i as int));
        let named = ChatEngine::find_years(citations[i].doc_title.as_str());
        add_all(&mut found, &named);
        i += 1;
    }
    assert(titles.take(i as int) == titles);
    found
}

/// The last of `list` in the order of texts.
fn last_of(list: Vec<String>) -> (r: String)
    requires
        list@.len() > 0,
    ensures
        r@ == sorted(texts(list@), text_ranks(texts(list@))).last(),
{
    let mut keys: Vec<SortKey> = Vec::new();
    let mut i: usize = 0;
    while i < list.len()
        invariant
            i <= list@.len(),
            ranks(keys@) == text_ranks(texts(list@)).take(i as int),
        decreases list@.len() - i,
    {
        let ghost before = ranks(keys@);
        let key = SortKey { weight: 0, label: list[i].clone(), second: String::new() };
        assert(key@.second == Seq::<char>::empty());
        keys.push(key);
        assert(ranks(keys@) == before.push(key@));
        assert(text_ranks(texts(list@)).take(i + 1) == before.push(text_ranks(texts(list@))[i as int]));
        i += 1;
    }
    let ghost rs = text_ranks(texts(list@));
    let ghost items = list@;
    assert(rs.take(i as int) == rs);
    let count = list.len();
    let mut all = take_first(list, &keys, count);
    proof {
        order_exists(rs);
        assert(all@ == sorted(items, rs));
        assert(sorted(texts(items), rs).last() == all@.last()@);
    }
    match all.pop() {
        Some(text) => text,
        None => String::new(),
    }
}

/// Whether the titles of `citations` name more than one document.
fn cites_several(citations: &[Citation]) -> (r: bool)
    ensures
        r == several(titles_of(sources(citations@))),
{
    let ghost titles = titles_of(sources(citations@));
    let mut i: usize = 1;
    while i < citations.len()
        invariant
            1 <= i,
            titles == titles_of(sources(citations@)),
            forall|k: int| 0 <= k < i && k < titles.len() ==> #[trigger] titles[k] == titles[0],
        decreases citations@.len() - i,
    {
        if citations[i].doc_title != citations[0].doc_title {
            assert(titles[i as int] != titles[0]);
            return true;
        }
        i += 1;
    }
    false
}

impl ChatEngine {
    /// Up to three follow-up questions to offer after `query` was answered with `citations`: to
    /// break a total down by year, to list the documents used, to ask for the latest year alone.
    /// Where none of these fits, but something was cited, a general one.
    pub fn generate_suggestions(query: &str, citations: &[Citation]) -> (r: Vec<String>)
        ensures
            texts(r@) == suggested(lowercase(query@), titles_of(sources(citations@))),
    {
        let lower = query.to_lowercase();
        ChatEngine::suggestions_for(lower.as_str(), citations)
    }

    /// The follow-up questions to offer, given the query in lower case.
    pub fn suggestions_for(lower: &str, citations: &[Citation]) -> (r: Vec<String>)
        ensures
            texts(r@) == suggested(lower@, titles_of(sources(citations@))),
    {
        let ghost titles = titles_of(sources(citations@));
        let found = cited_years(citations);
        let total = contains_text(lower, "total") || contains_text(lower, "how much")
            || contains_text(lower, "how many") || contains_text(lower, "sum");
        let mut out: Vec<String> = Vec::new();
        assert(texts(found@).len() == found@.len());
        if total && found.len() > 1 {
            out.push("Can you break that down by year?".to_string());
        }
        assert(texts(out@) == if_wanted(
            asks_for_total(lower@) && title_years(titles).len() > 1,
            "Can you break that down by year?"@,
        ));
        let ghost a = texts(out@);
        if cites_several(citations) {
            out.push("Which documents did you use for this answer?".to_string());
        }
        assert(texts(out@) == a + if_wanted(
            several(titles),
            "Which documents did you use for this answer?"@,
        ));
        let ghost b = texts(out@);
        let in_query = ChatEngine::find_years(lower);
        assert(texts(in_query@).len() == in_query@.len());
        if total && in_query.is_empty() && !found.is_empty() {
            let mut question = "What about just ".to_string();
            question.append(last_of(found).as_str());
            question.append("?");
            out.push(question);
        }
        assert(texts(out@) == b + if_wanted(
            asks_for_total(lower@) && years(lower@).len() == 0 && title_years(titles).len() > 0,
            "What about just "@ + latest_year(titles) + "?"@,
        ));
        assert(texts(out@) == called_for(lower@, titles));
        if out.is_empty() && !citations.is_empty() {
            out.push("Can you show me more detail on this?".to_string());
            assert(texts(out@) == suggested(lower@, titles));
        }
        out
    }
}

/// There are never more than three suggestions; none is made where nothing was cited, and at least
/// one where something was.
pub proof fn suggestions_are_few(lower: Seq<char>, titles: Seq<Seq<char>>)
    ensures
        suggested(lower, titles).len() <= 3,
        titles.len() == 0 <==> suggested(lower, titles).len() == 0,
{
}

proof fn lemma_with_all(list: Seq<Seq<char>>, more: Seq<Seq<char>>)
    requires
        list.no_duplicates(),
    ensures
        with_all(list, more).no_duplicates(),
        forall|y: Seq<char>| #[trigger]
            with_all(list, more).contains(y) <==> list.contains(y) || more.contains(y),
    decreases more.len(),
{
    if more.len() > 0 {
        let short = more.drop_last();
        lemma_with_all(list, short);
        lemma_with_item(with_all(list, short), more.last());
        assert(more == short.push(more.last()));
        assert forall|y: Seq<char>| #[trigger] more.contains(y) <==> short.contains(y) || y
            == more.last() by {
            if short.contains(y) {
                let k = choose|k: int| 0 <= k < short.len() && short[k] == y;
                assert(more[k] == y);
            }
            if y == more.last() {
                assert(more[more.len() - 1] == y);
            }
        }
    }
}

/// A year counts as cited where one of the titles names it, and each year counts once.
pub proof fn cited_years_are_those_in_titles(titles: Seq<Seq<char>>, y: Seq<char>)
    ensures
        title_years(titles).no_duplicates(),
        title_years(titles).contains(y) <==> exists|i: int|
            0 <= i < titles.len() && #[trigger] years(titles[i]).contains(y),
    decreases titles.len(),
{
    if titles.len() > 0 {
        let short = titles.drop_last();
        cited_years_are_those_in_titles(short, y);
        lemma_with_all(title_years(short), years(titles.last()));
        if title_years(short).contains(y) {
            let i = choose|i: int| 0 <= i < short.len() && #[trigger] years(short[i]).contains(y);
            assert(years(titles[i]).contains(y));
        }
        if years(titles.last()).contains(y) {
            assert(years(titles[titles.len() - 1]).contains(y));
        }
        if exists|i: int| 0 <= i < titles.len() && #[trigger] years(titles[i]).contains(y) {
            let i = choose|i: int| 0 <= i < titles.len() && #[trigger] years(titles[i]).contains(y);
            if i < short.len() {
                assert(years(short[i]).contains(y));
            }
        }
    }
}

/// The latest year that titles name is one of those years, and none of them comes after it.
pub proof fn latest_year_comes_last(titles: Seq<Seq<char>>)
    requires
        title_years(titles).len() > 0,
    ensures
        title_years(titles).contains(latest_year(titles)),
        forall|y: Seq<char>| #[trigger]
            title_years(titles).contains(y) ==> text_le(y, latest_year(titles)),
{
    let list = title_years(titles);
    let rs = text_ranks(list);
    let order = order_of(rs);
    order_exists(rs);
    let last = order[order.len() - 1];
    assert(sorted(list, rs).last() == list[last]);
    assert forall|y: Seq<char>| #[trigger] list.contains(y) implies text_le(
        y,
        latest_year(titles),
    ) by {
        let i = choose|i: int| 0 <= i < list.len() && list[i] == y;
        order_covers(rs, order, i);
        let k = choose|k: int| 0 <= k < order.len() && order[k] == i;
        text_order_is_total(y, y);
        if k < order.len() - 1 {
            assert(comes_first(rs, order[k], last));
        }
    }
}

} // verus!
