//! What is searched for, which documents are used, and what is offered next.
use vstd::prelude::*;
use vstd::utf8::encode_utf8;
use crate::chat::query::{
    any_named, last_answer, last_two, lower_names, mentioned, mentions_are_found, named,
    retrieval_query, user_turns,
};
use crate::chat::suggest::{
    called_for, cited_years_are_those_in_titles, latest_year, latest_year_comes_last, several,
    suggested, title_years,
};
use crate::chat::years::{
    is_year, query_years, query_years_extend_the_years_named, year_at, years,
    years_are_found, years_before,
};
use crate::text::{
    joined, lowercase, occurs, text_le, text_order_is_antisymmetric, trimmed,
};
use crate::text_laws::joining_goes_list_by_list;
use crate::types::{CanonicalEntity, ChatRole, Message};

verus! {

/// Whether `c` is one of the digits `0` to `9`.
pub open spec fn numeral(c: char) -> bool {
    '0' <= c <= '9'
}

/// Whether `y` is four digits, the first two of them `19` or `20`.
pub open spec fn reads_as_year(y: Seq<char>) -> bool {
    &&& y.len() == 4
    &&& forall|k: int| 0 <= k < 4 ==> numeral(#[trigger] y[k])
    &&& (y[0] == '1' && y[1] == '9') || (y[0] == '2' && y[1] == '0')
}

/// A year that stands alone is found: four digits that begin with `19` or `20`, with no digit right
/// before them and none right behind them, whatever else is there.
pub proof fn a_year_that_stands_alone_is_found(a: Seq<char>, y: Seq<char>, b: Seq<char>)
    requires
        reads_as_year(y),
        a.len() == 0 || !numeral(a.last()),
        b.len() == 0 || !numeral(b.first()),
    ensures
        years(a + y + b).contains(y),
{
    let s = a + y + b;
    let i = a.len() as int;
    assert(numeral(y[0]) && numeral(y[1]) && numeral(y[2]) && numeral(y[3]));
    assert(s[i] == y[0] && s[i + 1] == y[1] && s[i + 2] == y[2] && s[i + 3] == y[3]);
    assert(year_at(s, i));
    assert(s.subrange(i, i + 4) == y);
    years_are_found(s);
}

/// Nothing else is found: what is found reads as a year and stands alone somewhere in the text, and
/// nothing is found twice.
pub proof fn only_years_that_stand_alone_are_found(s: Seq<char>, y: Seq<char>)
    requires
        years(s).contains(y),
    ensures
        reads_as_year(y),
        years(s).no_duplicates(),
        exists|i: int|
            0 <= i && i + 4 <= s.len() && #[trigger] s.subrange(i, i + 4) == y && (i == 0
                || !numeral(s[i - 1])) && (i + 4 == s.len() || !numeral(s[i + 4])),
{
    years_are_found(s);
    let i = choose|i: int| #[trigger] year_at(s, i) && y == s.subrange(i, i + 4);
    assert(y[0] == s[i] && y[1] == s[i + 1] && y[2] == s[i + 2] && y[3] == s[i + 3]);
    assert forall|k: int| 0 <= k < 4 implies numeral(#[trigger] y[k]) by {
        if k == 0 {
        } else if k == 1 {
        } else if k == 2 {
        } else {
        }
    }
    assert(s.subrange(i, i + 4) == y);
}

/// Years are found in the order they stand in: what comes later in the text changes nothing of what
/// comes before a place where no year is cut in two.
pub proof fn years_come_in_the_order_they_stand_in(a: Seq<char>, b: Seq<char>)
    requires
        a.len() == 0 || !numeral(a.last()) || b.len() == 0 || !numeral(b.first()),
    ensures
        years(a).is_prefix_of(years(a + b)),
{
    lemma_years_of_front(a, b, a.len());
    lemma_years_grow(a + b, a.len(), (a + b).len());
}

proof fn lemma_years_of_front(a: Seq<char>, b: Seq<char>, n: nat)
    requires
        n <= a.len(),
        a.len() == 0 || !numeral(a.last()) || b.len() == 0 || !numeral(b.first()),
    ensures
        years_before(a, n) == years_before(a + b, n),
    decreases n,
{
    if n > 0 {
        lemma_years_of_front(a, b, (n - 1) as nat);
        let i = n - 1;
        let s = a + b;
        if year_at(s, i) && i + 4 > a.len() {
            assert(s[a.len() - 1] == a.last());
            assert(s[a.len() as int] == b.first());
        }
        if year_at(a, i) {
            if i + 4 == a.len() && b.len() > 0 {
                assert(s[i + 4] == b.first());
                assert(a[i + 3] == a.last());
            }
        }
        assert(year_at(s, i) <==> year_at(a, i));
        if year_at(a, i) {
            assert(a.subrange(i, i + 4) == s.subrange(i, i + 4));
        }
    }
}

proof fn lemma_years_grow(s: Seq<char>, m: nat, n: nat)
    requires
        m <= n,
    ensures
        years_before(s, m).is_prefix_of(years_before(s, n)),
    decreases n,
{
    if m < n {
        lemma_years_grow(s, m, (n - 1) as nat);
    }
}

/// The years of a query are those that stand alone in it and, of the starts of its fiscal years,
/// those that read as years.
pub proof fn query_years_read_as_years(
    query: Seq<char>,
    starts: Seq<Option<Seq<char>>>,
    y: Seq<char>,
)
    ensures
        query_years(query, Some(starts)).contains(y) <==> years(query).contains(y) || (
        reads_as_year(y) && starts.contains(Some(y))),
        query_years(query, None) == years(query),
        years(query).is_prefix_of(query_years(query, Some(starts))),
        query_years(query, Some(starts)).no_duplicates(),
{
    query_years_extend_the_years_named(query, Some(starts));
    assert(is_year(y) <==> reads_as_year(y)) by {
        if is_year(y) {
            assert forall|k: int| 0 <= k < 4 implies numeral(#[trigger] y[k]) by {
                if k == 0 {
                } else if k == 1 {
                } else if k == 2 {
                } else {
                }
            }
        }
        if reads_as_year(y) {
            assert(numeral(y[0]) && numeral(y[1]) && numeral(y[2]) && numeral(y[3]));
        }
    }
}

/// Whether a query in lower case asks for a sum or a count, by one of the four words for it.
pub open spec fn asks_how_much(lower: Seq<char>) -> bool {
    ||| occurs(lower, "total"@)
    ||| occurs(lower, "how much"@)
    ||| occurs(lower, "how many"@)
    ||| occurs(lower, "sum"@)
}

/// Whether one of `titles` names the year `y`.
pub open spec fn some_title_names(titles: Seq<Seq<char>>, y: Seq<char>) -> bool {
    exists|i: int| 0 <= i < titles.len() && #[trigger] years(titles[i]).contains(y)
}

proof fn lemma_title_years(titles: Seq<Seq<char>>)
    ensures
        title_years(titles).no_duplicates(),
        forall|y: Seq<char>| #[trigger]
            title_years(titles).contains(y) <==> some_title_names(titles, y),
{
    cited_years_are_those_in_titles(titles, Seq::empty());
    assert forall|y: Seq<char>| #[trigger] title_years(titles).contains(y) <==> some_title_names(
        titles,
        y,
    ) by {
        cited_years_are_those_in_titles(titles, y);
    }
}

/// The four kinds of suggestion differ in their beginnings.
proof fn lemma_kinds(y: Seq<char>)
    ensures
        "Can you break that down by year?"@.len() > 8,
        "Which documents did you use for this answer?"@.len() > 8,
        "Can you show me more detail on this?"@.len() > 8,
        "What about just "@.len() > 8,
        "Can you break that down by year?"@[0] == 'C',
        "Can you break that down by year?"@[8] == 'b',
        "Can you show me more detail on this?"@[0] == 'C',
        "Can you show me more detail on this?"@[8] == 's',
        "Which documents did you use for this answer?"@[0] == 'W',
        "Which documents did you use for this answer?"@[2] == 'i',
        ("What about just "@ + y + "?"@)[0] == 'W',
        ("What about just "@ + y + "?"@)[2] == 'a',
        "What about just "@[0] == 'W',
        "What about just "@[2] == 'a',
{
    reveal_strlit("Can you break that down by year?");
    reveal_strlit("Which documents did you use for this answer?");
    reveal_strlit("Can you show me more detail on this?");
    reveal_strlit("What about just ");
}

/// A breakdown by year is offered exactly where the query asks how much or how many, in any of the
/// four words, and the titles name two different years.
pub proof fn a_breakdown_is_offered_for_totals_over_years(
    lower: Seq<char>,
    titles: Seq<Seq<char>>,
    y: Seq<char>,
    z: Seq<char>,
)
    ensures
        asks_how_much(lower) && some_title_names(titles, y) && some_title_names(titles, z) && y != z
            ==> suggested(lower, titles).contains("Can you break that down by year?"@)
            && suggested(lower, titles)[0] == "Can you break that down by year?"@,
        suggested(lower, titles).contains("Can you break that down by year?"@) ==> asks_how_much(
            lower,
        ) && exists|u: Seq<char>, v: Seq<char>|
            #![trigger some_title_names(titles, u), some_title_names(titles, v)]
            u != v && some_title_names(titles, u) && some_title_names(titles, v),
{
    lemma_title_years(titles);
    lemma_kinds(latest_year(titles));
    let list = title_years(titles);
    if asks_how_much(lower) && some_title_names(titles, y) && some_title_names(titles, z) && y
        != z {
        let i = choose|i: int| 0 <= i < list.len() && list[i] == y;
        let j = choose|j: int| 0 <= j < list.len() && list[j] == z;
        assert(list.contains(y) && list.contains(z));
        assert(list.len() > 1);
        assert(called_for(lower, titles)[0] == "Can you break that down by year?"@);
        assert(suggested(lower, titles).contains(suggested(lower, titles)[0]));
    }
    if suggested(lower, titles).contains("Can you break that down by year?"@) {
        assert(asks_how_much(lower) && list.len() > 1);
        assert(list.contains(list[0]) && list.contains(list[1]));
        assert(some_title_names(titles, list[0]) && some_title_names(titles, list[1]));
    }
}

/// The list of documents is offered exactly where two of the titles differ.
pub proof fn the_documents_are_offered_where_there_are_several(
    lower: Seq<char>,
    titles: Seq<Seq<char>>,
)
    ensures
        suggested(lower, titles).contains("Which documents did you use for this answer?"@) <==> (
        exists|i: int, j: int|
            0 <= i < titles.len() && 0 <= j < titles.len() && #[trigger] titles[i]
                != #[trigger] titles[j]),
{
    lemma_kinds(latest_year(titles));
    let which = "Which documents did you use for this answer?"@;
    let break_down = "Can you break that down by year?"@;
    let list = suggested(lower, titles);
    if several(titles) {
        let k: int = if called_for(lower, titles)[0] == break_down {
            1
        } else {
            0
        };
        assert(list[k] == which);
        assert(list.contains(which));
    }
}

/// Nothing is offered but a breakdown, the documents, one year alone, or more detail; and they
/// come in this order.
pub proof fn suggestions_come_in_one_order(lower: Seq<char>, titles: Seq<Seq<char>>, k: int, l: int)
    requires
        0 <= k < suggested(lower, titles).len(),
    ensures
        ({
            let list = suggested(lower, titles);
            let breakdown = "Can you break that down by year?"@;
            let documents = "Which documents did you use for this answer?"@;
            &&& {
                ||| list[k] == breakdown
                ||| list[k] == documents
                ||| list[k] == "Can you show me more detail on this?"@
                ||| exists|y: Seq<char>|
                    list[k] == "What about just "@ + y + "?"@ && #[trigger] some_title_names(
                        titles,
                        y,
                    )
            }
            &&& list[k] == breakdown ==> k == 0
            &&& list[k] == documents && 0 <= l < k ==> list[l] == breakdown
        }),
{
    lemma_kinds(latest_year(titles));
    lemma_title_years(titles);
    if title_years(titles).len() > 0 {
        latest_year_comes_last(titles);
        assert(some_title_names(titles, latest_year(titles)));
    }
}

/// The latest year is offered exactly where the query asks how much or how many and names no year
/// itself, and some title names one: the one that no other year named by a title comes behind.
pub proof fn the_latest_year_is_offered_where_none_was_asked(
    lower: Seq<char>,
    titles: Seq<Seq<char>>,
    y: Seq<char>,
)
    ensures
        suggested(lower, titles).contains("What about just "@ + y + "?"@) <==> {
            &&& asks_how_much(lower)
            &&& years(lower).len() == 0
            &&& some_title_names(titles, y)
            &&& forall|z: Seq<char>| #[trigger] some_title_names(titles, z) ==> text_le(z, y)
        },
{
    lemma_title_years(titles);
    lemma_kinds(latest_year(titles));
    lemma_kinds(y);
    let list = title_years(titles);
    let last = latest_year(titles);
    let offer = "What about just "@ + y + "?"@;
    let made = "What about just "@ + last + "?"@;
    let given = suggested(lower, titles);
    if list.len() > 0 {
        latest_year_comes_last(titles);
        assert(some_title_names(titles, last));
        assert forall|z: Seq<char>| #[trigger] some_title_names(titles, z) implies text_le(
            z,
            last,
        ) by {
            assert(list.contains(z));
        }
    }
    if given.contains(offer) {
        assert(offer == made);
        assert(offer.len() == made.len());
        let n = "What about just "@.len() as int;
        assert(offer.subrange(n, n + y.len()) == y);
        assert(made.subrange(n, n + last.len()) == last);
        assert("?"@.len() == 1) by {
            reveal_strlit("?");
        }
        assert(y == last);
    }
    if asks_how_much(lower) && years(lower).len() == 0 && some_title_names(titles, y) && (forall|
        z: Seq<char>,
    | #[trigger]
        some_title_names(titles, z) ==> text_le(z, y)) {
        assert(list.contains(y));
        assert(text_le(last, y) && text_le(y, last));
        text_order_is_antisymmetric(y, last);
        assert(called_for(lower, titles).last() == made);
        assert(given[given.len() - 1] == offer);
        assert(given.contains(offer));
    }
}

/// The general offer is made exactly where something was cited and nothing else is offered.
pub proof fn more_detail_is_offered_where_nothing_else_is(
    lower: Seq<char>,
    titles: Seq<Seq<char>>,
)
    ensures
        suggested(lower, titles).contains("Can you show me more detail on this?"@) <==> titles.len()
            > 0 && suggested(lower, titles) == seq!["Can you show me more detail on this?"@],
        titles.len() > 0 ==> suggested(lower, titles).len() > 0,
        titles.len() == 0 ==> suggested(lower, titles).len() == 0,
        suggested(lower, titles).len() <= 3,
        suggested(lower, titles).no_duplicates(),
{
    lemma_kinds(latest_year(titles));
    lemma_title_years(titles);
    let more = "Can you show me more detail on this?"@;
    let list = suggested(lower, titles);
    if titles.len() == 0 {
        assert(title_years(titles).len() == 0);
    }
    if titles.len() > 0 && list == seq![more] {
        assert(list[0] == more);
        assert(list.contains(more));
    }
}

/// Whether the message at position `j` is the last that `role` wrote.
pub open spec fn last_by(history: Seq<Message>, role: ChatRole, j: int) -> bool {
    &&& 0 <= j < history.len()
    &&& history[j].role == role
    &&& forall|k: int| j < k < history.len() ==> (#[trigger] history[k]).role != role
}

/// The beginning of the last answer as it is searched for: its first four hundred characters,
/// without white space at their ends.
pub open spec fn answer_part(m: Message) -> Seq<char> {
    trimmed(
        if m.content.len() > 400 {
            m.content.take(400)
        } else {
            m.content
        },
    )
}

proof fn lemma_last_answer(history: Seq<Message>)
    ensures
        forall|a: int| #[trigger]
            last_by(history, ChatRole::Assistant, a) ==> last_answer(history) == seq![
                answer_part(history[a]),
            ],
        (forall|k: int| 0 <= k < history.len() ==> (#[trigger] history[k]).role == ChatRole::User)
            ==> last_answer(history).len() == 0,
    decreases history.len(),
{
    if history.len() > 0 {
        let short = history.drop_last();
        lemma_last_answer(short);
        assert forall|a: int| #[trigger] last_by(history, ChatRole::Assistant, a) implies last_answer(
            history,
        ) == seq![answer_part(history[a])] by {
            if a == history.len() - 1 {
            } else {
                assert(history[history.len() - 1].role != ChatRole::Assistant);
                assert(last_by(short, ChatRole::Assistant, a)) by {
                    assert forall|k: int| a < k < short.len() implies (#[trigger] short[k]).role
                        != ChatRole::Assistant by {
                        assert(history[k].role != ChatRole::Assistant);
                    }
                }
            }
        }
        if forall|k: int|
            0 <= k < history.len() ==> (#[trigger] history[k]).role == ChatRole::User {
            assert(history[history.len() - 1].role == ChatRole::User);
            assert forall|k: int| 0 <= k < short.len() implies (#[trigger] short[k]).role
                == ChatRole::User by {
                assert(history[k].role == ChatRole::User);
            }
        }
    }
}

proof fn lemma_user_turns(history: Seq<Message>, j: int)
    requires
        last_by(history, ChatRole::User, j),
    ensures
        user_turns(history) == user_turns(history.take(j)).push(trimmed(history[j].content)),
    decreases history.len(),
{
    let short = history.drop_last();
    if j == history.len() - 1 {
        assert(history.take(j) == short);
    } else {
        assert(history[history.len() - 1].role != ChatRole::User);
        assert(last_by(short, ChatRole::User, j)) by {
            assert forall|k: int| j < k < short.len() implies (#[trigger] short[k]).role
                != ChatRole::User by {
                assert(history[k].role != ChatRole::User);
            }
        }
        lemma_user_turns(short, j);
        assert(short.take(j) == history.take(j));
    }
}

proof fn lemma_no_user_turns(history: Seq<Message>)
    requires
        forall|k: int| 0 <= k < history.len() ==> (#[trigger] history[k]).role != ChatRole::User,
    ensures
        user_turns(history).len() == 0,
    decreases history.len(),
{
    if history.len() > 0 {
        let short = history.drop_last();
        assert(history[history.len() - 1].role != ChatRole::User);
        assert forall|k: int| 0 <= k < short.len() implies (#[trigger] short[k]).role
            != ChatRole::User by {
            assert(history[k].role != ChatRole::User);
        }
        lemma_no_user_turns(short);
    }
}

/// What is searched for ends with the last answer's beginning, where there is an answer, and the
/// question; `front` stands before them.
pub open spec fn searched(
    front: Seq<char>,
    history: Seq<Message>,
    current: Seq<char>,
    text: Seq<char>,
) -> bool {
    &&& forall|a: int| #[trigger]
        last_by(history, ChatRole::Assistant, a) ==> text == front + answer_part(history[a]) + " "@
            + trimmed(current)
    &&& (forall|k: int| 0 <= k < history.len() ==> (#[trigger] history[k]).role == ChatRole::User)
        ==> text == front + trimmed(current)
}

proof fn lemma_searched(
    front: Seq<Seq<char>>,
    history: Seq<Message>,
    current: Seq<char>,
)
    ensures
        searched(
            if front.len() == 0 {
                Seq::empty()
            } else {
                joined(front, " "@) + " "@
            },
            history,
            current,
            joined(front + last_answer(history) + seq![trimmed(current)], " "@),
        ),
{
    lemma_last_answer(history);
    let end = seq![trimmed(current)];
    let lead = if front.len() == 0 {
        Seq::<char>::empty()
    } else {
        joined(front, " "@) + " "@
    };
    let text = joined(front + last_answer(history) + end, " "@);
    joining_goes_list_by_list(end, end, " "@);
    assert forall|a: int| #[trigger] last_by(history, ChatRole::Assistant, a) implies text == lead
        + answer_part(history[a]) + " "@ + trimmed(current) by {
        let ans = seq![answer_part(history[a])];
        joining_goes_list_by_list(ans, end, " "@);
        joining_goes_list_by_list(front, ans + end, " "@);
        assert(front + (ans + end) == front + ans + end);
        if front.len() == 0 {
            assert(front + (ans + end) == ans + end);
        }
    }
    if forall|k: int| 0 <= k < history.len() ==> (#[trigger] history[k]).role == ChatRole::User {
        assert(front + last_answer(history) + end == front + end);
        joining_goes_list_by_list(front, end, " "@);
        if front.len() == 0 {
            assert(front + end == end);
        }
    }
}

/// Where the user wrote two messages or more, what is searched for begins with the last two of
/// them, the earlier one first.
pub proof fn the_last_two_turns_are_searched_for(
    history: Seq<Message>,
    current: Seq<char>,
    i: int,
    j: int,
)
    requires
        last_by(history, ChatRole::User, j),
        last_by(history.take(j), ChatRole::User, i),
    ensures
        searched(
            trimmed(history[i].content) + " "@ + trimmed(history[j].content) + " "@,
            history,
            current,
            retrieval_query(history, current),
        ),
{
    lemma_user_turns(history, j);
    lemma_user_turns(history.take(j), i);
    let x = trimmed(history[i].content);
    let y = trimmed(history[j].content);
    let turns = user_turns(history);
    let both = seq![x, y];
    assert(history.take(j)[i] == history[i]);
    assert(last_two(turns) == both);
    lemma_searched(both, history, current);
    joining_goes_list_by_list(seq![x], seq![y], " "@);
    joining_goes_list_by_list(seq![y], seq![y], " "@);
    assert(seq![x] + seq![y] == both);
}

/// Where the user wrote one message, what is searched for begins with it.
pub proof fn the_only_turn_is_searched_for(history: Seq<Message>, current: Seq<char>, j: int)
    requires
        last_by(history, ChatRole::User, j),
        forall|k: int| 0 <= k < j ==> (#[trigger] history[k]).role != ChatRole::User,
    ensures
        searched(
            trimmed(history[j].content) + " "@,
            history,
            current,
            retrieval_query(history, current),
        ),
{
    lemma_user_turns(history, j);
    assert forall|k: int| 0 <= k < j implies (#[trigger] history.take(j)[k]).role
        != ChatRole::User by {
        assert(history[k].role != ChatRole::User);
    }
    lemma_no_user_turns(history.take(j));
    let one = seq![trimmed(history[j].content)];
    assert(last_two(user_turns(history)) == one);
    lemma_searched(one, history, current);
    joining_goes_list_by_list(one, one, " "@);
}

/// Where the user wrote nothing before, nothing stands before the last answer and the question.
pub proof fn without_turns_the_question_is_searched_for(
    history: Seq<Message>,
    current: Seq<char>,
)
    requires
        forall|k: int| 0 <= k < history.len() ==> (#[trigger] history[k]).role != ChatRole::User,
    ensures
        searched(Seq::empty(), history, current, retrieval_query(history, current)),
{
    lemma_no_user_turns(history);
    let none = Seq::<Seq<char>>::empty();
    assert(last_two(user_turns(history)) == none);
    lemma_searched(none, history, current);
}

/// Whether a query in lower case holds the name `name`, of three bytes or more.
pub open spec fn holds_name(query: Seq<char>, name: Seq<char>) -> bool {
    encode_utf8(name).len() >= 3 && occurs(query, name)
}

/// An entity counts as named exactly where the query holds its name or one of its aliases, each in
/// lower case.
pub proof fn an_entity_is_named_by_any_of_its_names(
    query: Seq<char>,
    walk: Seq<(Seq<char>, CanonicalEntity)>,
    key: Seq<char>,
)
    ensures
        mentioned(query, walk).contains(key) <==> exists|i: int|
            0 <= i < walk.len() && (#[trigger] walk[i]).0 == key && (holds_name(
                query,
                lowercase(walk[i].1.canonical_name@),
            ) || exists|j: int|
                0 <= j < walk[i].1.aliases@.len() && holds_name(
                    query,
                    lowercase((#[trigger] walk[i].1.aliases@[j])@),
                )),
{
    mentions_are_found(query, walk, key);
    assert forall|i: int| 0 <= i < walk.len() implies (any_named(
        query,
        lower_names((#[trigger] walk[i]).1@),
    ) <==> (holds_name(query, lowercase(walk[i].1.canonical_name@)) || exists|j: int|
        0 <= j < walk[i].1.aliases@.len() && holds_name(
            query,
            lowercase((#[trigger] walk[i].1.aliases@[j])@),
        ))) by {
        lemma_names(query, walk[i].1);
    }
}

proof fn lemma_names(query: Seq<char>, e: CanonicalEntity)
    ensures
        any_named(query, lower_names(e@)) <==> (holds_name(query, lowercase(e.canonical_name@))
            || exists|j: int|
            0 <= j < e.aliases@.len() && holds_name(
                query,
                lowercase((#[trigger] e.aliases@[j])@),
            )),
{
    let names = lower_names(e@);
    assert(names[0] == lowercase(e.canonical_name@));
    assert forall|j: int| 0 <= j < e.aliases@.len() implies names[j + 1] == lowercase(
        (#[trigger] e.aliases@[j])@,
    ) by {}
    if any_named(query, names) {
        let k = choose|k: int| 0 <= k < names.len() && named(query, #[trigger] names[k]);
        if k > 0 {
            assert(names[k] == lowercase(e.aliases@[k - 1]@));
        }
    }
    if holds_name(query, lowercase(e.canonical_name@)) {
        assert(named(query, names[0]));
    }
    if exists|j: int|
        0 <= j < e.aliases@.len() && holds_name(query, lowercase((#[trigger] e.aliases@[j])@)) {
        let j = choose|j: int|
            0 <= j < e.aliases@.len() && holds_name(query, lowercase((#[trigger] e.aliases@[j])@));
        assert(named(query, names[j + 1]));
    }
}

} // verus!
