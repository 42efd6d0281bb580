//! Finding the years that a query or a document title names.
use vstd::prelude::*;
use crate::chat::engine::ChatEngine;
use crate::text::{
    add_text, chars_of, lemma_with_item, optional_text, optional_texts, text_between, texts, with_item,
};

verus! {

/// A decimal digit.
pub open spec fn digit(c: char) -> bool {
    '0' <= c <= '9'
}

/// Whether a year stands at position `i` of `s`: four digits that begin with `19` or `20`, with no
/// further digit on either side.
pub open spec fn year_at(s: Seq<char>, i: int) -> bool {
    &&& 0 <= i
    &&& i + 4 <= s.len()
    &&& digit(s[i]) && digit(s[i + 1]) && digit(s[i + 2]) && digit(s[i + 3])
    &&& i == 0 || !digit(s[i - 1])
    &&& i + 4 == s.len() || !digit(s[i + 4])
    &&& (s[i] == '1' && s[i + 1] == '9') || (s[i] == '2' && s[i + 1] == '0')
}

/// The years that stand before position `n` of `s`, each once, in the order of their first places.
pub open spec fn years_before(s: Seq<char>, n: nat) -> Seq<Seq<char>>
    decreases n,
{
    if n == 0 {
        Seq::empty()
    } else {
        let before = years_before(s, (n - 1) as nat);
        if year_at(s, n - 1) {
            with_item(before, s.subrange(n - 1, n - 1 + 4))
        } else {
            before
        }
    }
}

/// The years that `s` names, each once, in the order of their first places.
pub open spec fn years(s: Seq<char>) -> Seq<Seq<char>> {
    years_before(s, s.len())
}

fn is_digit(c: char) -> (r: bool)
    ensures
        r == digit(c),
{
    '0' <= c && c <= '9'
}

fn is_year_at(chars: &Vec<char>, i: usize) -> (r: bool)
    requires
        i < chars@.len(),
    ensures
        r == year_at(chars@, i as int),
{
    let n = chars.len();
    n - i >= 4 && is_digit(chars[i]) && is_digit(chars[i + 1]) && is_digit(chars[i + 2])
        && is_digit(chars[i + 3]) && (i == 0 || !is_digit(chars[i - 1])) && (n - i == 4
        || !is_digit(chars[i + 4])) && ((chars[i] == '1' && chars[i + 1] == '9') || (chars[i] == '2'
        && chars[i + 1] == '0'))
}

impl ChatEngine {
    /// The years that `s` names: the runs of exactly four digits that begin with `19` or `20`, each
    /// once, in the order they occur in. What is no digit ends a run, an underscore too, and a
    /// longer run of digits names no year.
    pub fn find_years(s: &str) -> (r: Vec<String>)
        ensures
            texts(r@) == years(s@),
    {
        let chars = chars_of(s);
        let mut found: Vec<String> = Vec::new();
        let mut i: usize = 0;
        assert(texts(found@) == years_before(s@, 0));
        while i < chars.len()
            invariant
                i <= chars@.len(),
                chars@ == s@,
                texts(found@) == years_before(s@, i as nat),
            decreases chars@.len() - i,
        {
            if is_year_at(&chars, i) {
                add_text(&mut found, text_between(&chars, i, i + 4));
            }
            i += 1;
        }
        found
    }
}

/// Whether `y` is the text of a year.
pub open spec fn is_year(y: Seq<char>) -> bool {
    year_at(y, 0) && y.len() == 4
}

/// What is found are years, each once, and every year that stands in the text is found.
pub proof fn years_are_found(s: Seq<char>)
    ensures
        forall|y: Seq<char>| #[trigger] years(s).contains(y) ==> is_year(y),
        years(s).no_duplicates(),
        forall|i: int| #[trigger] year_at(s, i) ==> years(s).contains(s.subrange(i, i + 4)),
        forall|y: Seq<char>| #[trigger]
            years(s).contains(y) ==> exists|i: int| #[trigger]
                year_at(s, i) && y == s.subrange(i, i + 4),
{
    lemma_years_before(s, s.len());
}

proof fn lemma_years_before(s: Seq<char>, n: nat)
    requires
        n <= s.len(),
    ensures
        years_before(s, n).no_duplicates(),
        forall|i: int| #[trigger]
            year_at(s, i) && i < n ==> years_before(s, n).contains(s.subrange(i, i + 4)),
        forall|y: Seq<char>| #[trigger]
            years_before(s, n).contains(y) ==> is_year(y) && exists|i: int| #[trigger]
                year_at(s, i) && y == s.subrange(i, i + 4),
    decreases n,
{
    if n > 0 {
        let m = (n - 1) as nat;
        lemma_years_before(s, m);
        let before = years_before(s, m);
        let after = years_before(s, n);
        let item = s.subrange(n - 1, n - 1 + 4);
        lemma_with_item(before, item);
        if year_at(s, n - 1) {
            assert(is_year(item));
        }
        assert forall|y: Seq<char>| #[trigger] after.contains(y) implies is_year(y) && exists|
            i: int,
        | #[trigger] year_at(s, i) && y == s.subrange(i, i + 4) by {
            if before.contains(y) {
            } else {
                assert(year_at(s, n - 1) && y == item);
            }
        }
    }
}

/// The pattern of a fiscal year such as `FY 2024-25`; its first group is the year it starts in.
pub const FISCAL_YEAR: &'static str = r"(?i)\bFY\s*(\d{4})[-\x{2013}\x{2014}](\d{2,4})\b";

/// For each match of a regular expression in a text, from left to right, the text that its group
/// numbered `group` matched, if any. There is no list where the pattern is no regular expression.
pub uninterp spec fn matched_groups(pattern: Seq<char>, text: Seq<char>, group: usize) -> Option<
    Seq<Option<Seq<char>>>,
>;

/// `regex::Regex::new` followed by `Regex::captures_iter`, each capture reduced to the text of one
/// group. For the pattern of a fiscal year, what comes out depends on the pattern, the text and the
/// group alone; which matches there are is left to the name.
#[verifier::external_body]
fn match_groups(pattern: &str, text: &str, group: usize) -> (r: Option<Vec<Option<String>>>)
    requires
        pattern@ == FISCAL_YEAR@,
    ensures
        match r {
            Some(list) => matched_groups(pattern@, text@, group) == Some(optional_texts(list@)),
            None => matched_groups(pattern@, text@, group) is None,
        },
{
    let re = regex::Regex::new(pattern).ok()?;
    Some(re.captures_iter(text).map(|c| c.get(group).map(|m| m.as_str().to_string())).collect())
}

/// `list`, with each year of `more` behind it that is not there already.
pub open spec fn with_years(list: Seq<Seq<char>>, more: Seq<Option<Seq<char>>>) -> Seq<Seq<char>>
    decreases more.len(),
{
    if more.len() == 0 {
        list
    } else {
        let before = with_years(list, more.drop_last());
        match more.last() {
            Some(item) => if is_year(item) {
                with_item(before, item)
            } else {
                before
            },
            None => before,
        }
    }
}

/// The years of a query, given the years that its fiscal years start in.
pub open spec fn query_years(query: Seq<char>, fiscal: Option<Seq<Option<Seq<char>>>>) -> Seq<
    Seq<char>,
> {
    match fiscal {
        Some(starts) => with_years(years(query), starts),
        None => years(query),
    }
}

/// Whether `s` is a year: four digits that begin with `19` or `20`.
fn is_year_text(s: &str) -> (r: bool)
    ensures
        r == is_year(s@),
{
    let chars = chars_of(s);
    chars.len() == 4 && is_year_at(&chars, 0)
}

/// Puts each year of `more` behind `list` that is not there already.
pub fn add_years(list: &mut Vec<String>, more: &Vec<Option<String>>)
    ensures
        texts(final(list)@) == with_years(texts(old(list)@), optional_texts(more@)),
{
    let mut i: usize = 0;
    while i < more.len()
        invariant
            i <= more@.len(),
            texts(list@) == with_years(texts(old(list)@), optional_texts(more@).take(i as int)),
        decreases more@.len() - i,
    {
        assert(optional_texts(more@).take(i + 1).drop_last() == optional_texts(more@).take(i as int));
        assert(optional_texts(more@).take(i + 1).last() == optional_text(more@[i as int]));
        if let Some(item) = &more[i] {
            if is_year_text(item.as_str()) {
                add_text(list, item.clone());
            }
        }
        i += 1;
    }
    assert(optional_texts(more@).take(i as int) == optional_texts(more@));
}

impl ChatEngine {
    /// The years that a query asks about: those it names, and behind them the years that its fiscal
    /// years, such as `FY 2024-25`, start in, as far as they begin with `19` or `20`.
    pub fn extract_years(query: &str) -> (r: Vec<String>)
        ensures
            texts(r@) == query_years(query@, matched_groups(FISCAL_YEAR@, query@, 1)),
    {
        let mut found = ChatEngine::find_years(query);
        if let Some(starts) = match_groups(FISCAL_YEAR, query, 1) {
            add_years(&mut found, &starts);
        }
        found
    }
}

/// Whatever fiscal years a query names, the years it names are kept, in front; all that is found
/// are years, and none is repeated.
pub proof fn query_years_extend_the_years_named(
    query: Seq<char>,
    fiscal: Option<Seq<Option<Seq<char>>>>,
)
    ensures
        years(query).is_prefix_of(query_years(query, fiscal)),
        query_years(query, fiscal).no_duplicates(),
        forall|y: Seq<char>| #[trigger] query_years(query, fiscal).contains(y) ==> is_year(y),
        fiscal is Some ==> forall|y: Seq<char>| #[trigger]
            query_years(query, fiscal).contains(y) <==> years(query).contains(y) || (is_year(y)
                && fiscal->0.contains(Some(y))),
{
    years_are_found(query);
    if let Some(starts) = fiscal {
        lemma_with_years(years(query), starts);
    }
}

proof fn lemma_with_years(list: Seq<Seq<char>>, more: Seq<Option<Seq<char>>>)
    requires
        list.no_duplicates(),
    ensures
        list.is_prefix_of(with_years(list, more)),
        with_years(list, more).no_duplicates(),
        forall|y: Seq<char>| #[trigger]
            with_years(list, more).contains(y) <==> list.contains(y) || (is_year(y)
                && more.contains(Some(y))),
    decreases more.len(),
{
    if more.len() > 0 {
        let short = more.drop_last();
        lemma_with_years(list, short);
        assert(more == short.push(more.last()));
        assert forall|o: Option<Seq<char>>| #[trigger] more.contains(o) <==> short.contains(o) || o
            == more.last() by {
            if short.contains(o) {
                let k = choose|k: int| 0 <= k < short.len() && short[k] == o;
                assert(more[k] == o);
            }
            if o == more.last() {
                assert(more[more.len() - 1] == o);
            }
        }
        if let Some(item) = more.last() {
            lemma_with_item(with_years(list, short), item);
        }
    }
}

/// The years that fiscal years start in come behind the others one by one, as they stand in the
/// query; what is no year, or is there already, changes nothing.
pub proof fn fiscal_years_come_one_by_one(
    query: Seq<char>,
    starts: Seq<Option<Seq<char>>>,
    start: Option<Seq<char>>,
)
    ensures
        ({
            let before = query_years(query, Some(starts));
            let after = query_years(query, Some(starts.push(start)));
            &&& start is None ==> after == before
            &&& start matches Some(y) ==> {
                &&& before.contains(y) ==> after == before
                &&& !before.contains(y) && after != before ==> after == before.push(y)
                &&& after != before ==> is_year(y)
                &&& is_year(y) ==> after.contains(y)
            }
            &&& query_years(query, Some(Seq::empty())) == years(query)
        }),
{
    assert(starts.push(start).drop_last() == starts);
    if let Some(y) = start {
        lemma_with_item(with_years(years(query), starts), y);
    }
}

} // verus!
