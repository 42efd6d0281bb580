//! What the language model is told, whatever the user told and whatever was found.
use vstd::prelude::*;
use crate::chat::prompt::{
    alias_line, country_line, currency_line, family_line, name_line, passage_line,
    passage_lines, rag_prompt, relative_text, system_prompt, Numbered, KNOWN_CONTEXT, RAG_SYSTEM_PROMPT,
};
use crate::text::{decimal, joined, occurs, trimmed};
use crate::text_laws::{
    joined_parts_occur, parts_occur_where_they_stand, parts_of_parts_occur, what_occurs_stays,
};
use crate::types::{Profile, Relative};

verus! {

/// A user's name, where it is not blank, stands in the prompt as a sentence of its own.
pub proof fn the_prompt_gives_the_name(p: Profile)
    requires
        trimmed(p.display_name).len() > 0,
    ensures
        occurs(
            system_prompt(p),
            "\n- The user's name is "@ + trimmed(p.display_name) + "."@,
        ),
        occurs(system_prompt(p), trimmed(p.display_name)),
        occurs(system_prompt(p), KNOWN_CONTEXT@),
{
    lemma_lines_stand(p);
    lemma_sentence(
        "\n- The user's name is "@,
        trimmed(p.display_name),
        trimmed(p.display_name),
        system_prompt(p),
    );
}

/// Each alias stands in the prompt, in the sentence that lists them all.
pub proof fn the_prompt_gives_the_aliases(p: Profile, i: int)
    requires
        0 <= i < p.aliases.len(),
    ensures
        occurs(
            system_prompt(p),
            "\n- The user is also known by: "@ + joined(p.aliases, ", "@) + "."@,
        ),
        occurs(system_prompt(p), p.aliases[i]),
        occurs(system_prompt(p), KNOWN_CONTEXT@),
{
    lemma_lines_stand(p);
    joined_parts_occur(p.aliases, ", "@, i);
    lemma_sentence(
        "\n- The user is also known by: "@,
        joined(p.aliases, ", "@),
        p.aliases[i],
        system_prompt(p),
    );
}

/// Each family member stands in the prompt, with how they are related.
pub proof fn the_prompt_gives_the_family(p: Profile, i: int)
    requires
        0 <= i < p.family_members.len(),
    ensures
        occurs(
            system_prompt(p),
            p.family_members[i].name + " ("@ + p.family_members[i].relation + ")"@,
        ),
        occurs(
            system_prompt(p),
            "\n- Family members: "@ + joined(
                Seq::new(
                    p.family_members.len(),
                    |k: int|
                        p.family_members[k].name + " ("@ + p.family_members[k].relation + ")"@,
                ),
                ", "@,
            ) + "."@,
        ),
        occurs(system_prompt(p), KNOWN_CONTEXT@),
{
    lemma_lines_stand(p);
    let texts = p.family_members.map_values(|f: Relative| relative_text(f));
    let same = Seq::new(
        p.family_members.len(),
        |k: int| p.family_members[k].name + " ("@ + p.family_members[k].relation + ")"@,
    );
    assert(texts =~= same);
    joined_parts_occur(same, ", "@, i);
    lemma_sentence("\n- Family members: "@, joined(same, ", "@), same[i], system_prompt(p));
}

/// Each country stands in the prompt, in the sentence that lists them all.
pub proof fn the_prompt_gives_the_countries(p: Profile, i: int)
    requires
        0 <= i < p.countries.len(),
    ensures
        occurs(
            system_prompt(p),
            "\n- The user has documents/assets in: "@ + joined(p.countries, ", "@) + "."@,
        ),
        occurs(system_prompt(p), p.countries[i]),
        occurs(system_prompt(p), KNOWN_CONTEXT@),
{
    lemma_lines_stand(p);
    joined_parts_occur(p.countries, ", "@, i);
    lemma_sentence(
        "\n- The user has documents/assets in: "@,
        joined(p.countries, ", "@),
        p.countries[i],
        system_prompt(p),
    );
}

/// Each currency stands in the prompt, in the sentence that lists them all.
pub proof fn the_prompt_gives_the_currencies(p: Profile, i: int)
    requires
        0 <= i < p.currencies.len(),
    ensures
        occurs(
            system_prompt(p),
            "\n- Currencies commonly used in the user's documents: "@ + joined(
                p.currencies,
                ", "@,
            ) + "."@,
        ),
        occurs(system_prompt(p), p.currencies[i]),
        occurs(system_prompt(p), KNOWN_CONTEXT@),
{
    lemma_lines_stand(p);
    joined_parts_occur(p.currencies, ", "@, i);
    lemma_sentence(
        "\n- Currencies commonly used in the user's documents: "@,
        joined(p.currencies, ", "@),
        p.currencies[i],
        system_prompt(p),
    );
}

/// How long the sentence is that gives a list, if there is one to give.
pub open spec fn sentence_len(heading: Seq<char>, items: Seq<Seq<char>>) -> nat {
    if items.len() == 0 {
        0
    } else {
        heading.len() + joined(items, ", "@).len() + 1
    }
}

/// The prompt holds the sentences on what was told, and nothing beside them.
pub proof fn the_prompt_gives_nothing_else(p: Profile)
    ensures
        ({
            let nothing = trimmed(p.display_name).len() == 0 && p.aliases.len() == 0
                && p.family_members.len() == 0 && p.countries.len() == 0 && p.currencies.len() == 0;
            let family = Seq::new(
                p.family_members.len(),
                |k: int| p.family_members[k].name + " ("@ + p.family_members[k].relation + ")"@,
            );
            let name = if trimmed(p.display_name).len() == 0 {
                0nat
            } else {
                "\n- The user's name is "@.len() + trimmed(p.display_name).len() + 1
            };
            &&& nothing ==> system_prompt(p) == RAG_SYSTEM_PROMPT@
            &&& !nothing ==> system_prompt(p).len() == RAG_SYSTEM_PROMPT@.len()
                + KNOWN_CONTEXT@.len() + name + sentence_len(
                "\n- The user is also known by: "@,
                p.aliases,
            ) + sentence_len("\n- Family members: "@, family) + sentence_len(
                "\n- The user has documents/assets in: "@,
                p.countries,
            ) + sentence_len(
                "\n- Currencies commonly used in the user's documents: "@,
                p.currencies,
            )
            &&& (RAG_SYSTEM_PROMPT@).is_prefix_of(system_prompt(p))
            &&& !nothing ==> (RAG_SYSTEM_PROMPT@ + KNOWN_CONTEXT@).is_prefix_of(system_prompt(p))
        }),
{
    let family = Seq::new(
        p.family_members.len(),
        |k: int| p.family_members[k].name + " ("@ + p.family_members[k].relation + ")"@,
    );
    assert(p.family_members.map_values(|f: Relative| relative_text(f)) =~= family);
    assert("."@.len() == 1) by {
        reveal_strlit(".");
    }
    assert(RAG_SYSTEM_PROMPT@ + Seq::<char>::empty() == RAG_SYSTEM_PROMPT@);
    lemma_lines_stand(p);
    assert(RAG_SYSTEM_PROMPT@ + (KNOWN_CONTEXT@ + name_line(p) + alias_line(p) + family_line(p)
        + country_line(p) + currency_line(p)) == (RAG_SYSTEM_PROMPT@ + KNOWN_CONTEXT@) + (name_line(p)
        + alias_line(p) + family_line(p) + country_line(p) + currency_line(p)));
}

/// The sentences come in one order: name, aliases, family, countries, currencies. Telling more of
/// what comes later leaves what is there and adds behind it.
pub proof fn later_sentences_come_behind(p: Profile)
    ensures
        ({
            let none = Seq::<Seq<char>>::empty();
            let four = Profile { currencies: none, ..p };
            let three = Profile { countries: none, ..four };
            let two = Profile { family_members: Seq::empty(), ..three };
            let one = Profile { aliases: none, ..two };
            &&& system_prompt(four).is_prefix_of(system_prompt(p))
            &&& system_prompt(three).is_prefix_of(system_prompt(four))
            &&& system_prompt(two).is_prefix_of(system_prompt(three))
            &&& system_prompt(one).is_prefix_of(system_prompt(two))
        }),
{
    let none = Seq::<Seq<char>>::empty();
    let four = Profile { currencies: none, ..p };
    let three = Profile { countries: none, ..four };
    let two = Profile { family_members: Seq::empty(), ..three };
    let one = Profile { aliases: none, ..two };
    lemma_prefix(four, p);
    lemma_prefix(three, four);
    lemma_prefix(two, three);
    lemma_prefix(one, two);
}

proof fn lemma_prefix(q: Profile, p: Profile)
    requires
        ({
            ||| q == (Profile { currencies: Seq::empty(), ..p })
            ||| (q == (Profile { countries: Seq::empty(), ..p }) && p.currencies.len() == 0)
            ||| (q == (Profile { family_members: Seq::empty(), ..p }) && p.countries.len() == 0
                && p.currencies.len() == 0)
            ||| (q == (Profile { aliases: Seq::empty(), ..p }) && p.family_members.len() == 0
                && p.countries.len() == 0 && p.currencies.len() == 0)
        }),
    ensures
        system_prompt(q).is_prefix_of(system_prompt(p)),
{
    let e = Seq::<char>::empty();
    let r = RAG_SYSTEM_PROMPT@;
    let k = KNOWN_CONTEXT@;
    assert(name_line(q) == name_line(p));
    if system_prompt(q) == r + e {
        assert(system_prompt(q) == r);
    } else {
        let x = k + name_line(p) + alias_line(q) + family_line(q) + country_line(q)
            + currency_line(q);
        assert(system_prompt(q) == r + x);
        let y = k + name_line(p) + alias_line(p) + family_line(p) + country_line(p)
            + currency_line(p);
        assert(system_prompt(p) == r + y);
        assert(x.is_prefix_of(y));
    }
}

/// The lines of the prompt stand in it one after the other.
proof fn lemma_lines_stand(p: Profile)
    ensures
        ({
            let told = trimmed(p.display_name).len() > 0 || p.aliases.len() > 0
                || p.family_members.len() > 0 || p.countries.len() > 0 || p.currencies.len() > 0;
            let s = system_prompt(p);
            &&& told ==> occurs(s, KNOWN_CONTEXT@)
            &&& told ==> occurs(s, name_line(p))
            &&& told ==> occurs(s, alias_line(p))
            &&& told ==> occurs(s, family_line(p))
            &&& told ==> occurs(s, country_line(p))
            &&& told ==> occurs(s, currency_line(p))
            &&& told ==> s == RAG_SYSTEM_PROMPT@ + (KNOWN_CONTEXT@ + name_line(p) + alias_line(p)
                + family_line(p) + country_line(p) + currency_line(p))
        }),
{
    lemma_six_parts(
        RAG_SYSTEM_PROMPT@,
        KNOWN_CONTEXT@,
        name_line(p),
        alias_line(p),
        family_line(p),
        country_line(p),
        currency_line(p),
    );
}

proof fn lemma_six_parts(
    r: Seq<char>,
    k: Seq<char>,
    a: Seq<char>,
    b: Seq<char>,
    c: Seq<char>,
    d: Seq<char>,
    e: Seq<char>,
)
    ensures
        ({
            let s = r + (k + a + b + c + d + e);
            occurs(s, k) && occurs(s, a) && occurs(s, b) && occurs(s, c) && occurs(s, d) && occurs(
                s,
                e,
            )
        }),
{
    lemma_one_part(k + a + b + c + d, e, Seq::empty(), r);
    assert(k + a + b + c + d + e + Seq::<char>::empty() == k + a + b + c + d + e);
    lemma_one_part(k + a + b + c, d, e, r);
    lemma_one_part(k + a + b, c, d + e, r);
    assert(k + a + b + c + (d + e) == k + a + b + c + d + e);
    lemma_one_part(k + a, b, c + d + e, r);
    assert(k + a + b + (c + d + e) == k + a + b + c + d + e);
    lemma_one_part(k, a, b + c + d + e, r);
    assert(k + a + (b + c + d + e) == k + a + b + c + d + e);
    lemma_one_part(Seq::empty(), k, a + b + c + d + e, r);
    assert(Seq::<char>::empty() + k + (a + b + c + d + e) == k + a + b + c + d + e);
}

proof fn lemma_one_part(front: Seq<char>, part: Seq<char>, back: Seq<char>, first: Seq<char>)
    ensures
        occurs(first + (front + part + back), part),
{
    parts_occur_where_they_stand(front, part, back);
    what_occurs_stays(front + part + back, first, part);
}

/// What occurs in the list of a sentence occurs where the sentence does.
proof fn lemma_sentence(heading: Seq<char>, list: Seq<char>, item: Seq<char>, s: Seq<char>)
    requires
        occurs(s, heading + list + "."@),
        item == list || occurs(list, item),
    ensures
        occurs(s, item),
{
    parts_occur_where_they_stand(heading, list, "."@);
    parts_of_parts_occur(s, heading + list + "."@, list);
    if item != list {
        parts_of_parts_occur(s, list, item);
    }
}

/// The message without passages is the heading, an empty line and the question.
pub proof fn the_message_ends_with_the_question(query: Seq<char>)
    ensures
        rag_prompt(Seq::empty(), query) == "Documents in your library:\n"@ + "\n"@ + "Question: "@
            + query,
{
    assert(passage_lines(Seq::<Numbered>::empty()) == Seq::<char>::empty());
}

/// One more passage adds one line behind those of the others, and changes nothing else: its number
/// in brackets, its title, a colon and its text.
pub proof fn each_passage_has_its_line(list: Seq<Numbered>, p: Numbered, query: Seq<char>)
    ensures
        ({
            let line = "["@ + decimal(p.0 as nat) + "] "@ + p.1 + ": "@ + p.2 + "\n"@;
            let tail = "\n"@ + "Question: "@ + query;
            let one = rag_prompt(list, query);
            let head = one.take(one.len() - tail.len());
            &&& tail.is_suffix_of(one)
            &&& one == head + tail
            &&& rag_prompt(list.push(p), query) == head + line + tail
            &&& occurs(rag_prompt(list.push(p), query), line)
            &&& occurs(rag_prompt(list.push(p), query), p.2)
        }),
{
    let line = "["@ + decimal(p.0 as nat) + "] "@ + p.1 + ": "@ + p.2 + "\n"@;
    let tail = "\n"@ + "Question: "@ + query;
    let one = rag_prompt(list, query);
    let front = "Documents in your library:\n"@ + passage_lines(list);
    assert(list.push(p).drop_last() == list);
    assert(one == front + tail);
    let head = one.take(one.len() - tail.len());
    assert(head == front);
    assert(one.subrange(one.len() - tail.len(), one.len() as int) == tail);
    let two = rag_prompt(list.push(p), query);
    assert(two == front + line + tail);
    parts_occur_where_they_stand(front, line, tail);
    let before = "["@ + decimal(p.0 as nat) + "] "@ + p.1 + ": "@;
    assert(line == before + p.2 + "\n"@);
    parts_occur_where_they_stand(before, p.2, "\n"@);
    parts_of_parts_occur(two, line, p.2);
}

/// Every prompt begins with the general instructions; where the user told anything, the heading of
/// what is known follows at once.
pub proof fn the_prompt_begins_with_the_instructions(p: Profile)
    ensures
        RAG_SYSTEM_PROMPT@.is_prefix_of(system_prompt(p)),
        (trimmed(p.display_name).len() > 0 || p.aliases.len() > 0 || p.family_members.len() > 0
            || p.countries.len() > 0 || p.currencies.len() > 0) ==> (RAG_SYSTEM_PROMPT@
            + KNOWN_CONTEXT@).is_prefix_of(system_prompt(p)),
{
    let told = KNOWN_CONTEXT@ + name_line(p) + alias_line(p) + family_line(p) + country_line(p)
        + currency_line(p);
    if trimmed(p.display_name).len() > 0 || p.aliases.len() > 0 || p.family_members.len() > 0
        || p.countries.len() > 0 || p.currencies.len() > 0 {
        lemma_begins(KNOWN_CONTEXT@, name_line(p));
        lemma_begins_on(KNOWN_CONTEXT@, KNOWN_CONTEXT@ + name_line(p), alias_line(p));
        lemma_begins_on(
            KNOWN_CONTEXT@,
            KNOWN_CONTEXT@ + name_line(p) + alias_line(p),
            family_line(p),
        );
        lemma_begins_on(
            KNOWN_CONTEXT@,
            KNOWN_CONTEXT@ + name_line(p) + alias_line(p) + family_line(p),
            country_line(p),
        );
        lemma_begins_on(
            KNOWN_CONTEXT@,
            KNOWN_CONTEXT@ + name_line(p) + alias_line(p) + family_line(p) + country_line(p),
            currency_line(p),
        );
        lemma_both_begin(RAG_SYSTEM_PROMPT@, KNOWN_CONTEXT@, told);
        lemma_begins(RAG_SYSTEM_PROMPT@, told);
    } else {
        lemma_begins(RAG_SYSTEM_PROMPT@, Seq::empty());
    }
}

proof fn lemma_begins(a: Seq<char>, b: Seq<char>)
    ensures
        a.is_prefix_of(a + b),
{
    assert((a + b).subrange(0, a.len() as int) == a);
}

proof fn lemma_begins_on(a: Seq<char>, b: Seq<char>, c: Seq<char>)
    requires
        a.is_prefix_of(b),
    ensures
        a.is_prefix_of(b + c),
{
    assert((b + c).subrange(0, a.len() as int) == b.subrange(0, a.len() as int));
}

proof fn lemma_both_begin(a: Seq<char>, b: Seq<char>, c: Seq<char>)
    requires
        b.is_prefix_of(c),
    ensures
        (a + b).is_prefix_of(a + c),
{
    assert forall|k: int| 0 <= k < b.len() implies b[k] == c[k] by {
        assert(c.subrange(0, b.len() as int)[k] == c[k]);
    }
    assert((a + c).subrange(0, (a + b).len() as int) == a + b);
}

/// Every passage stands in the message, in a line of its own, and the question stands at the end.
pub proof fn the_message_gives_every_passage(list: Seq<Numbered>, query: Seq<char>, i: int)
    ensures
        ("Question: "@ + query).is_suffix_of(rag_prompt(list, query)),
        "Documents in your library:\n"@.is_prefix_of(rag_prompt(list, query)),
        0 <= i < list.len() ==> occurs(
            rag_prompt(list, query),
            "["@ + decimal(list[i].0 as nat) + "] "@ + list[i].1 + ": "@ + list[i].2 + "\n"@,
        ),
{
    let all = rag_prompt(list, query);
    let first = "Documents in your library:\n"@;
    let end = "Question: "@ + query;
    assert(all.subrange(0, first.len() as int) == first);
    assert(all.subrange(all.len() - end.len(), all.len() as int) == end);
    if 0 <= i < list.len() {
        let line = "["@ + decimal(list[i].0 as nat) + "] "@ + list[i].1 + ": "@ + list[i].2 + "\n"@;
        lemma_line_stands(list, i);
        what_occurs_stays(passage_lines(list), first, line);
        what_occurs_stays(first + passage_lines(list), "\n"@, line);
        what_occurs_stays(first + passage_lines(list) + "\n"@, end, line);
    }
}

proof fn lemma_line_stands(list: Seq<Numbered>, i: int)
    requires
        0 <= i < list.len(),
    ensures
        occurs(
            passage_lines(list),
            "["@ + decimal(list[i].0 as nat) + "] "@ + list[i].1 + ": "@ + list[i].2 + "\n"@,
        ),
    decreases list.len(),
{
    let line = "["@ + decimal(list[i].0 as nat) + "] "@ + list[i].1 + ": "@ + list[i].2 + "\n"@;
    let before = passage_lines(list.drop_last());
    if i < list.len() - 1 {
        lemma_line_stands(list.drop_last(), i);
        what_occurs_stays(before, passage_line(list.last()), line);
    } else {
        let none = Seq::<char>::empty();
        parts_occur_where_they_stand(before, line, none);
        assert(before + line + none == before + line);
        assert(passage_line(list.last()) == line);
    }
}

} // verus!
