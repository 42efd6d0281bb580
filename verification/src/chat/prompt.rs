//! The texts that a language model is given: the system prompt, and the question with the passages
//! found for it.
use vstd::prelude::*;
use vstd::string::*;
use crate::text::{decimal, decimal_text, join, joined, texts, trim, trimmed};
use crate::types::{FamilyMember, Profile, Relative, UserProfile};

verus! {

/// The system prompt for a user of whom nothing is known.
pub const RAG_SYSTEM_PROMPT: &'static str = "You are a helpful assistant answering questions about the user's personal documents. Be precise, concrete, and grounded.\n\nGeneral rules:\n- Answer using the numbered document excerpts below. Cite as [1], [2] matching the excerpts.\n- Reasonable inference IS allowed: use context clues (document titles, shared surnames, matching addresses, matching dates of birth, explicit relation words) to draw conclusions the document implies. When you infer rather than quote, say so briefly (\"appears to be…\", \"based on shared surname…\").\n- Extract concrete data (numbers, dates, addresses, amounts, names) directly from the excerpts. Read carefully — receipts, deeds, IDs, invoices, statements each contain distinct fields.\n- Never cite a source not in the list. Never invent numbers, dates, IDs, or names.\n- If the info is genuinely absent from all excerpts, say so explicitly. Do not pad the answer with unrelated content just because a document was retrieved.\n\nQuery-type handling:\n- Aggregate queries (\"how much total\", \"how many\", \"list all\"): iterate every relevant excerpt, sum/enumerate, then report per-doc breakdown + total. Preserve the exact currency symbol as it appears in the source (₹, $, £, €, ¥, etc.). Do not convert currencies or drop the symbol. If the amounts span multiple currencies, report each subtotal separately — never sum across currencies without saying so.\n- Year-specific queries (\"in 2020\", \"last year\", \"FY 2023-24\"): only include excerpts whose date/filename/content matches the asked year. Ignore other years even if they were retrieved.\n- Entity-scoped queries (\"for X vs Y\", \"in city Z\", \"for asset X\", \"about person Y\"): only include excerpts explicitly tied to the named entity. If an excerpt could be about either or neither, say so. Entities can be people, organizations, properties, vehicles, projects, accounts, or anything else that appears in the corpus.\n- Multi-jurisdiction queries: users may hold assets, documents, or transactions across multiple countries. Never assume a single jurisdiction. Preserve country-specific fields as-is (US SSN, India Aadhaar/PAN, UK NI, EU IBAN, etc.) and country-specific formats (currency symbols, date formats).\n- Follow-up queries (\"of that\", \"how much of that for X\", \"what about last year\"): treat the prior turn as context. If the current query is a filter on the previous answer's scope, apply that filter.\n- Comparison queries (\"which cost more\"): pull the compared numbers, state them, then answer.\n\nGrounding discipline:\n- If asked about a specific year and no retrieved excerpt is from that year, say \"I don't have documents for {year} in the retrieved excerpts\" rather than guessing.\n- If asked about an entity not present in any excerpt, say \"I don't have documents about {entity}\".\n- Never confuse document types: an income-tax return is not a property-tax receipt; an insurance policy is not an invoice.";

/// The heading of what is known about the user.
pub const KNOWN_CONTEXT: &'static str = "\n\nKnown context about the user (confirmed by the user, not inferred — trust this over document-only guesses):";

/// Whether a profile tells anything. A name of white space alone tells nothing.
pub open spec fn tells_something(p: Profile) -> bool {
    trimmed(p.display_name).len() > 0 || p.aliases.len() > 0 || p.family_members.len() > 0
        || p.countries.len() > 0 || p.currencies.len() > 0
}

/// `text`, or nothing where `told` does not hold.
pub open spec fn if_told(told: bool, text: Seq<char>) -> Seq<char> {
    if told {
        text
    } else {
        Seq::empty()
    }
}

/// A family member as the prompt names them.
pub open spec fn relative_text(f: Relative) -> Seq<char> {
    f.name + " ("@ + f.relation + ")"@
}

/// A list in a sentence of the prompt.
pub open spec fn listed(items: Seq<Seq<char>>) -> Seq<char> {
    joined(items, ", "@)
}

/// The line of the prompt that gives the user's name.
pub open spec fn name_line(p: Profile) -> Seq<char> {
    if_told(
        trimmed(p.display_name).len() > 0,
        "\n- The user's name is "@ + trimmed(p.display_name) + "."@,
    )
}

/// The line of the prompt that gives the user's other names.
pub open spec fn alias_line(p: Profile) -> Seq<char> {
    if_told(
        p.aliases.len() > 0,
        "\n- The user is also known by: "@ + listed(p.aliases) + "."@,
    )
}

/// The line of the prompt that gives the user's family.
pub open spec fn family_line(p: Profile) -> Seq<char> {
    if_told(
        p.family_members.len() > 0,
        "\n- Family members: "@ + listed(p.family_members.map_values(|f: Relative| relative_text(f)))
            + "."@,
    )
}

/// The line of the prompt that gives the user's countries.
pub open spec fn country_line(p: Profile) -> Seq<char> {
    if_told(
        p.countries.len() > 0,
        "\n- The user has documents/assets in: "@ + listed(p.countries) + "."@,
    )
}

/// The line of the prompt that gives the user's currencies.
pub open spec fn currency_line(p: Profile) -> Seq<char> {
    if_told(
        p.currencies.len() > 0,
        "\n- Currencies commonly used in the user's documents: "@ + listed(p.currencies) + "."@,
    )
}

/// The system prompt for a user with the profile `p`.
pub open spec fn system_prompt(p: Profile) -> Seq<char> {
    RAG_SYSTEM_PROMPT@ + if_told(
        tells_something(p),
        KNOWN_CONTEXT@ + name_line(p) + alias_line(p) + family_line(p) + country_line(p)
            + currency_line(p),
    )
}

/// Appends a heading, a list and a full stop.
fn append_list(out: &mut String, heading: &str, items: &Vec<String>)
    ensures
        final(out)@ == old(out)@ + (heading@ + listed(texts(items@)) + "."@),
{
    out.append(heading);
    out.append(join(items, ", ").as_str());
    out.append(".");
    assert(out@ == old(out)@ + (heading@ + listed(texts(items@)) + "."@));
}

/// The family members as the prompt names them.
fn relative_texts(family: &Vec<FamilyMember>) -> (r: Vec<String>)
    ensures
        texts(r@) == family@.map_values(|f: FamilyMember| relative_text(f@)),
{
    let mut out: Vec<String> = Vec::new();
    let mut i: usize = 0;
    while i < family.len()
        invariant
            i <= family@.len(),
            texts(out@) == family@.map_values(|f: FamilyMember| relative_text(f@)).take(i as int),
        decreases family@.len() - i,
    {
        let mut one = family[i].name.clone();
        one.append(" (");
        one.append(family[i].relation.as_str());
        one.append(")");
        let ghost before = texts(out@);
        out.push(one);
        assert(texts(out@) == before.push(relative_text(family@[i as int]@)));
        assert(family@.map_values(|f: FamilyMember| relative_text(f@)).take(i + 1) == before.push(
            relative_text(family@[i as int]@),
        ));
        i += 1;
    }
    assert(family@.map_values(|f: FamilyMember| relative_text(f@)).take(i as int)
        == family@.map_values(|f: FamilyMember| relative_text(f@)));
    out
}

/// Appends the line that gives a list, unless the list is empty.
fn append_line(out: &mut String, heading: &str, items: &Vec<String>)
    ensures
        final(out)@ == old(out)@ + if_told(
            items@.len() > 0,
            heading@ + listed(texts(items@)) + "."@,
        ),
{
    if items.is_empty() {
        assert(out@ == old(out)@ + Seq::<char>::empty());
    } else {
        append_list(out, heading, items);
    }
}

/// Appends the line that gives the user's name, which `name` is, unless it is empty.
fn append_name(out: &mut String, name: &str)
    ensures
        final(out)@ == old(out)@ + if_told(
            name@.len() > 0,
            "\n- The user's name is "@ + name@ + "."@,
        ),
{
    if name.is_empty() {
        assert(out@ == old(out)@ + Seq::<char>::empty());
    } else {
        out.append("\n- The user's name is ");
        out.append(name);
        out.append(".");
        assert(out@ == old(out)@ + ("\n- The user's name is "@ + name@ + "."@));
    }
}

/// The system prompt: `RAG_SYSTEM_PROMPT`, and behind it what the profile tells. Where it tells
/// nothing, `RAG_SYSTEM_PROMPT` as it is.
pub fn build_system_prompt(profile: &UserProfile) -> (r: String)
    ensures
        r@ == system_prompt(profile@),
{
    let ghost p = profile@;
    let name = trim(profile.display_name.as_str());
    let mut out = RAG_SYSTEM_PROMPT.to_string();
    if name.as_str().is_empty() && profile.aliases.is_empty() && profile.family_members.is_empty()
        && profile.countries.is_empty() && profile.currencies.is_empty() {
        assert(out@ + Seq::<char>::empty() == out@);
        return out;
    }
    let relatives = relative_texts(&profile.family_members);
    assert(texts(relatives@) == p.family_members.map_values(|f: Relative| relative_text(f)));
    let mut block = KNOWN_CONTEXT.to_string();
    append_name(&mut block, name.as_str());
    append_line(&mut block, "\n- The user is also known by: ", &profile.aliases);
    append_line(&mut block, "\n- Family members: ", &relatives);
    append_line(&mut block, "\n- The user has documents/assets in: ", &profile.countries);
    append_line(
        &mut block,
        "\n- Currencies commonly used in the user's documents: ",
        &profile.currencies,
    );
    out.append(block.as_str());
    out
}

/// A numbered passage as the prompt gives it: number, title, text.
pub type Numbered = (u32, Seq<char>, Seq<char>);

/// The line of the prompt that gives a passage.
pub open spec fn passage_line(p: Numbered) -> Seq<char> {
    "["@ + decimal(p.0 as nat) + "] "@ + p.1 + ": "@ + p.2 + "\n"@
}

/// The lines of the prompt that give the passages.
pub open spec fn passage_lines(passages: Seq<Numbered>) -> Seq<char>
    decreases passages.len(),
{
    if passages.len() == 0 {
        Seq::empty()
    } else {
        passage_lines(passages.drop_last()) + passage_line(passages.last())
    }
}

/// The message that puts a question together with the passages found for it.
pub open spec fn rag_prompt(passages: Seq<Numbered>, query: Seq<char>) -> Seq<char> {
    "Documents in your library:\n"@ + passage_lines(passages) + "\n"@ + ("Question: "@ + query)
}

/// What a list of numbered passages holds.
pub open spec fn passages(docs: Seq<(u32, &str, &str)>) -> Seq<Numbered> {
    docs.map_values(|d: (u32, &str, &str)| (d.0, d.1@, d.2@))
}

/// The message that puts `query` together with the passages found for it:
///
/// ```text
/// Documents in your library:
/// [1] {title}: {text}
/// [2] {title}: {text}
///
/// Question: {query}
/// ```
///
/// The system prompt goes to the language model on its own and is not part of the message.
pub fn build_rag_prompt(_system: &str, numbered_docs: &[(u32, &str, &str)], query: &str) -> (r:
    String)
    ensures
        r@ == rag_prompt(passages(numbered_docs@), query@),
{
    let ghost all = passages(numbered_docs@);
    let mut out = "Documents in your library:\n".to_string();
    let ghost head = out@;
    assert(out@ == head + passage_lines(all.take(0)));
    let mut i: usize = 0;
    while i < numbered_docs.len()
        invariant
            i <= numbered_docs@.len(),
            all == passages(numbered_docs@),
            out@ == head + passage_lines(all.take(i as int)),
        decreases numbered_docs@.len() - i,
    {
        let (index, title, chunk_text) = numbered_docs[i];
        let ghost before = out@;
        out.append("[");
        out.append(decimal_text(index).as_str());
        out.append("] ");
        out.append(title);
        out.append(": ");
        out.append(chunk_text);
        out.append("\n");
        assert(out@ == before + passage_line(all[i as int]));
        assert(all.take(i + 1).drop_last() == all.take(i as int));
        assert(before + passage_line(all[i as int]) == head + (passage_lines(all.take(i as int))
            + passage_line(all[i as int])));
        i += 1;
    }
    assert(all.take(i as int) == all);
    out.append("\n");
    out.append("Question: ");
    out.append(query);
    assert(out@ == rag_prompt(all, query@));
    out
}

/// A user who tells nothing gets `RAG_SYSTEM_PROMPT` unchanged, and any other a prompt that begins
/// with it.
pub proof fn system_prompt_begins_with_the_rules(p: Profile)
    ensures
        RAG_SYSTEM_PROMPT@.is_prefix_of(system_prompt(p)),
        !tells_something(p) ==> system_prompt(p) == RAG_SYSTEM_PROMPT@,
{
    assert(RAG_SYSTEM_PROMPT@ + Seq::<char>::empty() == RAG_SYSTEM_PROMPT@);
}

} // verus!
