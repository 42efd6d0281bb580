//! Which documents are searched, which of those found are used, and what is used of them.
use vstd::prelude::*;
use vstd::string::*;
use crate::chat::chunk::{chunk_text, chunked, windows, Chunk, Window};
use crate::chat::engine::ChatEngine;
use crate::chat::query::mentioned;
use crate::chat::rank::{
    best, can_sort, found, keep_best, scores_of, sortable, the_best_descend, Candidate, Passage,
};
use crate::chat::years::{matched_groups, query_years, years, FISCAL_YEAR};
use crate::json::{text_of, tree, Tree};
use crate::table::{TextMap, TextSet};
use crate::text::{holds_text, lowercase, optional_text, texts};
use crate::types::CanonicalEntity;

verus! {

/// How many documents are searched for.
pub const SEARCH_DEPTH: usize = 8;

/// How many documents are searched for where the question names a year: enough that some are left
/// once those of other years are left out.
pub const SEARCH_DEPTH_FOR_YEARS: usize = 30;

/// How many documents are used.
pub const DOCUMENTS_USED: usize = 8;

/// How many characters of a document are scored at once.
pub const CHUNK_SIZE: usize = 500;

/// How many of those characters the next chunk shares.
pub const CHUNK_OVERLAP: usize = 50;

/// How many passages of one document are kept.
pub const PASSAGES_PER_DOCUMENT: usize = 3;

/// How many passages are kept in all.
pub const PASSAGES_IN_ALL: usize = 12;

/// What an optional set holds.
pub open spec fn optional_set(s: Option<TextSet>) -> Option<Set<Seq<char>>> {
    match s {
        Some(set) => Some(set@),
        None => None,
    }
}

/// The documents that two filters leave: where neither filters, there is no restriction.
pub open spec fn combined(
    a: Option<Set<Seq<char>>>,
    b: Option<Set<Seq<char>>>,
) -> Option<Set<Seq<char>>> {
    match (a, b) {
        (None, None) => None,
        (Some(x), None) => Some(x),
        (None, Some(y)) => Some(y),
        (Some(x), Some(y)) => Some(x.intersect(y)),
    }
}

/// The documents that two filters leave.
pub fn combine_candidates(a: Option<TextSet>, b: Option<TextSet>) -> (r: Option<TextSet>)
    ensures
        optional_set(r) == combined(optional_set(a), optional_set(b)),
{
    match a {
        None => b,
        Some(x) => match b {
            None => Some(x),
            Some(y) => Some(x.intersection(&y)),
        },
    }
}

/// Whether the document `doc` is listed under one of `ids`.
pub open spec fn listed_under(
    index: Map<Seq<char>, Vec<String>>,
    ids: Seq<Seq<char>>,
    doc: Seq<char>,
) -> bool {
    exists|i: int|
        0 <= i < ids.len() && index.contains_key(#[trigger] ids[i]) && texts(
            index[ids[i]]@,
        ).contains(doc)
}

/// The documents that are listed under any of `ids`.
pub open spec fn documents_of(index: Map<Seq<char>, Vec<String>>, ids: Seq<Seq<char>>) -> Set<
    Seq<char>,
> {
    Set::new(|doc: Seq<char>| listed_under(index, ids, doc))
}

/// The documents that are left once the question names the entities `ids`, which occur in `docs`.
/// No entity, more than three, or none that occurs anywhere restrict nothing.
pub open spec fn narrowed(
    candidates: Option<Set<Seq<char>>>,
    ids: Seq<Seq<char>>,
    docs: Set<Seq<char>>,
) -> Option<Set<Seq<char>>> {
    if 1 <= ids.len() <= 3 && docs != Set::<Seq<char>>::empty() {
        Some(
            match candidates {
                None => docs,
                Some(set) => set.intersect(docs),
            },
        )
    } else {
        candidates
    }
}

fn add_all(set: &mut TextSet, list: &Vec<String>)
    ensures
        forall|x: Seq<char>| #[trigger]
            final(set)@.contains(x) <==> old(set)@.contains(x) || texts(list@).contains(x),
{
    let ghost before = set@;
    let mut i: usize = 0;
    while i < list.len()
        invariant
            i <= list@.len(),
            forall|x: Seq<char>| #[trigger]
                set@.contains(x) <==> before.contains(x) || texts(list@).take(i as int).contains(x),
        decreases list@.len() - i,
    {
        let ghost prior = set@;
        set.insert(list[i].clone());
        proof {
            let longer = texts(list@).take(i + 1);
            let shorter = texts(list@).take(i as int);
            assert(longer == shorter.push(list@[i as int]@));
            assert(longer[i as int] == list@[i as int]@);
            assert forall|x: Seq<char>| #[trigger] set@.contains(x) <==> before.contains(x)
                || longer.contains(x) by {
                assert(set@.contains(x) <==> prior.contains(x) || x == list@[i as int]@);
                if shorter.contains(x) {
                    let k = choose|k: int| 0 <= k < shorter.len() && shorter[k] == x;
                    assert(longer[k] == x);
                }
                if longer.contains(x) && x != list@[i as int]@ {
                    let k = choose|k: int| 0 <= k < longer.len() && longer[k] == x;
                    assert(shorter[k] == x);
                }
            }
        }
        i += 1;
    }
    assert(texts(list@).take(i as int) == texts(list@));
}

fn find_documents(index: &TextMap<Vec<String>>, ids: &Vec<String>) -> (r: TextSet)
    ensures
        r@ == documents_of(index@, texts(ids@)),
{
    let ghost all = texts(ids@);
    let mut docs = TextSet::new();
    let mut i: usize = 0;
    while i < ids.len()
        invariant
            i <= ids@.len(),
            all == texts(ids@),
            forall|doc: Seq<char>| #[trigger]
                docs@.contains(doc) <==> listed_under(index@, all.take(i as int), doc),
        decreases ids@.len() - i,
    {
        let ghost prior = docs@;
        let ghost shorter = all.take(i as int);
        let ghost longer = all.take(i + 1);
        let listed = index.get(ids[i].as_str());
        if let Some(list) = listed {
            add_all(&mut docs, list);
        }
        proof {
            assert(longer[i as int] == ids@[i as int]@);
            assert forall|doc: Seq<char>| #[trigger] docs@.contains(doc) <==> listed_under(
                index@,
                longer,
                doc,
            ) by {
                assert(prior.contains(doc) <==> listed_under(index@, shorter, doc));
                if listed_under(index@, shorter, doc) {
                    let k = choose|k: int|
                        0 <= k < shorter.len() && index@.contains_key(#[trigger] shorter[k])
                            && texts(index@[shorter[k]]@).contains(doc);
                    assert(longer[k] == shorter[k]);
                }
                if listed_under(index@, longer, doc) {
                    let k = choose|k: int|
                        0 <= k < longer.len() && index@.contains_key(#[trigger] longer[k]) && texts(
                            index@[longer[k]]@,
                        ).contains(doc);
                    if k < i {
                        assert(shorter[k] == longer[k]);
                    }
                }
            }
        }
        i += 1;
    }
    assert(all.take(i as int) == all);
    assert(docs@ == documents_of(index@, all));
    docs
}

/// The documents that are left once the question names the entities `ids`. `index` lists the
/// documents that each entity occurs in.
pub fn narrow_candidates(
    candidates: Option<TextSet>,
    ids: &Vec<String>,
    index: &TextMap<Vec<String>>,
) -> (r: Option<TextSet>)
    ensures
        optional_set(r) == narrowed(
            optional_set(candidates),
            texts(ids@),
            documents_of(index@, texts(ids@)),
        ),
{
    if ids.len() == 0 || ids.len() > 3 {
        return candidates;
    }
    let docs = find_documents(index, ids);
    if docs.is_empty() {
        return candidates;
    }
    match candidates {
        None => Some(docs),
        Some(set) => Some(set.intersection(&docs)),
    }
}

/// How many documents to search for, given the years that the question names.
pub fn search_depth(query_years: &Vec<String>) -> (r: usize)
    ensures
        r == if query_years@.len() == 0 {
            SEARCH_DEPTH
        } else {
            SEARCH_DEPTH_FOR_YEARS
        },
        query_years@.len() == 0 ==> r == 8,
        query_years@.len() > 0 ==> r == 30,
{
    if query_years.len() == 0 {
        SEARCH_DEPTH
    } else {
        SEARCH_DEPTH_FOR_YEARS
    }
}

/// What is known of a document that was found.
#[derive(Debug, Clone, PartialEq)]
pub struct Document {
    pub title: String,
    pub path: String,
    pub excerpt: Option<String>,
}

/// What a document's record holds.
pub struct Record {
    pub title: Seq<char>,
    pub path: Seq<char>,
    pub excerpt: Option<Seq<char>>,
}

impl View for Document {
    type V = Record;

    open spec fn view(&self) -> Record {
        Record {
            title: self.title@,
            path: self.path@,
            excerpt: optional_text(self.excerpt),
        }
    }
}

/// The text of an optional value: there is none where the value is missing or no text.
pub open spec fn text_in(v: Option<&serde_json::Value>) -> Option<Seq<char>> {
    match v {
        Some(value) => text_of(tree(*value)),
        None => None,
    }
}

/// `s`, or `other` where there is none.
pub open spec fn text_or(s: Option<Seq<char>>, other: Seq<char>) -> Seq<char> {
    match s {
        Some(t) => t,
        None => other,
    }
}

fn read_text(v: Option<&serde_json::Value>) -> (r: Option<String>)
    ensures
        optional_text(r) == text_in(v),
{
    match v {
        Some(value) => match value.as_str() {
            Some(s) => Some(s.to_string()),
            None => None,
        },
        None => None,
    }
}

/// Reads what is known of a document from the values kept with it.
pub fn read_document(
    title: Option<&serde_json::Value>,
    path: Option<&serde_json::Value>,
    excerpt: Option<&serde_json::Value>,
) -> (r: Document)
    ensures
        r@ == (Record {
            title: text_or(text_in(title), "Unknown"@),
            path: text_or(text_in(path), ""@),
            excerpt: text_in(excerpt),
        }),
        r.title@ == match title {
            Some(v) => match tree(*v) {
                Tree::Text(s) => s,
                _ => "Unknown"@,
            },
            None => "Unknown"@,
        },
        r.path@ == match path {
            Some(v) => match tree(*v) {
                Tree::Text(s) => s,
                _ => ""@,
            },
            None => ""@,
        },
        match (r.excerpt, excerpt) {
            (Some(text), Some(v)) => tree(*v) == Tree::Text(text@),
            (Some(_), None) => false,
            (None, Some(v)) => !(tree(*v) is Text),
            (None, None) => true,
        },
{
    let title = match read_text(title) {
        Some(s) => s,
        None => "Unknown".to_string(),
    };
    let path = match read_text(path) {
        Some(s) => s,
        None => "".to_string(),
    };
    Document { title, path, excerpt: read_text(excerpt) }
}

/// What is done with a document that was found.
#[derive(Debug, Clone, Copy, PartialEq, Eq, Structural)]
pub enum Verdict {
    /// It is left out.
    Skip,
    /// Its passages are scored.
    Plain,
    /// Its passages are scored, and score higher because it is of a year that the question names.
    Boosted,
}

/// The years that the title or the path of a document names.
pub open spec fn document_years(d: Record) -> Seq<Seq<char>> {
    years(d.title + " "@ + d.path)
}

/// Whether one of the years that the question names is among those of the document.
pub open spec fn shares_year(query_years: Seq<Seq<char>>, document_years: Seq<Seq<char>>) -> bool {
    exists|i: int| 0 <= i < query_years.len() && document_years.contains(#[trigger] query_years[i])
}

/// What is done with the document `id`: it is left out where it is not among the candidates, or
/// where nothing is known of it, or where it is of other years than the question names and the
/// candidates are not restricted.
pub open spec fn judged(
    id: Seq<char>,
    document: Option<Record>,
    candidates: Option<Set<Seq<char>>>,
    query_years: Seq<Seq<char>>,
) -> Verdict {
    if candidates matches Some(set) && !set.contains(id) {
        Verdict::Skip
    } else {
        match document {
            None => Verdict::Skip,
            Some(d) => if query_years.len() == 0 {
                Verdict::Plain
            } else if shares_year(query_years, document_years(d)) {
                Verdict::Boosted
            } else if document_years(d).len() > 0 && candidates is None {
                Verdict::Skip
            } else {
                Verdict::Plain
            },
        }
    }
}

/// What is known of an optional document.
pub open spec fn optional_record(d: Option<Document>) -> Option<Record> {
    match d {
        Some(document) => Some(document@),
        None => None,
    }
}

fn has_shared_year(query_years: &Vec<String>, document_years: &Vec<String>) -> (r: bool)
    ensures
        r == shares_year(texts(query_years@), texts(document_years@)),
{
    let ghost asked = texts(query_years@);
    let ghost had = texts(document_years@);
    let mut i: usize = 0;
    while i < query_years.len()
        invariant
            i <= query_years@.len(),
            asked == texts(query_years@),
            had == texts(document_years@),
            forall|k: int| 0 <= k < i ==> !had.contains(#[trigger] asked[k]),
        decreases query_years@.len() - i,
    {
        if holds_text(document_years, &query_years[i]) {
            assert(had.contains(asked[i as int]));
            return true;
        }
        i += 1;
    }
    false
}

/// What is done with the document `id`, of which `document` is known.
pub fn judge(
    id: &str,
    document: &Option<Document>,
    candidates: &Option<TextSet>,
    query_years: &Vec<String>,
) -> (r: Verdict)
    ensures
        r == judged(
            id@,
            optional_record(*document),
            optional_set(*candidates),
            texts(query_years@),
        ),
{
    if let Some(set) = candidates {
        if !set.contains(id) {
            return Verdict::Skip;
        }
    }
    match document {
        None => Verdict::Skip,
        Some(d) => {
            if query_years.len() == 0 {
                return Verdict::Plain;
            }
            let mut hay = d.title.clone();
            hay.append(" ");
            hay.append(d.path.as_str());
            let found_years = ChatEngine::find_years(hay.as_str());
            if has_shared_year(query_years, &found_years) {
                Verdict::Boosted
            } else if found_years.len() > 0 && candidates.is_none() {
                Verdict::Skip
            } else {
                Verdict::Plain
            }
        },
    }
}

/// Whether a document has a file to be read.
pub fn has_file(document: &Document) -> (r: bool)
    ensures
        r == (document@.path.len() > 0),
{
    !document.path.as_str().is_empty()
}

/// The text of a document: what was read from its file, where it has one and that succeeded; else
/// its excerpt, if there is one.
pub open spec fn text_used(d: Record, file: Option<Seq<char>>) -> Seq<char> {
    if d.path.len() > 0 && file is Some {
        file->Some_0
    } else {
        text_or(d.excerpt, Seq::empty())
    }
}

/// The text of a document, given what was read from its file.
pub fn document_text(document: &Document, file: Option<String>) -> (r: String)
    ensures
        r@ == text_used(document@, optional_text(file)),
{
    if has_file(document) {
        if let Some(text) = file {
            return text;
        }
    }
    match &document.excerpt {
        Some(text) => text.clone(),
        None => String::new(),
    }
}

/// The passages that a text is scored by. A text without characters has none.
pub open spec fn passages_of(text: Seq<char>) -> Seq<Window> {
    if text.len() == 0 {
        Seq::empty()
    } else {
        chunked(text, CHUNK_SIZE as nat, CHUNK_OVERLAP as nat)
    }
}

/// The passages of a document that are scored, given what was read from its file. A document
/// without text has none.
pub fn document_chunks(document: &Document, file: Option<String>) -> (r: Vec<Chunk>)
    ensures
        windows(r@) == passages_of(text_used(document@, optional_text(file))),
{
    let text = document_text(document, file);
    if text.as_str().is_empty() {
        let none: Vec<Chunk> = Vec::new();
        assert(windows(none@) == Seq::<Window>::empty());
        return none;
    }
    chunk_text(text.as_str(), CHUNK_SIZE, CHUNK_OVERLAP)
}

/// The passages kept of the documents so far.
#[derive(Debug)]
pub struct Gathering {
    kept: Vec<Candidate>,
    documents: usize,
}

/// What is gathered: how many documents were used, and the passages kept of them.
pub struct Gathered {
    pub documents: nat,
    pub kept: Seq<Passage>,
}

impl View for Gathering {
    type V = Gathered;

    closed spec fn view(&self) -> Gathered {
        Gathered { documents: self.documents as nat, kept: found(self.kept@) }
    }
}

/// What is gathered once the passages `scored` of one more document come: the best few of them are
/// kept, unless there are none or enough documents were used.
pub open spec fn with_document(g: Gathered, scored: Seq<Passage>) -> Gathered {
    if scored.len() == 0 || g.documents >= DOCUMENTS_USED {
        g
    } else {
        Gathered {
            documents: g.documents + 1,
            kept: g.kept + best(scored, PASSAGES_PER_DOCUMENT as nat),
        }
    }
}

/// The first `n` of `list`, or all where there are fewer.
pub open spec fn first_passages(list: Seq<Passage>, n: nat) -> Seq<Passage> {
    if n < list.len() {
        list.take(n as int)
    } else {
        list
    }
}

/// What is gathered once the passages of one more document come in an order that was chosen
/// elsewhere: the first few of them are kept, unless there are none or enough documents were used.
pub open spec fn with_ordered(g: Gathered, list: Seq<Passage>) -> Gathered {
    if list.len() == 0 || g.documents >= DOCUMENTS_USED {
        g
    } else {
        Gathered {
            documents: g.documents + 1,
            kept: g.kept + first_passages(list, PASSAGES_PER_DOCUMENT as nat),
        }
    }
}

/// What is gathered of documents whose passages were scored, in the order of the documents.
pub open spec fn gathered(documents: Seq<Seq<Passage>>) -> Gathered
    decreases documents.len(),
{
    if documents.len() == 0 {
        Gathered { documents: 0, kept: Seq::empty() }
    } else {
        with_document(gathered(documents.drop_last()), documents.last())
    }
}

/// The passages that an answer may rest on: the best of those kept of the documents.
pub open spec fn retrieved(documents: Seq<Seq<Passage>>) -> Seq<Passage> {
    best(gathered(documents).kept, PASSAGES_IN_ALL as nat)
}

impl Gathering {
    /// Nothing is kept yet.
    pub fn new() -> (r: Gathering)
        ensures
            r@ == gathered(Seq::empty()),
            r@.documents == 0,
            r@.kept.len() == 0,
    {
        let r = Gathering { kept: Vec::new(), documents: 0 };
        assert(r@.kept == Seq::<Passage>::empty());
        r
    }

    /// Whether enough documents were used.
    pub fn is_full(&self) -> (r: bool)
        ensures
            r == (self@.documents >= DOCUMENTS_USED),
            r <==> self@.documents >= 8,
    {
        self.documents >= DOCUMENTS_USED
    }

    /// Keeps the best passages of one more document, unless there are none or enough documents
    /// were used.
    pub fn add(&mut self, scored: Vec<Candidate>)
        requires
            sortable(scores_of(found(scored@))),
        ensures
            final(self)@ == with_document(old(self)@, found(scored@)),
    {
        if scored.len() == 0 || self.is_full() {
            return;
        }
        let mut few = keep_best(scored, PASSAGES_PER_DOCUMENT);
        let ghost had = self.kept@;
        let ghost more = few@;
        self.kept.append(&mut few);
        self.documents += 1;
        assert(self.kept@ == had + more);
        assert(found(self.kept@) == found(had) + found(more));
    }

    /// Keeps the first passages of one more document, in the order they are given in, unless there
    /// are none or enough documents were used.
    pub fn add_ordered(&mut self, list: Vec<Candidate>)
        ensures
            final(self)@ == with_ordered(old(self)@, found(list@)),
    {
        if list.len() == 0 || self.is_full() {
            return;
        }
        let ghost all = found(list@);
        let mut few = list;
        if few.len() > PASSAGES_PER_DOCUMENT {
            few.truncate(PASSAGES_PER_DOCUMENT);
        }
        assert(found(few@) == first_passages(all, PASSAGES_PER_DOCUMENT as nat));
        let ghost had = self.kept@;
        let ghost more = few@;
        self.kept.append(&mut few);
        self.documents += 1;
        assert(self.kept@ == had + more);
        assert(found(self.kept@) == found(had) + found(more));
    }

    /// The passages kept, in the order of the documents.
    pub fn into_kept(self) -> (r: Vec<Candidate>)
        ensures
            found(r@) == self@.kept,
    {
        self.kept
    }

    /// Whether the passages kept can be put in an order.
    pub fn can_finish(&self) -> (r: bool)
        ensures
            r == sortable(scores_of(self@.kept)),
    {
        can_sort(&self.kept)
    }

    /// The best of the passages kept, the best first.
    pub fn finish(self) -> (r: Vec<Candidate>)
        requires
            sortable(scores_of(self@.kept)),
        ensures
            found(r@) == best(self@.kept, PASSAGES_IN_ALL as nat),
            found(r@) == best(self@.kept, 12),
    {
        keep_best(self.kept, PASSAGES_IN_ALL)
    }
}

/// The search for what a question is answered from.
pub struct Retrieval {
    candidates: Option<TextSet>,
    query_years: Vec<String>,
    gathering: Gathering,
}

/// What is known of a search: the documents it is restricted to, the years that the question
/// names, and what is gathered so far.
pub struct Search {
    pub candidates: Option<Set<Seq<char>>>,
    pub query_years: Seq<Seq<char>>,
    pub gathered: Gathered,
}

impl View for Retrieval {
    type V = Search;

    closed spec fn view(&self) -> Search {
        Search {
            candidates: optional_set(self.candidates),
            query_years: texts(self.query_years@),
            gathered: self.gathering@,
        }
    }
}

/// The search that is restricted to `candidates`, once the question names the entities `ids` and
/// the years `query_years`.
pub open spec fn prepared(
    candidates: Option<Set<Seq<char>>>,
    ids: Seq<Seq<char>>,
    index: Map<Seq<char>, Vec<String>>,
    query_years: Seq<Seq<char>>,
) -> Search {
    Search {
        candidates: narrowed(candidates, ids, documents_of(index, ids)),
        query_years,
        gathered: gathered(Seq::empty()),
    }
}

impl Retrieval {
    /// Prepares the search for what answers a question that names the entities `ids` and the
    /// years `query_years`.
    pub fn prepare(
        candidates: Option<TextSet>,
        ids: &Vec<String>,
        index: &TextMap<Vec<String>>,
        query_years: Vec<String>,
    ) -> (r: Retrieval)
        ensures
            r@ == prepared(
                optional_set(candidates),
                texts(ids@),
                index@,
                texts(query_years@),
            ),
    {
        Retrieval {
            candidates: narrow_candidates(candidates, ids, index),
            query_years,
            gathering: Gathering::new(),
        }
    }

    /// Prepares the search for what answers `query`. Two filters may each restrict the documents;
    /// `canonicals` are the entities that the query may name, and `index` lists the documents that
    /// each of them occurs in.
    pub fn begin(
        query: &str,
        by_metadata: Option<TextSet>,
        by_entity: Option<TextSet>,
        canonicals: &TextMap<CanonicalEntity>,
        index: &TextMap<Vec<String>>,
    ) -> (r: Retrieval)
        ensures
            r@ == prepared(
                combined(optional_set(by_metadata), optional_set(by_entity)),
                mentioned(lowercase(query@), canonicals.walk()),
                index@,
                query_years(query@, matched_groups(FISCAL_YEAR@, query@, 1)),
            ),
    {
        let candidates = combine_candidates(by_metadata, by_entity);
        let ids = ChatEngine::entities_mentioned_in_query(query, canonicals);
        let named_years = ChatEngine::extract_years(query);
        Retrieval::prepare(candidates, &ids, index, named_years)
    }

    /// How many documents to search for.
    pub fn depth(&self) -> (r: usize)
        ensures
            r == if self@.query_years.len() == 0 {
                SEARCH_DEPTH
            } else {
                SEARCH_DEPTH_FOR_YEARS
            },
            self@.query_years.len() == 0 ==> r == 8,
            self@.query_years.len() > 0 ==> r == 30,
    {
        search_depth(&self.query_years)
    }

    /// What to do with the document `id`, of which `document` is known.
    pub fn judge(&self, id: &str, document: &Option<Document>) -> (r: Verdict)
        ensures
            r == judged(
                id@,
                optional_record(*document),
                self@.candidates,
                self@.query_years,
            ),
    {
        judge(id, document, &self.candidates, &self.query_years)
    }

    /// Whether enough documents were used.
    pub fn is_full(&self) -> (r: bool)
        ensures
            r == (self@.gathered.documents >= DOCUMENTS_USED),
            r <==> self@.gathered.documents >= 8,
    {
        self.gathering.is_full()
    }

    /// Keeps the best passages of one more document, unless there are none or enough documents
    /// were used.
    pub fn add(&mut self, scored: Vec<Candidate>)
        requires
            sortable(scores_of(found(scored@))),
        ensures
            final(self)@ == (Search {
                gathered: with_document(old(self)@.gathered, found(scored@)),
                ..old(self)@
            }),
    {
        self.gathering.add(scored);
    }

    /// Keeps the first passages of one more document, in the order they are given in, unless there
    /// are none or enough documents were used. This is for passages whose scores cannot be put in
    /// an order.
    pub fn add_ordered(&mut self, list: Vec<Candidate>)
        ensures
            final(self)@ == (Search {
                gathered: with_ordered(old(self)@.gathered, found(list@)),
                ..old(self)@
            }),
    {
        self.gathering.add_ordered(list);
    }

    /// The passages kept, in the order of the documents.
    pub fn into_kept(self) -> (r: Vec<Candidate>)
        ensures
            found(r@) == self@.gathered.kept,
    {
        self.gathering.into_kept()
    }

    /// Whether the passages kept can be put in an order.
    pub fn can_finish(&self) -> (r: bool)
        ensures
            r == sortable(scores_of(self@.gathered.kept)),
    {
        self.gathering.can_finish()
    }

    /// The best of the passages kept, the best first.
    pub fn finish(self) -> (r: Vec<Candidate>)
        requires
            sortable(scores_of(self@.gathered.kept)),
        ensures
            found(r@) == best(self@.gathered.kept, PASSAGES_IN_ALL as nat),
            found(r@) == best(self@.gathered.kept, 12),
    {
        self.gathering.finish()
    }
}

/// Every filter can only leave fewer documents, and so can the entities that a question names.
pub proof fn filters_only_narrow(
    a: Option<Set<Seq<char>>>,
    b: Option<Set<Seq<char>>>,
    ids: Seq<Seq<char>>,
    docs: Set<Seq<char>>,
)
    ensures
        a matches Some(x) ==> (combined(a, b) matches Some(s) && s.subset_of(x)),
        b matches Some(y) ==> (combined(a, b) matches Some(s) && s.subset_of(y)),
        a matches Some(x) ==> (narrowed(a, ids, docs) matches Some(s) && s.subset_of(x)),
        combined(a, b) == combined(b, a),
{
    if let (Some(x), Some(y)) = (a, b) {
        assert(x.intersect(y) == y.intersect(x));
    }
}

/// A document that is used is among the candidates; and where they are not restricted and the
/// question names years, it is of one of those years or of none.
pub proof fn used_documents_fit(
    id: Seq<char>,
    document: Option<Record>,
    candidates: Option<Set<Seq<char>>>,
    query_years: Seq<Seq<char>>,
)
    requires
        judged(id, document, candidates, query_years) != Verdict::Skip,
    ensures
        document is Some,
        candidates matches Some(set) ==> set.contains(id),
        candidates is None && query_years.len() > 0 ==> shares_year(
            query_years,
            document_years(document->Some_0),
        ) || document_years(document->Some_0).len() == 0,
{
}

/// Gathering goes document by document: one more changes what is gathered by its own passages
/// alone.
pub proof fn documents_are_gathered_one_by_one(
    documents: Seq<Seq<Passage>>,
    scored: Seq<Passage>,
)
    ensures
        gathered(documents.push(scored)) == with_document(gathered(documents), scored),
{
    assert(documents.push(scored).drop_last() == documents);
}

/// Passages that come in an order chosen elsewhere are held to the same limits: of at most eight
/// documents three passages each at most are kept, and none that was not given.
pub proof fn ordered_passages_keep_the_limits(g: Gathered, list: Seq<Passage>, p: Passage)
    requires
        g.documents <= DOCUMENTS_USED,
        g.kept.len() <= g.documents * PASSAGES_PER_DOCUMENT,
    ensures
        with_ordered(g, list).documents <= DOCUMENTS_USED,
        with_ordered(g, list).kept.len() <= with_ordered(g, list).documents * PASSAGES_PER_DOCUMENT,
        with_ordered(g, list).kept.contains(p) ==> g.kept.contains(p) || list.contains(p),
{
    let all = with_ordered(g, list).kept;
    if all.contains(p) {
        let k = choose|k: int| 0 <= k < all.len() && all[k] == p;
        if k < g.kept.len() {
            assert(g.kept[k] == p);
        } else {
            assert(list[k - g.kept.len()] == p);
        }
    }
}

/// The passages that an answer may rest on are few, each is one that was scored for some document,
/// and where the scores of those kept can be put in an order, none scores higher than one before
/// it.
pub proof fn retrieved_passages_were_scored(documents: Seq<Seq<Passage>>, p: Passage)
    requires
        retrieved(documents).contains(p),
    ensures
        retrieved(documents).len() <= PASSAGES_IN_ALL,
        exists|i: int| 0 <= i < documents.len() && (#[trigger] documents[i]).contains(p),
        sortable(scores_of(gathered(documents).kept)) ==> forall|k: int, l: int|
            0 <= k < l < retrieved(documents).len() ==> !retrieved(documents)[k].score.less(
                retrieved(documents)[l].score,
            ),
{
    the_best_descend(gathered(documents).kept, PASSAGES_IN_ALL as nat);
    lemma_gathered(documents, p);
}

/// What is kept was scored for some document.
pub proof fn lemma_gathered(documents: Seq<Seq<Passage>>, p: Passage)
    requires
        gathered(documents).kept.contains(p),
    ensures
        exists|i: int| 0 <= i < documents.len() && (#[trigger] documents[i]).contains(p),
    decreases documents.len(),
{
    let before = gathered(documents.drop_last()).kept;
    let few = best(documents.last(), PASSAGES_PER_DOCUMENT as nat);
    let all = gathered(documents).kept;
    let k = choose|k: int| 0 <= k < all.len() && all[k] == p;
    if k < before.len() {
        assert(before[k] == p);
        lemma_gathered(documents.drop_last(), p);
        let i = choose|i: int|
            0 <= i < documents.drop_last().len() && (
            #[trigger] documents.drop_last()[i]).contains(p);
        assert(documents[i].contains(p));
    } else {
        assert(few[k - before.len()] == p);
        assert(few.contains(p));
        the_best_descend(documents.last(), PASSAGES_PER_DOCUMENT as nat);
        assert(documents[documents.len() - 1].contains(p));
    }
}

} // verus!
