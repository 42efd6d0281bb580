use cortex::chat::chunk::{chunk_text, Chunk};
use cortex::chat::engine::ChatEngine;
use cortex::chat::prompt::{build_system_prompt, RAG_SYSTEM_PROMPT};
use cortex::chat::query::names_any;
use cortex::chat::rank::{best_score, can_sort, keep_best, rerank_chunks, Candidate};
use cortex::chat::retrieval::{
    combine_candidates, document_chunks, document_text, narrow_candidates, read_document,
    Document, Retrieval, Verdict,
};
use cortex::chat::turn::{
    assistant_message, build_request, canned_turn, cap_per_document, cite, recent_history,
    open_turn, ChatTurn, Opening, TurnAction, TurnEvent,
};
use cortex::profile::profile_or_default;
use cortex::score::Score;
use cortex::table::{TextMap, TextSet};
use cortex::types::{CanonicalEntity, ChatMessage, ChatRole, Citation, UserProfile};
use serde_json::Value;

fn score(x: f32) -> Score {
    Score { bits: x.to_bits() }
}

fn value(s: Score) -> f32 {
    f32::from_bits(s.bits)
}

fn message(role: ChatRole, content: &str) -> ChatMessage {
    ChatMessage {
        id: format!("id of {}", content),
        role,
        content: content.to_string(),
        citations: None,
        created_at: "then".to_string(),
    }
}

fn candidate(doc: &str, at: u32, x: f32) -> Candidate {
    Candidate {
        doc_id: doc.to_string(),
        doc_title: format!("title of {}", doc),
        chunk: Chunk { text: format!("text {}", at), start: at, end: at + 1 },
        score: score(x),
    }
}

fn set(items: &[&str]) -> TextSet {
    let mut s = TextSet::new();
    for i in items {
        s.insert(i.to_string());
    }
    s
}

fn listed(s: &TextSet) -> Vec<String> {
    let mut out: Vec<String> = (0..s.len()).map(|i| s.item(i).clone()).collect();
    out.sort();
    out
}

#[test]
fn windows_overlap_and_cover_the_text() {
    let text: String = (0..1000u32).map(|i| char::from(b'a' + (i % 26) as u8)).collect();
    for (size, overlap) in [(100usize, 10usize), (7, 3), (5, 5), (3, 9), (999, 1), (1000, 0)] {
        let chunks = chunk_text(&text, size, overlap);
        let chars: Vec<char> = text.chars().collect();
        let stride = size.saturating_sub(overlap).max(1);
        assert_eq!(chunks[0].start, 0);
        assert_eq!(chunks.last().unwrap().end, 1000);
        for (i, c) in chunks.iter().enumerate() {
            assert_eq!(c.start as usize, i * stride);
            let end = (c.start as usize + size).min(1000);
            assert_eq!(c.end as usize, end);
            let expected: String = chars[c.start as usize..end].iter().collect();
            assert_eq!(c.text, expected);
        }
    }
    let empty = vec![Chunk { text: "".to_string(), start: 0, end: 0 }];
    assert_eq!(chunk_text("", 10, 2), empty);
    assert_eq!(chunk_text("", 500, 50), empty);
    assert!(chunk_text("", 0, 0).is_empty());
    let accented = chunk_text("ééé", 2, 1);
    assert_eq!(accented.len(), 2);
    assert_eq!(accented[1].text, "éé");
}

#[test]
fn fiscal_years_add_their_first_year() {
    assert_eq!(ChatEngine::extract_years("tax for FY 2024-25"), vec!["2024"]);
    assert_eq!(ChatEngine::extract_years("fy2024–2025 and 2019"), vec!["2024", "2025", "2019"]);
    assert_eq!(ChatEngine::extract_years("FY 1850-51"), Vec::<String>::new());
    assert_eq!(ChatEngine::extract_years("FY 2150-51"), Vec::<String>::new());
    assert_eq!(ChatEngine::extract_years("FY 1950-51 FY ٢٠٢٠-21"), vec!["1950"]);
    assert_eq!(ChatEngine::extract_years("1812-13"), Vec::<String>::new());
    assert_eq!(ChatEngine::extract_years("FY 1812 13"), Vec::<String>::new());
}

#[test]
fn the_prompt_lists_what_the_user_told() {
    let profile = UserProfile {
        display_name: "  Alex Doe ".to_string(),
        aliases: vec!["A.".to_string(), "AD".to_string()],
        family_members: vec![],
        countries: vec!["India".to_string()],
        currencies: vec![],
    };
    let expected = format!(
        "{}{}{}{}{}",
        RAG_SYSTEM_PROMPT,
        "\n\nKnown context about the user (confirmed by the user, not inferred — trust this over document-only guesses):",
        "\n- The user's name is Alex Doe.",
        "\n- The user is also known by: A., AD.",
        "\n- The user has documents/assets in: India."
    );
    assert_eq!(build_system_prompt(&profile), expected);
    assert_eq!(profile_or_default(None), UserProfile::default());
    assert_eq!(profile_or_default(Some(profile.clone())), profile);
}

#[test]
fn the_search_text_carries_the_conversation() {
    let none: Vec<ChatMessage> = Vec::new();
    assert_eq!(ChatEngine::build_retrieval_query(&none, "  how much? "), "how much?");
    let long = format!(" {}", "x".repeat(500));
    let history = vec![
        message(ChatRole::User, "zero"),
        message(ChatRole::User, " one "),
        message(ChatRole::Assistant, "old answer"),
        message(ChatRole::Assistant, &long),
        message(ChatRole::User, "two\n"),
    ];
    let expected = format!("one two {} now", "x".repeat(399));
    assert_eq!(ChatEngine::build_retrieval_query(&history, "now"), expected);
}

fn entity(name: &str, aliases: &[&str]) -> CanonicalEntity {
    CanonicalEntity {
        id: name.to_string(),
        canonical_name: name.to_string(),
        entity_type: "person".to_string(),
        aliases: aliases.iter().map(|a| a.to_string()).collect(),
        document_count: 1,
        canonical_short_name: None,
    }
}

#[test]
fn entities_are_found_by_name_or_alias_in_any_case() {
    let mut m = TextMap::new();
    m.insert("1".to_string(), entity("Alex Doe", &[]));
    m.insert("2".to_string(), entity("Riverside Villa", &["P705", "RV"]));
    m.insert("3".to_string(), entity("Al", &[]));
    m.insert("4".to_string(), entity("É", &["ÉT"]));
    let ask = |q: &str| ChatEngine::entities_mentioned_in_query(q, &m);
    assert_eq!(ask("what did ALEX DOE pay for p705?"), vec!["1", "2"]);
    assert_eq!(ask("RV al"), Vec::<String>::new());
    assert_eq!(ask("un été"), vec!["4"]);
    assert_eq!(ask(""), Vec::<String>::new());
    assert!(names_any("the villa", &vec!["x".to_string(), "villa".to_string()]));
    assert!(!names_any("the villa", &vec!["th".to_string()]));
}

#[test]
fn filters_combine_by_intersection() {
    assert!(combine_candidates(None, None).is_none());
    assert_eq!(listed(&combine_candidates(Some(set(&["a"])), None).unwrap()), vec!["a"]);
    assert_eq!(listed(&combine_candidates(None, Some(set(&["b"]))).unwrap()), vec!["b"]);
    let both = combine_candidates(Some(set(&["a", "b"])), Some(set(&["b", "c"]))).unwrap();
    assert_eq!(listed(&both), vec!["b"]);
}

#[test]
fn mentions_narrow_the_candidates() {
    let mut index: TextMap<Vec<String>> = TextMap::new();
    index.insert("1".to_string(), vec!["a".to_string(), "b".to_string()]);
    index.insert("2".to_string(), vec!["c".to_string()]);
    let ids = |list: &[&str]| list.iter().map(|s| s.to_string()).collect::<Vec<String>>();
    assert!(narrow_candidates(None, &ids(&[]), &index).is_none());
    assert!(narrow_candidates(None, &ids(&["9"]), &index).is_none());
    assert!(narrow_candidates(None, &ids(&["1", "2", "3", "4"]), &index).is_none());
    let three = narrow_candidates(None, &ids(&["1", "2", "3"]), &index).unwrap();
    assert_eq!(listed(&three), vec!["a", "b", "c"]);
    let fewer = narrow_candidates(Some(set(&["b", "z"])), &ids(&["1"]), &index).unwrap();
    assert_eq!(listed(&fewer), vec!["b"]);
    let kept = narrow_candidates(Some(set(&["z"])), &ids(&["9"]), &index).unwrap();
    assert_eq!(listed(&kept), vec!["z"]);
}

#[test]
fn documents_are_read_from_their_metadata() {
    let title = Value::from("T");
    let number = Value::from(5);
    let d = read_document(Some(&title), None, Some(&number));
    assert_eq!(d.title, "T");
    assert_eq!(d.path, "");
    assert_eq!(d.excerpt, None);
    let d = read_document(Some(&number), Some(&title), Some(&title));
    assert_eq!(d.title, "Unknown");
    assert_eq!(d.path, "T");
    assert_eq!(d.excerpt, Some("T".to_string()));
}

fn document(title: &str, path: &str, excerpt: Option<&str>) -> Document {
    Document {
        title: title.to_string(),
        path: path.to_string(),
        excerpt: excerpt.map(|s| s.to_string()),
    }
}

#[test]
fn documents_are_judged_by_candidates_and_years() {
    let none: TextMap<CanonicalEntity> = TextMap::new();
    let index: TextMap<Vec<String>> = TextMap::new();
    let free = Retrieval::begin("tax in 2020", None, None, &none, &index);
    assert_eq!(free.depth(), 30);
    let of = |t: &str| Some(document(t, "/docs", None));
    assert_eq!(free.judge("x", &of("Receipt_2020.pdf")), Verdict::Boosted);
    assert_eq!(free.judge("x", &of("Receipt_2019.pdf")), Verdict::Skip);
    assert_eq!(free.judge("x", &of("Receipt.pdf")), Verdict::Plain);
    assert_eq!(free.judge("x", &Some(document("R", "/2020/r", None))), Verdict::Boosted);
    assert_eq!(free.judge("x", &None), Verdict::Skip);

    let bound = Retrieval::begin("tax in 2020", Some(set(&["x"])), None, &none, &index);
    assert_eq!(bound.judge("x", &of("Receipt_2019.pdf")), Verdict::Plain);
    assert_eq!(bound.judge("y", &of("Receipt_2020.pdf")), Verdict::Skip);

    let timeless = Retrieval::begin("tax", None, None, &none, &index);
    assert_eq!(timeless.depth(), 8);
    assert_eq!(timeless.judge("x", &of("Receipt_2019.pdf")), Verdict::Plain);
}

#[test]
fn a_search_is_narrowed_by_what_the_question_names() {
    let mut m = TextMap::new();
    m.insert("e".to_string(), entity("Alex Doe", &[]));
    let mut index: TextMap<Vec<String>> = TextMap::new();
    index.insert("e".to_string(), vec!["x".to_string()]);
    let r = Retrieval::begin("for Alex Doe", None, None, &m, &index);
    assert_eq!(r.judge("x", &Some(document("t", "", None))), Verdict::Plain);
    assert_eq!(r.judge("y", &Some(document("t", "", None))), Verdict::Skip);
}

#[test]
fn the_file_comes_before_the_excerpt() {
    let file = || Some("file".to_string());
    let excerpt = Some("excerpt");
    assert_eq!(document_text(&document("t", "/p", excerpt), file()), "file");
    assert_eq!(document_text(&document("t", "/p", excerpt), None), "excerpt");
    assert_eq!(document_text(&document("t", "", excerpt), file()), "excerpt");
    assert_eq!(document_text(&document("t", "/p", None), None), "");
    assert!(document_chunks(&document("t", "/p", None), None).is_empty());
    assert!(document_chunks(&document("t", "/p", None), Some(String::new())).is_empty());
    let long = "a".repeat(600);
    let chunks = document_chunks(&document("t", "/p", None), Some(long));
    assert_eq!(chunks.len(), 2);
    assert_eq!(chunks[0].end, 500);
    assert_eq!(chunks[1].start, 450);
    assert_eq!(chunks[1].end, 600);
}

fn empty_search() -> Retrieval {
    Retrieval::begin("q", None, None, &TextMap::new(), &TextMap::new())
}

fn scored(d: u32, base: f32) -> Vec<Candidate> {
    (0..7u32).map(|i| candidate(&format!("d{}", d), i, base + i as f32 * 0.01)).collect()
}

#[test]
fn three_passages_per_document_and_twelve_in_all() {
    let mut r = empty_search();
    for d in 0..5u32 {
        r.add(scored(d, d as f32 * 0.1));
    }
    assert!(!r.is_full());
    let out = r.finish();
    assert_eq!(out.len(), 12);
    for w in out.windows(2) {
        assert!(value(w[0].score) >= value(w[1].score));
    }
    for d in ["d1", "d2", "d3", "d4"] {
        assert_eq!(out.iter().filter(|c| c.doc_id == d).count(), 3);
    }
    assert_eq!(out[0].chunk.start, 6);
    assert_eq!(out[2].chunk.start, 4);
}

#[test]
fn eight_documents_are_used() {
    let mut r = empty_search();
    for d in 0..12u32 {
        assert_eq!(r.is_full(), d >= 9);
        let one = if d == 3 { vec![] } else { vec![candidate(&format!("d{}", d), 0, d as f32)] };
        r.add(one);
    }
    let ids: Vec<String> = r.finish().into_iter().map(|c| c.doc_id).collect();
    assert_eq!(ids, vec!["d8", "d7", "d6", "d5", "d4", "d2", "d1", "d0"]);
}

#[test]
fn scores_that_are_no_numbers_tie_with_all_others() {
    let one = vec![candidate("a", 0, f32::NAN)];
    assert!(can_sort(&one));
    assert_eq!(keep_best(one, 3).len(), 1);
    let tied = || {
        vec![candidate("a", 0, 0.5), candidate("b", 1, f32::NAN), candidate("c", 2, 0.5)]
    };
    assert!(can_sort(&tied()));
    let ids: Vec<String> = keep_best(tied(), 2).into_iter().map(|c| c.doc_id).collect();
    assert_eq!(ids, vec!["a", "b"]);
    let mixed = vec![
        candidate("a", 0, 0.5),
        candidate("b", 1, f32::NAN),
        candidate("c", 2, 0.6),
    ];
    assert!(!can_sort(&mixed));
    assert!(can_sort(&vec![]));

    let mut r = empty_search();
    r.add(vec![candidate("a", 0, f32::NAN)]);
    assert!(r.can_finish());
    r.add(vec![candidate("b", 0, 0.1)]);
    assert!(r.can_finish());
    r.add(vec![candidate("c", 0, 0.2)]);
    assert!(!r.can_finish());
    let pair = vec![
        ("a".to_string(), Chunk { text: "x".to_string(), start: 0, end: 1 }, score(f32::NAN)),
    ];
    assert_eq!(rerank_chunks(pair, 2).len(), 1);
}

#[test]
fn equal_scores_keep_their_order() {
    let list = vec![
        candidate("a", 0, 0.5),
        candidate("b", 1, 0.7),
        candidate("c", 2, 0.5),
        candidate("d", 3, -0.0),
        candidate("e", 4, 0.0),
    ];
    let ids: Vec<String> = keep_best(list, 9).into_iter().map(|c| c.doc_id).collect();
    assert_eq!(ids, vec!["b", "a", "c", "d", "e"]);
    let pairs = vec![
        ("a".to_string(), Chunk { text: "x".to_string(), start: 0, end: 1 }, score(0.1)),
        ("b".to_string(), Chunk { text: "y".to_string(), start: 0, end: 1 }, score(0.1)),
        ("c".to_string(), Chunk { text: "z".to_string(), start: 0, end: 1 }, score(0.2)),
    ];
    let kept = rerank_chunks(pairs, 2);
    assert_eq!(kept[0].0, "c");
    assert_eq!(kept[1].0, "a");
    assert_eq!(kept[1].1.text, "x");
}

#[test]
fn the_best_score_ignores_what_is_no_number() {
    assert_eq!(value(best_score(&vec![])), 0.0);
    let list = vec![
        candidate("a", 0, f32::NAN),
        candidate("b", 0, -0.5),
        candidate("c", 0, -0.7),
    ];
    assert_eq!(value(best_score(&list)), -0.5);
    assert_eq!(value(best_score(&vec![candidate("a", 0, f32::NAN)])), f32::MIN);
}

#[test]
fn below_the_floor_no_model_is_asked() {
    let actions = canned_turn(score(0.1)).unwrap();
    let text = "I couldn't find anything relevant in your library.".to_string();
    assert_eq!(
        actions,
        vec![
            TurnAction::Token { token: text.clone(), cumulative_index: 1 },
            TurnAction::Complete { citations: vec![], input_tokens: None, output_tokens: None },
            TurnAction::Persist { content: text, cited: None },
            TurnAction::Finish { result: Ok(()) },
        ]
    );
    assert!(canned_turn(score(0.2)).is_none());
    assert!(canned_turn(score(f32::NAN)).is_none());
}

#[test]
fn three_passages_of_one_document_are_cited() {
    let list = vec![
        candidate("a", 0, 0.9),
        candidate("a", 1, 0.8),
        candidate("b", 2, 0.7),
        candidate("a", 3, 0.6),
        candidate("a", 4, 0.5),
        candidate("b", 5, 0.4),
    ];
    let kept = cap_per_document(list);
    let starts: Vec<u32> = kept.iter().map(|c| c.chunk.start).collect();
    assert_eq!(starts, vec![0, 1, 2, 3, 5]);
    let citations = cite(&kept);
    assert_eq!(citations.len(), 5);
    assert_eq!(
        citations[2],
        Citation {
            index: 3,
            doc_id: "b".to_string(),
            doc_title: "title of b".to_string(),
            chunk_start: 2,
            chunk_end: 3,
        }
    );
}

#[test]
fn six_earlier_messages_are_remembered() {
    let empty: Vec<ChatMessage> = Vec::new();
    assert!(recent_history(&empty).is_empty());
    assert!(recent_history(&[message(ChatRole::User, "q")]).is_empty());
    let many: Vec<ChatMessage> =
        (0..9).map(|i| message(ChatRole::User, &i.to_string())).collect();
    let recent = recent_history(&many);
    let contents: Vec<&str> = recent.iter().map(|m| m.content.as_str()).collect();
    assert_eq!(contents, vec!["2", "3", "4", "5", "6", "7"]);
    assert_eq!(recent[0], many[2]);
    assert_eq!(recent_history(&many[..3]), many[..2].to_vec());
}

#[test]
fn the_request_carries_history_and_passages() {
    let history =
        vec![message(ChatRole::User, "hi"), message(ChatRole::Assistant, "hello")];
    let list = vec![candidate("a", 4, 0.9)];
    let r = build_request(&UserProfile::default(), &history, &list, "why?");
    assert_eq!(r.system_prompt, RAG_SYSTEM_PROMPT);
    assert_eq!(r.max_tokens, 4096);
    assert_eq!(r.messages.len(), 3);
    assert_eq!(r.messages[0].role, "user");
    assert_eq!(r.messages[0].content, "hi");
    assert_eq!(r.messages[1].role, "assistant");
    assert_eq!(r.messages[2].role, "user");
    assert_eq!(
        r.messages[2].content,
        "Documents in your library:\n[1] title of a: text 4\n\nQuestion: why?"
    );
}

fn token(text: &str, index: u32) -> TurnEvent {
    TurnEvent::Token { token: text.to_string(), cumulative_index: index }
}

#[test]
fn the_kept_answer_is_all_that_was_spoken() {
    let list = vec![candidate("a", 4, 0.9), candidate("b", 5, 0.8)];
    let citations = cite(&list);
    for ended in [true, false] {
        let mut turn = ChatTurn::new("what?".to_string(), &list);
        assert_eq!(
            turn.step(token("Hel", 1)),
            vec![TurnAction::Token { token: "Hel".to_string(), cumulative_index: 1 }]
        );
        assert_eq!(turn.step(token("lo", 2)).len(), 1);
        let (event, input, output) = if ended {
            (TurnEvent::Ended, None, None)
        } else {
            let done = TurnEvent::Done { input_tokens: Some(3), output_tokens: None };
            (done, Some(3), None)
        };
        assert_eq!(
            turn.step(event),
            vec![
                TurnAction::Complete {
                    citations: citations.clone(),
                    input_tokens: input,
                    output_tokens: output,
                },
                TurnAction::Persist {
                    content: "Hello".to_string(),
                    cited: Some(citations.clone()),
                },
                TurnAction::Suggest {
                    suggestions: vec![
                        "Which documents did you use for this answer?".to_string()
                    ],
                },
                TurnAction::Finish { result: Ok(()) },
            ]
        );
    }
}

#[test]
fn without_citations_nothing_is_suggested() {
    let mut turn = ChatTurn::new("how much in total?".to_string(), &vec![]);
    let actions = turn.step(TurnEvent::Ended);
    assert_eq!(actions.len(), 3);
    assert_eq!(actions[2], TurnAction::Finish { result: Ok(()) });
}

#[test]
fn a_failure_is_kept_in_the_place_of_the_answer() {
    let mut turn = ChatTurn::new("what?".to_string(), &vec![candidate("a", 4, 0.9)]);
    turn.step(token("Hel", 1));
    assert_eq!(
        turn.step(TurnEvent::Failed { message: "broken".to_string() }),
        vec![
            TurnAction::Fail { error: "broken".to_string() },
            TurnAction::Persist { content: "broken".to_string(), cited: None },
            TurnAction::Finish { result: Err("broken".to_string()) },
        ]
    );
}

#[test]
fn the_assistants_message_is_kept_with_its_time() {
    let m = assistant_message("m1", "text".to_string(), None, "now".to_string());
    assert_eq!(m.id, "m1");
    assert_eq!(m.role, ChatRole::Assistant);
    assert_eq!(m.content, "text");
    assert_eq!(m.citations, None);
    assert_eq!(m.created_at, "now");
}

fn cited(titles: &[&str]) -> Vec<Citation> {
    titles
        .iter()
        .enumerate()
        .map(|(i, t)| Citation {
            index: i as u32 + 1,
            doc_id: format!("d{}", i),
            doc_title: t.to_string(),
            chunk_start: 0,
            chunk_end: 1,
        })
        .collect()
}

#[test]
fn suggestions_come_in_their_order() {
    let two = cited(&["Receipt_2021.pdf", "Receipt_2020.pdf"]);
    assert_eq!(
        ChatEngine::generate_suggestions("TOTAL paid?", &two),
        vec![
            "Can you break that down by year?",
            "Which documents did you use for this answer?",
            "What about just 2021?",
        ]
    );
    assert_eq!(
        ChatEngine::generate_suggestions("total in 2020?", &two),
        vec![
            "Can you break that down by year?",
            "Which documents did you use for this answer?",
        ]
    );
    let one = cited(&["Receipt_2021.pdf"]);
    assert_eq!(
        ChatEngine::generate_suggestions("how many?", &one),
        vec!["What about just 2021?"]
    );
    assert_eq!(
        ChatEngine::suggestions_for("summary", &cited(&["x", "x"])),
        vec!["Can you show me more detail on this?"]
    );
}

#[test]
fn the_order_of_entities_does_not_change_a_search() {
    let mut index: TextMap<Vec<String>> = TextMap::new();
    index.insert("1".to_string(), vec!["a".to_string()]);
    index.insert("2".to_string(), vec!["b".to_string()]);
    let doc = Some(document("t", "", None));
    for order in [["1", "2", "3"], ["3", "2", "1"]] {
        let mut m = TextMap::new();
        for key in order {
            let name = match key {
                "1" => "Alex Doe",
                "2" => "Riverside",
                _ => "Elsewhere",
            };
            m.insert(key.to_string(), entity(name, &[]));
        }
        let r = Retrieval::begin("riverside for alex doe", None, None, &m, &index);
        assert_eq!(r.judge("a", &doc), Verdict::Plain);
        assert_eq!(r.judge("b", &doc), Verdict::Plain);
        assert_eq!(r.judge("c", &doc), Verdict::Skip);
    }
}

#[test]
fn a_search_can_be_prepared_from_what_is_known() {
    let index: TextMap<Vec<String>> = TextMap::new();
    let years = vec!["2020".to_string()];
    let r = Retrieval::prepare(Some(set(&["a"])), &vec![], &index, years);
    assert_eq!(r.depth(), 30);
    let doc = Some(document("of 2020", "", None));
    assert_eq!(r.judge("a", &doc), Verdict::Boosted);
    assert_eq!(r.judge("b", &doc), Verdict::Skip);
    assert!(r.finish().is_empty());
}

#[test]
fn what_clears_the_floor_has_something_to_cite() {
    let list = vec![candidate("a", 0, 0.3), candidate("b", 1, 0.1)];
    assert!(canned_turn(best_score(&list)).is_none());
    let kept = cap_per_document(list);
    assert_eq!(cite(&kept)[0].doc_id, "a");
    assert!(canned_turn(best_score(&vec![])).is_some());
}

#[test]
fn the_suggestions_given_are_the_ones_offered() {
    let mut turn = ChatTurn::new("what?".to_string(), &vec![]);
    let actions = turn.respond(TurnEvent::Ended, vec!["Go on?".to_string()]);
    assert_eq!(actions.len(), 4);
    assert_eq!(
        actions[2],
        TurnAction::Suggest { suggestions: vec!["Go on?".to_string()] }
    );
}

#[test]
fn a_turn_opens_by_the_best_score() {
    let history = vec![message(ChatRole::User, "hi")];
    let profile = UserProfile::default();
    let weak = vec![candidate("a", 0, 0.19), candidate("b", 1, 0.1)];
    match open_turn(&profile, &history, weak, "why?".to_string()) {
        Opening::Canned { actions } => {
            assert_eq!(Some(actions), canned_turn(score(0.19)));
        }
        Opening::Asked { .. } => panic!("below the floor"),
    }
    match open_turn(&profile, &history, vec![], "why?".to_string()) {
        Opening::Canned { actions } => assert_eq!(actions.len(), 4),
        Opening::Asked { .. } => panic!("nothing was found"),
    }
    let strong = (0..5u32).map(|i| candidate("a", i, 0.2)).collect();
    match open_turn(&profile, &history, strong, "why?".to_string()) {
        Opening::Canned { .. } => panic!("at the floor"),
        Opening::Asked { request, turn } => {
            assert_eq!(request.messages.len(), 2);
            assert_eq!(
                request.messages[1].content,
                "Documents in your library:\n[1] title of a: text 0\n[2] title of a: text 1\n[3] title of a: text 2\n\nQuestion: why?"
            );
            assert_eq!(turn.citations.len(), 3);
            assert_eq!(turn.citations[2].index, 3);
            assert_eq!(turn.citations[2].chunk_start, 2);
            assert_eq!(turn.query, "why?");
            assert_eq!(turn.content, "");
        }
    }
}

#[test]
fn an_order_chosen_elsewhere_is_kept() {
    let mut r = empty_search();
    let list = || vec![
        candidate("a", 0, 0.1),
        candidate("a", 1, f32::NAN),
        candidate("a", 2, 0.9),
        candidate("a", 3, 0.8),
    ];
    assert!(!can_sort(&list()));
    r.add_ordered(list());
    r.add_ordered(vec![]);
    r.add(vec![candidate("b", 7, 0.5)]);
    let starts: Vec<u32> = r.into_kept().iter().map(|c| c.chunk.start).collect();
    assert_eq!(starts, vec![0, 1, 2, 7]);
    let mut full = empty_search();
    for d in 0..9u32 {
        full.add_ordered(vec![candidate(&d.to_string(), d, 0.5)]);
    }
    assert_eq!(full.into_kept().len(), 8);
}
