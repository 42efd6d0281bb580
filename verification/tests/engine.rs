use cortex::chat::chunk::{chunk_text, Chunk};
use cortex::chat::engine::ChatEngine;
use cortex::chat::prompt::{build_rag_prompt, build_system_prompt, RAG_SYSTEM_PROMPT};
use cortex::chat::rank::{answer_or_canned, rerank_chunks, NO_MATCH_ANSWER};
use cortex::score::Score;
use cortex::types::{Citation, FamilyMember, UserProfile};

fn score(x: f32) -> Score {
    Score { bits: x.to_bits() }
}

#[test]
fn test_chunk_text_500_char_50_overlap() {
    let text: String = "a".repeat(1200);
    let chunks = chunk_text(&text, 500, 50);
    assert_eq!(chunks.len(), 3, "1200-char input must produce 3 chunks");

    assert_eq!(chunks[0].start, 0);
    assert_eq!(chunks[0].end, 500);
    assert_eq!(chunks[1].start, 450);
    assert_eq!(chunks[1].end, 950);
    assert_eq!(chunks[2].start, 900);
    assert_eq!(chunks[2].end, 1200);
}

#[test]
fn test_chunk_text_short_input_single_chunk() {
    let text = "short text under 500 chars";
    let chunks = chunk_text(text, 500, 50);
    assert_eq!(chunks.len(), 1);
    assert_eq!(chunks[0].start, 0);
    assert_eq!(chunks[0].end, text.chars().count() as u32);
}

#[test]
fn test_rerank_top_12() {
    let mut candidates = Vec::new();
    for i in 0..24 {
        candidates.push((
            format!("doc-{}", i),
            Chunk {
                text: format!("chunk-{}", i),
                start: 0,
                end: 10,
            },
            score(i as f32),
        ));
    }

    let top = rerank_chunks(candidates, 12);
    assert_eq!(top.len(), 12);
    // Descending order, highest score (23.0) first.
    for i in 0..12 {
        assert_eq!(f32::from_bits(top[i].2.bits), (23 - i) as f32);
    }
}

#[test]
fn test_build_rag_prompt() {
    let docs = vec![(1u32, "Doc A title", "chunk text 1"), (2u32, "Doc B title", "chunk text 2")];
    let prompt = build_rag_prompt(RAG_SYSTEM_PROMPT, &docs, "What happened?");
    let expected = "Documents in your library:\n[1] Doc A title: chunk text 1\n[2] Doc B title: chunk text 2\n\nQuestion: What happened?";
    assert_eq!(prompt, expected);
}

#[test]
fn test_below_cosine_floor_returns_canned_answer() {
    assert_eq!(
        answer_or_canned(score(0.05)),
        Some("I couldn't find anything relevant in your library.")
    );
    assert_eq!(answer_or_canned(score(0.19)), Some(NO_MATCH_ANSWER));
    assert_eq!(answer_or_canned(score(0.20)), None);
    assert_eq!(answer_or_canned(score(0.9)), None);
}

fn make_citation(index: u32, doc_title: &str) -> Citation {
    Citation {
        index,
        doc_id: format!("doc-{}", index),
        doc_title: doc_title.to_string(),
        chunk_start: 0,
        chunk_end: 10,
    }
}

#[test]
fn test_suggestions_empty_when_no_citations() {
    let s = ChatEngine::generate_suggestions("how much total?", &[]);
    assert!(s.is_empty());
}

#[test]
fn test_suggestions_aggregate_multi_year_offers_breakdown() {
    let citations = vec![
        make_citation(1, "Receipt_2020.pdf"),
        make_citation(2, "Receipt_2021.pdf"),
    ];
    let s = ChatEngine::generate_suggestions("how much total did I pay?", &citations);
    assert!(s.iter().any(|x| x.contains("break") || x.contains("year")));
}

#[test]
fn test_suggestions_multi_doc_offers_source_list() {
    let citations = vec![
        make_citation(1, "Invoice A.pdf"),
        make_citation(2, "Invoice B.pdf"),
    ];
    let s = ChatEngine::generate_suggestions("what did I spend?", &citations);
    assert!(s.iter().any(|x| x.to_lowercase().contains("document")));
}

#[test]
fn test_suggestions_capped_at_three() {
    let citations = vec![
        make_citation(1, "Receipt_2019.pdf"),
        make_citation(2, "Receipt_2020.pdf"),
        make_citation(3, "Receipt_2021.pdf"),
    ];
    let s = ChatEngine::generate_suggestions("what is the total amount?", &citations);
    assert!(s.len() <= 3);
}

#[test]
fn test_suggestions_single_doc_non_aggregate_falls_back() {
    let citations = vec![make_citation(1, "Passport.pdf")];
    let s = ChatEngine::generate_suggestions("what is my passport number?", &citations);
    // No multi-year, no multi-doc, no aggregate → fallback template applies.
    assert_eq!(s, vec!["Can you show me more detail on this?".to_string()]);
}

#[test]
fn test_find_years_underscore_delimited_filename() {
    assert_eq!(
        ChatEngine::find_years("Prop_Riverside_P705_FY2016-17.pdf"),
        vec!["2016".to_string()]
    );
    assert_eq!(
        ChatEngine::find_years("Receipt_2020.pdf"),
        vec!["2020".to_string()]
    );
}

#[test]
fn test_find_years_hyphen_delimited() {
    assert_eq!(
        ChatEngine::find_years("Invoice-2021-final.pdf"),
        vec!["2021".to_string()]
    );
}

#[test]
fn test_find_years_plain_text() {
    assert_eq!(
        ChatEngine::find_years("how much property tax did I pay in 2025?"),
        vec!["2025".to_string()]
    );
}

#[test]
fn test_find_years_ignores_non_year_digit_runs() {
    // 8-digit reference number must NOT be misread as two years or one year.
    assert!(ChatEngine::find_years("Ref 12345678 amount due").is_empty());
    // 5-digit run starting with 20 must NOT match (exact 4-digit only).
    assert!(ChatEngine::find_years("Order 20255 confirmed").is_empty());
}

#[test]
fn test_find_years_multiple_distinct_years() {
    let years = ChatEngine::find_years("Compare_2019_vs_2022_report.pdf");
    assert_eq!(years, vec!["2019".to_string(), "2022".to_string()]);
}

#[test]
fn test_find_years_dedups() {
    let years = ChatEngine::find_years("2020 tax year 2020 filing");
    assert_eq!(years, vec!["2020".to_string()]);
}

#[test]
fn test_find_years_no_years_present() {
    assert!(ChatEngine::find_years("no dates here at all").is_empty());
}

#[test]
fn test_build_system_prompt_empty_profile_returns_base_unchanged() {
    let profile = UserProfile::default();
    assert_eq!(build_system_prompt(&profile), RAG_SYSTEM_PROMPT);
}

#[test]
fn test_build_system_prompt_name_only() {
    let profile = UserProfile {
        display_name: "Alex Doe".to_string(),
        ..Default::default()
    };
    let prompt = build_system_prompt(&profile);
    assert!(prompt.starts_with(RAG_SYSTEM_PROMPT));
    assert!(prompt.contains("The user's name is Alex Doe."));
}

#[test]
fn test_build_system_prompt_family_members() {
    let profile = UserProfile {
        family_members: vec![
            FamilyMember { name: "Jane Doe".to_string(), relation: "spouse".to_string() },
            FamilyMember { name: "Sam Doe".to_string(), relation: "child".to_string() },
        ],
        ..Default::default()
    };
    let prompt = build_system_prompt(&profile);
    assert!(prompt.contains("Jane Doe (spouse)"));
    assert!(prompt.contains("Sam Doe (child)"));
}

#[test]
fn test_build_system_prompt_full_profile() {
    let profile = UserProfile {
        display_name: "Alex Doe".to_string(),
        aliases: vec!["A. Doe".to_string()],
        family_members: vec![FamilyMember {
            name: "Jane Doe".to_string(),
            relation: "spouse".to_string(),
        }],
        countries: vec!["India".to_string(), "USA".to_string()],
        currencies: vec!["INR".to_string(), "USD".to_string()],
    };
    let prompt = build_system_prompt(&profile);
    assert!(prompt.contains("Alex Doe"));
    assert!(prompt.contains("A. Doe"));
    assert!(prompt.contains("Jane Doe (spouse)"));
    assert!(prompt.contains("India, USA"));
    assert!(prompt.contains("INR, USD"));
}

#[test]
fn test_build_system_prompt_whitespace_only_name_treated_as_empty() {
    let profile = UserProfile {
        display_name: "   ".to_string(),
        ..Default::default()
    };
    assert_eq!(build_system_prompt(&profile), RAG_SYSTEM_PROMPT);
}
