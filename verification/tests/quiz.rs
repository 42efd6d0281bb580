use cortex::quiz::candidates::{
    ask, candidates_among, generate_alias_candidates, is_nested, is_token_subset, likeness_of,
    token_jaccard, tokens_of,
};
use cortex::quiz::daily::{daily_quiz, first_unanswered};
use cortex::quiz::store::{feedback_entry, feedback_or_default, QuizFeedbackStore};
use cortex::score::{share_of, Score};
use cortex::table::{TextMap, TextSet};
use cortex::types::{CanonicalEntity, QuizAnswer, QuizFeedbackEntry};

fn make_entity(id: &str, name: &str, entity_type: &str) -> CanonicalEntity {
    CanonicalEntity {
        id: id.to_string(),
        canonical_name: name.to_string(),
        entity_type: entity_type.to_string(),
        aliases: vec![],
        document_count: 1,
        canonical_short_name: None,
    }
}

fn value(s: Score) -> f32 {
    f32::from_bits(s.bits)
}

#[test]
fn test_token_jaccard_no_overlap() {
    assert_eq!(value(token_jaccard("Alex Doe", "Jane Roe")), 0.0);
}

#[test]
fn test_token_jaccard_partial_overlap() {
    // {alex, doe} ∩ {alex, roe} = {alex}; union = {alex, doe, roe} → 1/3
    let sim = value(token_jaccard("Alex Doe", "Alex Roe"));
    assert!((sim - 1.0 / 3.0).abs() < 0.001);
}

#[test]
fn test_candidates_excludes_different_types() {
    let mut m = TextMap::new();
    m.insert("1".to_string(), make_entity("1", "Alex Corp", "organization"));
    m.insert("2".to_string(), make_entity("2", "Alex Corp", "person"));
    let out = generate_alias_candidates(&m, 10);
    assert!(out.is_empty());
}

#[test]
fn test_candidates_excludes_identical_names() {
    let mut m = TextMap::new();
    m.insert("1".to_string(), make_entity("1", "Alex Doe", "person"));
    m.insert("2".to_string(), make_entity("2", "alex doe", "person"));
    let out = generate_alias_candidates(&m, 10);
    assert!(out.is_empty());
}

#[test]
fn test_candidates_excludes_token_subset() {
    // "Alex" ⊂ "Alex Doe": the quiz must not ask about it.
    let mut m = TextMap::new();
    m.insert("1".to_string(), make_entity("1", "Alex", "person"));
    m.insert("2".to_string(), make_entity("2", "Alex Doe", "person"));
    let out = generate_alias_candidates(&m, 10);
    assert!(out.is_empty());
}

#[test]
fn test_candidates_excludes_zero_overlap() {
    let mut m = TextMap::new();
    m.insert("1".to_string(), make_entity("1", "Alex Doe", "person"));
    m.insert("2".to_string(), make_entity("2", "Jane Roe", "person"));
    let out = generate_alias_candidates(&m, 10);
    assert!(out.is_empty());
}

#[test]
fn test_candidates_finds_ambiguous_pair() {
    let mut m = TextMap::new();
    m.insert("1".to_string(), make_entity("1", "Alex Doe", "person"));
    m.insert("2".to_string(), make_entity("2", "Alex Roe", "person"));
    let out = generate_alias_candidates(&m, 10);
    assert_eq!(out.len(), 1);
    assert_eq!(out[0].kind, "alias_confirm");
    assert_eq!(out[0].entity_type, "person");
}

#[test]
fn test_candidates_respects_limit() {
    let mut m = TextMap::new();
    for i in 0..6 {
        m.insert(i.to_string(), make_entity(&i.to_string(), &format!("Alex Doe{}", i), "person"));
    }
    let out = generate_alias_candidates(&m, 3);
    assert_eq!(out.len(), 3);
}

#[test]
fn test_candidates_sorted_by_similarity_desc() {
    let mut m = TextMap::new();
    m.insert("1".to_string(), make_entity("1", "Alex Doe Roe", "person"));
    m.insert("2".to_string(), make_entity("2", "Alex Doe Zed", "person")); // higher overlap
    m.insert("3".to_string(), make_entity("3", "Alex Kim", "person")); // lower overlap
    let out = generate_alias_candidates(&m, 10);
    assert!(out.len() >= 2);
    for w in out.windows(2) {
        assert!(value(w[0].similarity) >= value(w[1].similarity));
    }
}

#[test]
fn test_candidates_stable_id_ordering() {
    let mut m = TextMap::new();
    m.insert("z-id".to_string(), make_entity("z-id", "Alex Roe", "person"));
    m.insert("a-id".to_string(), make_entity("a-id", "Alex Doe", "person"));
    let out = generate_alias_candidates(&m, 10);
    assert_eq!(out[0].entity_id_a, "a-id");
    assert_eq!(out[0].entity_id_b, "z-id");
}

#[test]
fn test_empty_store_returns_empty() {
    let m: TextMap<CanonicalEntity> = TextMap::new();
    assert!(generate_alias_candidates(&m, 10).is_empty());
}

fn make_entry(question_id: &str) -> QuizFeedbackEntry {
    QuizFeedbackEntry {
        question_id: question_id.to_string(),
        kind: "alias_confirm".to_string(),
        entity_id_a: "a".to_string(),
        entity_id_b: "b".to_string(),
        confirmed: true,
        answered_at: "2026-07-10T00:00:00Z".to_string(),
    }
}

#[test]
fn test_answered_question_ids() {
    let mut store = QuizFeedbackStore::default();
    store.append(make_entry("q-1"));
    store.append(make_entry("q-2"));
    let ids = store.answered_question_ids();
    assert!(ids.contains("q-1"));
    assert!(ids.contains("q-2"));
    assert_eq!(ids.len(), 2);
}

#[test]
fn similarity_is_single_precision_division() {
    for whole in 1u128..200 {
        for part in 0..=whole {
            let got = share_of(part, whole);
            assert_eq!(got.bits, (part as f32 / whole as f32).to_bits());
        }
    }
    let large: [u128; 8] = [
        0xff_ffff,
        0x100_0000,
        0x100_0001,
        0x100_0003,
        0x1_0000_0001,
        0xffff_ffff,
        0x7fff_ffff_ffff_ffff,
        0xffff_ffff_ffff_ffff,
    ];
    for whole in large {
        for part in large {
            if part <= whole {
                let expected = part as f32 / whole as f32;
                assert_eq!(share_of(part, whole).bits, expected.to_bits());
            }
        }
        let expected = 1f32 / whole as f32;
        assert_eq!(share_of(1, whole).bits, expected.to_bits());
    }
}

#[test]
fn names_are_compared_word_by_word_in_lower_case() {
    assert_eq!(token_jaccard("ALEX Doe", "roe alex").bits, (1f32 / 3f32).to_bits());
    assert_eq!(token_jaccard("Ünal Doe", "ÜNAL Roe").bits, (1f32 / 3f32).to_bits());
    assert_eq!(token_jaccard("a\u{3000}b\tc", "c b a").bits, 1f32.to_bits());
    assert_eq!(token_jaccard("", "Alex").bits, 0);
    assert_eq!(token_jaccard("  ", " ").bits, 0);
    assert_eq!(token_jaccard("Alex Alex Alex", "Alex Doe").bits, 0.5f32.to_bits());
}

#[test]
fn token_subsets_go_either_way_and_need_words() {
    assert!(is_token_subset("alex", "Alex Doe"));
    assert!(is_token_subset("Alex Doe", "alex"));
    assert!(is_token_subset("Alex Doe", "doe alex"));
    assert!(!is_token_subset("Alex Doe", "Alex Roe"));
    assert!(!is_token_subset("", "Alex"));
    assert!(!is_token_subset("", ""));
}

#[test]
fn a_question_names_both_entities() {
    let mut m = TextMap::new();
    m.insert("k1".to_string(), make_entity("b", "Alex Roe", "person"));
    m.insert("k2".to_string(), make_entity("a", "Alex Doe", "person"));
    let out = generate_alias_candidates(&m, 10);
    assert_eq!(out.len(), 1);
    let q = &out[0];
    assert_eq!(q.id, "quiz-alias-a-b");
    assert_eq!(q.kind, "alias_confirm");
    assert_eq!(q.entity_type, "person");
    assert_eq!(q.entity_id_a, "a");
    assert_eq!(q.name_a, "Alex Doe");
    assert_eq!(q.entity_id_b, "b");
    assert_eq!(q.name_b, "Alex Roe");
    assert_eq!(q.similarity.bits, (1f32 / 3f32).to_bits());
}

#[test]
fn equally_similar_pairs_come_by_their_ids() {
    let mut m = TextMap::new();
    for id in ["c", "a", "d", "b"] {
        m.insert(id.to_string(), make_entity(id, &format!("Alex {}", id), "person"));
    }
    let out = generate_alias_candidates(&m, 100);
    let ids: Vec<&str> = out.iter().map(|q| q.id.as_str()).collect();
    assert_eq!(
        ids,
        vec![
            "quiz-alias-a-b",
            "quiz-alias-a-c",
            "quiz-alias-a-d",
            "quiz-alias-b-c",
            "quiz-alias-b-d",
            "quiz-alias-c-d",
        ]
    );
}

#[test]
fn the_order_of_insertion_does_not_matter() {
    let names = ["Alex Doe Roe", "Alex Doe Zed", "Alex Kim", "Kim Zed", "Sam Roe Kim"];
    let mut forth = TextMap::new();
    let mut back = TextMap::new();
    for i in 0..names.len() {
        let j = names.len() - 1 - i;
        forth.insert(i.to_string(), make_entity(&i.to_string(), names[i], "person"));
        back.insert(j.to_string(), make_entity(&j.to_string(), names[j], "person"));
    }
    for limit in 0..12 {
        let a = generate_alias_candidates(&forth, limit);
        let b = generate_alias_candidates(&back, limit);
        assert_eq!(a, b);
        assert!(a.len() <= limit);
    }
}

fn people() -> TextMap<CanonicalEntity> {
    let mut m = TextMap::new();
    for id in ["a", "b", "c"] {
        m.insert(id.to_string(), make_entity(id, &format!("Alex {}", id), "person"));
    }
    m
}

#[test]
fn the_quiz_of_the_day_is_one_question() {
    let out = daily_quiz(&people(), &TextSet::new(), None);
    assert_eq!(out.len(), 1);
    assert_eq!(out[0].id, "quiz-alias-a-b");
    assert_eq!(daily_quiz(&people(), &TextSet::new(), Some(10)).len(), 3);
    assert_eq!(daily_quiz(&people(), &TextSet::new(), Some(0)).len(), 0);
}

#[test]
fn an_answered_question_is_not_asked_again() {
    let m = people();
    let mut store = QuizFeedbackStore::default();
    let mut asked: Vec<String> = Vec::new();
    loop {
        let out = daily_quiz(&m, &store.answered_question_ids(), None);
        if out.is_empty() {
            break;
        }
        let q = &out[0];
        assert!(!asked.contains(&q.id));
        asked.push(q.id.clone());
        let answer = QuizAnswer {
            question_id: q.id.clone(),
            kind: q.kind.clone(),
            entity_id_a: q.entity_id_a.clone(),
            entity_id_b: q.entity_id_b.clone(),
            confirmed: false,
        };
        store.append(feedback_entry(answer, "now".to_string()));
    }
    assert_eq!(asked, vec!["quiz-alias-a-b", "quiz-alias-a-c", "quiz-alias-b-c"]);
    assert_eq!(store.entries.len(), 3);
    assert_eq!(store.entries[2].question_id, "quiz-alias-b-c");
    assert_eq!(store.entries[2].kind, "alias_confirm");
    assert_eq!(store.entries[2].entity_id_a, "b");
    assert_eq!(store.entries[2].entity_id_b, "c");
    assert_eq!(store.entries[2].confirmed, false);
    assert_eq!(store.entries[2].answered_at, "now");
}

#[test]
fn repeated_answers_count_as_one_question() {
    let mut store = feedback_or_default(None);
    assert!(store.entries.is_empty());
    assert!(store.answered_question_ids().is_empty());
    store.append(make_entry("q-1"));
    store.append(make_entry("q-1"));
    assert_eq!(store.entries.len(), 2);
    assert_eq!(store.answered_question_ids().len(), 1);
    let again = feedback_or_default(Some(store));
    assert_eq!(again.entries.len(), 2);
}

#[test]
fn sets_of_words_are_compared_as_they_are_given() {
    let a = tokens_of("one two three");
    let b = tokens_of("Two THREE four");
    assert_eq!(a.len(), 3);
    assert_eq!(likeness_of(&a, &b).bits, 0.5f32.to_bits());
    assert!(!is_nested(&a, &b));
    assert!(is_nested(&a, &tokens_of("two")));
    let x = make_entity("x", "First", "person");
    let y = make_entity("y", "Second", "person");
    let q = ask(&x, &a, &y, &b).unwrap();
    assert_eq!(q.id, "quiz-alias-x-y");
    assert_eq!(q.similarity.bits, 0.5f32.to_bits());
    assert!(ask(&x, &a, &y, &tokens_of("five")).is_none());
    let out = candidates_among(&vec![&y, &x], &vec![b, a], 5);
    assert_eq!(out, vec![q]);
}

#[test]
fn answered_questions_are_passed_over() {
    let list = generate_alias_candidates(&people(), 10);
    let mut done = TextSet::new();
    done.insert("quiz-alias-a-b".to_string());
    let left = first_unanswered(list, &done, 1);
    assert_eq!(left.len(), 1);
    assert_eq!(left[0].id, "quiz-alias-a-c");
}

#[test]
fn ties_are_broken_by_the_first_id_before_the_second() {
    let people = [("a", "Alex Doe"), ("a-b", "Alex Roe"), ("c", "Alex Kim")];
    for order in [[0, 1, 2], [2, 1, 0], [1, 2, 0]] {
        let mut m = TextMap::new();
        for i in order {
            m.insert(people[i].0.to_string(), make_entity(people[i].0, people[i].1, "person"));
        }
        let out = generate_alias_candidates(&m, 10);
        let pairs: Vec<(&str, &str)> = out
            .iter()
            .map(|q| (q.entity_id_a.as_str(), q.entity_id_b.as_str()))
            .collect();
        assert_eq!(pairs, vec![("a", "a-b"), ("a", "c"), ("a-b", "c")]);
    }
}

#[test]
fn one_question_id_for_two_pairs_does_not_disturb_the_order() {
    let people = [("a", "Alex Doe"), ("b-c", "Alex Roe"), ("a-b", "Alex Kim"), ("c", "Alex Zed")];
    let mut forth = TextMap::new();
    let mut back = TextMap::new();
    for i in 0..4 {
        let (x, y) = (people[i], people[3 - i]);
        forth.insert(x.0.to_string(), make_entity(x.0, x.1, "person"));
        back.insert(y.0.to_string(), make_entity(y.0, y.1, "person"));
    }
    let a = generate_alias_candidates(&forth, 10);
    assert_eq!(a.iter().filter(|q| q.id == "quiz-alias-a-b-c").count(), 2);
    assert_eq!(a, generate_alias_candidates(&back, 10));
}
