use cortex::order::{take_first, SortKey};
use cortex::score::Score;
use cortex::table::{TextMap, TextSet};
use cortex::text::{
    add_text, at_most, can_cut, chars_of, contains_text, cut, decimal_text, has_bytes, holds_text,
    is_white_space, join, same_ignoring_ascii_case, shortened, split_words, text_between, trim,
};

#[test]
fn white_space_is_what_the_standard_library_says() {
    for n in 0..=0x10ffffu32 {
        if let Some(c) = char::from_u32(n) {
            assert_eq!(is_white_space(c), c.is_whitespace());
        }
    }
}

const SAMPLES: [&str; 12] = [
    "",
    " ",
    "a",
    " a b ",
    "\t\u{3000}one  two\u{a0}three\n",
    "é",
    "aé",
    "日本語 text",
    "Alex Doe",
    "alex doe",
    "\u{2028}x",
    "ab\u{85}cd",
];

#[test]
fn trimming_and_splitting_agree_with_the_standard_library() {
    for s in SAMPLES {
        assert_eq!(trim(s), s.trim());
        let words: Vec<String> = s.split_whitespace().map(|w| w.to_string()).collect();
        assert_eq!(split_words(s), words);
        assert_eq!(chars_of(s), s.chars().collect::<Vec<char>>());
    }
}

#[test]
fn comparing_and_searching_agree_with_the_standard_library() {
    for a in SAMPLES {
        for b in SAMPLES {
            assert_eq!(at_most(a, b), a <= b);
            assert_eq!(contains_text(a, b), a.contains(b));
            assert_eq!(same_ignoring_ascii_case(a, b), a.eq_ignore_ascii_case(b));
        }
    }
    assert!(same_ignoring_ascii_case("Alex DOE", "aLEX doe"));
    assert!(!same_ignoring_ascii_case("É", "é"));
}

#[test]
fn cutting_agrees_with_the_standard_library() {
    for s in SAMPLES {
        for n in 0..20usize {
            let end = s.len().min(n);
            assert_eq!(can_cut(s, n), s.is_char_boundary(end));
            if can_cut(s, n) {
                assert_eq!(cut(s, n), &s[..end]);
            }
            assert_eq!(shortened(s, n), s.chars().take(n).collect::<String>());
            assert_eq!(has_bytes(s, n), s.len() >= n);
        }
    }
}

#[test]
fn numbers_are_written_in_decimal() {
    for n in [0u32, 1, 9, 10, 99, 100, 12345, u32::MAX] {
        assert_eq!(decimal_text(n), n.to_string());
    }
}

#[test]
fn joining_puts_the_separator_between() {
    let none: Vec<String> = Vec::new();
    assert_eq!(join(&none, ", "), "");
    assert_eq!(join(&vec!["a".to_string()], ", "), "a");
    let three = vec!["a".to_string(), "".to_string(), "c".to_string()];
    assert_eq!(join(&three, ", "), "a, , c");
}

#[test]
fn lists_take_each_text_once() {
    let mut list: Vec<String> = Vec::new();
    add_text(&mut list, "a".to_string());
    add_text(&mut list, "b".to_string());
    add_text(&mut list, "a".to_string());
    assert_eq!(list, vec!["a", "b"]);
    assert!(holds_text(&list, &"b".to_string()));
    assert!(!holds_text(&list, &"c".to_string()));
    assert_eq!(text_between(&chars_of("héllo"), 1, 3), "él");
}

#[test]
fn sorting_is_stable_and_goes_by_weight_then_label() {
    let key = |weight: i64, label: &str| SortKey {
        weight,
        label: label.to_string(),
        second: String::new(),
    };
    let items = vec!["first", "second", "third", "fourth", "fifth"];
    let keys = vec![key(2, "x"), key(1, "b"), key(1, "a"), key(2, "x"), key(-1, "z")];
    assert_eq!(
        take_first(items.clone(), &keys, 10),
        vec!["fifth", "third", "second", "first", "fourth"]
    );
    assert_eq!(take_first(items.clone(), &keys, 2), vec!["fifth", "third"]);
    assert!(take_first(items, &keys, 0).is_empty());
    let pair = |label: &str, second: &str| SortKey {
        weight: 0,
        label: label.to_string(),
        second: second.to_string(),
    };
    let keys = vec![pair("a-b", "c"), pair("a", "c"), pair("a", "a-b")];
    assert_eq!(take_first(vec![0, 1, 2], &keys, 3), vec![2, 1, 0]);
}

#[test]
fn scores_compare_like_single_precision_numbers() {
    let values = [
        0.0f32,
        -0.0,
        1.0,
        -1.0,
        0.2,
        0.15,
        f32::MIN,
        f32::MAX,
        f32::INFINITY,
        f32::NEG_INFINITY,
        f32::MIN_POSITIVE,
        1e-45,
        f32::NAN,
    ];
    for a in values {
        for b in values {
            let x = Score { bits: a.to_bits() };
            let y = Score { bits: b.to_bits() };
            assert_eq!(x.is_less(&y), a < b);
            assert_eq!(x.is_number(), !a.is_nan());
            if !a.is_nan() && !b.is_nan() {
                assert_eq!(x.rank_value() < y.rank_value(), a < b);
            }
        }
    }
    assert_eq!(cortex::score::FLOOR_BITS, 0.20f32.to_bits());
    assert_eq!(cortex::score::LEAST_BITS, f32::MIN.to_bits());
}

#[test]
fn sets_and_tables_keep_one_of_each() {
    let mut a = TextSet::new();
    a.insert("x".to_string());
    a.insert("y".to_string());
    a.insert("x".to_string());
    assert_eq!(a.len(), 2);
    assert_eq!(a.item(1), "y");
    let mut b = TextSet::new();
    assert!(b.is_empty());
    b.insert("y".to_string());
    let both = a.intersection(&b);
    assert_eq!(both.len(), 1);
    assert!(both.contains("y"));
    assert!(!both.contains("x"));

    let mut m: TextMap<u32> = TextMap::new();
    m.insert("k".to_string(), 1);
    m.insert("l".to_string(), 2);
    m.insert("k".to_string(), 3);
    assert_eq!(m.len(), 2);
    assert_eq!(m.get("k"), Some(&3));
    assert_eq!(m.get("z"), None);
    assert_eq!(m.key(0), "k");
    assert_eq!(*m.value(0), 3);
    assert_eq!(*m.value(1), 2);
}
