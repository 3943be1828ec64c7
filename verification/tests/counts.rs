use sentence_counter::{CounterError, SentenceCountsData};

fn record(entries: &[(&str, i32)]) -> SentenceCountsData {
    let counts: Vec<(String, i32)> = entries.iter().map(|(s, n)| (s.to_string(), *n)).collect();
    SentenceCountsData::from_decoded("counts.json", Some(counts)).unwrap()
}

fn rows(data: &SentenceCountsData, rev: bool) -> Vec<(String, i32)> {
    data.sorted_vec(rev).into_iter().map(|(s, n)| (s.clone(), *n)).collect()
}

#[test]
fn new_record_has_no_entries() {
    let data = SentenceCountsData::new();
    assert_eq!(data.count("hello"), 0);
    assert!(data.sorted_vec(false).is_empty());
    assert!(data.sorted_vec(true).is_empty());
}

#[test]
fn first_addition_counts_one() {
    let mut data = SentenceCountsData::new();
    data.add_sentence("hello".to_string());
    assert_eq!(data.count("hello"), 1);
    assert_eq!(rows(&data, false), vec![("hello".to_string(), 1)]);
}

#[test]
fn addition_raises_only_its_own_count() {
    let mut data = record(&[("hello", 2), ("world", 1)]);
    data.add_sentence("world".to_string());
    assert_eq!(data.count("hello"), 2);
    assert_eq!(data.count("world"), 2);
    assert_eq!(data.count("other"), 0);
    assert_eq!(data.sorted_vec(false).len(), 2);
}

#[test]
fn count_is_number_of_additions_in_any_order() {
    let mut data = SentenceCountsData::new();
    let added = ["a", "b", "a", "c", "b", "a", "", "a"];
    for sentence in added.iter() {
        data.add_sentence(sentence.to_string());
    }
    assert_eq!(data.count("a"), 4);
    assert_eq!(data.count("b"), 2);
    assert_eq!(data.count("c"), 1);
    assert_eq!(data.count(""), 1);
    assert_eq!(data.count("d"), 0);
    let sum: i32 = data.sorted_vec(false).iter().map(|(_, n)| **n).sum();
    assert_eq!(sum, 8);
}

#[test]
fn sentences_differ_by_case_and_space() {
    let mut data = SentenceCountsData::new();
    data.add_sentence("Hello".to_string());
    data.add_sentence("hello".to_string());
    data.add_sentence("hello ".to_string());
    assert_eq!(data.count("Hello"), 1);
    assert_eq!(data.count("hello"), 1);
    assert_eq!(data.count("hello "), 1);
}

#[test]
fn sorted_vec_rises_by_default() {
    let data = record(&[("three", 3), ("one", 1), ("five", 5), ("two", 2)]);
    assert_eq!(
        rows(&data, false),
        vec![
            ("one".to_string(), 1),
            ("two".to_string(), 2),
            ("three".to_string(), 3),
            ("five".to_string(), 5),
        ]
    );
}

#[test]
fn sorted_vec_falls_in_reverse() {
    let data = record(&[("three", 3), ("one", 1), ("five", 5), ("two", 2)]);
    assert_eq!(
        rows(&data, true),
        vec![
            ("five".to_string(), 5),
            ("three".to_string(), 3),
            ("two".to_string(), 2),
            ("one".to_string(), 1),
        ]
    );
}

#[test]
fn sorted_vec_keeps_every_entry_and_the_sum() {
    let mut entries: Vec<(String, i32)> = Vec::new();
    let mut n: i32 = 7;
    for i in 0..500 {
        n = (n * 31 + 11) % 97;
        entries.push((format!("sentence {}", i), n));
    }
    let expected_sum: i64 = entries.iter().map(|(_, n)| *n as i64).sum();
    let data = SentenceCountsData::from_decoded("counts.json", Some(entries.clone())).unwrap();
    for rev in [false, true] {
        let sorted = rows(&data, rev);
        assert_eq!(sorted.len(), 500);
        for pair in sorted.windows(2) {
            if rev {
                assert!(pair[0].1 >= pair[1].1);
            } else {
                assert!(pair[0].1 <= pair[1].1);
            }
        }
        let sum: i64 = sorted.iter().map(|(_, n)| *n as i64).sum();
        assert_eq!(sum, expected_sum);
        let mut left = sorted.clone();
        left.sort();
        let mut right = entries.clone();
        right.sort();
        assert_eq!(left, right);
    }
}

#[test]
fn sorted_vec_lists_ties_once_each() {
    let data = record(&[("a", 1), ("b", 1), ("c", 1)]);
    let mut sorted = rows(&data, false);
    sorted.sort();
    assert_eq!(
        sorted,
        vec![("a".to_string(), 1), ("b".to_string(), 1), ("c".to_string(), 1)]
    );
}

#[test]
fn sorted_vec_can_be_taken_again() {
    let data = record(&[("b", 2), ("a", 1)]);
    let first = rows(&data, false);
    let second = rows(&data, false);
    assert_eq!(first, second);
    assert_eq!(data.count("b"), 2);
}

#[test]
fn from_decoded_builds_the_mapping() {
    let data = record(&[("hello", 2), ("world", 0)]);
    assert_eq!(data.count("hello"), 2);
    assert_eq!(data.count("world"), 0);
    assert_eq!(data.sorted_vec(false).len(), 2);
}

#[test]
fn from_decoded_rejects_a_negative_count() {
    let counts = vec![("hello".to_string(), 2), ("world".to_string(), -1)];
    let loaded = SentenceCountsData::from_decoded("counts.json", Some(counts));
    match loaded {
        Err(CounterError::Parse(path)) => assert_eq!(path, "counts.json"),
        other => panic!("{:?}", other.map(|_| ())),
    }
}

#[test]
fn from_decoded_rejects_what_was_not_decoded() {
    let loaded = SentenceCountsData::from_decoded("some/where.json", None);
    match loaded {
        Err(CounterError::Parse(path)) => assert_eq!(path, "some/where.json"),
        other => panic!("{:?}", other.map(|_| ())),
    }
}

#[test]
fn from_decoded_takes_entries_in_any_order() {
    let data = record(&[("pear", 3), ("apple", 1), ("zebra", 0), ("fig", 2)]);
    assert_eq!(data.count("pear"), 3);
    assert_eq!(data.count("apple"), 1);
    assert_eq!(data.count("zebra"), 0);
    assert_eq!(data.count("fig"), 2);
    assert_eq!(data.sorted_vec(false).len(), 4);
}

#[test]
fn from_decoded_keeps_the_last_count_of_a_sentence() {
    let data = record(&[("a", 1), ("b", 2), ("a", 5), ("b", 7), ("c", 3)]);
    assert_eq!(data.count("a"), 5);
    assert_eq!(data.count("b"), 7);
    assert_eq!(data.count("c"), 3);
    assert_eq!(
        rows(&data, false),
        vec![("c".to_string(), 3), ("a".to_string(), 5), ("b".to_string(), 7)]
    );
}

#[test]
fn from_decoded_of_no_entries() {
    let data = record(&[]);
    assert!(data.sorted_vec(false).is_empty());
    assert_eq!(data.count(""), 0);
}
