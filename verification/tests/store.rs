use sentence_counter::{CounterError, SentenceCountsData};

fn rows_by_sentence(data: &SentenceCountsData) -> Vec<(String, i32)> {
    let mut rows: Vec<(String, i32)> =
        data.sorted_vec(false).into_iter().map(|(s, n)| (s.clone(), *n)).collect();
    rows.sort();
    rows
}

fn parse_error_path(loaded: Result<SentenceCountsData, CounterError>) -> String {
    match loaded {
        Err(CounterError::Parse(path)) => path,
        other => panic!("{:?}", other.map(|_| ())),
    }
}

#[test]
fn load_of_empty_text_is_the_empty_record() {
    let data = SentenceCountsData::load("counts.json", "").unwrap();
    assert!(data.sorted_vec(false).is_empty());
    let again = SentenceCountsData::load("counts.json", "").unwrap();
    assert!(again.sorted_vec(false).is_empty());
}

#[test]
fn load_of_empty_object_is_the_empty_record() {
    let data = SentenceCountsData::load("counts.json", "{}").unwrap();
    assert!(data.sorted_vec(false).is_empty());
}

#[test]
fn load_reads_a_flat_object() {
    let data = SentenceCountsData::load("counts.json", "{\"hello\": 2, \"world\": 1}").unwrap();
    assert_eq!(data.count("hello"), 2);
    assert_eq!(data.count("world"), 1);
    assert_eq!(
        rows_by_sentence(&data),
        vec![("hello".to_string(), 2), ("world".to_string(), 1)]
    );
}

#[test]
fn load_reads_escapes_in_sentences() {
    let data =
        SentenceCountsData::load("counts.json", "{\"a \\\"b\\\"\\n\": 3, \"h\\u00e9\": 4}").unwrap();
    assert_eq!(data.count("a \"b\"\n"), 3);
    assert_eq!(data.count("h\u{e9}"), 4);
}

#[test]
fn load_takes_the_last_of_a_repeated_key() {
    let data = SentenceCountsData::load("counts.json", "{\"a\": 1, \"a\": 5}").unwrap();
    assert_eq!(data.count("a"), 5);
    assert_eq!(data.sorted_vec(false).len(), 1);
}

#[test]
fn load_reports_garbage() {
    let loaded = SentenceCountsData::load("counts.json", "not json");
    assert_eq!(parse_error_path(loaded), "counts.json");
}

#[test]
fn load_reports_a_json_string() {
    let loaded = SentenceCountsData::load("counts.json", "\"not json\"");
    assert_eq!(parse_error_path(loaded), "counts.json");
}

#[test]
fn load_reports_truncated_text() {
    let loaded = SentenceCountsData::load("dir/counts.json", "{\"hello\": 2, \"wor");
    assert_eq!(parse_error_path(loaded), "dir/counts.json");
}

#[test]
fn load_reports_blank_text() {
    let loaded = SentenceCountsData::load("counts.json", " \n");
    assert_eq!(parse_error_path(loaded), "counts.json");
}

#[test]
fn load_reports_text_behind_the_object() {
    let loaded = SentenceCountsData::load("counts.json", "{\"hello\": 2} x");
    assert_eq!(parse_error_path(loaded), "counts.json");
}

#[test]
fn load_reports_another_shape() {
    assert_eq!(parse_error_path(SentenceCountsData::load("p", "[1, 2]")), "p");
    assert_eq!(parse_error_path(SentenceCountsData::load("p", "3")), "p");
    assert_eq!(parse_error_path(SentenceCountsData::load("p", "{\"a\": \"1\"}")), "p");
    assert_eq!(parse_error_path(SentenceCountsData::load("p", "{\"a\": 1.5}")), "p");
    assert_eq!(parse_error_path(SentenceCountsData::load("p", "{\"a\": null}")), "p");
    assert_eq!(parse_error_path(SentenceCountsData::load("p", "{\"a\": {\"b\": 1}}")), "p");
}

#[test]
fn load_reports_a_negative_count() {
    let loaded = SentenceCountsData::load("counts.json", "{\"hello\": 2, \"world\": -1}");
    assert_eq!(parse_error_path(loaded), "counts.json");
}

#[test]
fn load_reads_counts_up_to_the_largest() {
    let data = SentenceCountsData::load("counts.json", "{\"a\": 2147483647, \"b\": 0}").unwrap();
    assert_eq!(data.count("a"), i32::MAX);
    assert_eq!(data.count("b"), 0);
    let loaded = SentenceCountsData::load("counts.json", "{\"a\": 2147483648}");
    assert_eq!(parse_error_path(loaded), "counts.json");
}

#[test]
fn parse_error_names_the_file() {
    let error = SentenceCountsData::load("my counts.json", "oops").err().unwrap();
    assert_eq!(error.message(), "my counts.json is invalid sentence counter file");
}

#[test]
fn encode_of_the_empty_record() {
    let data = SentenceCountsData::new();
    assert_eq!(data.encode().unwrap(), "{}");
}

#[test]
fn encode_writes_a_flat_object() {
    let mut data = SentenceCountsData::new();
    data.add_sentence("world".to_string());
    data.add_sentence("hello".to_string());
    data.add_sentence("hello".to_string());
    assert_eq!(data.encode().unwrap(), "{\"hello\":2,\"world\":1}");
}

#[test]
fn encode_escapes_sentences() {
    let mut data = SentenceCountsData::new();
    data.add_sentence("say \"hi\"\n".to_string());
    assert_eq!(data.encode().unwrap(), "{\"say \\\"hi\\\"\\n\":1}");
}

#[test]
fn encode_then_load_gives_the_same_mapping() {
    let mut data = SentenceCountsData::new();
    let added = ["b", "a", "b", "tab\there", "b", "", "quote \" and \\", "h\u{e9}llo \u{1f600}", "a"];
    for sentence in added.iter() {
        data.add_sentence(sentence.to_string());
    }
    let text = data.encode().unwrap();
    let loaded = SentenceCountsData::load("counts.json", &text).unwrap();
    assert_eq!(rows_by_sentence(&loaded), rows_by_sentence(&data));
    assert_eq!(loaded.count("b"), 3);
    assert_eq!(loaded.count("a"), 2);
    assert_eq!(loaded.count(""), 1);
    assert_eq!(loaded.encode().unwrap(), text);
}

#[test]
fn encode_then_load_of_the_empty_record() {
    let text = SentenceCountsData::new().encode().unwrap();
    let loaded = SentenceCountsData::load("counts.json", &text).unwrap();
    assert!(loaded.sorted_vec(false).is_empty());
}
