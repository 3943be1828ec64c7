use sentence_counter::keys::{keys_ascend, stands_before};

fn entries(sentences: &[&str]) -> Vec<(String, i32)> {
    sentences.iter().map(|s| (s.to_string(), 1)).collect()
}

#[test]
fn stands_before_by_the_first_byte_that_differs() {
    assert!(stands_before(b"a", b"b"));
    assert!(!stands_before(b"b", b"a"));
    assert!(stands_before(b"abc", b"abd"));
    assert!(!stands_before(b"abd", b"abc"));
    assert!(stands_before(b"Z", b"a"));
    assert!(stands_before("z".as_bytes(), "\u{e9}".as_bytes()));
}

#[test]
fn stands_before_what_it_begins() {
    assert!(stands_before(b"", b"a"));
    assert!(stands_before(b"ab", b"abc"));
    assert!(!stands_before(b"abc", b"ab"));
    assert!(!stands_before(b"a", b""));
}

#[test]
fn nothing_stands_before_itself() {
    assert!(!stands_before(b"", b""));
    assert!(!stands_before(b"hello", b"hello"));
}

#[test]
fn keys_ascend_in_short_runs() {
    assert!(keys_ascend(&entries(&[])));
    assert!(keys_ascend(&entries(&["only"])));
}

#[test]
fn keys_ascend_where_each_stands_before_the_next() {
    assert!(keys_ascend(&entries(&["", "a", "ab", "b", "c"])));
    assert!(!keys_ascend(&entries(&["a", "c", "b"])));
    assert!(!keys_ascend(&entries(&["a", "b", "b"])));
    assert!(!keys_ascend(&entries(&["b", "a"])));
}
