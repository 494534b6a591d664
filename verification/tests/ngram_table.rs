use wbwime::ngram_table::{NgramTable, NgramTableBuilder};

fn build_test_table() -> NgramTable {
    let mut builder = NgramTableBuilder::new(2);
    builder.add_count(vec!["我".into()], "爱".into(), 10);
    builder.add_count(vec!["爱".into()], "中国".into(), 8);
    builder.add_count(vec!["我".into()], "是".into(), 5);
    builder.add_count(vec!["是".into()], "好人".into(), 3);
    builder.build()
}

#[test]
fn test_count() {
    let table = build_test_table();
    assert_eq!(table.count(&["我"], "爱"), 10);
    assert_eq!(table.count(&["我"], "是"), 5);
    assert_eq!(table.count(&["我"], "不"), 0);
    assert_eq!(table.context_count(&["我"]), 15);
    assert_eq!(table.entry_count(), 26);
    assert_eq!(table.vocab_size(), 4);
    assert_eq!(table.order(), 2);
    assert!(!table.is_empty());
}

#[test]
fn test_from_sentences() {
    let mut builder = NgramTableBuilder::new(2);
    let sentences = vec![
        vec!["我".into(), "爱".into(), "你".into()],
        vec!["我".into(), "爱".into(), "中国".into()],
    ];
    builder.from_sentences(&sentences);
    assert_eq!(builder.count_entries(), 3);
    let table = builder.build();
    assert_eq!(table.count(&["我"], "爱"), 2);
    assert_eq!(table.count(&["爱"], "你"), 1);
}

#[test]
fn test_min_count_filter() {
    let mut builder = NgramTableBuilder::new(2).with_min_count(5);
    builder.add_count(vec!["a".into()], "b".into(), 10);
    builder.add_count(vec!["c".into()], "d".into(), 2);
    let table = builder.build();
    assert_eq!(table.count(&["a"], "b"), 10);
    assert_eq!(table.count(&["c"], "d"), 0);
    assert_eq!(table.ngram_count(), 1);
}

#[test]
fn table_empty_and_short_sentences() {
    let t = NgramTable::new(3);
    assert!(t.is_empty());
    assert_eq!(t.vocab_size(), 0);
    let mut b = NgramTableBuilder::new(3);
    b.from_sentences(&[vec!["a".into(), "b".into()]]);
    assert_eq!(b.count_entries(), 0);
    b.from_sentences(&[vec!["a".into(), "b".into(), "c".into(), "d".into()]]);
    let t = b.build();
    assert_eq!(t.count(&["a", "b"], "c"), 1);
    assert_eq!(t.count(&["b", "c"], "d"), 1);
    assert_eq!(t.entry_count(), 2);
}

