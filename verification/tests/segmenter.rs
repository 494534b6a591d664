use wbwime::segmenter::{Segment, SegmentError, SegmentMerger, Segmenter};

#[test]
fn segment_basics() {
    let s = Segment::new("中国".to_string(), 3, 9);
    assert_eq!(s.len(), 6);
    assert!(!s.is_empty());
    assert!(Segment::new(String::new(), 0, 0).is_empty());
    assert_eq!(s.display_text(), "中国");
    let seg = Segmenter::new().with_ambiguous_cut(true).with_max_word_len(8);
    assert!(seg.ambiguous_cut);
    assert!(!seg.return_pos);
    assert_eq!(seg.max_word_len, 8);
    assert_eq!(Segmenter::default().max_word_len, 32);
    assert_eq!(SegmentError::DictError("d".to_string()).message(), "词典查询错误: d");
}

#[test]
fn segment_sort_is_stable() {
    let mut v = vec![
        Segment::new("c".to_string(), 5, 6),
        Segment::new("a".to_string(), 0, 1),
        Segment::new("b1".to_string(), 2, 3),
        Segment::new("b2".to_string(), 2, 4),
    ];
    SegmentMerger::sort_by_position(&mut v);
    let texts: Vec<&str> = v.iter().map(|s| s.text.as_str()).collect();
    assert_eq!(texts, vec!["a", "b1", "b2", "c"]);
}
