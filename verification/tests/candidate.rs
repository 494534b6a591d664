use wbwime::candidate::{CandidateConverter, CandidateFilter, CandidateList, CandidateSelector};
use wbwime::types::{Candidate, CandidateSource};

fn cand(text: &str, code: &str, score: f64) -> Candidate<f64> {
    Candidate {
        text: text.into(),
        code: code.into(),
        score,
        source: CandidateSource::System,
        ngram_score: None,
        user_weight: None,
    }
}

fn test_candidates() -> Vec<Candidate<f64>> {
    vec![
        Candidate {
            text: "中国".into(),
            code: "zhongguo".into(),
            score: 100.0,
            source: CandidateSource::System,
            ngram_score: None,
            user_weight: None,
        },
        Candidate {
            text: "终于".into(),
            code: "zhongyu".into(),
            score: 50.0,
            source: CandidateSource::System,
            ngram_score: None,
            user_weight: None,
        },
    ]
}

#[test]
fn test_candidate_list_pagination() {
    let candidates = test_candidates();
    let list = CandidateList::new(candidates, 0, 10);
    assert_eq!(list.len(), 2);
    assert!(!list.has_next);
    assert!(!list.has_prev);
}

#[test]
fn test_candidate_selector() {
    let candidates = test_candidates();
    let list = CandidateList::new(candidates, 0, 10);
    let mut selector = CandidateSelector::new(list);
    assert!(selector.select_next());
    assert!(selector.selected().is_some());
}

#[test]
fn test_candidate_list() {
    let candidates: Vec<Candidate<f64>> =
        (0..7).map(|i| cand(&format!("词{}", i), "code", i as f64)).collect();
    let mut list = CandidateList::new(candidates, 0, 3);
    assert_eq!(list.len(), 7);
    assert_eq!(list.current_page().len(), 3);
    assert!(list.next_page());
    assert!(list.next_page());
    assert!(!list.next_page());
}

#[test]
fn candidate_list_pages_back_and_jumps() {
    let mut list = CandidateList::new((0..7).collect::<Vec<u32>>(), 0, 3);
    assert!(!list.prev_page());
    assert!(list.goto_page(2));
    assert_eq!(list.current_page(), &[6]);
    assert!(!list.has_next);
    assert!(list.has_prev);
    assert!(list.prev_page());
    assert_eq!(list.current_page(), &[3, 4, 5]);
    assert!(!list.goto_page(3));
    assert_eq!(list.page, 1);
    assert_eq!(list.all_candidates().len(), 7);
    let empty: CandidateList<u32> = CandidateList::new(Vec::new(), 0, 0);
    assert!(empty.is_empty());
    assert!(empty.current_page().is_empty());
}

#[test]
fn selector_moves_across_pages() {
    let list = CandidateList::new((0..5).collect::<Vec<u32>>(), 0, 2);
    let mut s = CandidateSelector::new(list);
    assert_eq!(s.selected(), Some(&0));
    assert!(s.select_next());
    assert_eq!(s.selected(), Some(&1));
    assert!(s.select_next());
    assert_eq!(s.list().page, 1);
    assert_eq!(s.selected_index(), 0);
    assert_eq!(s.selected(), Some(&2));
    assert!(s.select_prev());
    assert_eq!(s.list().page, 0);
    assert_eq!(s.selected(), Some(&1));
    assert!(s.select(0));
    assert!(!s.select(2));
    assert!(!s.select_prev());
    assert_eq!(s.confirm(), Some(&0));
    assert!(s.select_next() && s.select_next() && s.select_next() && s.select_next());
    assert_eq!(s.selected(), Some(&4));
    assert!(!s.select_next());
}

#[test]
fn test_candidate_deduplicate() {
    let mut candidates = test_candidates();
    candidates.insert(1, candidates[0].clone());
    assert_eq!(candidates.len(), 3);
    CandidateFilter::deduplicate(&mut candidates);
    assert_eq!(candidates.len(), 2);
}

#[test]
fn test_candidate_deduplicate_non_adjacent() {
    let mut candidates = vec![
        Candidate {
            text: "最大流".into(),
            code: "zdl".into(),
            score: 100.0,
            source: CandidateSource::System,
            ngram_score: None,
            user_weight: None,
        },
        Candidate {
            text: "最短路".into(),
            code: "zdl".into(),
            score: 90.0,
            source: CandidateSource::System,
            ngram_score: None,
            user_weight: None,
        },
        Candidate {
            text: "最大流".into(),
            code: "zdl".into(),
            score: 60.0,
            source: CandidateSource::System,
            ngram_score: None,
            user_weight: None,
        },
    ];
    assert_eq!(candidates.len(), 3);
    CandidateFilter::deduplicate(&mut candidates);
    assert_eq!(candidates.len(), 2);
    assert_eq!(candidates[0].text, "最大流");
    assert_eq!(candidates[1].text, "最短路");
}

#[test]
fn candidate_deduplicate_keeps_first_score() {
    let mut candidates = vec![cand("最大流", "zdl", 60.0), cand("最大流", "zdl", 100.0), cand("最大流", "zdliu", 50.0)];
    CandidateFilter::deduplicate(&mut candidates);
    assert_eq!(candidates.len(), 2);
    assert_eq!(candidates[0].score, 60.0);
    assert_eq!(candidates[1].code, "zdliu");
}

#[test]
fn candidate_dedup_by_text_ignores_code() {
    let mut candidates = vec![cand("最大流", "zdl", 100.0), cand("最短路", "zdl", 90.0), cand("最大流", "zdliu", 50.0)];
    CandidateFilter::dedup_by_text(&mut candidates);
    let texts = CandidateConverter::to_texts(&candidates);
    assert_eq!(texts, vec!["最大流".to_string(), "最短路".to_string()]);
    assert_eq!(candidates[0].code, "zdl");
}

#[test]
fn candidate_filter_by_source_and_limit() {
    let mut candidates = test_candidates();
    candidates[1].source = CandidateSource::User;
    candidates.push(cand("中", "zhong", 10.0));
    let system = CandidateFilter::by_source(&candidates, CandidateSource::System);
    assert_eq!(system.len(), 2);
    assert_eq!(system[0].text, "中国");
    assert_eq!(system[1].text, "中");
    let user = CandidateFilter::by_source(&candidates, CandidateSource::User);
    assert_eq!(user.len(), 1);
    assert_eq!(user[0].text, "终于");
    assert!(CandidateFilter::by_source(&candidates, CandidateSource::Phrase).is_empty());
    let first = CandidateFilter::limit(&candidates, 2);
    assert_eq!(first.len(), 2);
    assert_eq!(first[1].text, "终于");
    assert_eq!(CandidateFilter::limit(&candidates, 10).len(), 3);
    assert!(CandidateFilter::limit(&candidates, 0).is_empty());
}

#[test]
fn candidate_converter_maps() {
    let candidates = test_candidates();
    assert_eq!(
        CandidateConverter::to_code_text_map(&candidates),
        vec![
            ("zhongguo".to_string(), "中国".to_string()),
            ("zhongyu".to_string(), "终于".to_string())
        ]
    );
    assert_eq!(
        CandidateConverter::to_score_map(&candidates),
        vec![("中国".to_string(), 100.0), ("终于".to_string(), 50.0)]
    );
}

#[test]
fn candidate_prev_page_keeps_flags_in_step() {
    let mut list = CandidateList::new(test_candidates(), 5, 10);
    assert!(list.has_prev);
    assert!(!list.has_next);
    assert!(list.prev_page());
    assert_eq!(list.page, 4);
    assert!(!list.has_next);
    assert!(list.has_prev);
    let many: Vec<Candidate<f64>> = (0..25).map(|i| cand(&format!("词{}", i), "c", 0.0)).collect();
    let mut three = CandidateList::new(many, 2, 10);
    assert!(three.prev_page());
    assert_eq!(three.page, 1);
    assert!(three.has_next);
}
