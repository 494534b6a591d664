use wbwime::candidate_window::{CandidateWindow, CandidateWindowError, WindowPosition};

#[test]
fn test_candidate_window() {
    let mut w: CandidateWindow<String, ()> = CandidateWindow::new(WindowPosition::new(0, 0, 300, 40), ());
    let cands: Vec<String> = (0..23).map(|i| format!("词{}", i)).collect();
    w.set_candidates(cands);
    assert_eq!(w.total_candidates(), 23);
    assert_eq!(w.total_pages(), 3);
    assert_eq!(w.current_page_candidates().len(), 10);
    assert!(w.select(9));
    assert!(!w.select(10));
    assert!(w.select_next());
    assert_eq!(w.page(), 1);
    assert_eq!(w.selected_index(), 0);
    assert!(w.next_page());
    assert_eq!(w.current_page_candidates().len(), 3);
    assert!(!w.next_page());
    assert_eq!(w.selected_candidate().unwrap(), "词20");
    assert!(w.select_prev());
    assert_eq!(w.page(), 1);
    assert_eq!(w.selected_index(), 9);
    assert!(w.prev_page());
    assert!(!w.prev_page());
    assert!(!w.select_prev());
    assert!(!w.is_visible());
}

#[test]
fn window_position_contains() {
    let mut p = WindowPosition::new(10, 20, 100, 50);
    assert!(p.contains(10, 20));
    assert!(p.contains(109, 69));
    assert!(!p.contains(110, 20));
    assert!(!p.contains(9, 20));
    p.move_to(0, 0);
    p.resize(5, 5);
    assert!(p.contains(4, 4));
    assert!(!p.contains(5, 0));
    assert_eq!(CandidateWindowError::ShowError("s".to_string()).message(), "窗口显示失败: s");
}
