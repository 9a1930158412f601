use liara_core::memory::{filter_notes, is_new_fact, search_notes};

fn note(id: i64, topic: &str, text: &str) -> (i64, String, String) {
    (id, topic.to_string(), text.to_string())
}

#[test]
fn filter_notes_as_listed_by_topic() {
    // as listed by the store: newest first
    let notes = vec![note(2, "Mate", "y"), note(1, "Storia", "x")];
    let hist = filter_notes(&notes, Some("storia"));
    assert_eq!(hist.len(), 1);
    assert_eq!(hist[0].2, "x");
    assert_eq!(filter_notes(&notes, None).len(), 2);
}

#[test]
fn search_notes_as_listed() {
    let notes = vec![note(2, "Mate", "teorema di Pitagora"), note(1, "Storia", "Rivoluzione francese")];
    assert_eq!(search_notes(&notes, "pitagora", 10).len(), 1);
    assert_eq!(search_notes(&notes, "francese", 10).len(), 1);
    assert_eq!(search_notes(&notes, "STORIA", 10)[0].0, 1);
    assert!(search_notes(&notes, "i", 0).is_empty());
}

#[test]
fn duplicate_fact_is_not_new() {
    let facts = vec!["ama il caffè".to_string()];
    assert!(!is_new_fact(&facts, "ama il caffè"));
    assert!(is_new_fact(&facts, "vive a Roma"));
}
