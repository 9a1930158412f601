use liara_core::recall::{bump_turn, newest_first_take, prune_flags, recent_episode_texts, IndexEntry};

fn entry(id: i64, kind: &str, valid: bool, text: &str) -> IndexEntry {
    IndexEntry { id, kind: kind.to_string(), valid, text: text.to_string() }
}

#[test]
fn recent_episode_texts_reads_vector_episodes_newest_first() {
    let idx = vec![
        entry(1, "episode", true, "ciao"),
        entry(2, "episode", true, "ciao a te"),
        entry(3, "episode", true, "che ore sono"),
    ];
    let recent = recent_episode_texts(&idx, 2);
    assert_eq!(recent, vec!["che ore sono".to_string(), "ciao a te".to_string()]);
}

#[test]
fn recent_episodes_skip_other_kinds_and_superseded() {
    let idx = vec![
        entry(4, "fact", true, "vive a Roma"),
        entry(7, "episode", false, "vecchio indirizzo"),
        entry(2, "episode", true, "primo"),
        entry(9, "reflection", true, "riflessione"),
        entry(5, "episode", true, "secondo"),
    ];
    assert_eq!(recent_episode_texts(&idx, 100), vec!["secondo".to_string(), "primo".to_string()]);
}

#[test]
fn recent_episodes_with_no_room() {
    let idx = vec![entry(1, "episode", true, "ciao")];
    assert!(recent_episode_texts(&idx, 0).is_empty());
    assert!(recent_episode_texts(&idx, -3).is_empty());
    assert!(recent_episode_texts(&vec![], 5).is_empty());
}

#[test]
fn ordering_keeps_ties_in_index_order() {
    let got = newest_first_take(vec![(5, 'a'), (7, 'b'), (5, 'c'), (1, 'd')], 3);
    assert_eq!(got, vec![(7, 'b'), (5, 'a'), (5, 'c')]);
    assert_eq!(newest_first_take(vec![(2, 'x')], 10), vec![(2, 'x')]);
}

#[test]
fn prune_episodes_keeps_latest() {
    let mut idx = Vec::new();
    for i in 0..10 {
        idx.push(entry(i + 1, "episode", true, &format!("msg {i}")));
    }
    idx.push(entry(20, "fact", true, "ama il caffè"));
    let flags = prune_flags(&idx, "episode", 3);
    let kept: Vec<i64> = idx.iter().zip(flags.iter()).filter(|(_, f)| **f).map(|(e, _)| e.id).collect();
    assert_eq!(kept, vec![8, 9, 10, 20]);
    let rest: Vec<IndexEntry> = idx.into_iter().zip(flags).filter(|(_, f)| *f).map(|(e, _)| e).collect();
    assert_eq!(recent_episode_texts(&rest, 100).len(), 3);
}

#[test]
fn pruning_to_nothing_drops_the_whole_kind() {
    let idx = vec![entry(1, "reflection", true, "a"), entry(2, "episode", true, "b")];
    assert_eq!(prune_flags(&idx, "reflection", 0), vec![false, true]);
    assert_eq!(prune_flags(&idx, "reflection", -1), vec![false, true]);
}

#[test]
fn bump_turn_from_saved_text() {
    let first = bump_turn(None);
    assert_eq!(first, 1);
    let second = bump_turn(Some(&first.to_string()));
    assert_eq!(second, 2);
    assert_eq!(bump_turn(Some(&second.to_string())), 3);
}

#[test]
fn turn_counter_reads_what_was_saved() {
    assert_eq!(bump_turn(Some("non numerico")), 1);
    assert_eq!(bump_turn(Some("-5")), -4);
    assert_eq!(bump_turn(Some("+41")), 42);
}
