use liara_core::memstore::MemoryStore;
use liara_core::recall::IndexEntry;

fn mem() -> MemoryStore {
    MemoryStore::new()
}

fn entry(id: i64, kind: &str, text: &str) -> IndexEntry {
    IndexEntry { id, kind: kind.to_string(), valid: true, text: text.to_string() }
}

fn with_index(index: Vec<IndexEntry>) -> MemoryStore {
    MemoryStore::from_parts(Vec::new(), Vec::new(), Vec::new(), index, Vec::new(), Vec::new(), Vec::new())
}

fn index_ids(m: &MemoryStore) -> Vec<i64> {
    m.index().iter().map(|e| e.id).collect()
}

#[test]
fn delete_fact_removes_only_that_one() {
    let mut m = mem();
    m.add_fact("ama il caffè");
    m.add_fact("vive a Roma");
    m.delete_fact("ama il caffè");
    let facts = m.facts();
    assert_eq!(facts, vec!["vive a Roma".to_string()]);
}

#[test]
fn delete_missing_fact_is_noop() {
    let mut m = mem();
    m.add_fact("x");
    m.delete_fact("inesistente");
    assert_eq!(m.facts().len(), 1);
}

#[test]
fn facts_dedup_and_forget() {
    let mut m = mem();
    assert!(m.add_fact("ama il caffè"));
    assert!(!m.add_fact("ama il caffè"), "fatto duplicato non va aggiunto");
    assert!(m.add_fact("vive a Roma"));
    assert_eq!(m.facts(), vec!["ama il caffè".to_string(), "vive a Roma".to_string()]);
    m.forget_all();
    assert!(m.facts().is_empty());
}

#[test]
fn add_episode_does_not_error() {
    let mut m = mem();
    m.add_episode("user", "ciao");
    m.add_episode("assistant", "ciao a te");
    assert_eq!(m.episodes().len(), 2);
}

#[test]
fn add_list_newest_first() {
    let mut m = mem();
    m.add_note("Storia", "Rivoluzione francese 1789");
    m.add_note("Mate", "Pitagora a^2+b^2=c^2");
    let all = m.list_notes(None);
    assert_eq!(all.len(), 2);
    assert_eq!(all[0].1, "Mate"); // newest first
}

#[test]
fn filter_by_topic() {
    let mut m = mem();
    m.add_note("Storia", "x");
    m.add_note("Mate", "y");
    let hist = m.list_notes(Some("storia"));
    assert_eq!(hist.len(), 1);
    assert_eq!(hist[0].2, "x");
}

#[test]
fn search_matches_topic_or_body() {
    let mut m = mem();
    m.add_note("Storia", "Rivoluzione francese");
    m.add_note("Mate", "teorema di Pitagora");
    assert_eq!(m.search_notes("pitagora", 10).len(), 1);
    assert_eq!(m.search_notes("francese", 10).len(), 1);
}

#[test]
fn delete_removes() {
    let mut m = mem();
    let id = m.add_note("T", "x");
    m.delete_note(id);
    assert!(m.list_notes(None).is_empty());
}

#[test]
fn profile_roundtrip_and_empty_deletes() {
    let mut m = mem();
    m.set_profile("nome", "Zeli");
    m.set_profile("citta", "Roma");
    assert_eq!(
        m.profile_entries().clone(),
        vec![("nome".to_string(), "Zeli".to_string()), ("citta".to_string(), "Roma".to_string())]
    );
    // setting empty removes the key
    m.set_profile("citta", "   ");
    assert_eq!(m.profile_entries().clone(), vec![("nome".to_string(), "Zeli".to_string())]);
}

#[test]
fn conversations_crud() {
    let mut m = mem();
    m.save_conversation("c1", "Prima chat", "{\"x\":1}", 1_700_000_000);
    m.save_conversation("c2", "Seconda", "{\"y\":2}", 1_700_000_001);
    let list = m.list_conversations();
    assert_eq!(list.len(), 2);
    assert_eq!(m.load_conversation("c1").as_deref(), Some("{\"x\":1}"));
    m.delete_conversation("c1");
    assert!(m.load_conversation("c1").is_none());
    assert_eq!(m.list_conversations().len(), 1);
}

#[test]
fn permissions_roundtrip() {
    let mut m = mem();
    assert!(m.get_permission("web_fetch").is_none());
    m.set_permission("web_fetch", "allow");
    m.set_permission("fs_read", "ask");
    assert_eq!(m.get_permission("web_fetch").as_deref(), Some("allow"));
    assert_eq!(m.list_permissions().len(), 2);
}

#[test]
fn bump_turn_increments() {
    let mut m = mem();
    assert_eq!(m.bump_turn(), 1);
    assert_eq!(m.bump_turn(), 2);
    assert_eq!(m.bump_turn(), 3);
}

#[test]
fn profile_values_are_trimmed_and_moved_last_on_change() {
    let mut m = mem();
    m.set_profile("nome", "  Zeli ");
    m.set_profile("citta", "Roma");
    m.set_profile("nome", "Zelinda");
    assert_eq!(
        m.profile_entries().clone(),
        vec![("citta".to_string(), "Roma".to_string()), ("nome".to_string(), "Zelinda".to_string())]
    );
    m.set_profile("assente", "");
    assert_eq!(m.profile_entries().len(), 2);
}

#[test]
fn profile_block_lists_profile_then_facts() {
    let mut m = mem();
    assert_eq!(m.profile_block(), "");
    m.set_profile("nome", "Zeli");
    m.add_fact("ama il caffè");
    let block = m.profile_block();
    assert!(block.contains("Profilo:\n- nome: Zeli\n"));
    assert!(block.ends_with("Altri dettagli appresi:\n- ama il caffè\n"));
}

#[test]
fn new_facts_take_the_next_id() {
    let mut m = MemoryStore::from_parts(
        Vec::new(),
        vec![(7, "vive a Roma".to_string())],
        Vec::new(),
        Vec::new(),
        Vec::new(),
        Vec::new(),
        Vec::new(),
    );
    assert_eq!(m.fact_top_id(), 7);
    assert!(m.add_fact("ha due gatti"));
    assert_eq!(m.fact_rows().last().unwrap().0, 8);
}

#[test]
fn deleting_a_fact_drops_its_semantic_copies_only() {
    let mut m = with_index(vec![
        entry(1, "fact", "vive a Roma"),
        entry(2, "episode", "vive a Roma"),
        entry(3, "fact", "ama il caffè"),
        entry(4, "fact", "vive a Roma"),
    ]);
    m.delete_fact("vive a Roma");
    assert_eq!(index_ids(&m), vec![2, 3]);
}

#[test]
fn forget_all_keeps_only_documents_and_the_profile() {
    let mut m = with_index(vec![
        entry(1, "fact", "x"),
        entry(2, "episode", "ep"),
        entry(3, "doc", "[doc:manuale] capitolo"),
        entry(4, "reflection", "r"),
    ]);
    m.set_profile("nome", "Zeli");
    m.add_fact("x");
    m.add_episode("user", "ciao");
    m.add_note("T", "resta");
    m.forget_all();
    assert_eq!(index_ids(&m), vec![3]);
    assert!(m.facts().is_empty());
    assert!(m.episodes().is_empty());
    assert_eq!(m.profile_entries().len(), 1);
    assert_eq!(m.list_notes(None).len(), 1);
}

#[test]
fn supersede_leaves_the_memory_no_longer_current() {
    let mut m = with_index(vec![entry(5, "episode", "vecchio indirizzo"), entry(6, "episode", "nuovo")]);
    assert_eq!(m.memory_count(), 2);
    m.supersede(5);
    assert_eq!(m.memory_count(), 1);
    assert!(!m.index()[0].valid);
    assert_eq!(m.recent_episode_texts(5), vec!["nuovo".to_string()]);
    m.supersede(99);
    assert_eq!(m.memory_count(), 1);
}

#[test]
fn pruning_the_store_keeps_the_newest_episodes() {
    let mut idx = Vec::new();
    for i in 0..10 {
        idx.push(entry(i + 1, "episode", &format!("msg {i}")));
    }
    idx.push(entry(20, "reflection", "r"));
    let mut m = with_index(idx);
    m.prune_episodes(3);
    assert_eq!(index_ids(&m), vec![8, 9, 10, 20]);
    m.prune_reflections(0);
    assert_eq!(index_ids(&m), vec![8, 9, 10]);
    assert_eq!(m.recent_episode_texts(100).len(), 3);
}

#[test]
fn turn_counter_is_saved_as_text() {
    let mut m = MemoryStore::from_parts(
        Vec::new(),
        Vec::new(),
        Vec::new(),
        Vec::new(),
        Vec::new(),
        Vec::new(),
        vec![("turn_count".to_string(), "-5".to_string())],
    );
    assert_eq!(m.bump_turn(), -4);
    assert_eq!(m.setting("turn_count").as_deref(), Some("-4"));
    assert_eq!(m.bump_turn(), -3);
    m.put_setting("turn_count", "41");
    assert_eq!(m.bump_turn(), 42);
    assert_eq!(m.setting("turn_count").as_deref(), Some("42"));
}

#[test]
fn conversations_list_most_recent_save_first() {
    let mut m = mem();
    m.save_conversation("c1", "Prima", "a", 10);
    m.save_conversation("c2", "Seconda", "b", 20);
    m.save_conversation("c1", "Prima, rivista", "c", 30);
    assert_eq!(
        m.list_conversations(),
        vec![("c1".to_string(), "Prima, rivista".to_string(), 30), ("c2".to_string(), "Seconda".to_string(), 20)]
    );
    assert_eq!(m.load_conversation("c1").as_deref(), Some("c"));
    assert!(m.load_conversation("c3").is_none());
}

#[test]
fn permissions_are_listed_by_tool_among_other_settings() {
    let mut m = mem();
    m.put_setting("location", "sigillato");
    m.set_permission("web_fetch", "allow");
    m.set_permission("web_fetch", "deny");
    assert_eq!(m.list_permissions(), vec![("web_fetch".to_string(), "deny".to_string())]);
    assert_eq!(m.setting("perm:web_fetch").as_deref(), Some("deny"));
    assert_eq!(m.settings().len(), 2);
}
