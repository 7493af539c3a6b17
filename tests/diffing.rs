use kb_core::chunker::chunk_text;
use kb_core::diff::{
    batch_bounds, diff_hashes, embedded_chunks, needs_reindex, plan_file, plan_for, record_file,
    PendingChunk, MAX_CHUNK_CHARS,
};
use kb_core::index_state::{IndexState, IndexedChunk};

fn stored(hash: &str, id: &str) -> IndexedChunk {
    IndexedChunk { hash: hash.to_string(), id: id.to_string() }
}

fn pending(text: &str, hash: &str) -> PendingChunk {
    PendingChunk { text: text.to_string(), hash: hash.to_string() }
}

#[test]
fn unchanged_time_is_skipped() {
    let mut state = IndexState::new();
    state.update_file_chunks("a.md", vec![stored("h1", "id1")], 100);
    assert!(!needs_reindex(&state, "a.md", 100));
    assert!(needs_reindex(&state, "a.md", 101));
    assert!(needs_reindex(&state, "b.md", 100));
}

#[test]
fn old_h1_h2_h3_against_new_h1_h4() {
    let previous = vec![stored("h1", "id1"), stored("h2", "id2"), stored("h3", "id3")];
    let candidates = vec![pending("one", "h1"), pending("four", "h4")];
    let plan = diff_hashes(&previous, &candidates);
    assert_eq!(plan.to_embed, vec![pending("four", "h4")]);
    assert_eq!(plan.unchanged, vec![stored("h1", "id1")]);
    assert_eq!(plan.stale, vec![stored("h2", "id2"), stored("h3", "id3")]);
    assert_eq!(plan.stale_ids(), vec!["id2".to_string(), "id3".to_string()]);
    let record = plan.into_record(&vec![Some("id4".to_string())]);
    assert_eq!(record, vec![stored("h1", "id1"), stored("h4", "id4")]);
}

#[test]
fn same_content_needs_no_work() {
    let previous = vec![stored("h1", "id1"), stored("h2", "id2")];
    let candidates = vec![pending("two", "h2"), pending("one", "h1")];
    let plan = diff_hashes(&previous, &candidates);
    assert!(plan.to_embed.is_empty());
    assert!(plan.stale.is_empty());
    assert_eq!(plan.unchanged, previous);
}

#[test]
fn repeated_digest_is_embedded_once() {
    let candidates = vec![pending("x", "hx"), pending("y", "hy"), pending("x", "hx")];
    let plan = diff_hashes(&Vec::new(), &candidates);
    assert_eq!(plan.to_embed, vec![pending("x", "hx"), pending("y", "hy")]);
}

#[test]
fn plan_file_hashes_and_filters_chunks() {
    let long = "x".repeat(MAX_CHUNK_CHARS + 1);
    let edge = "y".repeat(MAX_CHUNK_CHARS);
    let chunks = vec!["alpha".to_string(), "  ".to_string(), long, edge.clone(), "alpha".to_string()];
    let previous = vec![stored(&IndexState::hash_chunk("gone"), "old")];
    let plan = plan_file(&previous, &chunks);
    assert_eq!(
        plan.to_embed,
        vec![
            pending("alpha", &IndexState::hash_chunk("alpha")),
            pending(&edge, &IndexState::hash_chunk(&edge)),
        ]
    );
    assert!(plan.unchanged.is_empty());
    assert_eq!(plan.stale_ids(), vec!["old".to_string()]);
}

#[test]
fn failed_pipelines_are_left_out() {
    let to_embed = vec![pending("a", "ha"), pending("b", "hb"), pending("c", "hc")];
    let ids = vec![Some("ia".to_string()), None, Some("ic".to_string())];
    assert_eq!(embedded_chunks(&to_embed, &ids), vec![stored("ha", "ia"), stored("hc", "ic")]);
    assert_eq!(embedded_chunks(&to_embed, &vec![Some("ia".to_string())]), vec![stored("ha", "ia")]);
}

#[test]
fn batches_of_eight() {
    assert_eq!(batch_bounds(20), vec![(0, 8), (8, 16), (16, 20)]);
    assert_eq!(batch_bounds(16), vec![(0, 8), (8, 16)]);
    assert_eq!(batch_bounds(3), vec![(0, 3)]);
    assert!(batch_bounds(0).is_empty());
}

#[test]
fn index_state_records_and_replaces() {
    let mut state = IndexState::new();
    assert!(state.get_file_chunks("a").is_none());
    assert_eq!(state.get_last_modified("a"), None);
    state.update_file_chunks("a", vec![stored("h1", "i1")], 5);
    state.update_file_chunks("b", vec![], 6);
    state.update_file_chunks("a", vec![stored("h2", "i2")], 7);
    assert_eq!(state.files.len(), 2);
    assert_eq!(state.get_last_modified("a"), Some(7));
    assert_eq!(state.get_file_chunks("a"), Some(&vec![stored("h2", "i2")]));
    assert!(state.is_well_formed());
    assert!(IndexState::has_chunk(&[stored("h1", "i1")], "h1"));
    assert!(!IndexState::has_chunk(&[stored("h1", "i1")], "h2"));
    let mut dup = state.clone();
    dup.files.push(state.files[0].clone());
    assert!(!dup.is_well_formed());
}

#[test]
fn file_cycle_from_first_run_to_an_edit() {
    let mut state = IndexState::new();
    let mut text = String::new();
    for i in 0..25 {
        text.push_str(&format!("row {}\n", i));
    }
    let chunks = chunk_text(&text);
    let plan = plan_for(&state, "f.md", &chunks);
    assert_eq!(plan.to_embed.len(), 3);
    let ids = vec![Some("a".to_string()), None, Some("c".to_string())];
    let stale = record_file(&mut state, "f.md", 10, plan, &ids);
    assert!(stale.is_empty());
    assert_eq!(state.get_last_modified("f.md"), Some(10));
    assert_eq!(state.get_file_chunks("f.md").unwrap().len(), 2);

    // Same text, new time: only the chunk whose pipeline failed is embedded.
    let plan = plan_for(&state, "f.md", &chunks);
    assert_eq!(plan.to_embed.len(), 1);
    assert_eq!(plan.to_embed[0].text, chunks[1]);
    assert!(plan.stale.is_empty());

    // The last lines change: their old chunk is stale.
    let edited = text.replace("row 24", "row twenty-four");
    let plan = plan_for(&state, "f.md", &chunk_text(&edited));
    assert_eq!(plan.to_embed.len(), 2);
    assert_eq!(plan.stale_ids(), vec!["c".to_string()]);
    let stale = record_file(&mut state, "f.md", 11, plan, &vec![None, Some("d".to_string())]);
    assert_eq!(stale, vec!["c".to_string()]);
    let ids: Vec<String> = state.get_file_chunks("f.md").unwrap().iter().map(|c| c.id.clone()).collect();
    assert_eq!(ids, vec!["a".to_string(), "d".to_string()]);
}

#[test]
fn chunk_limit_counts_characters() {
    // 100,000 two-byte characters: within the limit although 200,000 bytes.
    let wide = "é".repeat(MAX_CHUNK_CHARS);
    let too_wide = "é".repeat(MAX_CHUNK_CHARS + 1);
    let plan = plan_file(&Vec::new(), &vec![wide.clone(), too_wide]);
    assert_eq!(plan.to_embed.len(), 1);
    assert_eq!(plan.to_embed[0].text, wide);
}
