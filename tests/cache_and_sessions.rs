use kb_core::chat::{build_chat_messages, history_messages, answer_or_notice, ChatMessage, Role};
use kb_core::digest::hash_query_context;
use kb_core::query_cache::{similarity_exceeds, QueryState, SIMILARITY_THRESHOLD_BITS};
use kb_core::session::{SessionError, SessionManager, SessionSelection, SessionState};

fn bits(v: &[f32]) -> Vec<u32> {
    v.iter().map(|x| x.to_bits()).collect()
}

#[test]
fn cached_answer_needs_query_and_context() {
    let chunks = vec!["ctx one".to_string(), "ctx two".to_string()];
    let hash = hash_query_context("q", &chunks);
    let mut cache = QueryState::new();
    cache.insert_answer("q".to_string(), hash.clone(), bits(&[1.0]), "answer".to_string());
    assert_eq!(cache.get_cached_answer("q", &hash), Some("answer".to_string()));
    assert_eq!(cache.get_cached_answer("q2", &hash), None);
    let changed = vec!["ctx one".to_string(), "ctx 2".to_string()];
    let other = hash_query_context("q", &changed);
    assert_ne!(other, hash);
    assert_eq!(cache.get_cached_answer("q", &other), None);
}

#[test]
fn first_exact_match_wins() {
    let mut cache = QueryState::new();
    cache.insert_answer("q".into(), "h".into(), vec![], "first".into());
    cache.insert_answer("q".into(), "h".into(), vec![], "second".into());
    assert_eq!(cache.entries.len(), 2);
    assert_eq!(cache.get_cached_answer("q", "h"), Some("first".to_string()));
}

#[test]
fn similarity_above_threshold_hits() {
    let mut cache = QueryState::new();
    cache.insert_answer("q".into(), "h".into(), bits(&[1.0, 0.0]), "cached".into());
    let query = bits(&[0.95, 0.312]);
    let sims = vec![0.95f32.to_bits()];
    assert_eq!(cache.find_similar(&query, &sims, SIMILARITY_THRESHOLD_BITS), Some("cached".to_string()));
    let sims = vec![0.90f32.to_bits()];
    assert_eq!(cache.find_similar(&query, &sims, SIMILARITY_THRESHOLD_BITS), None);
    assert_eq!(SIMILARITY_THRESHOLD_BITS, 0.93f32.to_bits());
}

#[test]
fn similarity_skips_other_dimensions_and_prefers_most_similar() {
    let mut cache = QueryState::new();
    cache.insert_answer("a".into(), "h".into(), bits(&[1.0, 0.0, 0.0]), "wrong dim".into());
    cache.insert_answer("b".into(), "h".into(), bits(&[1.0, 0.0]), "good".into());
    cache.insert_answer("c".into(), "h".into(), bits(&[0.0, 1.0]), "better".into());
    cache.insert_answer("d".into(), "h".into(), bits(&[0.0, 1.0]), "equal later".into());
    let query = bits(&[0.5, 0.5]);
    let sims = bits(&[0.99, 0.94, 0.97, 0.97]);
    assert_eq!(cache.find_similar(&query, &sims, SIMILARITY_THRESHOLD_BITS), Some("equal later".to_string()));
    let sims = bits(&[0.99, 0.94, f32::NAN]);
    assert_eq!(cache.find_similar(&query, &sims, SIMILARITY_THRESHOLD_BITS), Some("good".to_string()));
    assert_eq!(QueryState::new().find_similar(&query, &vec![], SIMILARITY_THRESHOLD_BITS), None);
}

#[test]
fn float_comparison_on_bits() {
    assert!(similarity_exceeds(0.95f32.to_bits(), 0.93f32.to_bits()));
    assert!(!similarity_exceeds(0.93f32.to_bits(), 0.93f32.to_bits()));
    assert!(similarity_exceeds((-0.1f32).to_bits(), (-0.2f32).to_bits()));
    assert!(similarity_exceeds(0.0f32.to_bits(), (-1.0f32).to_bits()));
    assert!(!similarity_exceeds(0.0f32.to_bits(), (-0.0f32).to_bits()));
    assert!(!similarity_exceeds(f32::NAN.to_bits(), 0.0f32.to_bits()));
    assert!(similarity_exceeds(f32::INFINITY.to_bits(), f32::MAX.to_bits()));
}

fn session_with_turns(n: usize) -> SessionState {
    let mut m = SessionManager::new();
    m.create_session_with("s1".to_string(), 10);
    for i in 0..n {
        m.add_interaction_at(format!("q{}", i + 1), format!("r{}", i + 1), 20 + i as u64).unwrap();
    }
    m.get_active_session().unwrap().clone()
}

#[test]
fn eight_turns_window_to_last_five_with_one_note() {
    let s = session_with_turns(8);
    let msgs = history_messages(&s);
    assert_eq!(msgs.len(), 11);
    let notes: Vec<&ChatMessage> = msgs.iter().filter(|m| m.role == Role::System).collect();
    assert_eq!(notes.len(), 1);
    assert!(notes[0].content.contains("3"));
    assert_eq!(
        notes[0].content,
        "Note: This conversation has 3 previous messages that aren't shown here. I'm continuing from where we left off."
    );
    assert_eq!(msgs[1], ChatMessage { role: Role::User, content: "q4".into() });
    assert_eq!(msgs[2], ChatMessage { role: Role::Assistant, content: "r4".into() });
    assert_eq!(msgs[10], ChatMessage { role: Role::Assistant, content: "r8".into() });
}

#[test]
fn short_session_has_no_note() {
    let s = session_with_turns(5);
    let msgs = history_messages(&s);
    assert_eq!(msgs.len(), 10);
    assert!(msgs.iter().all(|m| m.role != Role::System));
    assert!(history_messages(&session_with_turns(0)).is_empty());
}

#[test]
fn chat_request_layout() {
    let s = session_with_turns(1);
    let chunks = vec!["c1".to_string(), "c2".to_string()];
    let msgs = build_chat_messages("why?", &chunks, Some(&s));
    assert_eq!(msgs.len(), 4);
    assert_eq!(msgs[0].role, Role::System);
    assert_eq!(msgs[0].content, "You are an expert personal and code assistant.");
    assert_eq!(msgs[3].role, Role::User);
    assert_eq!(
        msgs[3].content,
        "Use the following code snippets to answer the question. Format your response in Markdown and include code where necessary.\n\nQuestion:\nwhy?\n\nContext:\nc1\n\n---\n\nc2"
    );
    assert_eq!(build_chat_messages("q", &vec![], None).len(), 2);
    assert_eq!(Role::Assistant.name(), "assistant");
    assert_eq!(answer_or_notice(None), "No answer generated");
    assert_eq!(answer_or_notice(Some("x".into())), "x");
}

#[test]
fn session_errors() {
    let mut m = SessionManager::new();
    assert_eq!(m.add_interaction("q".into(), "r".into()), Err(SessionError::NoActiveSession));
    assert_eq!(m.set_active_session("nope"), Err(SessionError::NotFound("nope".into())));
    assert_eq!(SessionError::NotFound("nope".into()).message(), "Session not found: nope");
    assert_eq!(SessionError::NoActiveSession.message(), "No active session found");
    let id = m.create_session().unwrap();
    assert_eq!(id.len(), 36);
    let second = m.create_session().unwrap();
    assert_ne!(second, id);
    assert_eq!(m.sessions.len(), 2);
    assert_eq!(m.active_session, Some(second));
    assert!(m.set_active_session(&id).is_ok());
    assert_eq!(SessionError::NoFreshId.message(), "No unused session id could be drawn");
    assert!(m.add_interaction("q".into(), "r".into()).is_ok());
    let s = m.get_active_session().unwrap();
    assert_eq!(s.queries, vec!["q".to_string()]);
    assert_eq!(s.responses, vec!["r".to_string()]);
    assert!(s.last_updated >= s.created_at);
}

#[test]
fn session_switch_clear_and_list() {
    let mut m = SessionManager::new();
    m.create_session_with("a".into(), 1);
    m.create_session_with("b".into(), 2);
    assert_eq!(m.active_session, Some("b".to_string()));
    assert!(m.set_active_session("a").is_ok());
    assert_eq!(m.get_active_session().unwrap().id, "a");
    assert_eq!(m.list_sessions().len(), 2);
    assert_eq!(m.clear_active_session(), Some("a".to_string()));
    assert_eq!(m.active_session, None);
    assert_eq!(m.sessions.len(), 1);
    assert_eq!(m.clear_active_session(), None);
    assert!(m.is_well_formed());
    if let Some(s) = m.get_active_session_mut() {
        s.queries.push("x".into());
    }
    assert!(m.set_active_session("b").is_ok());
    m.get_active_session_mut().unwrap().created_at = 99;
    assert_eq!(m.get_active_session().unwrap().created_at, 99);
}

#[test]
fn session_selection_for_a_query() {
    let mut m = SessionManager::new();
    let mut fresh = SessionManager::new();
    match fresh.select_session(None) {
        Ok(SessionSelection::CreatedDefault(id)) => assert_eq!(fresh.active_session, Some(id)),
        other => panic!("unexpected {:?}", other),
    }
    assert_eq!(fresh.select_session(None), Ok(SessionSelection::Kept));
    assert_eq!(m.select_session_with(None, "d".into(), 1), Ok(SessionSelection::CreatedDefault("d".into())));
    assert_eq!(m.select_session_with(None, "x".into(), 2), Ok(SessionSelection::Kept));
    assert_eq!(m.select_session_with(Some("new"), "n".into(), 3), Ok(SessionSelection::Created("n".into())));
    assert_eq!(m.select_session_with(Some("d"), "y".into(), 4), Ok(SessionSelection::Switched("d".into())));
    assert_eq!(m.active_session, Some("d".to_string()));
    assert_eq!(m.select_session_with(Some("zz"), "y".into(), 5), Err(SessionError::NotFound("zz".into())));
    assert_eq!(m.sessions.len(), 2);
    assert!(m.record_cached_turn("q".into(), "a".into()));
    let s = m.get_active_session().unwrap();
    assert_eq!(s.queries.len(), 1);
    assert_eq!(s.last_updated, 1);
    assert!(!SessionManager::new().record_cached_turn("q".into(), "a".into()));
}
