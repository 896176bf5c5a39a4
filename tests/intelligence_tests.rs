use meeting_mind::intelligence::{
    classify_lowered, detect_category_keywords, generate_optimistic, inject_manual_intelligence,
    process_intelligence, validate_category, validate_json_schema, validate_tone, GraphUpdate,
    Intelligence, IntelligenceOutput, KnowledgeGraph, ProcessingEngineState, ProcessingError,
    ResponseCache,
};

fn record(speaker: &str, categories: &[&str], tone: Option<&str>, confidence: u32) -> IntelligenceOutput {
    IntelligenceOutput {
        timestamp_ms: 1,
        speaker_id: speaker.to_string(),
        transcript_chunk: format!("said by {}", speaker),
        is_final: true,
        intelligence: Intelligence {
            category: categories.iter().map(|c| c.to_string()).collect(),
            summary: None,
            tone: tone.map(|t| t.to_string()),
            confidence,
            entities: None,
            graph_updates: None,
        },
    }
}

fn update(a: &str, b: &str) -> GraphUpdate {
    GraphUpdate {
        node_a: a.to_string(),
        relation: "owns".to_string(),
        node_b: b.to_string(),
        weight: None,
        directional: None,
        tone_modifier: None,
    }
}

#[test]
fn vocabulary_checks() {
    assert!(validate_category(&["TASK".to_string(), "TOPIC_DRIFT".to_string()]));
    assert!(validate_category(&[]));
    assert!(!validate_category(&["TASK".to_string(), "INFO".to_string()]));
    assert!(validate_tone(&None));
    assert!(validate_tone(&Some("NEUTRAL".to_string())));
    assert!(!validate_tone(&Some("CALM".to_string())));
}

#[test]
fn cache_evicts_oldest_at_capacity() {
    let mut cache = ResponseCache::new(3);
    for i in 0..4 {
        cache.add(record(&format!("S{}", i), &["TASK"], None, 900));
        assert!(cache.len() <= 3);
    }
    let recent = cache.get_recent(10);
    let speakers: Vec<String> = recent.iter().map(|r| r.speaker_id.clone()).collect();
    assert_eq!(speakers, vec!["S3", "S2", "S1"]);
    assert!(!speakers.contains(&"S0".to_string()));
    assert_eq!(cache.get_recent(1).len(), 1);
    cache.clear();
    assert!(cache.get_recent(5).is_empty());
}

#[test]
fn cache_of_capacity_zero_keeps_nothing() {
    let mut cache = ResponseCache::new(0);
    cache.add(record("S", &["TASK"], None, 900));
    assert_eq!(cache.len(), 0);
}

#[test]
fn confirm_all_promotes_pending_node() {
    let mut g = KnowledgeGraph::new();
    g.add_node("N1".to_string(), "TASK".to_string(), "pending".to_string(), true);
    g.add_node("N0".to_string(), "entity".to_string(), "kept".to_string(), false);
    g.confirm_all_optimistic();
    let (nodes, _) = g.get_graph_data();
    assert_eq!(nodes.len(), 2);
    assert!(nodes.iter().all(|n| !n.is_optimistic));
    assert!(nodes.iter().any(|n| n.id == "N1"));
}

#[test]
fn rollback_removes_pending_node() {
    let mut g = KnowledgeGraph::new();
    g.add_node("N1".to_string(), "TASK".to_string(), "pending".to_string(), true);
    g.add_node("N0".to_string(), "entity".to_string(), "kept".to_string(), false);
    g.add_edge(update("X", "Y"), true);
    g.rollback_optimistic();
    let (nodes, edges) = g.get_graph_data();
    assert_eq!(nodes.len(), 1);
    assert_eq!(nodes[0].id, "N0");
    assert!(edges.is_empty());
}

#[test]
fn add_node_replaces_same_id_and_edges_write_endpoints() {
    let mut g = KnowledgeGraph::new();
    g.add_node("A".to_string(), "t1".to_string(), "first".to_string(), true);
    g.add_node("A".to_string(), "t2".to_string(), "second".to_string(), false);
    g.add_edge(update("A", "B"), false);
    let (nodes, edges) = g.get_graph_data();
    assert_eq!(nodes.len(), 2);
    assert_eq!(nodes[0].node_type, "entity");
    assert_eq!(nodes[1].id, "B");
    assert_eq!(edges.len(), 1);
    assert_eq!(edges[0].id, "edge_A_B");
    assert_eq!(edges[0].weight, 1000);
    assert!(edges[0].directional);
    g.confirm_node("A");
    g.clear();
    assert_eq!(g.get_graph_data().0.len(), 0);
}

#[test]
fn confirmed_record_closes_speculative_window() {
    let mut state = ProcessingEngineState::new();
    let p = generate_optimistic(&mut state, "We should ship today").expect("enabled");
    assert_eq!(p.predicted_category, Some("TASK".to_string()));
    assert_eq!(state.graph.get_graph_data().0.len(), 1);
    assert!(state.graph.get_graph_data().0[0].is_optimistic);
    let mut rec = record("S1", &["TASK"], Some("URGENT"), 900);
    rec.intelligence.graph_updates = Some(vec![update("Alice", "Report")]);
    let out = process_intelligence(&mut state, Ok(rec)).unwrap().expect("accepted");
    assert_eq!(out.speaker_id, "S1");
    let (nodes, edges) = state.graph.get_graph_data();
    assert_eq!(nodes.len(), 3);
    assert!(nodes.iter().all(|n| !n.is_optimistic));
    assert_eq!(edges.len(), 1);
    assert_eq!(state.cache.get_recent(5).len(), 1);
}

#[test]
fn error_streak_exceeds_after_max_failures() {
    let mut state = ProcessingEngineState::new();
    for i in 1..=5u32 {
        match process_intelligence(&mut state, Err(format!("bad {}", i))) {
            Err(ProcessingError::ParseError(m)) => assert_eq!(m, format!("bad {}", i)),
            other => panic!("unexpected {:?}", other.err()),
        }
        assert_eq!(state.error_streak, i);
    }
    match process_intelligence(&mut state, Err("bad".to_string())) {
        Err(ProcessingError::ErrorStreakExceeded(n)) => assert_eq!(n, 6),
        other => panic!("unexpected {:?}", other.err()),
    }
}

#[test]
fn success_resets_error_streak() {
    let mut state = ProcessingEngineState::new();
    for _ in 0..4 {
        let _ = process_intelligence(&mut state, Err("bad".to_string()));
    }
    assert_eq!(state.error_streak, 4);
    let _ = process_intelligence(&mut state, Ok(record("S", &["TASK"], None, 900)));
    assert_eq!(state.error_streak, 0);
    for _ in 0..5 {
        assert!(matches!(
            process_intelligence(&mut state, Err("bad".to_string())),
            Err(ProcessingError::ParseError(_))
        ));
    }
}

#[test]
fn vocabulary_errors_are_distinct_and_not_cached() {
    let mut state = ProcessingEngineState::new();
    assert!(matches!(
        process_intelligence(&mut state, Ok(record("S", &["INFO"], None, 900))),
        Err(ProcessingError::InvalidCategory)
    ));
    assert!(matches!(
        process_intelligence(&mut state, Ok(record("S", &["TASK"], Some("CALM"), 900))),
        Err(ProcessingError::InvalidTone)
    ));
    assert_eq!(state.cache.len(), 0);
    assert_eq!(state.error_streak, 0);
}

#[test]
fn low_confidence_and_filtered_records_are_suppressed() {
    let mut state = ProcessingEngineState::new();
    assert!(matches!(process_intelligence(&mut state, Ok(record("S", &["TASK"], None, 499))), Ok(None)));
    state.settings.categories_filter = vec!["RISK".to_string()];
    assert!(matches!(process_intelligence(&mut state, Ok(record("S", &["TASK"], None, 900))), Ok(None)));
    assert!(matches!(process_intelligence(&mut state, Ok(record("S", &["RISK"], None, 900))), Ok(Some(_))));
    state.settings.categories_filter = Vec::new();
    assert!(matches!(process_intelligence(&mut state, Ok(record("S", &["QUERY"], None, 500))), Ok(Some(_))));
    assert_eq!(state.cache.len(), 2);
}

#[test]
fn keyword_classification() {
    assert_eq!(detect_category_keywords("We MUST finish"), Some("TASK".to_string()));
    assert_eq!(detect_category_keywords("We Decided on blue"), Some("DECISION".to_string()));
    assert_eq!(detect_category_keywords("Kal Tak chahiye"), Some("DEADLINE".to_string()));
    assert_eq!(detect_category_keywords("there is an ISSUE"), Some("RISK".to_string()));
    assert_eq!(detect_category_keywords("ASAP please"), Some("URGENCY".to_string()));
    assert_eq!(detect_category_keywords("hello there"), None);
    assert_eq!(classify_lowered("TODO"), None);
    assert_eq!(classify_lowered("todo"), Some("TASK".to_string()));
}

#[test]
fn optimistic_disabled_makes_nothing() {
    let mut state = ProcessingEngineState::new();
    state.settings.enable_optimistic = false;
    assert!(generate_optimistic(&mut state, "we must").is_none());
    assert!(state.optimistic_buffer.is_empty());
}

#[test]
fn optimistic_node_label_is_first_thirty_chars() {
    let mut state = ProcessingEngineState::new();
    let text = "this is a problem that goes on for quite a while";
    let p = generate_optimistic(&mut state, text).unwrap();
    assert_eq!(p.confidence, 300);
    assert!(p.id.starts_with("opt_"));
    let (nodes, _) = state.graph.get_graph_data();
    assert_eq!(nodes[0].label, text.chars().take(30).collect::<String>());
    assert_eq!(nodes[0].node_type, "RISK");
    assert_eq!(nodes[0].id, format!("opt_node_{}", p.timestamp_ms));
    assert_eq!(state.optimistic_buffer.len(), 1);
}

#[test]
fn schema_validation_results() {
    assert_eq!(validate_json_schema(Ok(record("S", &["TASK"], None, 1))), Ok(true));
    assert_eq!(validate_json_schema(Ok(record("S", &["X"], None, 1))), Err("Invalid category".to_string()));
    assert_eq!(validate_json_schema(Ok(record("S", &["TASK"], Some("X"), 1))), Err("Invalid tone".to_string()));
    assert_eq!(validate_json_schema(Err("broken".to_string())), Err("broken".to_string()));
}

#[test]
fn manual_record_fields() {
    let r = inject_manual_intelligence("note".to_string(), "RISK".to_string(), 750);
    assert_eq!(r.speaker_id, "MANUAL");
    assert!(r.is_final);
    assert_eq!(r.intelligence.category, vec!["RISK".to_string()]);
    assert_eq!(r.intelligence.tone, Some("NEUTRAL".to_string()));
    assert_eq!(r.intelligence.summary, Some("Manually injected".to_string()));
    assert_eq!(r.intelligence.confidence, 750);
}

#[test]
fn no_keyword_makes_no_prediction() {
    let mut state = ProcessingEngineState::new();
    assert!(generate_optimistic(&mut state, "hello there").is_none());
    assert!(state.optimistic_buffer.is_empty());
    assert_eq!(state.graph.get_graph_data().0.len(), 0);
}

#[test]
fn confirmed_node_is_never_made_optimistic_again() {
    let mut g = KnowledgeGraph::new();
    g.add_node("A".to_string(), "entity".to_string(), "A".to_string(), false);
    g.add_node("A".to_string(), "TASK".to_string(), "again".to_string(), true);
    g.add_edge(update("A", "B"), true);
    let (nodes, _) = g.get_graph_data();
    assert!(!nodes[0].is_optimistic);
    assert!(nodes[1].is_optimistic);
    g.rollback_optimistic();
    let (nodes, edges) = g.get_graph_data();
    assert_eq!(nodes.len(), 1);
    assert_eq!(nodes[0].id, "A");
    assert!(edges.is_empty());
}
