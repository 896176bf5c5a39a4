use meeting_mind::session::{
    order_newest_first, ExportManager, GraphEdge, GraphNode, SessionData, SessionManager,
    TranscriptEntry, WebhookConfig, WebhookManager,
};

fn entry(ts: &str, speaker: &str, text: &str, tone: Option<&str>, cats: Option<&[&str]>, conf: u32) -> TranscriptEntry {
    TranscriptEntry {
        timestamp: ts.to_string(),
        speaker_id: speaker.to_string(),
        text: text.to_string(),
        tone: tone.map(|t| t.to_string()),
        category: cats.map(|c| c.iter().map(|s| s.to_string()).collect()),
        confidence: conf,
    }
}

fn session_with(entries: Vec<TranscriptEntry>) -> SessionData {
    let mut s = SessionData::new("Weekly sync".to_string());
    for e in entries {
        s.add_transcript(e);
    }
    s
}

#[test]
fn new_session_is_empty() {
    let s = SessionData::new("T".to_string());
    assert_eq!(s.id.len(), 36);
    assert_eq!(s.created_at, s.updated_at);
    assert!(s.transcripts.is_empty());
    assert_eq!(s.metadata.title, "T");
    assert!(s.summary.is_none());
}

#[test]
fn csv_rows_and_quote_doubling() {
    let s = session_with(vec![
        entry("2024-01-01T00:00:00Z", "S1", "He said \"hi\"", Some("URGENT"), Some(&["TASK", "RISK"]), 850),
        entry("2024-01-01T00:00:05Z", "S2", "ok", None, None, 1000),
        entry("2024-01-01T00:00:09Z", "S3", "x", None, Some(&[]), 5),
    ]);
    let csv = ExportManager::export_to_csv(&s).unwrap();
    assert_eq!(
        csv,
        "Timestamp,Speaker,Text,Tone,Categories,Confidence\n\
         \"2024-01-01T00:00:00Z\",\"S1\",\"He said \"\"hi\"\"\",\"URGENT\",\"TASK;RISK\",0.85\n\
         \"2024-01-01T00:00:05Z\",\"S2\",\"ok\",\"\",\"\",1\n\
         \"2024-01-01T00:00:09Z\",\"S3\",\"x\",\"\",\"\",0.005\n"
    );
    assert_eq!(csv.lines().count(), 4);
}

#[test]
fn csv_of_empty_session_is_header_only() {
    let s = SessionData::new("T".to_string());
    let csv = ExportManager::export_to_csv(&s).unwrap();
    assert_eq!(csv, "Timestamp,Speaker,Text,Tone,Categories,Confidence\n");
    assert_eq!(csv.lines().count(), 1);
}

#[test]
fn local_summary_buckets_and_caps() {
    let mut entries = Vec::new();
    for i in 0..7 {
        entries.push(entry("t", &format!("S{}", i), &format!("decision {}", i), None, Some(&["DECISION"]), 900));
    }
    entries.push(entry("t", "Ann", "do it", None, Some(&["TASK", "ACTION_ITEM"]), 900));
    entries.push(entry("t", "Bob", "danger", None, Some(&["RISK"]), 900));
    entries.push(entry("t", "Cy", "nothing", None, None, 900));
    let mut s = session_with(entries);
    s.add_graph_node(GraphNode { id: "n".to_string(), node_type: "entity".to_string(), metadata: Vec::new() });
    s.generate_local_summary();
    let sm = s.summary.as_ref().unwrap();
    assert_eq!(sm.executive_summary, "Meeting with 10 transcripts, 1 entities discussed.");
    assert_eq!(sm.key_decisions.len(), 5);
    assert_eq!(sm.key_decisions[0], "decision 0");
    assert_eq!(sm.key_decisions[4], "decision 4");
    assert_eq!(sm.action_items.len(), 2);
    assert_eq!(sm.action_items[0].description, "do it");
    assert_eq!(sm.action_items[0].assignee, Some("Ann".to_string()));
    assert_eq!(sm.action_items[0].priority, "MEDIUM");
    assert_eq!(sm.risks_identified, vec!["danger".to_string()]);
    assert_eq!(sm.next_steps, vec!["Review action items".to_string(), "Schedule follow-up".to_string()]);
}

#[test]
fn action_items_capped_at_ten() {
    let mut entries = Vec::new();
    for i in 0..12 {
        entries.push(entry("t", "S", &format!("task {}", i), None, Some(&["TASK"]), 900));
    }
    let mut s = session_with(entries);
    s.generate_local_summary();
    assert_eq!(s.summary.unwrap().action_items.len(), 10);
}

#[test]
fn markdown_export() {
    let mut s = session_with(vec![entry("t0", "S1", "hello", Some("NEUTRAL"), Some(&["TASK", "RISK"]), 900)]);
    s.id = "abc".to_string();
    s.created_at = "2024".to_string();
    s.metadata.duration_seconds = 42;
    let md = ExportManager::export_to_markdown(&s).unwrap();
    assert_eq!(
        md,
        "# Weekly sync\n\n**Session ID**: abc\n**Created**: 2024\n**Duration**: 42 seconds\n**Total Transcripts**: 1\n\n\
         ## Transcripts\n\n### t0 - S1\n**Tone**: NEUTRAL\n**Categories**: TASK, RISK\n\nhello\n\n\
         ## Knowledge Graph\n\n**Nodes**: 0\n**Edges**: 0\n\n"
    );
    s.generate_local_summary();
    let md = ExportManager::export_to_markdown(&s).unwrap();
    assert!(md.contains("## Executive Summary\n\nMeeting with 1 transcripts, 0 entities discussed.\n\n"));
    assert!(md.contains("### Action Items\n\n- [ ] hello (MEDIUM)\n\n"));
    assert!(md.contains("### Risks Identified\n\n- ⚠️ hello\n\n"));
    assert!(!md.contains("### Key Decisions"));
}

#[test]
fn graphml_export() {
    let mut s = SessionData::new("G".to_string());
    s.add_graph_node(GraphNode { id: "a".to_string(), node_type: "person".to_string(), metadata: Vec::new() });
    s.add_graph_edge(GraphEdge { from: "a".to_string(), to: "b".to_string(), relation: "knows".to_string(), weight: 1500 });
    let xml = ExportManager::export_to_graphml(&s).unwrap();
    assert!(xml.starts_with("<?xml version=\"1.0\" encoding=\"UTF-8\"?>\n<graphml"));
    assert!(xml.contains("    <node id=\"a\">\n      <data key=\"label\">a</data>\n      <data key=\"type\">person</data>\n    </node>\n"));
    assert!(xml.contains("    <edge id=\"e0\" source=\"a\" target=\"b\">\n      <data key=\"relation\">knows</data>\n      <data key=\"weight\">1.5</data>\n    </edge>\n"));
    assert!(xml.ends_with("  </graph>\n</graphml>"));
}

#[test]
fn entities_csv_export() {
    let mut s = SessionData::new("E".to_string());
    s.add_graph_node(GraphNode {
        id: "a".to_string(),
        node_type: "person".to_string(),
        metadata: vec![("role".to_string(), "lead".to_string()), ("team".to_string(), "x".to_string())],
    });
    s.add_graph_node(GraphNode { id: "b".to_string(), node_type: "topic".to_string(), metadata: Vec::new() });
    let csv = ExportManager::export_entities_csv(&s).unwrap();
    assert_eq!(
        csv,
        "EntityID,Type,Label,Metadata\n\"a\",\"person\",\"a\",\"role=lead;team=x\"\n\"b\",\"topic\",\"b\",\"\"\n"
    );
}

#[test]
fn sessions_listed_newest_first() {
    let mut a = SessionData::new("a".to_string());
    a.updated_at = "2024-01-02T00:00:00+00:00".to_string();
    let mut b = SessionData::new("b".to_string());
    b.updated_at = "2024-03-01T00:00:00+00:00".to_string();
    let mut c = SessionData::new("c".to_string());
    c.updated_at = "2024-02-01T00:00:00+00:00".to_string();
    let ordered = order_newest_first(vec![a, b, c]);
    let titles: Vec<String> = ordered.iter().map(|s| s.metadata.title.clone()).collect();
    assert_eq!(titles, vec!["b", "c", "a"]);
}

#[test]
fn session_paths() {
    let m = SessionManager::new("/data/sessions".to_string());
    assert_eq!(m.session_path("x1"), "/data/sessions/x1.json");
    assert_eq!(m.temp_path("x1"), "/data/sessions/x1.tmp");
}

#[test]
fn webhook_targets() {
    let mut w = WebhookManager::new();
    w.add_webhook(WebhookConfig {
        url: "http://a".to_string(),
        events: vec!["session_end".to_string(), "risk_detected".to_string()],
        headers: Vec::new(),
        enabled: true,
    });
    w.add_webhook(WebhookConfig {
        url: "http://b".to_string(),
        events: vec!["session_end".to_string()],
        headers: Vec::new(),
        enabled: false,
    });
    w.add_webhook(WebhookConfig {
        url: "http://c".to_string(),
        events: vec!["task_detected".to_string()],
        headers: Vec::new(),
        enabled: true,
    });
    assert_eq!(w.targets_for("session_end"), vec!["http://a".to_string()]);
    assert_eq!(w.targets_for("task_detected"), vec!["http://c".to_string()]);
    assert!(w.targets_for("other").is_empty());
}

#[test]
fn csv_doubles_quotes_in_every_field() {
    let s = session_with(vec![entry("t\"1", "Ann \"A\"", "x", Some("UR\"GENT"), Some(&["T\"A"]), 0)]);
    let csv = ExportManager::export_to_csv(&s).unwrap();
    assert_eq!(
        csv,
        "Timestamp,Speaker,Text,Tone,Categories,Confidence\n\"t\"\"1\",\"Ann \"\"A\"\"\",\"x\",\"UR\"\"GENT\",\"T\"\"A\",0\n"
    );
    assert_eq!(csv.lines().count(), 2);
}

#[test]
fn summary_keeps_other_fields() {
    let mut s = session_with(vec![entry("t", "S", "x", None, Some(&["RISK"]), 900)]);
    s.metadata.duration_seconds = 9;
    let created = s.created_at.clone();
    s.generate_local_summary();
    assert_eq!(s.created_at, created);
    assert_eq!(s.metadata.duration_seconds, 9);
    assert_eq!(s.metadata.total_transcripts, 1);
    assert!(s.insights.is_none());
}
