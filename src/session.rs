//! The session store's logic: the session aggregate, the local summary,
//! file naming, and the CSV / Markdown / GraphML / entity-CSV exports.
//!
//! Confidences and weights are integer thousandths.

use vstd::prelude::*;
use crate::audio::str_eq;
use crate::text::{
    decimal, double_quotes, joined, push_decimal, push_joined, push_quote_doubled, push_str,
    push_thousandths, thousandths_text,
};

verus! {

/// Derived indicators of a session (thousandths).
pub struct PsychosomaticState {
    pub stress: u32,
    pub engagement: u32,
    pub urgency: u32,
    pub clarity: u32,
}

/// Insights extracted from a session.
pub struct ExtractedInsights {
    pub topics: Vec<String>,
    pub decisions: Vec<String>,
    pub action_items: Vec<String>,
    pub key_points: Vec<String>,
}

/// One transcript line of a session.
pub struct TranscriptEntry {
    pub timestamp: String,
    pub speaker_id: String,
    pub text: String,
    pub tone: Option<String>,
    pub category: Option<Vec<String>>,
    pub confidence: u32,
}

/// A node of the stored graph snapshot.
pub struct GraphNode {
    pub id: String,
    pub node_type: String,
    pub metadata: Vec<(String, String)>,
}

/// An edge of the stored graph snapshot; weight in thousandths.
pub struct GraphEdge {
    pub from: String,
    pub to: String,
    pub relation: String,
    pub weight: u32,
}

/// Descriptive data of a session.
pub struct SessionMetadata {
    pub title: String,
    pub duration_seconds: u64,
    pub total_transcripts: usize,
    pub total_speakers: usize,
    pub tags: Vec<String>,
}

/// A follow-up task found in a session.
pub struct ActionItem {
    pub description: String,
    pub assignee: Option<String>,
    pub deadline: Option<String>,
    pub priority: String,
}

/// A locally generated session summary.
pub struct SessionSummary {
    pub executive_summary: String,
    pub key_decisions: Vec<String>,
    pub action_items: Vec<ActionItem>,
    pub risks_identified: Vec<String>,
    pub next_steps: Vec<String>,
    pub generated_at: String,
}

/// The session aggregate.
pub struct SessionData {
    pub id: String,
    pub created_at: String,
    pub updated_at: String,
    pub transcripts: Vec<TranscriptEntry>,
    pub graph_nodes: Vec<GraphNode>,
    pub graph_edges: Vec<GraphEdge>,
    pub metadata: SessionMetadata,
    pub summary: Option<SessionSummary>,
    pub psychosomatic: Option<PsychosomaticState>,
    pub insights: Option<ExtractedInsights>,
}

/// Relies on `uuid::Uuid::new_v4` and its `Display`: a random identifier
/// in the hyphenated form, 36 characters.
#[verifier::external_body]
fn new_session_id() -> (r: String)
    ensures
        r@.len() == 36,
{
    uuid::Uuid::new_v4().to_string()
}

/// Relies on `chrono::Utc::now` and `DateTime::to_rfc3339`: the current
/// time as an RFC 3339 string. Nothing is known of the value.
#[verifier::external_body]
fn now_rfc3339() -> (r: String) {
    chrono::Utc::now().to_rfc3339()
}

impl SessionData {
    /// A new, empty session with a fresh identifier, created now.
    pub fn new(title: String) -> (r: SessionData)
        ensures
            r.id@.len() == 36,
            r.created_at == r.updated_at,
            r.transcripts@.len() == 0,
            r.graph_nodes@.len() == 0,
            r.graph_edges@.len() == 0,
            r.metadata.title == title,
            r.metadata.duration_seconds == 0,
            r.metadata.total_transcripts == 0,
            r.metadata.total_speakers == 0,
            r.metadata.tags@.len() == 0,
            r.summary.is_none(),
            r.psychosomatic.is_none(),
            r.insights.is_none(),
    {
        let now = now_rfc3339();
        SessionData {
            id: new_session_id(),
            created_at: now.clone(),
            updated_at: now,
            transcripts: Vec::new(),
            graph_nodes: Vec::new(),
            graph_edges: Vec::new(),
            metadata: SessionMetadata {
                title,
                duration_seconds: 0,
                total_transcripts: 0,
                total_speakers: 0,
                tags: Vec::new(),
            },
            summary: None,
            psychosomatic: None,
            insights: None,
        }
    }

    /// Appends a transcript entry, updates the count and the update time.
    pub fn add_transcript(&mut self, entry: TranscriptEntry)
        ensures
            final(self).transcripts@ == old(self).transcripts@.push(entry),
            final(self).metadata.total_transcripts == final(self).transcripts@.len(),
            final(self).metadata.title == old(self).metadata.title,
            final(self).id == old(self).id,
            final(self).graph_nodes@ == old(self).graph_nodes@,
            final(self).graph_edges@ == old(self).graph_edges@,
    {
        self.transcripts.push(entry);
        self.metadata.total_transcripts = self.transcripts.len();
        self.updated_at = now_rfc3339();
    }

    /// Appends a graph node and updates the update time.
    pub fn add_graph_node(&mut self, node: GraphNode)
        ensures
            final(self).graph_nodes@ == old(self).graph_nodes@.push(node),
            final(self).transcripts@ == old(self).transcripts@,
            final(self).graph_edges@ == old(self).graph_edges@,
            final(self).id == old(self).id,
    {
        self.graph_nodes.push(node);
        self.updated_at = now_rfc3339();
    }

    /// Appends a graph edge and updates the update time.
    pub fn add_graph_edge(&mut self, edge: GraphEdge)
        ensures
            final(self).graph_edges@ == old(self).graph_edges@.push(edge),
            final(self).transcripts@ == old(self).transcripts@,
            final(self).graph_nodes@ == old(self).graph_nodes@,
            final(self).id == old(self).id,
    {
        self.graph_edges.push(edge);
        self.updated_at = now_rfc3339();
    }
}

/// Where sessions are stored: one `<id>.json` document per session in a
/// directory, written first to `<id>.tmp` and then renamed over it.
pub struct SessionManager {
    pub sessions_dir: String,
}

impl SessionManager {
    /// A store rooted at `sessions_dir`.
    pub fn new(sessions_dir: String) -> (r: SessionManager)
        ensures
            r.sessions_dir == sessions_dir,
    {
        SessionManager { sessions_dir }
    }

    /// Path of the committed document of a session.
    pub fn session_path(&self, session_id: &str) -> (r: String)
        ensures
            r@ == self.sessions_dir@ + "/"@ + session_id@ + ".json"@,
    {
        let mut p = String::new();
        push_str(&mut p, self.sessions_dir.as_str());
        push_str(&mut p, "/");
        push_str(&mut p, session_id);
        push_str(&mut p, ".json");
        assert(p@ =~= self.sessions_dir@ + "/"@ + session_id@ + ".json"@);
        p
    }

    /// Path a session's document is written to before the atomic rename.
    pub fn temp_path(&self, session_id: &str) -> (r: String)
        ensures
            r@ == self.sessions_dir@ + "/"@ + session_id@ + ".tmp"@,
    {
        let mut p = String::new();
        push_str(&mut p, self.sessions_dir.as_str());
        push_str(&mut p, "/");
        push_str(&mut p, session_id);
        push_str(&mut p, ".tmp");
        assert(p@ =~= self.sessions_dir@ + "/"@ + session_id@ + ".tmp"@);
        p
    }
}

/// A webhook subscription.
pub struct WebhookConfig {
    pub url: String,
    pub events: Vec<String>,
    pub headers: Vec<(String, String)>,
    pub enabled: bool,
}

/// The webhook subscriptions.
pub struct WebhookManager {
    configs: Vec<WebhookConfig>,
}

/// The subscription is enabled and lists `event`.
pub open spec fn subscribed(c: WebhookConfig, event: Seq<char>) -> bool {
    c.enabled && exists|i: int| 0 <= i < c.events@.len() && (#[trigger] c.events@[i])@ == event
}

fn lists_event(events: &Vec<String>, event: &str) -> (r: bool)
    ensures
        r == exists|i: int| 0 <= i < events@.len() && (#[trigger] events@[i])@ == event@,
{
    let mut j: usize = 0;
    while j < events.len()
        invariant
            j <= events@.len(),
            forall|k: int| 0 <= k < j ==> (#[trigger] events@[k])@ != event@,
        decreases events@.len() - j,
    {
        if str_eq(events[j].as_str(), event) {
            return true;
        }
        j += 1;
    }
    false
}

impl WebhookManager {
    /// The subscriptions, in the order they were added.
    pub closed spec fn config_seq(&self) -> Seq<WebhookConfig> {
        self.configs@
    }

    /// No subscriptions.
    pub fn new() -> (r: WebhookManager)
        ensures
            r.config_seq().len() == 0,
    {
        WebhookManager { configs: Vec::new() }
    }

    /// Adds a subscription.
    pub fn add_webhook(&mut self, config: WebhookConfig)
        ensures
            final(self).config_seq() == old(self).config_seq().push(config),
    {
        self.configs.push(config);
    }

    /// The URLs to notify of `event`: those of the enabled subscriptions
    /// that list it, in order.
    pub fn targets_for(&self, event: &str) -> (r: Vec<String>)
        ensures
            r@.map_values(|u: String| u@) == self.config_seq().filter(|c: WebhookConfig| subscribed(c, event@)).map_values(
                |c: WebhookConfig| c.url@,
            ),
    {
        let ghost cs = self.configs@;
        let mut out: Vec<String> = Vec::new();
        let mut i: usize = 0;
        while i < self.configs.len()
            invariant
                cs == self.configs@,
                i <= cs.len(),
                out@.map_values(|u: String| u@) == cs.subrange(0, i as int).filter(|c: WebhookConfig| subscribed(c, event@)).map_values(
                    |c: WebhookConfig| c.url@,
                ),
            decreases cs.len() - i,
        {
            let c = &self.configs[i];
            let listed = lists_event(&c.events, event);
            proof {
                reveal(Seq::filter);
                assert(cs.subrange(0, i + 1).drop_last() == cs.subrange(0, i as int));
            }
            let ghost pre = cs.subrange(0, i as int).filter(|c: WebhookConfig| subscribed(c, event@));
            let ghost prev = out@;
            assert(subscribed(*c, event@) == (c.enabled && listed));
            if c.enabled && listed {
                out.push(c.url.clone());
                assert(cs.subrange(0, i + 1).filter(|c: WebhookConfig| subscribed(c, event@)) == pre.push(*c));
                assert(pre.push(*c).map_values(|c: WebhookConfig| c.url@) =~= pre.map_values(|c: WebhookConfig| c.url@).push(c.url@));
                assert(out@.map_values(|u: String| u@) =~= prev.map_values(|u: String| u@).push(c.url@));
            } else {
                assert(cs.subrange(0, i + 1).filter(|c: WebhookConfig| subscribed(c, event@)) == pre);
            }
            assert(out@.map_values(|u: String| u@) =~= cs.subrange(0, i + 1).filter(|c: WebhookConfig| subscribed(c, event@)).map_values(
                |c: WebhookConfig| c.url@,
            ));
            i += 1;
        }
        assert(cs.subrange(0, cs.len() as int) == cs);
        out
    }
}

/// The summary buckets transcript categories fall into.
#[derive(Clone, Copy, PartialEq, Eq, Debug, Structural)]
pub enum Bucket {
    Decision,
    Task,
    Risk,
}

/// Category `c` belongs to bucket `b`: `DECISION`; `TASK` or `ACTION_ITEM`; `RISK`.
pub open spec fn in_bucket(c: Seq<char>, b: Bucket) -> bool {
    match b {
        Bucket::Decision => c == "DECISION"@,
        Bucket::Task => c == "TASK"@ || c == "ACTION_ITEM"@,
        Bucket::Risk => c == "RISK"@,
    }
}

/// One (text, speaker) entry for each category of `cats` in bucket `b`.
pub open spec fn hits(cats: Seq<String>, text: Seq<char>, speaker: Seq<char>, b: Bucket) -> Seq<(Seq<char>, Seq<char>)>
    decreases cats.len(),
{
    if cats.len() == 0 {
        Seq::empty()
    } else {
        hits(cats.drop_last(), text, speaker, b) + if in_bucket(cats.last()@, b) {
            seq![(text, speaker)]
        } else {
            Seq::empty()
        }
    }
}

/// The (text, speaker) entries of bucket `b` over the transcripts, in order.
pub open spec fn bucket(ts: Seq<TranscriptEntry>, b: Bucket) -> Seq<(Seq<char>, Seq<char>)>
    decreases ts.len(),
{
    if ts.len() == 0 {
        Seq::empty()
    } else {
        bucket(ts.drop_last(), b) + match ts.last().category {
            Some(c) => hits(c@, ts.last().text@, ts.last().speaker_id@, b),
            None => Seq::empty(),
        }
    }
}

/// At most the first `n` elements.
pub open spec fn take<T>(s: Seq<T>, n: nat) -> Seq<T> {
    if s.len() <= n { s } else { s.subrange(0, n as int) }
}

proof fn lemma_take_append<T>(a: Seq<T>, x: Seq<T>, n: nat)
    requires
        x.len() <= 1,
    ensures
        take(a + x, n) == if a.len() < n { take(a, n) + x } else { take(a, n) },
{
    if a.len() < n {
        assert(take(a + x, n) =~= a + x);
    } else {
        assert(take(a + x, n) =~= take(a, n));
    }
}

/// Views of (text, speaker) pairs.
pub open spec fn pair_views(v: Seq<(String, String)>) -> Seq<(Seq<char>, Seq<char>)> {
    v.map_values(|p: (String, String)| (p.0@, p.1@))
}

fn is_in_bucket(c: &str, b: Bucket) -> (r: bool)
    ensures
        r == in_bucket(c@, b),
{
    match b {
        Bucket::Decision => str_eq(c, "DECISION"),
        Bucket::Task => str_eq(c, "TASK") || str_eq(c, "ACTION_ITEM"),
        Bucket::Risk => str_eq(c, "RISK"),
    }
}

/// The first `cap` entries of bucket `b`, as (text, speaker).
pub fn collect_bucket(ts: &Vec<TranscriptEntry>, b: Bucket, cap: usize) -> (r: Vec<(String, String)>)
    ensures
        pair_views(r@) == take(bucket(ts@, b), cap as nat),
{
    let mut out: Vec<(String, String)> = Vec::new();
    let mut i: usize = 0;
    while i < ts.len()
        invariant
            i <= ts@.len(),
            pair_views(out@) == take(bucket(ts@.subrange(0, i as int), b), cap as nat),
        decreases ts@.len() - i,
    {
        let t = &ts[i];
        assert(ts@.subrange(0, i + 1).drop_last() == ts@.subrange(0, i as int));
        let ghost base = bucket(ts@.subrange(0, i as int), b);
        match &t.category {
            Some(cats) => {
                let mut j: usize = 0;
                while j < cats.len()
                    invariant
                        j <= cats@.len(),
                        pair_views(out@) == take(base + hits(cats@.subrange(0, j as int), t.text@, t.speaker_id@, b), cap as nat),
                    decreases cats@.len() - j,
                {
                    let ghost before = base + hits(cats@.subrange(0, j as int), t.text@, t.speaker_id@, b);
                    assert(cats@.subrange(0, j + 1).drop_last() == cats@.subrange(0, j as int));
                    let hit = is_in_bucket(cats[j].as_str(), b);
                    let ghost x: Seq<(Seq<char>, Seq<char>)> = if hit { seq![(t.text@, t.speaker_id@)] } else { Seq::empty() };
                    assert(base + hits(cats@.subrange(0, j + 1), t.text@, t.speaker_id@, b) =~= before + x);
                    proof {
                        lemma_take_append(before, x, cap as nat);
                    }
                    if hit && out.len() < cap {
                        let ghost prev = out@;
                        out.push((t.text.clone(), t.speaker_id.clone()));
                        assert(pair_views(out@) =~= pair_views(prev) + x);
                    }
                    j += 1;
                }
                assert(cats@.subrange(0, cats@.len() as int) == cats@);
            },
            None => {
                assert(bucket(ts@.subrange(0, i + 1), b) =~= base);
            },
        }
        i += 1;
    }
    assert(ts@.subrange(0, ts@.len() as int) == ts@);
    out
}

/// The one-line executive summary.
pub open spec fn executive_line(transcripts: nat, entities: nat) -> Seq<char> {
    "Meeting with "@ + decimal(transcripts) + " transcripts, "@ + decimal(entities) + " entities discussed."@
}

impl SessionData {
    /// Builds the local summary: up to 5 decisions, 10 action items (from
    /// tasks and action items, assigned to their speaker, priority
    /// `MEDIUM`) and 5 risks, in transcript order; a templated executive
    /// line; two fixed next steps.
    pub fn generate_local_summary(&mut self)
        ensures
            final(self).transcripts@ == old(self).transcripts@,
            final(self).graph_nodes@ == old(self).graph_nodes@,
            final(self).graph_edges@ == old(self).graph_edges@,
            final(self).id == old(self).id,
            final(self).updated_at == old(self).updated_at,
            final(self).created_at == old(self).created_at,
            final(self).metadata == old(self).metadata,
            final(self).psychosomatic == old(self).psychosomatic,
            final(self).insights == old(self).insights,
            match final(self).summary {
                None => false,
                Some(sm) => {
                    &&& sm.executive_summary@ == executive_line(
                        old(self).transcripts@.len(),
                        old(self).graph_nodes@.len(),
                    )
                    &&& sm.key_decisions@.map_values(|x: String| x@) == take(bucket(old(self).transcripts@, Bucket::Decision), 5).map_values(
                        |p: (Seq<char>, Seq<char>)| p.0,
                    )
                    &&& sm.risks_identified@.map_values(|x: String| x@) == take(bucket(old(self).transcripts@, Bucket::Risk), 5).map_values(
                        |p: (Seq<char>, Seq<char>)| p.0,
                    )
                    &&& sm.action_items@.len() == take(bucket(old(self).transcripts@, Bucket::Task), 10).len()
                    &&& forall|k: int| 0 <= k < sm.action_items@.len() ==> {
                        let a = #[trigger] sm.action_items@[k];
                        let p = take(bucket(old(self).transcripts@, Bucket::Task), 10)[k];
                        &&& a.description@ == p.0
                        &&& opt_view(a.assignee) == Some(p.1)
                        &&& a.deadline.is_none()
                        &&& a.priority@ == "MEDIUM"@
                    }
                    &&& sm.next_steps@.map_values(|x: String| x@) == seq!["Review action items"@, "Schedule follow-up"@]
                },
            },
    {
        let decisions = collect_bucket(&self.transcripts, Bucket::Decision, 5);
        let tasks = collect_bucket(&self.transcripts, Bucket::Task, 10);
        let risks = collect_bucket(&self.transcripts, Bucket::Risk, 5);
        let key_decisions = first_of_pairs(&decisions);
        let risks_identified = first_of_pairs(&risks);
        let mut action_items: Vec<ActionItem> = Vec::new();
        let mut k: usize = 0;
        while k < tasks.len()
            invariant
                k <= tasks@.len(),
                action_items@.len() == k,
                forall|q: int| 0 <= q < k ==> {
                    let a = #[trigger] action_items@[q];
                    &&& a.description@ == tasks@[q].0@
                    &&& opt_view(a.assignee) == Some(tasks@[q].1@)
                    &&& a.deadline.is_none()
                    &&& a.priority@ == "MEDIUM"@
                },
            decreases tasks@.len() - k,
        {
            action_items.push(ActionItem {
                description: tasks[k].0.clone(),
                assignee: Some(tasks[k].1.clone()),
                deadline: None,
                priority: String::from_str("MEDIUM"),
            });
            k += 1;
        }
        assert forall|q: int| 0 <= q < tasks@.len() implies pair_views(tasks@)[q] == (tasks@[q].0@, tasks@[q].1@) by {}
        let mut line = String::new();
        push_str(&mut line, "Meeting with ");
        push_decimal(&mut line, self.transcripts.len() as u64);
        push_str(&mut line, " transcripts, ");
        push_decimal(&mut line, self.graph_nodes.len() as u64);
        push_str(&mut line, " entities discussed.");
        assert(line@ =~= executive_line(self.transcripts@.len(), self.graph_nodes@.len()));
        let mut next_steps: Vec<String> = Vec::new();
        next_steps.push(String::from_str("Review action items"));
        next_steps.push(String::from_str("Schedule follow-up"));
        assert(next_steps@.map_values(|x: String| x@) =~= seq!["Review action items"@, "Schedule follow-up"@]);
        proof {
            assert(key_decisions@.map_values(|x: String| x@) =~= pair_views(decisions@).map_values(|p: (Seq<char>, Seq<char>)| p.0));
            assert(risks_identified@.map_values(|x: String| x@) =~= pair_views(risks@).map_values(|p: (Seq<char>, Seq<char>)| p.0));
        }
        self.summary = Some(SessionSummary {
            executive_summary: line,
            key_decisions,
            action_items,
            risks_identified,
            next_steps,
            generated_at: now_rfc3339(),
        });
    }
}

/// The view of an optional string.
pub open spec fn opt_view(o: Option<String>) -> Option<Seq<char>> {
    match o {
        Some(s) => Some(s@),
        None => None,
    }
}

fn first_of_pairs(v: &Vec<(String, String)>) -> (r: Vec<String>)
    ensures
        r@.len() == v@.len(),
        forall|k: int| 0 <= k < v@.len() ==> (#[trigger] r@[k]) == v@[k].0,
{
    let mut out: Vec<String> = Vec::new();
    let mut k: usize = 0;
    while k < v.len()
        invariant
            k <= v@.len(),
            out@.len() == k,
            forall|q: int| 0 <= q < k ==> (#[trigger] out@[q]) == v@[q].0,
        decreases v@.len() - k,
    {
        out.push(v[k].0.clone());
        k += 1;
    }
    out
}

/// The tone, or nothing.
pub open spec fn tone_text(t: Option<String>) -> Seq<char> {
    match t {
        Some(x) => x@,
        None => Seq::empty(),
    }
}

/// The categories joined with `sep`, or nothing.
pub open spec fn categories_text(c: Option<Vec<String>>, sep: Seq<char>) -> Seq<char> {
    match c {
        Some(v) => joined(v@.map_values(|x: String| x@), sep),
        None => Seq::empty(),
    }
}

/// The CSV header line.
pub open spec fn csv_header() -> Seq<char> {
    "Timestamp,Speaker,Text,Tone,Categories,Confidence\n"@
}

/// One CSV row: quoted fields (quotes inside them doubled), then the
/// confidence as a decimal fraction.
pub open spec fn csv_row(t: TranscriptEntry) -> Seq<char> {
    "\""@ + double_quotes(t.timestamp@) + "\",\""@ + double_quotes(t.speaker_id@) + "\",\""@
        + double_quotes(t.text@) + "\",\""@ + double_quotes(tone_text(t.tone)) + "\",\""@
        + double_quotes(categories_text(t.category, ";"@)) + "\","@ + thousandths_text(t.confidence as nat)
        + "\n"@
}

/// The rows of a transcript list.
pub open spec fn csv_rows(ts: Seq<TranscriptEntry>) -> Seq<char>
    decreases ts.len(),
{
    if ts.len() == 0 {
        Seq::empty()
    } else {
        csv_rows(ts.drop_last()) + csv_row(ts.last())
    }
}

fn push_opt(s: &mut String, o: &Option<String>)
    ensures
        final(s)@ == old(s)@ + tone_text(*o),
{
    match o {
        Some(x) => push_str(s, x.as_str()),
        None => {
            assert(old(s)@ + Seq::<char>::empty() =~= old(s)@);
        },
    }
}

fn push_categories(s: &mut String, c: &Option<Vec<String>>, sep: &str)
    ensures
        final(s)@ == old(s)@ + categories_text(*c, sep@),
{
    match c {
        Some(v) => push_joined(s, v, sep),
        None => {
            assert(old(s)@ + Seq::<char>::empty() =~= old(s)@);
        },
    }
}

fn push_csv_row(csv: &mut String, t: &TranscriptEntry)
    ensures
        final(csv)@ == old(csv)@ + csv_row(*t),
{
    let mut tone = String::new();
    push_opt(&mut tone, &t.tone);
    assert(tone@ =~= tone_text(t.tone));
    let mut cats = String::new();
    push_categories(&mut cats, &t.category, ";");
    assert(cats@ =~= categories_text(t.category, ";"@));
    push_str(csv, "\"");
    push_quote_doubled(csv, t.timestamp.as_str());
    push_str(csv, "\",\"");
    push_quote_doubled(csv, t.speaker_id.as_str());
    push_str(csv, "\",\"");
    push_quote_doubled(csv, t.text.as_str());
    push_str(csv, "\",\"");
    let ghost a = csv@;
    push_quote_doubled(csv, tone.as_str());
    push_str(csv, "\",\"");
    push_quote_doubled(csv, cats.as_str());
    push_str(csv, "\",");
    push_thousandths(csv, t.confidence);
    push_str(csv, "\n");
    assert(csv@ =~= a + double_quotes(tone_text(t.tone)) + "\",\""@ + double_quotes(categories_text(t.category, ";"@))
        + "\","@ + thousandths_text(t.confidence as nat) + "\n"@);
    assert(csv@ =~= old(csv)@ + csv_row(*t));
}

/// The export manager: deterministic renderings of a stored session.
pub struct ExportManager;

impl ExportManager {
    /// The session's transcripts as CSV: a header line, then one row per
    /// transcript.
    pub fn export_to_csv(session: &SessionData) -> (r: Result<String, String>)
        ensures
            r matches Ok(c) && c@ == csv_header() + csv_rows(session.transcripts@),
    {
        let mut csv = String::new();
        push_str(&mut csv, "Timestamp,Speaker,Text,Tone,Categories,Confidence\n");
        let ts = &session.transcripts;
        let mut i: usize = 0;
        while i < ts.len()
            invariant
                i <= ts@.len(),
                csv@ == csv_header() + csv_rows(ts@.subrange(0, i as int)),
            decreases ts@.len() - i,
        {
            push_csv_row(&mut csv, &ts[i]);
            assert(ts@.subrange(0, i + 1).drop_last() == ts@.subrange(0, i as int));
            i += 1;
        }
        assert(ts@.subrange(0, ts@.len() as int) == ts@);
        Ok(csv)
    }
}

/// Number of line breaks in a text.
pub open spec fn line_breaks(s: Seq<char>) -> nat
    decreases s.len(),
{
    if s.len() == 0 {
        0
    } else {
        line_breaks(s.drop_last()) + if s.last() == '\n' { 1nat } else { 0nat }
    }
}

proof fn lemma_line_breaks_concat(a: Seq<char>, b: Seq<char>)
    ensures
        line_breaks(a + b) == line_breaks(a) + line_breaks(b),
    decreases b.len(),
{
    if b.len() > 0 {
        lemma_line_breaks_concat(a, b.drop_last());
        assert((a + b).drop_last() == a + b.drop_last());
    } else {
        assert(a + b == a);
    }
}

proof fn lemma_no_break(s: Seq<char>)
    requires
        forall|i: int| 0 <= i < s.len() ==> s[i] != '\n',
    ensures
        line_breaks(s) == 0,
    decreases s.len(),
{
    if s.len() > 0 {
        lemma_no_break(s.drop_last());
    }
}

/// A text holds no line break.
pub open spec fn single_line(s: Seq<char>) -> bool {
    forall|i: int| 0 <= i < s.len() ==> s[i] != '\n'
}

proof fn lemma_single_line_concat(a: Seq<char>, b: Seq<char>)
    requires
        single_line(a),
        single_line(b),
    ensures
        single_line(a + b),
{
    assert forall|i: int| 0 <= i < (a + b).len() implies (a + b)[i] != '\n' by {
        if i < a.len() {
            assert((a + b)[i] == a[i]);
        } else {
            assert((a + b)[i] == b[i - a.len()]);
        }
    }
}

proof fn lemma_double_quotes_single_line(s: Seq<char>)
    requires
        single_line(s),
    ensures
        single_line(double_quotes(s)),
    decreases s.len(),
{
    if s.len() > 0 {
        lemma_double_quotes_single_line(s.drop_last());
        if s.last() == '"' {
            lemma_single_line_concat(double_quotes(s.drop_last()), seq!['"', '"']);
        } else {
            lemma_single_line_concat(double_quotes(s.drop_last()), seq![s.last()]);
        }
    }
}

proof fn lemma_decimal_single_line(n: nat)
    ensures
        single_line(decimal(n)),
    decreases n,
{
    if n >= 10 {
        lemma_decimal_single_line(n / 10);
        lemma_single_line_concat(decimal(n / 10), seq![crate::text::digit_char((n % 10) as int)]);
    }
}

proof fn lemma_joined_single_line(items: Seq<Seq<char>>, sep: Seq<char>)
    requires
        single_line(sep),
        forall|i: int| 0 <= i < items.len() ==> single_line(#[trigger] items[i]),
    ensures
        single_line(joined(items, sep)),
    decreases items.len(),
{
    if items.len() > 1 {
        lemma_joined_single_line(items.drop_last(), sep);
        lemma_single_line_concat(joined(items.drop_last(), sep), sep);
        lemma_single_line_concat(joined(items.drop_last(), sep) + sep, items.last());
    }
}

/// Every text field of a transcript entry is a single line.
pub open spec fn entry_single_line(t: TranscriptEntry) -> bool {
    &&& single_line(t.timestamp@)
    &&& single_line(t.speaker_id@)
    &&& single_line(t.text@)
    &&& single_line(tone_text(t.tone))
    &&& match t.category {
        Some(v) => forall|i: int| 0 <= i < v@.len() ==> single_line(#[trigger] v@[i]@),
        None => true,
    }
}

proof fn lemma_row_one_line(t: TranscriptEntry)
    requires
        entry_single_line(t),
    ensures
        line_breaks(csv_row(t)) == 1,
{
    reveal_strlit("\"");
    reveal_strlit("\",\"");
    reveal_strlit("\",");
    reveal_strlit(";");
    reveal_strlit("\n");
    lemma_double_quotes_single_line(t.text@);
    lemma_double_quotes_single_line(t.timestamp@);
    lemma_double_quotes_single_line(t.speaker_id@);
    lemma_double_quotes_single_line(tone_text(t.tone));
    let raw_cats = categories_text(t.category, ";"@);
    match t.category {
        Some(v) => {
            let items = v@.map_values(|x: String| x@);
            assert forall|i: int| 0 <= i < items.len() implies single_line(#[trigger] items[i]) by {
                assert(items[i] == v@[i]@);
            }
            lemma_joined_single_line(items, ";"@);
        },
        None => {},
    }
    lemma_double_quotes_single_line(raw_cats);
    let cats = double_quotes(raw_cats);
    let ts = double_quotes(t.timestamp@);
    let sp = double_quotes(t.speaker_id@);
    let tn = double_quotes(tone_text(t.tone));
    let conf = thousandths_text(t.confidence as nat);
    lemma_decimal_single_line(t.confidence as nat / 1000);
    if t.confidence as nat % 1000 != 0 {
        let f = (t.confidence as nat % 1000) as int;
        let frac = crate::text::fraction_digits(f);
        assert(single_line(frac));
        lemma_single_line_concat(decimal(t.confidence as nat / 1000), seq!['.']);
        lemma_single_line_concat(decimal(t.confidence as nat / 1000) + seq!['.'], frac);
    }
    let body = "\""@ + ts + "\",\""@ + sp + "\",\""@ + double_quotes(t.text@) + "\",\""@
        + tn + "\",\""@ + cats + "\","@ + conf;
    lemma_single_line_concat("\""@, ts);
    lemma_single_line_concat("\""@ + ts, "\",\""@);
    lemma_single_line_concat("\""@ + ts + "\",\""@, sp);
    lemma_single_line_concat("\""@ + ts + "\",\""@ + sp, "\",\""@);
    lemma_single_line_concat("\""@ + ts + "\",\""@ + sp + "\",\""@, double_quotes(t.text@));
    let p1 = "\""@ + ts + "\",\""@ + sp + "\",\""@ + double_quotes(t.text@);
    lemma_single_line_concat(p1, "\",\""@);
    lemma_single_line_concat(p1 + "\",\""@, tn);
    lemma_single_line_concat(p1 + "\",\""@ + tn, "\",\""@);
    lemma_single_line_concat(p1 + "\",\""@ + tn + "\",\""@, cats);
    lemma_single_line_concat(p1 + "\",\""@ + tn + "\",\""@ + cats, "\","@);
    lemma_single_line_concat(p1 + "\",\""@ + tn + "\",\""@ + cats + "\","@, conf);
    assert(csv_row(t) == body + "\n"@);
    lemma_no_break(body);
    lemma_line_breaks_concat(body, "\n"@);
    assert(line_breaks("\n"@) == 1) by {
        let nl = "\n"@;
        assert(nl.len() == 1 && nl[0] == '\n');
        assert(nl.drop_last() =~= Seq::<char>::empty());
        assert(line_breaks(nl.drop_last()) == 0);
        assert(nl.last() == '\n');
        assert(line_breaks(nl) == line_breaks(nl.drop_last()) + 1);
    }
}

/// A CSV export of `N` transcripts whose fields are single lines has
/// exactly `N + 1` lines: the header and one per transcript.
pub proof fn lemma_csv_lines(ts: Seq<TranscriptEntry>)
    requires
        forall|i: int| 0 <= i < ts.len() ==> entry_single_line(#[trigger] ts[i]),
    ensures
        line_breaks(csv_header() + csv_rows(ts)) == ts.len() + 1,
    decreases ts.len(),
{
    lemma_csv_rows_lines(ts);
    lemma_line_breaks_concat(csv_header(), csv_rows(ts));
    reveal_strlit("Timestamp,Speaker,Text,Tone,Categories,Confidence\n");
    let h = csv_header();
    assert(single_line(h.drop_last()));
    lemma_no_break(h.drop_last());
}

proof fn lemma_csv_rows_lines(ts: Seq<TranscriptEntry>)
    requires
        forall|i: int| 0 <= i < ts.len() ==> entry_single_line(#[trigger] ts[i]),
    ensures
        line_breaks(csv_rows(ts)) == ts.len(),
    decreases ts.len(),
{
    if ts.len() > 0 {
        lemma_csv_rows_lines(ts.drop_last());
        lemma_row_one_line(ts.last());
        lemma_line_breaks_concat(csv_rows(ts.drop_last()), csv_row(ts.last()));
    }
}

/// Views of a list of strings.
pub open spec fn views(v: Seq<String>) -> Seq<Seq<char>> {
    v.map_values(|x: String| x@)
}

/// One line per item: `prefix`, the item, a line break.
pub open spec fn md_list(items: Seq<Seq<char>>, prefix: Seq<char>) -> Seq<char>
    decreases items.len(),
{
    if items.len() == 0 {
        Seq::empty()
    } else {
        md_list(items.drop_last(), prefix) + prefix + items.last() + "\n"@
    }
}

/// One checklist line per action item: description and priority.
pub open spec fn md_actions(items: Seq<ActionItem>) -> Seq<char>
    decreases items.len(),
{
    if items.len() == 0 {
        Seq::empty()
    } else {
        md_actions(items.drop_last()) + "- [ ] "@ + items.last().description@ + " ("@ + items.last().priority@
            + ")\n"@
    }
}

/// The summary section of the Markdown export; a list section appears
/// only when its list is not empty.
pub open spec fn md_summary(sm: SessionSummary) -> Seq<char> {
    "## Executive Summary\n\n"@ + sm.executive_summary@ + "\n\n"@ + (if sm.key_decisions@.len() == 0 {
        Seq::empty()
    } else {
        "### Key Decisions\n\n"@ + md_list(views(sm.key_decisions@), "- "@) + "\n"@
    }) + (if sm.action_items@.len() == 0 {
        Seq::empty()
    } else {
        "### Action Items\n\n"@ + md_actions(sm.action_items@) + "\n"@
    }) + (if sm.risks_identified@.len() == 0 {
        Seq::empty()
    } else {
        "### Risks Identified\n\n"@ + md_list(views(sm.risks_identified@), "- ⚠️ "@) + "\n"@
    })
}

/// One transcript in the Markdown export.
pub open spec fn md_transcript(t: TranscriptEntry) -> Seq<char> {
    "### "@ + t.timestamp@ + " - "@ + t.speaker_id@ + "\n"@ + (match t.tone {
        Some(x) => "**Tone**: "@ + x@ + "\n"@,
        None => Seq::empty(),
    }) + (match t.category {
        Some(c) => "**Categories**: "@ + joined(views(c@), ", "@) + "\n"@,
        None => Seq::empty(),
    }) + "\n"@ + t.text@ + "\n\n"@
}

/// The transcripts section body.
pub open spec fn md_transcripts(ts: Seq<TranscriptEntry>) -> Seq<char>
    decreases ts.len(),
{
    if ts.len() == 0 {
        Seq::empty()
    } else {
        md_transcripts(ts.drop_last()) + md_transcript(ts.last())
    }
}

/// The Markdown export: title and metadata, the summary if any, the
/// transcripts, and the graph's node and edge counts.
pub open spec fn markdown_text(s: SessionData) -> Seq<char> {
    "# "@ + s.metadata.title@ + "\n\n"@ + "**Session ID**: "@ + s.id@ + "\n"@ + "**Created**: "@ + s.created_at@
        + "\n"@ + "**Duration**: "@ + decimal(s.metadata.duration_seconds as nat) + " seconds\n"@
        + "**Total Transcripts**: "@ + decimal(s.metadata.total_transcripts as nat) + "\n\n"@ + (match s.summary {
        Some(sm) => md_summary(sm),
        None => Seq::empty(),
    }) + "## Transcripts\n\n"@ + md_transcripts(s.transcripts@) + "## Knowledge Graph\n\n"@ + "**Nodes**: "@
        + decimal(s.graph_nodes@.len()) + "\n"@ + "**Edges**: "@ + decimal(s.graph_edges@.len()) + "\n\n"@
}

fn push_list(s: &mut String, items: &Vec<String>, prefix: &str)
    ensures
        final(s)@ == old(s)@ + md_list(views(items@), prefix@),
{
    let mut i: usize = 0;
    while i < items.len()
        invariant
            i <= items@.len(),
            s@ == old(s)@ + md_list(views(items@.subrange(0, i as int)), prefix@),
        decreases items@.len() - i,
    {
        assert(views(items@.subrange(0, i + 1)).drop_last() =~= views(items@.subrange(0, i as int)));
        push_str(s, prefix);
        push_str(s, items[i].as_str());
        push_str(s, "\n");
        assert(s@ =~= old(s)@ + md_list(views(items@.subrange(0, i + 1)), prefix@));
        i += 1;
    }
    assert(items@.subrange(0, items@.len() as int) == items@);
}

fn push_actions(s: &mut String, items: &Vec<ActionItem>)
    ensures
        final(s)@ == old(s)@ + md_actions(items@),
{
    let mut i: usize = 0;
    while i < items.len()
        invariant
            i <= items@.len(),
            s@ == old(s)@ + md_actions(items@.subrange(0, i as int)),
        decreases items@.len() - i,
    {
        assert(items@.subrange(0, i + 1).drop_last() == items@.subrange(0, i as int));
        push_str(s, "- [ ] ");
        push_str(s, items[i].description.as_str());
        push_str(s, " (");
        push_str(s, items[i].priority.as_str());
        push_str(s, ")\n");
        assert(s@ =~= old(s)@ + md_actions(items@.subrange(0, i + 1)));
        i += 1;
    }
    assert(items@.subrange(0, items@.len() as int) == items@);
}

fn push_md_summary(s: &mut String, sm: &SessionSummary)
    ensures
        final(s)@ == old(s)@ + md_summary(*sm),
{
    push_str(s, "## Executive Summary\n\n");
    push_str(s, sm.executive_summary.as_str());
    push_str(s, "\n\n");
    let ghost a = s@;
    if sm.key_decisions.len() != 0 {
        push_str(s, "### Key Decisions\n\n");
        push_list(s, &sm.key_decisions, "- ");
        push_str(s, "\n");
    }
    let ghost b = s@;
    assert(b =~= a + (if sm.key_decisions@.len() == 0 {
        Seq::empty()
    } else {
        "### Key Decisions\n\n"@ + md_list(views(sm.key_decisions@), "- "@) + "\n"@
    }));
    if sm.action_items.len() != 0 {
        push_str(s, "### Action Items\n\n");
        push_actions(s, &sm.action_items);
        push_str(s, "\n");
    }
    let ghost c = s@;
    assert(c =~= b + (if sm.action_items@.len() == 0 {
        Seq::empty()
    } else {
        "### Action Items\n\n"@ + md_actions(sm.action_items@) + "\n"@
    }));
    if sm.risks_identified.len() != 0 {
        push_str(s, "### Risks Identified\n\n");
        push_list(s, &sm.risks_identified, "- ⚠️ ");
        push_str(s, "\n");
    }
    assert(s@ =~= c + (if sm.risks_identified@.len() == 0 {
        Seq::empty()
    } else {
        "### Risks Identified\n\n"@ + md_list(views(sm.risks_identified@), "- ⚠️ "@) + "\n"@
    }));
    assert(s@ =~= old(s)@ + md_summary(*sm));
}

fn push_md_transcript(s: &mut String, t: &TranscriptEntry)
    ensures
        final(s)@ == old(s)@ + md_transcript(*t),
{
    push_str(s, "### ");
    push_str(s, t.timestamp.as_str());
    push_str(s, " - ");
    push_str(s, t.speaker_id.as_str());
    push_str(s, "\n");
    let ghost a = s@;
    match &t.tone {
        Some(x) => {
            push_str(s, "**Tone**: ");
            push_str(s, x.as_str());
            push_str(s, "\n");
        },
        None => {},
    }
    let ghost b = s@;
    assert(b =~= a + match t.tone {
        Some(x) => "**Tone**: "@ + x@ + "\n"@,
        None => Seq::empty(),
    });
    match &t.category {
        Some(c) => {
            push_str(s, "**Categories**: ");
            push_joined(s, c, ", ");
            push_str(s, "\n");
        },
        None => {},
    }
    let ghost c = s@;
    assert(c =~= b + match t.category {
        Some(c) => "**Categories**: "@ + joined(views(c@), ", "@) + "\n"@,
        None => Seq::empty(),
    });
    push_str(s, "\n");
    push_str(s, t.text.as_str());
    push_str(s, "\n\n");
    assert(s@ =~= old(s)@ + md_transcript(*t));
}

/// The GraphML preamble: keys for node label and type, edge relation and weight.
pub open spec fn graphml_head() -> Seq<char> {
    "<?xml version=\"1.0\" encoding=\"UTF-8\"?>\n<graphml xmlns=\"http://graphml.graphdrawing.org/xmlns\">\n  <key id=\"label\" for=\"node\" attr.name=\"label\" attr.type=\"string\"/>\n  <key id=\"type\" for=\"node\" attr.name=\"type\" attr.type=\"string\"/>\n  <key id=\"relation\" for=\"edge\" attr.name=\"relation\" attr.type=\"string\"/>\n  <key id=\"weight\" for=\"edge\" attr.name=\"weight\" attr.type=\"double\"/>\n  <graph id=\"G\" edgedefault=\"directed\">\n"@
}

/// One GraphML node, labelled by its identifier.
pub open spec fn graphml_node(n: GraphNode) -> Seq<char> {
    "    <node id=\""@ + n.id@ + "\">\n      <data key=\"label\">"@ + n.id@ + "</data>\n      <data key=\"type\">"@
        + n.node_type@ + "</data>\n    </node>\n"@
}

/// The GraphML nodes.
pub open spec fn graphml_nodes(ns: Seq<GraphNode>) -> Seq<char>
    decreases ns.len(),
{
    if ns.len() == 0 {
        Seq::empty()
    } else {
        graphml_nodes(ns.drop_last()) + graphml_node(ns.last())
    }
}

/// GraphML edge number `i`.
pub open spec fn graphml_edge(i: nat, e: GraphEdge) -> Seq<char> {
    "    <edge id=\"e"@ + decimal(i) + "\" source=\""@ + e.from@ + "\" target=\""@ + e.to@
        + "\">\n      <data key=\"relation\">"@ + e.relation@ + "</data>\n      <data key=\"weight\">"@
        + thousandths_text(e.weight as nat) + "</data>\n    </edge>\n"@
}

/// The GraphML edges, numbered from zero.
pub open spec fn graphml_edges(es: Seq<GraphEdge>) -> Seq<char>
    decreases es.len(),
{
    if es.len() == 0 {
        Seq::empty()
    } else {
        graphml_edges(es.drop_last()) + graphml_edge((es.len() - 1) as nat, es.last())
    }
}

/// The GraphML export.
pub open spec fn graphml_text(s: SessionData) -> Seq<char> {
    graphml_head() + graphml_nodes(s.graph_nodes@) + graphml_edges(s.graph_edges@) + "  </graph>\n</graphml>"@
}

/// `key=value` texts of metadata pairs.
pub open spec fn meta_items(m: Seq<(String, String)>) -> Seq<Seq<char>> {
    m.map_values(|p: (String, String)| p.0@ + "="@ + p.1@)
}

/// One row of the entity CSV.
pub open spec fn entity_row(n: GraphNode) -> Seq<char> {
    "\""@ + n.id@ + "\",\""@ + n.node_type@ + "\",\""@ + n.id@ + "\",\""@ + joined(meta_items(n.metadata@), ";"@)
        + "\"\n"@
}

/// The rows of the entity CSV.
pub open spec fn entity_rows(ns: Seq<GraphNode>) -> Seq<char>
    decreases ns.len(),
{
    if ns.len() == 0 {
        Seq::empty()
    } else {
        entity_rows(ns.drop_last()) + entity_row(ns.last())
    }
}

fn push_meta(s: &mut String, m: &Vec<(String, String)>)
    ensures
        final(s)@ == old(s)@ + joined(meta_items(m@), ";"@),
{
    let mut i: usize = 0;
    while i < m.len()
        invariant
            i <= m@.len(),
            s@ == old(s)@ + joined(meta_items(m@.subrange(0, i as int)), ";"@),
        decreases m@.len() - i,
    {
        let ghost items = meta_items(m@.subrange(0, i + 1));
        assert(items.drop_last() =~= meta_items(m@.subrange(0, i as int)));
        if i > 0 {
            push_str(s, ";");
        }
        push_str(s, m[i].0.as_str());
        push_str(s, "=");
        push_str(s, m[i].1.as_str());
        assert(s@ =~= old(s)@ + joined(items, ";"@));
        i += 1;
    }
    assert(m@.subrange(0, m@.len() as int) == m@);
}

impl ExportManager {
    /// The Markdown rendering of a session.
    pub fn export_to_markdown(session: &SessionData) -> (r: Result<String, String>)
        ensures
            r matches Ok(m) && m@ == markdown_text(*session),
    {
        let mut md = String::new();
        push_str(&mut md, "# ");
        push_str(&mut md, session.metadata.title.as_str());
        push_str(&mut md, "\n\n");
        push_str(&mut md, "**Session ID**: ");
        push_str(&mut md, session.id.as_str());
        push_str(&mut md, "\n");
        push_str(&mut md, "**Created**: ");
        push_str(&mut md, session.created_at.as_str());
        push_str(&mut md, "\n");
        push_str(&mut md, "**Duration**: ");
        push_decimal(&mut md, session.metadata.duration_seconds);
        push_str(&mut md, " seconds\n");
        push_str(&mut md, "**Total Transcripts**: ");
        push_decimal(&mut md, session.metadata.total_transcripts as u64);
        push_str(&mut md, "\n\n");
        let ghost head = md@;
        match &session.summary {
            Some(sm) => push_md_summary(&mut md, sm),
            None => {},
        }
        let ghost with_summary = md@;
        assert(with_summary =~= head + match session.summary {
            Some(sm) => md_summary(sm),
            None => Seq::empty(),
        });
        push_str(&mut md, "## Transcripts\n\n");
        let ghost before_ts = md@;
        let ts = &session.transcripts;
        let mut i: usize = 0;
        while i < ts.len()
            invariant
                i <= ts@.len(),
                md@ == before_ts + md_transcripts(ts@.subrange(0, i as int)),
            decreases ts@.len() - i,
        {
            assert(ts@.subrange(0, i + 1).drop_last() == ts@.subrange(0, i as int));
            push_md_transcript(&mut md, &ts[i]);
            i += 1;
        }
        assert(ts@.subrange(0, ts@.len() as int) == ts@);
        let ghost after_ts = md@;
        push_str(&mut md, "## Knowledge Graph\n\n");
        push_str(&mut md, "**Nodes**: ");
        push_decimal(&mut md, session.graph_nodes.len() as u64);
        push_str(&mut md, "\n");
        push_str(&mut md, "**Edges**: ");
        push_decimal(&mut md, session.graph_edges.len() as u64);
        push_str(&mut md, "\n\n");
        assert(md@ =~= after_ts + "## Knowledge Graph\n\n"@ + "**Nodes**: "@ + decimal(session.graph_nodes@.len())
            + "\n"@ + "**Edges**: "@ + decimal(session.graph_edges@.len()) + "\n\n"@);
        assert(md@ =~= markdown_text(*session));
        Ok(md)
    }

    /// The GraphML rendering of a session's graph.
    pub fn export_to_graphml(session: &SessionData) -> (r: Result<String, String>)
        ensures
            r matches Ok(x) && x@ == graphml_text(*session),
    {
        let mut xml = String::new();
        push_str(&mut xml, "<?xml version=\"1.0\" encoding=\"UTF-8\"?>\n<graphml xmlns=\"http://graphml.graphdrawing.org/xmlns\">\n  <key id=\"label\" for=\"node\" attr.name=\"label\" attr.type=\"string\"/>\n  <key id=\"type\" for=\"node\" attr.name=\"type\" attr.type=\"string\"/>\n  <key id=\"relation\" for=\"edge\" attr.name=\"relation\" attr.type=\"string\"/>\n  <key id=\"weight\" for=\"edge\" attr.name=\"weight\" attr.type=\"double\"/>\n  <graph id=\"G\" edgedefault=\"directed\">\n");
        let ns = &session.graph_nodes;
        let mut i: usize = 0;
        while i < ns.len()
            invariant
                i <= ns@.len(),
                xml@ == graphml_head() + graphml_nodes(ns@.subrange(0, i as int)),
            decreases ns@.len() - i,
        {
            assert(ns@.subrange(0, i + 1).drop_last() == ns@.subrange(0, i as int));
            let ghost before = xml@;
            let n = &ns[i];
            push_str(&mut xml, "    <node id=\"");
            push_str(&mut xml, n.id.as_str());
            push_str(&mut xml, "\">\n      <data key=\"label\">");
            push_str(&mut xml, n.id.as_str());
            push_str(&mut xml, "</data>\n      <data key=\"type\">");
            push_str(&mut xml, n.node_type.as_str());
            push_str(&mut xml, "</data>\n    </node>\n");
            assert(xml@ =~= before + graphml_node(*n));
            i += 1;
        }
        assert(ns@.subrange(0, ns@.len() as int) == ns@);
        let ghost with_nodes = xml@;
        let es = &session.graph_edges;
        let mut k: usize = 0;
        while k < es.len()
            invariant
                k <= es@.len(),
                xml@ == with_nodes + graphml_edges(es@.subrange(0, k as int)),
            decreases es@.len() - k,
        {
            assert(es@.subrange(0, k + 1).drop_last() == es@.subrange(0, k as int));
            let ghost before = xml@;
            let e = &es[k];
            push_str(&mut xml, "    <edge id=\"e");
            push_decimal(&mut xml, k as u64);
            push_str(&mut xml, "\" source=\"");
            push_str(&mut xml, e.from.as_str());
            push_str(&mut xml, "\" target=\"");
            push_str(&mut xml, e.to.as_str());
            push_str(&mut xml, "\">\n      <data key=\"relation\">");
            push_str(&mut xml, e.relation.as_str());
            push_str(&mut xml, "</data>\n      <data key=\"weight\">");
            push_thousandths(&mut xml, e.weight);
            push_str(&mut xml, "</data>\n    </edge>\n");
            assert(xml@ =~= before + graphml_edge(k as nat, *e));
            k += 1;
        }
        assert(es@.subrange(0, es@.len() as int) == es@);
        push_str(&mut xml, "  </graph>\n</graphml>");
        assert(xml@ =~= graphml_text(*session));
        Ok(xml)
    }

    /// The graph's nodes as CSV: identifier, type, label (the identifier)
    /// and `key=value` metadata joined by `;`.
    pub fn export_entities_csv(session: &SessionData) -> (r: Result<String, String>)
        ensures
            r matches Ok(c) && c@ == "EntityID,Type,Label,Metadata\n"@ + entity_rows(session.graph_nodes@),
    {
        let mut csv = String::new();
        push_str(&mut csv, "EntityID,Type,Label,Metadata\n");
        let ns = &session.graph_nodes;
        let mut i: usize = 0;
        while i < ns.len()
            invariant
                i <= ns@.len(),
                csv@ == "EntityID,Type,Label,Metadata\n"@ + entity_rows(ns@.subrange(0, i as int)),
            decreases ns@.len() - i,
        {
            assert(ns@.subrange(0, i + 1).drop_last() == ns@.subrange(0, i as int));
            let ghost before = csv@;
            let n = &ns[i];
            push_str(&mut csv, "\"");
            push_str(&mut csv, n.id.as_str());
            push_str(&mut csv, "\",\"");
            push_str(&mut csv, n.node_type.as_str());
            push_str(&mut csv, "\",\"");
            push_str(&mut csv, n.id.as_str());
            push_str(&mut csv, "\",\"");
            push_meta(&mut csv, &n.metadata);
            push_str(&mut csv, "\"\n");
            assert(csv@ =~= before + entity_row(*n));
            i += 1;
        }
        assert(ns@.subrange(0, ns@.len() as int) == ns@);
        Ok(csv)
    }
}

/// `a` sorts strictly before `b`, character by character (by code point),
/// a proper prefix first.
pub open spec fn lex_lt(a: Seq<char>, b: Seq<char>) -> bool
    decreases a.len(),
{
    if a.len() == 0 {
        b.len() > 0
    } else if b.len() == 0 {
        false
    } else if a[0] != b[0] {
        (a[0] as u32) < (b[0] as u32)
    } else {
        lex_lt(a.drop_first(), b.drop_first())
    }
}

proof fn lemma_lex_asym(a: Seq<char>, b: Seq<char>)
    requires
        lex_lt(a, b),
    ensures
        !lex_lt(b, a),
    decreases a.len(),
{
    if a.len() > 0 && b.len() > 0 && a[0] == b[0] {
        lemma_lex_asym(a.drop_first(), b.drop_first());
    }
}

/// Whether `a` sorts strictly before `b`.
pub fn str_lt(a: &str, b: &str) -> (r: bool)
    ensures
        r == lex_lt(a@, b@),
{
    let x = crate::text::chars_of(a);
    let y = crate::text::chars_of(b);
    let mut i: usize = 0;
    assert(a@.subrange(0, a@.len() as int) == a@);
    assert(b@.subrange(0, b@.len() as int) == b@);
    while i < x.len() && i < y.len()
        invariant
            x@ == a@,
            y@ == b@,
            i <= x@.len(),
            i <= y@.len(),
            lex_lt(a@, b@) == lex_lt(a@.subrange(i as int, a@.len() as int), b@.subrange(i as int, b@.len() as int)),
        decreases x@.len() - i,
    {
        let ghost sa = a@.subrange(i as int, a@.len() as int);
        let ghost sb = b@.subrange(i as int, b@.len() as int);
        assert(sa[0] == x@[i as int] && sb[0] == y@[i as int]);
        if x[i] != y[i] {
            return (x[i] as u32) < (y[i] as u32);
        }
        assert(sa.drop_first() == a@.subrange(i + 1, a@.len() as int));
        assert(sb.drop_first() == b@.subrange(i + 1, b@.len() as int));
        i += 1;
    }
    i < y.len()
}

/// Each session was updated no earlier than the next one.
pub open spec fn newest_first(s: Seq<SessionData>) -> bool {
    forall|i: int| 0 <= i < s.len() - 1 ==> !lex_lt((#[trigger] s[i]).updated_at@, s[i + 1].updated_at@)
}

fn insert_by_update(out: &mut Vec<SessionData>, x: SessionData)
    requires
        newest_first(old(out)@),
    ensures
        newest_first(final(out)@),
        final(out)@.to_multiset() == old(out)@.to_multiset().insert(x),
{
    broadcast use vstd::seq_lib::group_to_multiset_ensures;
    let mut p: usize = 0;
    while p < out.len() && !str_lt(out[p].updated_at.as_str(), x.updated_at.as_str())
        invariant
            p <= out@.len(),
            forall|k: int| 0 <= k < p ==> !lex_lt((#[trigger] out@[k]).updated_at@, x.updated_at@),
        decreases out@.len() - p,
    {
        p += 1;
    }
    let ghost prev = out@;
    if p < out.len() {
        proof {
            lemma_lex_asym(out@[p as int].updated_at@, x.updated_at@);
        }
    }
    out.insert(p, x);
    assert(out@ == prev.insert(p as int, x));
    assert forall|i: int| 0 <= i < out@.len() - 1 implies !lex_lt((#[trigger] out@[i]).updated_at@, out@[i + 1].updated_at@) by {
        if i < p - 1 {
            assert(out@[i] == prev[i] && out@[i + 1] == prev[i + 1]);
        } else if i == p - 1 {
            assert(out@[i] == prev[i] && out@[i + 1] == x);
        } else if i == p {
            assert(out@[i] == x && out@[i + 1] == prev[i]);
        } else {
            assert(out@[i] == prev[i - 1] && out@[i + 1] == prev[i]);
        }
    }
}

/// Orders sessions by last update, newest first (RFC 3339 times in one
/// zone sort as text).
pub fn order_newest_first(sessions: Vec<SessionData>) -> (r: Vec<SessionData>)
    ensures
        newest_first(r@),
        r@.to_multiset() == sessions@.to_multiset(),
{
    broadcast use vstd::seq_lib::group_to_multiset_ensures;
    let mut rest = sessions;
    let mut out: Vec<SessionData> = Vec::new();
    while rest.len() > 0
        invariant
            newest_first(out@),
            out@.to_multiset().add(rest@.to_multiset()) == sessions@.to_multiset(),
        decreases rest@.len(),
    {
        let ghost before_rest = rest@;
        let ghost before_out = out@;
        let x = rest.remove(0);
        assert(before_rest.to_multiset() =~= rest@.to_multiset().insert(x)) by {
            assert(rest@ == before_rest.remove(0));
            assert(before_rest[0] == x);
            broadcast use vstd::multiset::group_multiset_axioms;
            assert(before_rest.contains(x));
            vstd::seq_lib::to_multiset_contains(before_rest, x);
            vstd::seq_lib::to_multiset_remove(before_rest, 0);
        }
        insert_by_update(&mut out, x);
        assert(out@.to_multiset().add(rest@.to_multiset()) =~= before_out.to_multiset().add(before_rest.to_multiset()));
    }
    assert(rest@.to_multiset() =~= vstd::multiset::Multiset::empty());
    assert(out@.to_multiset().add(rest@.to_multiset()) =~= out@.to_multiset());
    out
}

} // verus!
