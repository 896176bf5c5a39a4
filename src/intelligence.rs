//! The intelligence processor: vocabulary validation, the bounded response
//! cache, the knowledge graph with optimistic and confirmed entries, the
//! error streak, and keyword-based optimistic predictions.
//!
//! Confidences and weights are integer thousandths (`850` is 0.85).

use vstd::prelude::*;
use std::collections::VecDeque;
use crate::audio::str_eq;
use crate::text::{chars_of, contains_chars, has_substring, push_str, push_decimal, decimal};

verus! {

/// A named entity found in an utterance.
pub struct Entity {
    pub text: String,
    pub entity_type: String,
    pub start_ms: Option<u64>,
    pub end_ms: Option<u64>,
    pub confidence: Option<u32>,
}

/// A relation the service asks to add to the knowledge graph.
pub struct GraphUpdate {
    pub node_a: String,
    pub relation: String,
    pub node_b: String,
    pub weight: Option<u32>,
    pub directional: Option<bool>,
    pub tone_modifier: Option<i32>,
}

/// The structured analysis of one utterance.
pub struct Intelligence {
    pub category: Vec<String>,
    pub summary: Option<String>,
    pub tone: Option<String>,
    pub confidence: u32,
    pub entities: Option<Vec<Entity>>,
    pub graph_updates: Option<Vec<GraphUpdate>>,
}

/// One record returned by the service.
pub struct IntelligenceOutput {
    pub timestamp_ms: u64,
    pub speaker_id: String,
    pub transcript_chunk: String,
    pub is_final: bool,
    pub intelligence: Intelligence,
}

/// The view of an optional vector: its elements, if present.
pub open spec fn opt_seq<T>(o: Option<Vec<T>>) -> Option<Seq<T>> {
    match o {
        Some(v) => Some(v@),
        None => None,
    }
}

/// `a` and `b` hold the same record.
pub open spec fn same_output(a: IntelligenceOutput, b: IntelligenceOutput) -> bool {
    &&& a.timestamp_ms == b.timestamp_ms
    &&& a.speaker_id == b.speaker_id
    &&& a.transcript_chunk == b.transcript_chunk
    &&& a.is_final == b.is_final
    &&& a.intelligence.category@ == b.intelligence.category@
    &&& a.intelligence.summary == b.intelligence.summary
    &&& a.intelligence.tone == b.intelligence.tone
    &&& a.intelligence.confidence == b.intelligence.confidence
    &&& opt_seq(a.intelligence.entities) == opt_seq(b.intelligence.entities)
    &&& opt_seq(a.intelligence.graph_updates) == opt_seq(b.intelligence.graph_updates)
}

/// A copy of a list of strings.
pub fn copy_strings(v: &Vec<String>) -> (r: Vec<String>)
    ensures
        r@ == v@,
{
    let mut out: Vec<String> = Vec::new();
    let mut i: usize = 0;
    while i < v.len()
        invariant
            i <= v@.len(),
            out@ == v@.subrange(0, i as int),
        decreases v@.len() - i,
    {
        out.push(v[i].clone());
        assert(out@ =~= v@.subrange(0, i + 1));
        i += 1;
    }
    assert(v@.subrange(0, v@.len() as int) == v@);
    out
}

/// A copy of an optional string.
pub fn copy_opt_string(o: &Option<String>) -> (r: Option<String>)
    ensures
        r == *o,
{
    match o {
        Some(s) => Some(s.clone()),
        None => None,
    }
}

impl Entity {
    /// A field-for-field copy.
    pub fn duplicate(&self) -> (r: Entity)
        ensures
            r == *self,
    {
        Entity {
            text: self.text.clone(),
            entity_type: self.entity_type.clone(),
            start_ms: self.start_ms,
            end_ms: self.end_ms,
            confidence: self.confidence,
        }
    }
}

impl GraphUpdate {
    /// A field-for-field copy.
    pub fn duplicate(&self) -> (r: GraphUpdate)
        ensures
            r == *self,
    {
        GraphUpdate {
            node_a: self.node_a.clone(),
            relation: self.relation.clone(),
            node_b: self.node_b.clone(),
            weight: self.weight,
            directional: self.directional,
            tone_modifier: self.tone_modifier,
        }
    }
}

fn copy_entities(v: &Vec<Entity>) -> (r: Vec<Entity>)
    ensures
        r@ == v@,
{
    let mut out: Vec<Entity> = Vec::new();
    let mut i: usize = 0;
    while i < v.len()
        invariant
            i <= v@.len(),
            out@ == v@.subrange(0, i as int),
        decreases v@.len() - i,
    {
        out.push(v[i].duplicate());
        assert(out@ =~= v@.subrange(0, i + 1));
        i += 1;
    }
    assert(v@.subrange(0, v@.len() as int) == v@);
    out
}

fn copy_updates(v: &Vec<GraphUpdate>) -> (r: Vec<GraphUpdate>)
    ensures
        r@ == v@,
{
    let mut out: Vec<GraphUpdate> = Vec::new();
    let mut i: usize = 0;
    while i < v.len()
        invariant
            i <= v@.len(),
            out@ == v@.subrange(0, i as int),
        decreases v@.len() - i,
    {
        out.push(v[i].duplicate());
        assert(out@ =~= v@.subrange(0, i + 1));
        i += 1;
    }
    assert(v@.subrange(0, v@.len() as int) == v@);
    out
}

impl IntelligenceOutput {
    /// A copy holding the same record.
    pub fn duplicate(&self) -> (r: IntelligenceOutput)
        ensures
            same_output(r, *self),
    {
        let entities = match &self.intelligence.entities {
            Some(v) => Some(copy_entities(v)),
            None => None,
        };
        let graph_updates = match &self.intelligence.graph_updates {
            Some(v) => Some(copy_updates(v)),
            None => None,
        };
        IntelligenceOutput {
            timestamp_ms: self.timestamp_ms,
            speaker_id: self.speaker_id.clone(),
            transcript_chunk: self.transcript_chunk.clone(),
            is_final: self.is_final,
            intelligence: Intelligence {
                category: copy_strings(&self.intelligence.category),
                summary: copy_opt_string(&self.intelligence.summary),
                tone: copy_opt_string(&self.intelligence.tone),
                confidence: self.intelligence.confidence,
                entities,
                graph_updates,
            },
        }
    }
}

/// The fixed category vocabulary.
pub open spec fn valid_category_name(c: Seq<char>) -> bool {
    c == "TASK"@ || c == "DECISION"@ || c == "DEADLINE"@ || c == "QUERY"@ || c == "ACTION_ITEM"@
        || c == "RISK"@ || c == "SENTIMENT"@ || c == "URGENCY"@ || c == "INTERRUPTION"@
        || c == "AGREEMENT"@ || c == "DISAGREEMENT"@ || c == "OFF_TOPIC"@ || c == "EMOTION_SHIFT"@
        || c == "DOMINANCE_SHIFT"@ || c == "EMPATHY_GAP"@ || c == "TOPIC_DRIFT"@
}

/// The fixed tone vocabulary.
pub open spec fn valid_tone_name(t: Seq<char>) -> bool {
    t == "URGENT"@ || t == "FRUSTRATED"@ || t == "EXCITED"@ || t == "POSITIVE"@ || t == "NEGATIVE"@
        || t == "HESITANT"@ || t == "DOMINANT"@ || t == "EMPATHETIC"@ || t == "NEUTRAL"@
}

/// Every category is in the vocabulary.
pub open spec fn categories_valid(c: Seq<String>) -> bool {
    forall|i: int| 0 <= i < c.len() ==> valid_category_name(#[trigger] c[i]@)
}

/// The tone, if any, is in the vocabulary.
pub open spec fn tone_valid(t: Option<String>) -> bool {
    match t {
        Some(s) => valid_tone_name(s@),
        None => true,
    }
}

/// Whether one name is in the category vocabulary.
pub fn is_valid_category(c: &str) -> (r: bool)
    ensures
        r == valid_category_name(c@),
{
    str_eq(c, "TASK") || str_eq(c, "DECISION") || str_eq(c, "DEADLINE") || str_eq(c, "QUERY")
        || str_eq(c, "ACTION_ITEM") || str_eq(c, "RISK") || str_eq(c, "SENTIMENT") || str_eq(c, "URGENCY")
        || str_eq(c, "INTERRUPTION") || str_eq(c, "AGREEMENT") || str_eq(c, "DISAGREEMENT")
        || str_eq(c, "OFF_TOPIC") || str_eq(c, "EMOTION_SHIFT") || str_eq(c, "DOMINANCE_SHIFT")
        || str_eq(c, "EMPATHY_GAP") || str_eq(c, "TOPIC_DRIFT")
}

/// Whether every category is in the vocabulary.
pub fn validate_category(category: &[String]) -> (r: bool)
    ensures
        r == categories_valid(category@),
{
    let mut i: usize = 0;
    while i < category.len()
        invariant
            i <= category@.len(),
            forall|j: int| 0 <= j < i ==> valid_category_name(#[trigger] category@[j]@),
        decreases category@.len() - i,
    {
        if !is_valid_category(category[i].as_str()) {
            return false;
        }
        i += 1;
    }
    true
}

/// Whether the tone, if present, is in the vocabulary.
pub fn validate_tone(tone: &Option<String>) -> (r: bool)
    ensures
        r == tone_valid(*tone),
{
    match tone {
        Some(t) => str_eq(t.as_str(), "URGENT") || str_eq(t.as_str(), "FRUSTRATED") || str_eq(t.as_str(), "EXCITED")
            || str_eq(t.as_str(), "POSITIVE") || str_eq(t.as_str(), "NEGATIVE") || str_eq(t.as_str(), "HESITANT")
            || str_eq(t.as_str(), "DOMINANT") || str_eq(t.as_str(), "EMPATHETIC") || str_eq(t.as_str(), "NEUTRAL"),
        None => true,
    }
}

/// Relies on `SystemTime::now` and `duration_since(UNIX_EPOCH)`: the
/// current wall-clock time in milliseconds, or 0 if the clock is set before
/// the epoch. Nothing is known of the value.
#[verifier::external_body]
pub fn now_ms() -> (r: u64) {
    std::time::SystemTime::now()
        .duration_since(std::time::UNIX_EPOCH)
        .map(|d| d.as_millis() as u64)
        .unwrap_or(0)
}

/// A cache entry: the record and when it was cached.
pub struct CachedIntelligence {
    pub data: IntelligenceOutput,
    pub cached_at: u64,
    pub hit_count: u32,
}

/// The contents of a cache of capacity `max` after `x` is inserted into
/// `s`: appended, with the oldest evicted when full; a cache of capacity
/// zero keeps nothing.
pub open spec fn cache_insert(s: Seq<IntelligenceOutput>, max: nat, x: IntelligenceOutput) -> Seq<IntelligenceOutput> {
    if max == 0 {
        s
    } else if s.len() >= max {
        s.drop_first().push(x)
    } else {
        s.push(x)
    }
}

/// A bounded FIFO cache of accepted records.
pub struct ResponseCache {
    items: VecDeque<CachedIntelligence>,
    max_size: usize,
}

impl ResponseCache {
    /// The records held, oldest first.
    pub closed spec fn contents(&self) -> Seq<IntelligenceOutput> {
        self.items@.map_values(|c: CachedIntelligence| c.data)
    }

    /// The capacity.
    pub closed spec fn capacity(&self) -> nat {
        self.max_size as nat
    }

    /// Never more records than the capacity.
    pub open spec fn wf(&self) -> bool {
        self.contents().len() <= self.capacity()
    }

    /// An empty cache holding at most `max_size` records.
    pub fn new(max_size: usize) -> (r: ResponseCache)
        ensures
            r.wf(),
            r.contents().len() == 0,
            r.capacity() == max_size,
    {
        let r = ResponseCache { items: VecDeque::new(), max_size };
        assert(r.contents() =~= Seq::empty());
        r
    }

    /// Number of records held.
    pub fn len(&self) -> (r: usize)
        ensures
            r == self.contents().len(),
    {
        self.items.len()
    }

    /// The capacity.
    pub fn max_size(&self) -> (r: usize)
        ensures
            r == self.capacity(),
    {
        self.max_size
    }

    /// Inserts a record, evicting the oldest when full.
    pub fn add(&mut self, output: IntelligenceOutput)
        requires
            old(self).wf(),
        ensures
            final(self).wf(),
            final(self).capacity() == old(self).capacity(),
            final(self).contents() == cache_insert(old(self).contents(), old(self).capacity(), output),
    {
        if self.max_size == 0 {
            return;
        }
        let ghost before = self.items@;
        if self.items.len() >= self.max_size {
            self.items.pop_front();
            assert(self.items@ == before.drop_first());
        }
        let ghost mid = self.items@;
        let cached_at = now_ms();
        self.items.push_back(CachedIntelligence { data: output, cached_at, hit_count: 0 });
        assert(self.items@ == mid.push(CachedIntelligence { data: output, cached_at, hit_count: 0 }));
        assert(self.contents() =~= cache_insert(before.map_values(|c: CachedIntelligence| c.data), self.max_size as nat, output));
    }

    /// Up to `count` records, newest first.
    pub fn get_recent(&self, count: usize) -> (r: Vec<IntelligenceOutput>)
        ensures
            r@.len() == if count < self.contents().len() { count as int } else { self.contents().len() as int },
            forall|i: int| 0 <= i < r@.len() ==> same_output(#[trigger] r@[i], self.contents()[self.contents().len() - 1 - i]),
    {
        let n = self.items.len();
        let take = if count < n { count } else { n };
        let mut out: Vec<IntelligenceOutput> = Vec::new();
        let mut i: usize = 0;
        while i < take
            invariant
                n == self.contents().len(),
                n == self.items@.len(),
                take <= n,
                i <= take,
                out@.len() == i,
                forall|j: int| 0 <= j < i ==> same_output(#[trigger] out@[j], self.contents()[n - 1 - j]),
            decreases take - i,
        {
            let d = self.items[n - 1 - i].data.duplicate();
            out.push(d);
            i += 1;
        }
        out
    }

    /// Drops every record.
    pub fn clear(&mut self)
        ensures
            final(self).wf(),
            final(self).capacity() == old(self).capacity(),
            final(self).contents().len() == 0,
    {
        self.items.clear();
        assert(self.contents() =~= Seq::empty());
    }
}

/// The cache contents after inserting `s` in order into an empty cache.
pub open spec fn cache_after(max: nat, s: Seq<IntelligenceOutput>) -> Seq<IntelligenceOutput>
    decreases s.len(),
{
    if s.len() == 0 {
        Seq::empty()
    } else {
        cache_insert(cache_after(max, s.drop_last()), max, s.last())
    }
}

/// A cache never holds more than its capacity, and holds exactly the
/// newest `capacity` of the records inserted; so after `capacity + 1`
/// insertions the first record is no longer held.
pub proof fn lemma_cache_keeps_newest(max: nat, s: Seq<IntelligenceOutput>)
    requires
        max >= 1,
    ensures
        cache_after(max, s).len() <= max,
        cache_after(max, s) == if s.len() > max { s.subrange(s.len() - max, s.len() as int) } else { s },
        s.len() == max + 1 ==> cache_after(max, s) == s.drop_first(),
    decreases s.len(),
{
    if s.len() > 0 {
        lemma_cache_keeps_newest(max, s.drop_last());
        let p = s.drop_last();
        if p.len() > max {
            assert(cache_after(max, s) =~= s.subrange(s.len() - max, s.len() as int));
        } else if p.len() == max {
            assert(cache_after(max, s) =~= s.subrange(s.len() - max, s.len() as int));
        } else {
            assert(cache_after(max, s) =~= s);
        }
    }
}

/// A knowledge-graph node; `is_optimistic` marks a speculative entry.
pub struct GraphNode {
    pub id: String,
    pub node_type: String,
    pub label: String,
    pub metadata: Vec<(String, String)>,
    pub is_optimistic: bool,
}

/// A knowledge-graph edge; weight in thousandths.
pub struct GraphEdge {
    pub id: String,
    pub from: String,
    pub to: String,
    pub relation: String,
    pub weight: u32,
    pub directional: bool,
    pub tone_modifier: Option<i32>,
    pub is_optimistic: bool,
}

/// Some node has identifier `id`.
pub open spec fn has_id(nodes: Seq<GraphNode>, id: Seq<char>) -> bool {
    exists|i: int| 0 <= i < nodes.len() && (#[trigger] nodes[i]).id@ == id
}

/// No two nodes share an identifier.
pub open spec fn ids_unique(nodes: Seq<GraphNode>) -> bool {
    forall|i: int, j: int| 0 <= i < nodes.len() && 0 <= j < nodes.len() && i != j ==> (#[trigger] nodes[i]).id@ != (#[trigger] nodes[j]).id@
}

/// `n` is a freshly written node with these fields and no metadata.
pub open spec fn node_is(n: GraphNode, id: Seq<char>, ty: Seq<char>, label: Seq<char>, opt: bool) -> bool {
    n.id@ == id && n.node_type@ == ty && n.label@ == label && n.metadata@.len() == 0 && n.is_optimistic == opt
}

/// `after` is `before` with the node of identifier `id` written: replaced in
/// place where one exists, appended otherwise. A confirmed node stays
/// confirmed: the written node is optimistic only if `opt` holds and any
/// node it replaces was optimistic too.
pub open spec fn upserts(
    before: Seq<GraphNode>,
    after: Seq<GraphNode>,
    id: Seq<char>,
    ty: Seq<char>,
    label: Seq<char>,
    opt: bool,
) -> bool {
    &&& after.len() == before.len() + if has_id(before, id) { 0int } else { 1int }
    &&& forall|j: int| 0 <= j < before.len() ==> if (#[trigger] before[j]).id@ == id {
        node_is(after[j], id, ty, label, opt && before[j].is_optimistic)
    } else {
        after[j] == before[j]
    }
    &&& !has_id(before, id) ==> node_is(after.last(), id, ty, label, opt)
}

/// The node with its optimistic flag cleared.
pub open spec fn confirmed_node(n: GraphNode) -> GraphNode {
    GraphNode { id: n.id, node_type: n.node_type, label: n.label, metadata: n.metadata, is_optimistic: false }
}

/// The edge with its optimistic flag cleared.
pub open spec fn confirmed_edge(e: GraphEdge) -> GraphEdge {
    GraphEdge {
        id: e.id,
        from: e.from,
        to: e.to,
        relation: e.relation,
        weight: e.weight,
        directional: e.directional,
        tone_modifier: e.tone_modifier,
        is_optimistic: false,
    }
}

/// `e` is the edge written for update `u`: identifier `edge_<a>_<b>`, the
/// update's ends and relation, weight 1 (1000) and directed unless given.
pub open spec fn edge_for(e: GraphEdge, u: GraphUpdate, opt: bool) -> bool {
    &&& e.id@ == "edge_"@ + u.node_a@ + "_"@ + u.node_b@
    &&& e.from == u.node_a
    &&& e.to == u.node_b
    &&& e.relation == u.relation
    &&& e.weight == match u.weight { Some(w) => w, None => 1000 }
    &&& e.directional == match u.directional { Some(d) => d, None => true }
    &&& e.tone_modifier == u.tone_modifier
    &&& e.is_optimistic == opt
}

/// The knowledge graph: nodes keyed by identifier, and edges in insertion order.
pub struct KnowledgeGraph {
    nodes: Vec<GraphNode>,
    edges: Vec<GraphEdge>,
}

impl KnowledgeGraph {
    /// The nodes, in insertion order.
    pub closed spec fn node_seq(&self) -> Seq<GraphNode> {
        self.nodes@
    }

    /// The edges, in insertion order.
    pub closed spec fn edge_seq(&self) -> Seq<GraphEdge> {
        self.edges@
    }

    /// Node identifiers are unique.
    pub open spec fn wf(&self) -> bool {
        ids_unique(self.node_seq())
    }

    /// An empty graph.
    pub fn new() -> (r: KnowledgeGraph)
        ensures
            r.wf(),
            r.node_seq().len() == 0,
            r.edge_seq().len() == 0,
    {
        KnowledgeGraph { nodes: Vec::new(), edges: Vec::new() }
    }

    /// Position of the node with identifier `id`.
    pub fn find_node(&self, id: &str) -> (r: Option<usize>)
        ensures
            match r {
                Some(i) => i < self.node_seq().len() && self.node_seq()[i as int].id@ == id@,
                None => !has_id(self.node_seq(), id@),
            },
    {
        let mut i: usize = 0;
        while i < self.nodes.len()
            invariant
                i <= self.nodes@.len(),
                forall|j: int| 0 <= j < i ==> (#[trigger] self.nodes@[j]).id@ != id@,
            decreases self.nodes@.len() - i,
        {
            if str_eq(self.nodes[i].id.as_str(), id) {
                return Some(i);
            }
            i += 1;
        }
        None
    }

    /// Writes a node with no metadata, replacing any node of the same
    /// identifier; a confirmed node is never made optimistic again.
    pub fn add_node(&mut self, id: String, node_type: String, label: String, optimistic: bool)
        requires
            old(self).wf(),
        ensures
            final(self).wf(),
            upserts(old(self).node_seq(), final(self).node_seq(), id@, node_type@, label@, optimistic),
            final(self).edge_seq() == old(self).edge_seq(),
    {
        let found = self.find_node(id.as_str());
        let ghost before = self.nodes@;
        let ghost idv = id@;
        let flag = match found {
            Some(i) => optimistic && self.nodes[i].is_optimistic,
            None => optimistic,
        };
        let node = GraphNode { id, node_type, label, metadata: Vec::new(), is_optimistic: flag };
        match found {
            Some(i) => {
                self.nodes.remove(i);
                self.nodes.insert(i, node);
                assert(self.nodes@ =~= before.update(i as int, node));
                assert forall|j: int| 0 <= j < before.len() implies (#[trigger] before[j]).id@ == idv <==> j == i by {
                    if j != i && before[j].id@ == idv {
                        assert(before[i as int].id@ == idv);
                    }
                }
            },
            None => {
                self.nodes.push(node);
            },
        }
    }

    /// Clears the optimistic flag of the node with identifier `id`, if any.
    pub fn confirm_node(&mut self, id: &str)
        requires
            old(self).wf(),
        ensures
            final(self).wf(),
            final(self).node_seq().len() == old(self).node_seq().len(),
            forall|j: int| 0 <= j < old(self).node_seq().len() ==> #[trigger] final(self).node_seq()[j] == if old(self).node_seq()[j].id@ == id@ {
                confirmed_node(old(self).node_seq()[j])
            } else {
                old(self).node_seq()[j]
            },
            final(self).edge_seq() == old(self).edge_seq(),
    {
        let ghost before = self.nodes@;
        match self.find_node(id) {
            Some(i) => {
                let mut n = self.nodes.remove(i);
                n.is_optimistic = false;
                self.nodes.insert(i, n);
                assert(self.nodes@ =~= before.update(i as int, confirmed_node(before[i as int])));
                assert forall|j: int| 0 <= j < before.len() implies (#[trigger] before[j]).id@ == id@ <==> j == i by {
                    if j != i && before[j].id@ == id@ {
                        assert(before[i as int].id@ == id@);
                    }
                }
            },
            None => {},
        }
    }

    /// Adds the edge of a graph update, first writing both end nodes (type
    /// `entity`, labelled by their identifiers). The edge's identifier is
    /// `edge_<a>_<b>`; a missing weight is 1 (1000 thousandths) and a missing
    /// direction is directed.
    pub fn add_edge(&mut self, update: GraphUpdate, optimistic: bool)
        requires
            old(self).wf(),
        ensures
            final(self).wf(),
            exists|mid: Seq<GraphNode>|
                upserts(old(self).node_seq(), mid, update.node_a@, "entity"@, update.node_a@, optimistic)
                && upserts(mid, final(self).node_seq(), update.node_b@, "entity"@, update.node_b@, optimistic),
            final(self).edge_seq().len() == old(self).edge_seq().len() + 1,
            final(self).edge_seq().drop_last() == old(self).edge_seq(),
            edge_for(final(self).edge_seq().last(), update, optimistic),
    {
        self.add_node(update.node_a.clone(), String::from_str("entity"), update.node_a.clone(), optimistic);
        let ghost mid = self.nodes@;
        self.add_node(update.node_b.clone(), String::from_str("entity"), update.node_b.clone(), optimistic);
        let mut id = String::new();
        push_str(&mut id, "edge_");
        push_str(&mut id, update.node_a.as_str());
        push_str(&mut id, "_");
        push_str(&mut id, update.node_b.as_str());
        assert(id@ =~= "edge_"@ + update.node_a@ + "_"@ + update.node_b@);
        let weight = match update.weight { Some(w) => w, None => 1000 };
        let directional = match update.directional { Some(d) => d, None => true };
        let ghost before_edges = self.edges@;
        self.edges.push(GraphEdge {
            id,
            from: update.node_a,
            to: update.node_b,
            relation: update.relation,
            weight,
            directional,
            tone_modifier: update.tone_modifier,
            is_optimistic: optimistic,
        });
        assert(self.edges@.drop_last() == before_edges);
    }

    /// Removes every optimistic node and edge; confirmed ones stay, in order.
    pub fn rollback_optimistic(&mut self)
        requires
            old(self).wf(),
        ensures
            final(self).wf(),
            final(self).node_seq() == old(self).node_seq().filter(|n: GraphNode| !n.is_optimistic),
            final(self).edge_seq() == old(self).edge_seq().filter(|e: GraphEdge| !e.is_optimistic),
    {
        let ghost orig = self.nodes@;
        let mut src: Vec<GraphNode> = Vec::new();
        core::mem::swap(&mut src, &mut self.nodes);
        let n = src.len();
        let mut k: usize = 0;
        while k < n
            invariant
                n == orig.len(),
                k <= n,
                ids_unique(orig),
                src@ == orig.subrange(k as int, n as int),
                self.nodes@ == orig.subrange(0, k as int).filter(|x: GraphNode| !x.is_optimistic),
                self.edges@ == old(self).edges@,
                ids_unique(self.nodes@),
                forall|r: int| 0 <= r < self.nodes@.len() ==> exists|j: int| 0 <= j < k && (#[trigger] self.nodes@[r]) == orig[j],
            decreases n - k,
        {
            let x = src.remove(0);
            proof {
                reveal(Seq::filter);
                assert(orig.subrange(0, k + 1).drop_last() == orig.subrange(0, k as int));
            }
            if !x.is_optimistic {
                proof {
                    assert forall|r: int| 0 <= r < self.nodes@.len() implies (#[trigger] self.nodes@[r]).id@ != x.id@ by {
                        let j = choose|j: int| 0 <= j < k && self.nodes@[r] == orig[j];
                        assert(orig[j] == self.nodes@[r]);
                        assert(orig[k as int] == x);
                    }
                }
                let ghost prev = self.nodes@;
                self.nodes.push(x);
                proof {
                    assert forall|r: int| 0 <= r < self.nodes@.len() implies exists|j: int| 0 <= j < k + 1 && (#[trigger] self.nodes@[r]) == orig[j] by {
                        if r < prev.len() {
                            let j = choose|j: int| 0 <= j < k && prev[r] == orig[j];
                            assert(self.nodes@[r] == orig[j]);
                        } else {
                            assert(self.nodes@[r] == orig[k as int]);
                        }
                    }
                }
            }
            k += 1;
        }
        assert(orig.subrange(0, n as int) == orig);

        let ghost orig_e = self.edges@;
        let mut src_e: Vec<GraphEdge> = Vec::new();
        core::mem::swap(&mut src_e, &mut self.edges);
        let m = src_e.len();
        let mut q: usize = 0;
        while q < m
            invariant
                m == orig_e.len(),
                q <= m,
                src_e@ == orig_e.subrange(q as int, m as int),
                self.edges@ == orig_e.subrange(0, q as int).filter(|x: GraphEdge| !x.is_optimistic),
                self.nodes@ == orig.filter(|x: GraphNode| !x.is_optimistic),
                ids_unique(self.nodes@),
            decreases m - q,
        {
            let e = src_e.remove(0);
            proof {
                reveal(Seq::filter);
                assert(orig_e.subrange(0, q + 1).drop_last() == orig_e.subrange(0, q as int));
            }
            if !e.is_optimistic {
                self.edges.push(e);
            }
            q += 1;
        }
        assert(orig_e.subrange(0, m as int) == orig_e);
    }

    /// Clears the optimistic flag of every node and edge.
    pub fn confirm_all_optimistic(&mut self)
        requires
            old(self).wf(),
        ensures
            final(self).wf(),
            final(self).node_seq() == old(self).node_seq().map_values(|n: GraphNode| confirmed_node(n)),
            final(self).edge_seq() == old(self).edge_seq().map_values(|e: GraphEdge| confirmed_edge(e)),
    {
        let ghost orig = self.nodes@;
        let mut src: Vec<GraphNode> = Vec::new();
        core::mem::swap(&mut src, &mut self.nodes);
        let n = src.len();
        let mut k: usize = 0;
        while k < n
            invariant
                n == orig.len(),
                k <= n,
                src@ == orig.subrange(k as int, n as int),
                self.nodes@ == orig.subrange(0, k as int).map_values(|x: GraphNode| confirmed_node(x)),
                self.edges@ == old(self).edges@,
            decreases n - k,
        {
            let mut x = src.remove(0);
            x.is_optimistic = false;
            self.nodes.push(x);
            assert(self.nodes@ =~= orig.subrange(0, k + 1).map_values(|x: GraphNode| confirmed_node(x)));
            k += 1;
        }
        assert(orig.subrange(0, n as int) == orig);
        assert(self.nodes@ =~= orig.map_values(|x: GraphNode| confirmed_node(x)));
        let ghost orig_e = self.edges@;
        let mut src_e: Vec<GraphEdge> = Vec::new();
        core::mem::swap(&mut src_e, &mut self.edges);
        let m = src_e.len();
        let mut q: usize = 0;
        while q < m
            invariant
                m == orig_e.len(),
                q <= m,
                src_e@ == orig_e.subrange(q as int, m as int),
                self.edges@ == orig_e.subrange(0, q as int).map_values(|x: GraphEdge| confirmed_edge(x)),
                self.nodes@ == orig.map_values(|x: GraphNode| confirmed_node(x)),
            decreases m - q,
        {
            let mut e = src_e.remove(0);
            e.is_optimistic = false;
            self.edges.push(e);
            assert(self.edges@ =~= orig_e.subrange(0, q + 1).map_values(|x: GraphEdge| confirmed_edge(x)));
            q += 1;
        }
        assert(orig_e.subrange(0, m as int) == orig_e);
        assert(self.edges@ =~= orig_e.map_values(|x: GraphEdge| confirmed_edge(x)));
        assert(ids_unique(self.nodes@)) by {
            assert forall|i: int, j: int| 0 <= i < self.nodes@.len() && 0 <= j < self.nodes@.len() && i != j
                implies (#[trigger] self.nodes@[i]).id@ != (#[trigger] self.nodes@[j]).id@ by {
                assert(self.nodes@[i].id == orig[i].id);
                assert(self.nodes@[j].id == orig[j].id);
            }
        }
    }

    /// The nodes and edges.
    pub fn get_graph_data(&self) -> (r: (&Vec<GraphNode>, &Vec<GraphEdge>))
        ensures
            r.0@ == self.node_seq(),
            r.1@ == self.edge_seq(),
    {
        (&self.nodes, &self.edges)
    }

    /// Removes every node and edge.
    pub fn clear(&mut self)
        ensures
            final(self).wf(),
            final(self).node_seq().len() == 0,
            final(self).edge_seq().len() == 0,
    {
        self.nodes = Vec::new();
        self.edges = Vec::new();
    }
}

/// The two ways to close a pending speculative window are exclusive: given
/// an unconfirmed node, confirming all keeps it (same identifier, now
/// confirmed), while rolling back removes every node with its identifier.
pub proof fn lemma_confirm_or_rollback(nodes: Seq<GraphNode>, i: int)
    requires
        ids_unique(nodes),
        0 <= i < nodes.len(),
        nodes[i].is_optimistic,
    ensures
        ({
            let confirmed = nodes.map_values(|n: GraphNode| confirmed_node(n));
            &&& confirmed[i].id == nodes[i].id
            &&& !confirmed[i].is_optimistic
            &&& has_id(confirmed, nodes[i].id@)
        }),
        !has_id(nodes.filter(|n: GraphNode| !n.is_optimistic), nodes[i].id@),
{
    let f = nodes.filter(|n: GraphNode| !n.is_optimistic);
    let confirmed = nodes.map_values(|n: GraphNode| confirmed_node(n));
    assert(confirmed[i] == confirmed_node(nodes[i]));
    assert(has_id(confirmed, nodes[i].id@));
    if has_id(f, nodes[i].id@) {
        let r = choose|r: int| 0 <= r < f.len() && (#[trigger] f[r]).id@ == nodes[i].id@;
        nodes.lemma_filter_contains_rev(|n: GraphNode| !n.is_optimistic, f[r]);
        broadcast use vstd::seq_lib::group_filter_ensures;
        assert(f.contains(f[r]));
        let j = choose|j: int| 0 <= j < nodes.len() && nodes[j] == f[r];
        assert(!f[r].is_optimistic);
        assert(j != i);
        assert(false);
    }
}

/// The view of an optional string.
pub open spec fn opt_str(o: Option<String>) -> Option<Seq<char>> {
    match o {
        Some(s) => Some(s@),
        None => None,
    }
}

/// Some category of `cats` is in `allowed`.
pub open spec fn any_allowed(cats: Seq<String>, allowed: Seq<String>) -> bool {
    exists|i: int, j: int| 0 <= i < cats.len() && 0 <= j < allowed.len() && (#[trigger] cats[i])@ == (#[trigger] allowed[j])@
}

/// Whether some category of `cats` is in `allowed`.
pub fn any_category_allowed(cats: &Vec<String>, allowed: &Vec<String>) -> (r: bool)
    ensures
        r == any_allowed(cats@, allowed@),
{
    let mut i: usize = 0;
    while i < cats.len()
        invariant
            i <= cats@.len(),
            forall|a: int, j: int| 0 <= a < i && 0 <= j < allowed@.len() ==> (#[trigger] cats@[a])@ != (#[trigger] allowed@[j])@,
        decreases cats@.len() - i,
    {
        let mut j: usize = 0;
        while j < allowed.len()
            invariant
                i < cats@.len(),
                j <= allowed@.len(),
                forall|a: int, k: int| 0 <= a < i && 0 <= k < allowed@.len() ==> (#[trigger] cats@[a])@ != (#[trigger] allowed@[k])@,
                forall|k: int| 0 <= k < j ==> cats@[i as int]@ != (#[trigger] allowed@[k])@,
            decreases allowed@.len() - j,
        {
            if cats[i] == allowed[j] {
                return true;
            }
            j += 1;
        }
        i += 1;
    }
    false
}

/// Configuration read by the processor.
pub struct ProcessingSettings {
    /// Records below this confidence (thousandths) are suppressed.
    pub confidence_threshold: u32,
    /// How eagerly optimistic predictions are made (thousandths).
    pub prediction_aggression: u32,
    /// Consecutive parse failures after which the streak is reported exceeded.
    pub max_error_streak: u32,
    /// Whether optimistic predictions are made.
    pub enable_optimistic: bool,
    /// Categories to keep; empty keeps all.
    pub categories_filter: Vec<String>,
}

/// The whole category vocabulary, in its fixed order.
pub open spec fn all_categories() -> Seq<Seq<char>> {
    seq!["TASK"@, "DECISION"@, "DEADLINE"@, "QUERY"@, "ACTION_ITEM"@, "RISK"@, "SENTIMENT"@, "URGENCY"@,
        "INTERRUPTION"@, "AGREEMENT"@, "DISAGREEMENT"@, "OFF_TOPIC"@, "EMOTION_SHIFT"@, "DOMINANCE_SHIFT"@,
        "EMPATHY_GAP"@, "TOPIC_DRIFT"@]
}

impl ProcessingSettings {
    /// Threshold 0.5, aggression 0.5, streak limit 5, optimistic predictions
    /// on, and every category of the vocabulary allowed.
    pub fn new() -> (r: ProcessingSettings)
        ensures
            r.confidence_threshold == 500,
            r.prediction_aggression == 500,
            r.max_error_streak == 5,
            r.enable_optimistic,
            r.categories_filter@.map_values(|c: String| c@) == all_categories(),
    {
        let mut cats: Vec<String> = Vec::new();
        cats.push(String::from_str("TASK"));
        cats.push(String::from_str("DECISION"));
        cats.push(String::from_str("DEADLINE"));
        cats.push(String::from_str("QUERY"));
        cats.push(String::from_str("ACTION_ITEM"));
        cats.push(String::from_str("RISK"));
        cats.push(String::from_str("SENTIMENT"));
        cats.push(String::from_str("URGENCY"));
        cats.push(String::from_str("INTERRUPTION"));
        cats.push(String::from_str("AGREEMENT"));
        cats.push(String::from_str("DISAGREEMENT"));
        cats.push(String::from_str("OFF_TOPIC"));
        cats.push(String::from_str("EMOTION_SHIFT"));
        cats.push(String::from_str("DOMINANCE_SHIFT"));
        cats.push(String::from_str("EMPATHY_GAP"));
        cats.push(String::from_str("TOPIC_DRIFT"));
        assert(cats@.map_values(|c: String| c@) =~= all_categories());
        ProcessingSettings {
            confidence_threshold: 500,
            prediction_aggression: 500,
            max_error_streak: 5,
            enable_optimistic: true,
            categories_filter: cats,
        }
    }
}

/// Why a response was not accepted.
#[derive(Debug)]
pub enum ProcessingError {
    /// The text is not a record.
    ParseError(String),
    /// A category is outside the vocabulary.
    InvalidCategory,
    /// The tone is outside the vocabulary.
    InvalidTone,
    /// Too many parse failures in a row; carries the streak.
    ErrorStreakExceeded(u32),
}

/// A speculative prediction made from partial text.
pub struct OptimisticPrediction {
    pub id: String,
    pub predicted_text: String,
    pub predicted_category: Option<String>,
    pub confidence: u32,
    pub timestamp_ms: u64,
    pub confirmed: bool,
    pub replaced_by: Option<String>,
}

/// Confidence given to every prediction (thousandths).
pub const PREDICTION_CONFIDENCE: u32 = 300;

impl OptimisticPrediction {
    /// An unconfirmed low-confidence prediction stamped with the current
    /// time; its identifier is `opt_<timestamp>`.
    pub fn new(text: String, category: Option<String>) -> (r: OptimisticPrediction)
        ensures
            r.predicted_text == text,
            r.predicted_category == category,
            r.confidence == PREDICTION_CONFIDENCE,
            r.id@ == "opt_"@ + decimal(r.timestamp_ms as nat),
            !r.confirmed,
            r.replaced_by.is_none(),
    {
        let now = now_ms();
        let mut id = String::new();
        push_str(&mut id, "opt_");
        push_decimal(&mut id, now);
        assert(id@ =~= "opt_"@ + decimal(now as nat));
        OptimisticPrediction {
            id,
            predicted_text: text,
            predicted_category: category,
            confidence: PREDICTION_CONFIDENCE,
            timestamp_ms: now,
            confirmed: false,
            replaced_by: None,
        }
    }

    /// A field-for-field copy.
    pub fn duplicate(&self) -> (r: OptimisticPrediction)
        ensures
            r == *self,
    {
        OptimisticPrediction {
            id: self.id.clone(),
            predicted_text: self.predicted_text.clone(),
            predicted_category: copy_opt_string(&self.predicted_category),
            confidence: self.confidence,
            timestamp_ms: self.timestamp_ms,
            confirmed: self.confirmed,
            replaced_by: copy_opt_string(&self.replaced_by),
        }
    }
}

/// The processor's state: cache, error streak, pending predictions,
/// settings and knowledge graph.
pub struct ProcessingEngineState {
    pub cache: ResponseCache,
    pub error_streak: u32,
    pub optimistic_buffer: VecDeque<OptimisticPrediction>,
    pub settings: ProcessingSettings,
    pub graph: KnowledgeGraph,
}

/// Capacity of the processor's response cache.
pub const CACHE_CAPACITY: usize = 100;

impl ProcessingEngineState {
    /// The cache and the graph are well formed.
    pub open spec fn wf(&self) -> bool {
        self.cache.wf() && self.graph.wf()
    }

    /// Empty cache of capacity 100, no streak, no predictions, default
    /// settings, empty graph.
    pub fn new() -> (r: ProcessingEngineState)
        ensures
            r.wf(),
            r.cache.contents().len() == 0,
            r.cache.capacity() == CACHE_CAPACITY,
            r.error_streak == 0,
            r.optimistic_buffer@.len() == 0,
            r.settings.max_error_streak == 5,
            r.graph.node_seq().len() == 0,
            r.graph.edge_seq().len() == 0,
    {
        ProcessingEngineState {
            cache: ResponseCache::new(CACHE_CAPACITY),
            error_streak: 0,
            optimistic_buffer: VecDeque::new(),
            settings: ProcessingSettings::new(),
            graph: KnowledgeGraph::new(),
        }
    }
}

/// The streak after one more parse failure (it saturates).
pub open spec fn bumped(streak: u32) -> u32 {
    if streak < u32::MAX { (streak + 1) as u32 } else { streak }
}

/// A parsed record passes the confidence and category filters.
pub open spec fn passes_filters(out: IntelligenceOutput, settings: ProcessingSettings) -> bool {
    &&& out.intelligence.confidence >= settings.confidence_threshold
    &&& (settings.categories_filter@.len() == 0 || any_allowed(out.intelligence.category@, settings.categories_filter@))
}

/// Handles one response, already parsed by the caller (`Err` carries the
/// parse failure). A failure raises the error streak and is reported as
/// `ErrorStreakExceeded` once the streak had already reached the maximum,
/// else as `ParseError`: the first `max_error_streak` failures in a row are
/// parse errors and the one after them is the first reported as exceeded. A parsed record resets the streak; a vocabulary
/// violation is an error; a record below the confidence threshold, or
/// outside a non-empty category allow-list, is accepted but suppressed
/// (`Ok(None)`). Otherwise the record is cached, its graph updates are
/// applied as confirmed entries, every optimistic entry is confirmed, and
/// the record is returned.
pub fn process_intelligence(
    state: &mut ProcessingEngineState,
    parsed: Result<IntelligenceOutput, String>,
) -> (r: Result<Option<IntelligenceOutput>, ProcessingError>)
    requires
        old(state).wf(),
    ensures
        final(state).wf(),
        final(state).settings == old(state).settings,
        final(state).cache.capacity() == old(state).cache.capacity(),
        final(state).optimistic_buffer@ == old(state).optimistic_buffer@,
        match parsed {
            Err(e) => {
                &&& final(state).error_streak == bumped(old(state).error_streak)
                &&& if old(state).error_streak >= old(state).settings.max_error_streak {
                    r == Err::<Option<IntelligenceOutput>, ProcessingError>(
                        ProcessingError::ErrorStreakExceeded(bumped(old(state).error_streak)),
                    )
                } else {
                    r == Err::<Option<IntelligenceOutput>, ProcessingError>(ProcessingError::ParseError(e))
                }
                &&& final(state).cache.contents() == old(state).cache.contents()
                &&& final(state).graph == old(state).graph
            },
            Ok(out) => {
                &&& final(state).error_streak == 0
                &&& !categories_valid(out.intelligence.category@) ==> r == Err::<
                    Option<IntelligenceOutput>,
                    ProcessingError,
                >(ProcessingError::InvalidCategory)
                &&& categories_valid(out.intelligence.category@) && !tone_valid(out.intelligence.tone)
                    ==> r == Err::<Option<IntelligenceOutput>, ProcessingError>(ProcessingError::InvalidTone)
                &&& categories_valid(out.intelligence.category@) && tone_valid(out.intelligence.tone)
                    && !passes_filters(out, old(state).settings) ==> r == Ok::<
                    Option<IntelligenceOutput>,
                    ProcessingError,
                >(None)
                &&& !(categories_valid(out.intelligence.category@) && tone_valid(out.intelligence.tone)
                    && passes_filters(out, old(state).settings)) ==> {
                    &&& final(state).cache.contents() == old(state).cache.contents()
                    &&& final(state).graph == old(state).graph
                }
                &&& categories_valid(out.intelligence.category@) && tone_valid(out.intelligence.tone)
                    && passes_filters(out, old(state).settings) ==> {
                    &&& r == Ok::<Option<IntelligenceOutput>, ProcessingError>(Some(out))
                    &&& exists|d: IntelligenceOutput| same_output(d, out)
                        && final(state).cache.contents() == cache_insert(
                        old(state).cache.contents(),
                        old(state).cache.capacity(),
                        d,
                    )
                    &&& final(state).graph.edge_seq().len() == old(state).graph.edge_seq().len()
                        + match out.intelligence.graph_updates { Some(u) => u@.len() as int, None => 0int }
                    &&& forall|k: int| 0 <= k < old(state).graph.edge_seq().len()
                        ==> #[trigger] final(state).graph.edge_seq()[k] == confirmed_edge(old(state).graph.edge_seq()[k])
                    &&& match out.intelligence.graph_updates {
                        Some(u) => {
                            &&& forall|k: int| 0 <= k < u@.len() ==> edge_for(
                                #[trigger] final(state).graph.edge_seq()[old(state).graph.edge_seq().len() + k],
                                u@[k],
                                false,
                            )
                            &&& forall|k: int| 0 <= k < u@.len()
                                ==> has_id(final(state).graph.node_seq(), (#[trigger] u@[k]).node_a@)
                                && has_id(final(state).graph.node_seq(), u@[k].node_b@)
                        },
                        None => true,
                    }
                    &&& forall|i: int| 0 <= i < final(state).graph.node_seq().len()
                        ==> !(#[trigger] final(state).graph.node_seq()[i]).is_optimistic
                    &&& forall|i: int| 0 <= i < final(state).graph.edge_seq().len()
                        ==> !(#[trigger] final(state).graph.edge_seq()[i]).is_optimistic
                    &&& forall|i: int| 0 <= i < old(state).graph.node_seq().len()
                        ==> has_id(final(state).graph.node_seq(), (#[trigger] old(state).graph.node_seq()[i]).id@)
                }
            },
        },
{
    match parsed {
        Err(e) => {
            let before = state.error_streak;
            if state.error_streak < u32::MAX {
                state.error_streak = state.error_streak + 1;
            }
            if before >= state.settings.max_error_streak {
                return Err(ProcessingError::ErrorStreakExceeded(state.error_streak));
            }
            Err(ProcessingError::ParseError(e))
        },
        Ok(output) => {
            state.error_streak = 0;
            if !validate_category(output.intelligence.category.as_slice()) {
                return Err(ProcessingError::InvalidCategory);
            }
            if !validate_tone(&output.intelligence.tone) {
                return Err(ProcessingError::InvalidTone);
            }
            if output.intelligence.confidence < state.settings.confidence_threshold {
                return Ok(None);
            }
            let matching = any_category_allowed(&output.intelligence.category, &state.settings.categories_filter);
            if !matching && state.settings.categories_filter.len() != 0 {
                return Ok(None);
            }
            let copy = output.duplicate();
            state.cache.add(copy);
            let ghost old_nodes = state.graph.node_seq();
            let ghost old_edges = state.graph.edge_seq();
            match &output.intelligence.graph_updates {
                Some(updates) => {
                    let mut i: usize = 0;
                    while i < updates.len()
                        invariant
                            i <= updates@.len(),
                            state.graph.wf(),
                            state.graph.edge_seq().len() == old_edges.len() + i,
                            state.graph.edge_seq().subrange(0, old_edges.len() as int) == old_edges,
                            forall|k: int| 0 <= k < i ==> edge_for(#[trigger] state.graph.edge_seq()[old_edges.len() + k], updates@[k], false),
                            forall|k: int| 0 <= k < i ==> has_id(state.graph.node_seq(), (#[trigger] updates@[k]).node_a@)
                                && has_id(state.graph.node_seq(), updates@[k].node_b@),
                            forall|k: int| 0 <= k < old_nodes.len()
                                ==> has_id(state.graph.node_seq(), (#[trigger] old_nodes[k]).id@),
                            state.cache.wf(),
                            state.cache.capacity() == old(state).cache.capacity(),
                            state.cache.contents() == cache_insert(old(state).cache.contents(), old(state).cache.capacity(), copy),
                            state.settings == old(state).settings,
                            state.optimistic_buffer@ == old(state).optimistic_buffer@,
                            state.error_streak == 0,
                        decreases updates@.len() - i,
                    {
                        let ghost pre = state.graph.node_seq();
                        let ghost pre_edges = state.graph.edge_seq();
                        state.graph.add_edge(updates[i].duplicate(), false);
                        proof {
                            let post_edges = state.graph.edge_seq();
                            assert(post_edges.subrange(0, old_edges.len() as int) =~= pre_edges.subrange(0, old_edges.len() as int));
                            assert forall|k: int| 0 <= k < i + 1 implies edge_for(#[trigger] post_edges[old_edges.len() + k], updates@[k], false) by {
                                if k < i {
                                    assert(post_edges[old_edges.len() + k] == pre_edges[old_edges.len() + k]);
                                }
                            }
                        }
                        proof {
                            let post = state.graph.node_seq();
                            let mid = choose|mid: Seq<GraphNode>|
                                upserts(pre, mid, updates@[i as int].node_a@, "entity"@, updates@[i as int].node_a@, false)
                                && upserts(mid, post, updates@[i as int].node_b@, "entity"@, updates@[i as int].node_b@, false);
                            assert forall|k: int| 0 <= k < old_nodes.len()
                                implies has_id(post, (#[trigger] old_nodes[k]).id@) by {
                                lemma_upsert_keeps_ids(pre, mid, updates@[i as int].node_a@, "entity"@, updates@[i as int].node_a@, false, old_nodes[k].id@);
                                lemma_upsert_keeps_ids(mid, post, updates@[i as int].node_b@, "entity"@, updates@[i as int].node_b@, false, old_nodes[k].id@);
                            }
                            lemma_upsert_has_id(pre, mid, updates@[i as int].node_a@, "entity"@, updates@[i as int].node_a@, false);
                            lemma_upsert_keeps_ids(mid, post, updates@[i as int].node_b@, "entity"@, updates@[i as int].node_b@, false, updates@[i as int].node_a@);
                            lemma_upsert_has_id(mid, post, updates@[i as int].node_b@, "entity"@, updates@[i as int].node_b@, false);
                            assert forall|k: int| 0 <= k < i + 1 implies has_id(post, (#[trigger] updates@[k]).node_a@)
                                && has_id(post, updates@[k].node_b@) by {
                                if k < i {
                                    lemma_upsert_keeps_ids(pre, mid, updates@[i as int].node_a@, "entity"@, updates@[i as int].node_a@, false, updates@[k].node_a@);
                                    lemma_upsert_keeps_ids(mid, post, updates@[i as int].node_b@, "entity"@, updates@[i as int].node_b@, false, updates@[k].node_a@);
                                    lemma_upsert_keeps_ids(pre, mid, updates@[i as int].node_a@, "entity"@, updates@[i as int].node_a@, false, updates@[k].node_b@);
                                    lemma_upsert_keeps_ids(mid, post, updates@[i as int].node_b@, "entity"@, updates@[i as int].node_b@, false, updates@[k].node_b@);
                                }
                            }
                        }
                        i += 1;
                    }
                },
                None => {},
            }
            let ghost pre_confirm = state.graph.node_seq();
            let ghost pre_confirm_edges = state.graph.edge_seq();
            state.graph.confirm_all_optimistic();
            proof {
                assert forall|k: int| 0 <= k < old_edges.len() implies
                    #[trigger] state.graph.edge_seq()[k] == confirmed_edge(old_edges[k]) by {
                    assert(pre_confirm_edges.subrange(0, old_edges.len() as int)[k] == pre_confirm_edges[k]);
                }
                match &output.intelligence.graph_updates {
                    Some(u) => {
                        assert forall|k: int| 0 <= k < u@.len() implies edge_for(
                            #[trigger] state.graph.edge_seq()[old_edges.len() + k], u@[k], false) by {
                            assert(state.graph.edge_seq()[old_edges.len() + k] == confirmed_edge(pre_confirm_edges[old_edges.len() + k]));
                        }
                        assert forall|k: int| 0 <= k < u@.len() implies has_id(state.graph.node_seq(), (#[trigger] u@[k]).node_a@)
                            && has_id(state.graph.node_seq(), u@[k].node_b@) by {
                            let ja = choose|j: int| 0 <= j < pre_confirm.len() && (#[trigger] pre_confirm[j]).id@ == u@[k].node_a@;
                            assert(state.graph.node_seq()[ja] == confirmed_node(pre_confirm[ja]));
                            let jb = choose|j: int| 0 <= j < pre_confirm.len() && (#[trigger] pre_confirm[j]).id@ == u@[k].node_b@;
                            assert(state.graph.node_seq()[jb] == confirmed_node(pre_confirm[jb]));
                        }
                    },
                    None => {},
                }
                assert forall|k: int| 0 <= k < old_nodes.len()
                    implies has_id(state.graph.node_seq(), (#[trigger] old_nodes[k]).id@) by {
                    let j = choose|j: int| 0 <= j < pre_confirm.len() && (#[trigger] pre_confirm[j]).id@ == old_nodes[k].id@;
                    assert(state.graph.node_seq()[j] == confirmed_node(pre_confirm[j]));
                }
            }
            Ok(Some(output))
        },
    }
}

proof fn lemma_upsert_has_id(
    before: Seq<GraphNode>,
    after: Seq<GraphNode>,
    id: Seq<char>,
    ty: Seq<char>,
    label: Seq<char>,
    opt: bool,
)
    requires
        upserts(before, after, id, ty, label, opt),
    ensures
        has_id(after, id),
{
    if has_id(before, id) {
        let j = choose|j: int| 0 <= j < before.len() && (#[trigger] before[j]).id@ == id;
        assert(after[j].id@ == id);
    } else {
        assert(after[after.len() - 1].id@ == id);
    }
}

proof fn lemma_upsert_keeps_ids(
    before: Seq<GraphNode>,
    after: Seq<GraphNode>,
    id: Seq<char>,
    ty: Seq<char>,
    label: Seq<char>,
    opt: bool,
    x: Seq<char>,
)
    requires
        upserts(before, after, id, ty, label, opt),
        has_id(before, x),
    ensures
        has_id(after, x),
{
    let j = choose|j: int| 0 <= j < before.len() && (#[trigger] before[j]).id@ == x;
    if before[j].id@ == id {
        assert(after[j].id@ == x);
    } else {
        assert(after[j] == before[j]);
    }
}

/// The error streak after a history of responses (`true` for a parsed
/// one), starting from zero.
pub open spec fn streak_after(history: Seq<bool>) -> u32
    decreases history.len(),
{
    if history.len() == 0 {
        0
    } else if history.last() {
        0
    } else {
        bumped(streak_after(history.drop_last()))
    }
}

/// Number of parse failures at the end of a history.
pub open spec fn trailing_failures(history: Seq<bool>) -> nat
    decreases history.len(),
{
    if history.len() == 0 || history.last() {
        0
    } else {
        trailing_failures(history.drop_last()) + 1
    }
}

/// The error streak counts the parse failures since the last parsed
/// response (any parsed response resets it to zero), and the next failure
/// is reported as exceeded exactly when that count has reached the maximum:
/// after `max` failures in a row, the next one is `ErrorStreakExceeded`.
pub proof fn lemma_error_streak(history: Seq<bool>, max: u32)
    requires
        history.len() < u32::MAX,
    ensures
        streak_after(history) == trailing_failures(history),
        (streak_after(history) >= max) <==> (trailing_failures(history) >= max),
        history.len() > 0 && history.last() ==> streak_after(history) == 0,
    decreases history.len(),
{
    if history.len() > 0 {
        lemma_error_streak(history.drop_last(), max);
        lemma_trailing_bound(history.drop_last());
    }
}

proof fn lemma_trailing_bound(history: Seq<bool>)
    ensures
        trailing_failures(history) <= history.len(),
    decreases history.len(),
{
    if history.len() > 0 {
        lemma_trailing_bound(history.drop_last());
    }
}

/// Whether a parsed record is schema- and vocabulary-valid: a parse failure
/// is returned as is, a vocabulary violation as `Invalid category` or
/// `Invalid tone`.
pub fn validate_json_schema(parsed: Result<IntelligenceOutput, String>) -> (r: Result<bool, String>)
    ensures
        match parsed {
            Err(e) => r == Err::<bool, String>(e),
            Ok(out) => if !categories_valid(out.intelligence.category@) {
                r matches Err(m) && m@ == "Invalid category"@
            } else if !tone_valid(out.intelligence.tone) {
                r matches Err(m) && m@ == "Invalid tone"@
            } else {
                r == Ok::<bool, String>(true)
            },
        },
{
    match parsed {
        Ok(output) => {
            if !validate_category(output.intelligence.category.as_slice()) {
                return Err(String::from_str("Invalid category"));
            }
            if !validate_tone(&output.intelligence.tone) {
                return Err(String::from_str("Invalid tone"));
            }
            Ok(true)
        },
        Err(e) => Err(e),
    }
}

/// A record entered by hand: speaker `MANUAL`, final, the one category
/// given, summary `Manually injected`, tone `NEUTRAL`, stamped now.
pub fn inject_manual_intelligence(text: String, category: String, confidence: u32) -> (r: IntelligenceOutput)
    ensures
        r.speaker_id@ == "MANUAL"@,
        r.transcript_chunk == text,
        r.is_final,
        r.intelligence.category@ == seq![category],
        opt_str(r.intelligence.summary) == Some("Manually injected"@),
        opt_str(r.intelligence.tone) == Some("NEUTRAL"@),
        r.intelligence.confidence == confidence,
        r.intelligence.entities.is_none(),
        r.intelligence.graph_updates.is_none(),
{
    let mut cats: Vec<String> = Vec::new();
    cats.push(category);
    IntelligenceOutput {
        timestamp_ms: now_ms(),
        speaker_id: String::from_str("MANUAL"),
        transcript_chunk: text,
        is_final: true,
        intelligence: Intelligence {
            category: cats,
            summary: Some(String::from_str("Manually injected")),
            tone: Some(String::from_str("NEUTRAL")),
            confidence,
            entities: None,
            graph_updates: None,
        },
    }
}

/// The lowercase form of a string, as `str::to_lowercase` gives it.
pub uninterp spec fn lower_of(s: Seq<char>) -> Seq<char>;

/// Relies on `str::to_lowercase`: the Unicode lowercase mapping, which
/// depends on the characters alone.
#[verifier::external_body]
fn to_lowercase(s: &str) -> (r: String)
    ensures
        r@ == lower_of(s@),
{
    s.to_lowercase()
}

/// The category hinted by keywords in lowercase text, tried in order:
/// task, decision, deadline, risk, urgency.
pub open spec fn keyword_category(t: Seq<char>) -> Option<Seq<char>> {
    if has_substring(t, "todo"@) || has_substring(t, "need to"@) || has_substring(t, "should"@)
        || has_substring(t, "must"@) || has_substring(t, "karna hai"@) || has_substring(t, "kar do"@) {
        Some("TASK"@)
    } else if has_substring(t, "decided"@) || has_substring(t, "let's go with"@) || has_substring(t, "final"@)
        || has_substring(t, "faisla"@) {
        Some("DECISION"@)
    } else if has_substring(t, "by tomorrow"@) || has_substring(t, "deadline"@) || has_substring(t, "due"@)
        || has_substring(t, "kal tak"@) {
        Some("DEADLINE"@)
    } else if has_substring(t, "risk"@) || has_substring(t, "problem"@) || has_substring(t, "issue"@)
        || has_substring(t, "masla"@) {
        Some("RISK"@)
    } else if has_substring(t, "urgent"@) || has_substring(t, "asap"@) || has_substring(t, "jaldi"@)
        || has_substring(t, "abhi"@) {
        Some("URGENCY"@)
    } else {
        None
    }
}

fn mentions(t: &Vec<char>, k: &str) -> (r: bool)
    ensures
        r == has_substring(t@, k@),
{
    let kc = chars_of(k);
    contains_chars(t, &kc)
}

/// The category hinted by keywords in text that is already lowercase.
pub fn classify_lowered(lowered: &str) -> (r: Option<String>)
    ensures
        opt_str(r) == keyword_category(lowered@),
{
    let t = chars_of(lowered);
    if mentions(&t, "todo") || mentions(&t, "need to") || mentions(&t, "should") || mentions(&t, "must")
        || mentions(&t, "karna hai") || mentions(&t, "kar do") {
        Some(String::from_str("TASK"))
    } else if mentions(&t, "decided") || mentions(&t, "let's go with") || mentions(&t, "final")
        || mentions(&t, "faisla") {
        Some(String::from_str("DECISION"))
    } else if mentions(&t, "by tomorrow") || mentions(&t, "deadline") || mentions(&t, "due")
        || mentions(&t, "kal tak") {
        Some(String::from_str("DEADLINE"))
    } else if mentions(&t, "risk") || mentions(&t, "problem") || mentions(&t, "issue") || mentions(&t, "masla") {
        Some(String::from_str("RISK"))
    } else if mentions(&t, "urgent") || mentions(&t, "asap") || mentions(&t, "jaldi") || mentions(&t, "abhi") {
        Some(String::from_str("URGENCY"))
    } else {
        None
    }
}

/// The category hinted by keywords in the text, matched case-insensitively.
pub fn detect_category_keywords(text: &str) -> (r: Option<String>)
    ensures
        opt_str(r) == keyword_category(lower_of(text@)),
{
    let lowered = to_lowercase(text);
    classify_lowered(lowered.as_str())
}

/// The first 30 characters of a text.
pub open spec fn label_of(s: Seq<char>) -> Seq<char> {
    if s.len() <= 30 { s } else { s.subrange(0, 30) }
}

fn first_chars(text: &str) -> (r: String)
    ensures
        r@ == label_of(text@),
{
    let cs = chars_of(text);
    let n: usize = if cs.len() <= 30 { cs.len() } else { 30 };
    let mut out = String::new();
    let mut i: usize = 0;
    while i < n
        invariant
            cs@ == text@,
            n <= cs@.len(),
            n == if cs@.len() <= 30 { cs@.len() } else { 30 },
            i <= n,
            out@ == text@.subrange(0, i as int),
        decreases n - i,
    {
        crate::text::push_char(&mut out, cs[i]);
        assert(out@ =~= text@.subrange(0, i + 1));
        i += 1;
    }
    assert(out@ =~= label_of(text@));
    out
}

/// Makes an optimistic prediction from partial text, when enabled and a
/// keyword category is found: the prediction is kept among the pending
/// ones, and an optimistic graph node `opt_node_<timestamp>` of that type,
/// labelled with the text's first 30 characters, is written. With no
/// category nothing is made and nothing changes.
pub fn generate_optimistic(state: &mut ProcessingEngineState, partial_text: &str) -> (r: Option<OptimisticPrediction>)
    requires
        old(state).wf(),
    ensures
        final(state).wf(),
        final(state).settings == old(state).settings,
        final(state).cache == old(state).cache,
        final(state).error_streak == old(state).error_streak,
        !old(state).settings.enable_optimistic || keyword_category(lower_of(partial_text@)) is None
            ==> r.is_none() && *final(state) == *old(state),
        old(state).settings.enable_optimistic && keyword_category(lower_of(partial_text@)) is Some ==> match r {
            None => false,
            Some(p) => {
                &&& p.predicted_text@ == partial_text@
                &&& opt_str(p.predicted_category) == keyword_category(lower_of(partial_text@))
                &&& p.confidence == PREDICTION_CONFIDENCE
                &&& !p.confirmed
                &&& p.id@ == "opt_"@ + decimal(p.timestamp_ms as nat)
                &&& final(state).optimistic_buffer@ == old(state).optimistic_buffer@.push(p)
                &&& final(state).graph.edge_seq() == old(state).graph.edge_seq()
                &&& match p.predicted_category {
                    Some(c) => upserts(
                        old(state).graph.node_seq(),
                        final(state).graph.node_seq(),
                        "opt_node_"@ + decimal(p.timestamp_ms as nat),
                        c@,
                        label_of(partial_text@),
                        true,
                    ),
                    None => false,
                }
            },
        },
{
    if !state.settings.enable_optimistic {
        return None;
    }
    let category = detect_category_keywords(partial_text);
    let cat = match category {
        Some(c) => c,
        None => return None,
    };
    let mut id = String::new();
    let prediction = OptimisticPrediction::new(String::from_str(partial_text), Some(cat.clone()));
    push_str(&mut id, "opt_node_");
    push_decimal(&mut id, prediction.timestamp_ms);
    assert(id@ =~= "opt_node_"@ + decimal(prediction.timestamp_ms as nat));
    state.optimistic_buffer.push_back(prediction.duplicate());
    state.graph.add_node(id, cat, first_chars(partial_text), true);
    Some(prediction)
}

} // verus!
