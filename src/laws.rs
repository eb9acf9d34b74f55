use vstd::prelude::*;

use crate::builder::{edge_between, generated_id, placed_node, BuilderView};
use crate::model::{GraphView, LAYOUT_STEP};
use crate::text::{dec_str, digit_char};

verus! {

/// A node-adding event, as the traversal reports it.
pub enum AddEvent {
    Step { name: Seq<char>, id: Seq<char>, line: nat },
    Call { name: Seq<char>, id: Seq<char>, line: nat },
}

impl BuilderView {
    /// The state after one node-adding event.
    pub open spec fn apply_event(self, e: AddEvent) -> BuilderView {
        match e {
            AddEvent::Step { name, id, line } => self.add_step(name, id, line),
            AddEvent::Call { name, id, line } => self.add_call(name, id, line),
        }
    }

    /// The state after the node-adding events `evs`, in order.
    pub open spec fn apply_events(self, evs: Seq<AddEvent>) -> BuilderView
        decreases evs.len(),
    {
        if evs.len() == 0 {
            self
        } else {
            self.apply_events(evs.drop_last()).apply_event(evs.last())
        }
    }

    /// The workflow being recorded has a well-formed open chain, and the
    /// counters and the previous node match it.
    pub open spec fn recording_ok(self) -> bool {
        &&& self.current is Some
        &&& self.graphs.contains_key(self.current->0)
        &&& open_chain(self.graphs[self.current->0])
        &&& self.count + 1 == self.graphs[self.current->0].nodes.len()
        &&& self.y == LAYOUT_STEP * self.graphs[self.current->0].nodes.len()
        &&& self.prev == Some(self.graphs[self.current->0].nodes.last().id)
    }

    /// Holds of every state that the builder's operations reach from a new builder.
    pub open spec fn inv(self) -> bool {
        &&& forall|k: Seq<char>| #[trigger]
            self.graphs.contains_key(k) ==> self.graphs[k].workflow_name == k && is_linear(
                self.graphs[k],
            )
        &&& match self.current {
            Some(_) => self.recording_ok(),
            None => self.prev is None,
        }
    }
}

/// A chain from the start node through generated nodes `node_0`, `node_1`, ...,
/// one level lower each, every node joined to the next by one edge.
pub open spec fn open_chain(g: GraphView) -> bool {
    &&& g.nodes.len() >= 1
    &&& g.nodes[0].id == "start"@
    &&& forall|j: int| 1 <= j < g.nodes.len() ==> #[trigger] g.nodes[j].id == generated_id((j - 1) as nat)
    &&& forall|j: int| 0 <= j < g.nodes.len() ==> #[trigger] g.nodes[j].y == LAYOUT_STEP * j
    &&& g.edges.len() + 1 == g.nodes.len()
    &&& forall|j: int|
        0 <= j < g.edges.len() ==> #[trigger] g.edges[j] == edge_between(g.nodes[j].id, g.nodes[j + 1].id)
}

/// `g` without its last node and last edge.
pub open spec fn without_last(g: GraphView) -> GraphView {
    GraphView { nodes: g.nodes.drop_last(), edges: g.edges.drop_last(), ..g }
}

/// An open chain closed by the end node.
pub open spec fn closed_chain(g: GraphView) -> bool {
    &&& g.nodes.len() >= 2
    &&& open_chain(without_last(g))
    &&& g.nodes.last().id == "end"@
    &&& g.nodes.last().y == LAYOUT_STEP * (g.nodes.len() - 1)
    &&& g.edges.len() == g.nodes.len() - 1
    &&& g.edges.last() == edge_between(g.nodes[g.nodes.len() - 2].id, "end"@)
}

/// A recorded graph: a chain, open while recording or abandoned, or closed.
pub open spec fn is_linear(g: GraphView) -> bool {
    open_chain(g) || closed_chain(g)
}

/// Every edge of `g` joins a node to the next one: the graph is one path.
pub open spec fn is_path(g: GraphView) -> bool {
    &&& g.edges.len() + 1 == g.nodes.len()
    &&& forall|j: int|
        0 <= j < g.edges.len() ==> (#[trigger] g.edges[j]).source == g.nodes[j].id && g.edges[j].target
            == g.nodes[j + 1].id
}

proof fn lemma_with_generated_node(
    b: BuilderView,
    r: BuilderView,
    label: Seq<char>,
    node_type: Seq<char>,
    node_kind: Seq<char>,
    step_id: Option<Seq<char>>,
    line: nat,
)
    requires
        b.recording_ok(),
        r == b.with_node(
            placed_node(generated_id(b.count), node_type, b.y, label, node_kind, step_id, line),
            true,
        ),
    ensures
        r.recording_ok(),
        r.current == b.current,
        r.count == b.count + 1,
        r.graphs.dom() == b.graphs.dom(),
        forall|k: Seq<char>| k != b.current->0 && #[trigger] b.graphs.contains_key(k) ==> r.graphs[k] == b.graphs[k],
        r.graphs[b.current->0].workflow_name == b.graphs[b.current->0].workflow_name,
{
    let n = b.current->0;
    let g = b.graphs[n];
    let h = r.graphs[n];
    assert(h.nodes.len() == g.nodes.len() + 1);
    assert forall|j: int| 1 <= j < h.nodes.len() implies #[trigger] h.nodes[j].id == generated_id((j - 1) as nat) by {
        if j < g.nodes.len() {
            assert(h.nodes[j] == g.nodes[j]);
        }
    }
    assert forall|j: int| 0 <= j < h.nodes.len() implies #[trigger] h.nodes[j].y == LAYOUT_STEP * j by {
        if j < g.nodes.len() {
            assert(h.nodes[j] == g.nodes[j]);
        }
    }
    assert forall|j: int| 0 <= j < h.edges.len() implies #[trigger] h.edges[j] == edge_between(h.nodes[j].id, h.nodes[j + 1].id) by {
        if j < g.edges.len() {
            assert(h.edges[j] == g.edges[j]);
            assert(h.nodes[j] == g.nodes[j]);
            assert(h.nodes[j + 1] == g.nodes[j + 1]);
        } else {
            assert(h.nodes[j] == g.nodes[j]);
        }
    }
    assert(r.graphs.dom() =~= b.graphs.dom());
}

proof fn lemma_start(b: BuilderView, name: Seq<char>, file_path: Seq<char>, id: Seq<char>)
    ensures
        ({
            let r = b.start(name, file_path, id);
            &&& r.recording_ok()
            &&& r.current == Some(name)
            &&& r.count == 0
            &&& r.graphs[name].workflow_name == name
            &&& r.graphs.dom() == b.graphs.dom().insert(name)
            &&& forall|k: Seq<char>| k != name && #[trigger] b.graphs.contains_key(k) ==> r.graphs[k] == b.graphs[k]
        }),
{
    let r = b.start(name, file_path, id);
    assert(r.graphs.dom() =~= b.graphs.dom().insert(name));
    assert(r.graphs[name].nodes.len() == 1);
}

proof fn lemma_events(b: BuilderView, evs: Seq<AddEvent>)
    requires
        b.recording_ok(),
    ensures
        ({
            let r = b.apply_events(evs);
            &&& r.recording_ok()
            &&& r.current == b.current
            &&& r.count == b.count + evs.len()
            &&& r.graphs.dom() == b.graphs.dom()
            &&& r.graphs[b.current->0].workflow_name == b.graphs[b.current->0].workflow_name
            &&& forall|k: Seq<char>| k != b.current->0 && #[trigger] b.graphs.contains_key(k) ==> r.graphs[k] == b.graphs[k]
        }),
    decreases evs.len(),
{
    if evs.len() > 0 {
        lemma_events(b, evs.drop_last());
        let m = b.apply_events(evs.drop_last());
        let r = b.apply_events(evs);
        match evs.last() {
            AddEvent::Step { name, id, line } => {
                lemma_with_generated_node(m, r, name, "step"@, "step"@, Some(id), line);
            },
            AddEvent::Call { name, id, line } => {
                lemma_with_generated_node(m, r, name, "workflowCall"@, "workflow"@, Some(id), line);
            },
        }
    }
}

proof fn lemma_finish(b: BuilderView)
    requires
        b.recording_ok(),
    ensures
        ({
            let r = b.finish();
            &&& r.current is None
            &&& r.prev is None
            &&& closed_chain(r.graphs[b.current->0])
            &&& r.graphs[b.current->0].nodes.len() == b.graphs[b.current->0].nodes.len() + 1
            &&& r.graphs[b.current->0].workflow_name == b.graphs[b.current->0].workflow_name
            &&& r.graphs.dom() == b.graphs.dom()
            &&& forall|k: Seq<char>| k != b.current->0 && #[trigger] b.graphs.contains_key(k) ==> r.graphs[k] == b.graphs[k]
        }),
{
    let n = b.current->0;
    let g = b.graphs[n];
    let r = b.finish();
    let h = r.graphs[n];
    assert(without_last(h).nodes =~= g.nodes);
    assert(without_last(h).edges =~= g.edges);
    assert(without_last(h) == g);
    assert(r.graphs.dom() =~= b.graphs.dom());
}

/// A recording started with `start_workflow(name, ..)`, followed by `k` node-adding
/// events and closed with `finish_workflow`, leaves under `name` a graph of
/// `k + 2` nodes and `k + 1` edges: one path from the start node to the end node.
pub proof fn lemma_linear_recording(
    b: BuilderView,
    name: Seq<char>,
    file_path: Seq<char>,
    id: Seq<char>,
    evs: Seq<AddEvent>,
)
    ensures
        ({
            let r = b.start(name, file_path, id).apply_events(evs).finish();
            &&& r.graphs.contains_key(name)
            &&& r.graphs[name].nodes.len() == evs.len() + 2
            &&& r.graphs[name].edges.len() == evs.len() + 1
            &&& is_path(r.graphs[name])
            &&& r.graphs[name].nodes[0].id == "start"@
            &&& r.graphs[name].nodes.last().id == "end"@
        }),
{
    let s = b.start(name, file_path, id);
    lemma_start(b, name, file_path, id);
    lemma_events(s, evs);
    let m = s.apply_events(evs);
    lemma_finish(m);
    let g = m.finish().graphs[name];
    let w = without_last(g);
    assert forall|j: int| 0 <= j < g.edges.len() implies (#[trigger] g.edges[j]).source == g.nodes[j].id
        && g.edges[j].target == g.nodes[j + 1].id by {
        if j < g.edges.len() - 1 {
            assert(w.edges[j] == edge_between(w.nodes[j].id, w.nodes[j + 1].id));
            assert(w.edges[j] == g.edges[j]);
            assert(w.nodes[j] == g.nodes[j]);
            assert(w.nodes[j + 1] == g.nodes[j + 1]);
        }
    }
    assert(w.nodes[0] == g.nodes[0]);
}

/// A new builder is valid.
pub proof fn lemma_inv_empty()
    ensures
        BuilderView::empty().inv(),
{
}

/// Every operation keeps a builder valid, whatever its arguments.
pub proof fn lemma_inv_preserved(
    b: BuilderView,
    name: Seq<char>,
    file_path: Seq<char>,
    id: Seq<char>,
    line: nat,
)
    requires
        b.inv(),
    ensures
        b.start(name, file_path, id).inv(),
        b.add_step(name, id, line).inv(),
        b.add_call(name, id, line).inv(),
        b.finish().inv(),
{
    lemma_start(b, name, file_path, id);
    let r = b.start(name, file_path, id);
    assert forall|k: Seq<char>| #[trigger] r.graphs.contains_key(k) implies r.graphs[k].workflow_name == k
        && is_linear(r.graphs[k]) by {
        if k != name {
            assert(b.graphs.contains_key(k));
        }
    }
    if b.current is Some {
        let n = b.current->0;
        lemma_with_generated_node(b, b.add_step(name, id, line), name, "step"@, "step"@, Some(id), line);
        lemma_with_generated_node(b, b.add_call(name, id, line), name, "workflowCall"@, "workflow"@, Some(id), line);
        lemma_finish(b);
        let r1 = b.add_step(name, id, line);
        let r2 = b.add_call(name, id, line);
        let r3 = b.finish();
        assert forall|k: Seq<char>| #[trigger] r1.graphs.contains_key(k) implies r1.graphs[k].workflow_name == k
            && is_linear(r1.graphs[k]) by {
            assert(b.graphs.contains_key(k));
        }
        assert forall|k: Seq<char>| #[trigger] r2.graphs.contains_key(k) implies r2.graphs[k].workflow_name == k
            && is_linear(r2.graphs[k]) by {
            assert(b.graphs.contains_key(k));
        }
        assert forall|k: Seq<char>| #[trigger] r3.graphs.contains_key(k) implies r3.graphs[k].workflow_name == k
            && is_linear(r3.graphs[k]) by {
            assert(b.graphs.contains_key(k));
        }
    }
}

proof fn lemma_dec_str_injective(a: nat, b: nat)
    requires
        dec_str(a) == dec_str(b),
    ensures
        a == b,
    decreases a,
{
    if a >= 10 {
        lemma_dec_str_len(a / 10);
    }
    if b >= 10 {
        lemma_dec_str_len(b / 10);
    }
    if a < 10 && b < 10 {
        assert(dec_str(a)[0] == digit_char(a));
        assert(dec_str(b)[0] == digit_char(b));
        lemma_digit_char_injective(a, b);
    } else if a >= 10 && b >= 10 {
        let sa = dec_str(a / 10);
        let sb = dec_str(b / 10);
        assert(dec_str(a).last() == digit_char(a % 10));
        assert(dec_str(b).last() == digit_char(b % 10));
        assert(sa =~= dec_str(a).drop_last());
        assert(sb =~= dec_str(b).drop_last());
        lemma_digit_char_injective(a % 10, b % 10);
        lemma_dec_str_injective(a / 10, b / 10);
        assert(a == 10 * (a / 10) + a % 10);
        assert(b == 10 * (b / 10) + b % 10);
    } else if a < 10 {
        assert(dec_str(a).len() == 1);
        assert(dec_str(b).len() == dec_str(b / 10).len() + 1);
    } else {
        assert(dec_str(b).len() == 1);
        assert(dec_str(a).len() == dec_str(a / 10).len() + 1);
    }
}

proof fn lemma_digit_char_injective(a: nat, b: nat)
    requires
        a < 10,
        b < 10,
        digit_char(a) == digit_char(b),
    ensures
        a == b,
{
    assert((digit_char(a) as u32) == a + 48);
    assert((digit_char(b) as u32) == b + 48);
}

proof fn lemma_dec_str_len(n: nat)
    ensures
        dec_str(n).len() >= 1,
    decreases n,
{
    if n >= 10 {
        lemma_dec_str_len(n / 10);
    }
}

proof fn lemma_generated_ids(a: nat, b: nat)
    ensures
        generated_id(a) == generated_id(b) ==> a == b,
        generated_id(a) != "start"@,
        generated_id(a) != "end"@,
{
    reveal_strlit("node_");
    reveal_strlit("start");
    reveal_strlit("end");
    if generated_id(a) == generated_id(b) {
        assert(dec_str(a) =~= generated_id(a).skip(5));
        assert(dec_str(b) =~= generated_id(b).skip(5));
        lemma_dec_str_injective(a, b);
    }
    assert(generated_id(a)[0] == 'n');
}

/// Within a recorded graph the start node comes first, the `j`-th node after it is
/// `node_<j>` (the counter goes up by one per node-adding call), an end node can only
/// come last, and no two nodes share an id.
pub proof fn lemma_node_ids(b: BuilderView, name: Seq<char>)
    requires
        b.inv(),
        b.graphs.contains_key(name),
    ensures
        ({
            let g = b.graphs[name];
            &&& g.nodes[0].id == "start"@
            &&& forall|j: int|
                1 <= j < g.nodes.len() ==> #[trigger] g.nodes[j].id == generated_id((j - 1) as nat) || (j
                    == g.nodes.len() - 1 && g.nodes[j].id == "end"@)
            &&& forall|i: int, j: int|
                0 <= i < j < g.nodes.len() ==> #[trigger] g.nodes[i].id != #[trigger] g.nodes[j].id
        }),
{
    let g = b.graphs[name];
    assert(is_linear(g));
    let w = without_last(g);
    assert forall|j: int| 1 <= j < g.nodes.len() implies #[trigger] g.nodes[j].id == generated_id((j - 1) as nat)
        || (j == g.nodes.len() - 1 && g.nodes[j].id == "end"@) by {
        if !open_chain(g) && j < g.nodes.len() - 1 {
            assert(w.nodes[j] == g.nodes[j]);
        }
    }
    if !open_chain(g) {
        assert(w.nodes[0] == g.nodes[0]);
    }
    assert forall|i: int, j: int| 0 <= i < j < g.nodes.len() implies #[trigger] g.nodes[i].id
        != #[trigger] g.nodes[j].id by {
        let a = g.nodes[i].id;
        let c = g.nodes[j].id;
        lemma_generated_ids((j - 1) as nat, (i - 1) as nat);
        lemma_generated_ids((i - 1) as nat, (j - 1) as nat);
        reveal_strlit("start");
        reveal_strlit("end");
        if i >= 1 && !open_chain(g) && i < g.nodes.len() - 1 {
            assert(w.nodes[i] == g.nodes[i]);
        }
        if i == 0 {
            assert(a == "start"@);
        }
    }
}

/// With no workflow being recorded, adding a node or finishing changes nothing.
pub proof fn lemma_idle_is_noop(b: BuilderView, name: Seq<char>, id: Seq<char>, line: nat)
    requires
        b.inv(),
        b.current is None,
    ensures
        b.add_step(name, id, line) == b,
        b.add_call(name, id, line) == b,
        b.finish() == b,
{
}

/// Two states recording the same workflow with the same counters and the same graph so far.
pub open spec fn same_recording(s: BuilderView, t: BuilderView) -> bool {
    &&& s.current is Some
    &&& s.current == t.current
    &&& s.y == t.y
    &&& s.count == t.count
    &&& s.prev == t.prev
    &&& s.graphs.contains_key(s.current->0)
    &&& t.graphs.contains_key(s.current->0)
    &&& s.graphs[s.current->0] == t.graphs[s.current->0]
}

proof fn lemma_events_same_recording(s: BuilderView, t: BuilderView, evs: Seq<AddEvent>)
    requires
        same_recording(s, t),
    ensures
        same_recording(s.apply_events(evs), t.apply_events(evs)),
    decreases evs.len(),
{
    if evs.len() > 0 {
        lemma_events_same_recording(s, t, evs.drop_last());
    }
}

/// Starting a workflow again under a name discards what was recorded under it
/// before: after the same events, the graph under that name is the one that a
/// new builder would hold, finished or not.
pub proof fn lemma_restart_discards(
    b: BuilderView,
    name: Seq<char>,
    file_path: Seq<char>,
    id: Seq<char>,
    evs: Seq<AddEvent>,
)
    ensures
        ({
            let s = b.start(name, file_path, id).apply_events(evs);
            let t = BuilderView::empty().start(name, file_path, id).apply_events(evs);
            &&& s.graphs.contains_key(name)
            &&& s.graphs[name] == t.graphs[name]
            &&& s.finish().graphs[name] == t.finish().graphs[name]
        }),
{
    let s0 = b.start(name, file_path, id);
    let t0 = BuilderView::empty().start(name, file_path, id);
    lemma_start(b, name, file_path, id);
    lemma_start(BuilderView::empty(), name, file_path, id);
    assert(same_recording(s0, t0));
    lemma_events_same_recording(s0, t0, evs);
    lemma_events(s0, evs);
}

/// Starting a workflow records its name, and no operation removes a recorded
/// workflow: once the builder holds a workflow, it keeps holding one.
pub proof fn lemma_workflows_kept(
    b: BuilderView,
    name: Seq<char>,
    file_path: Seq<char>,
    id: Seq<char>,
    line: nat,
)
    ensures
        b.start(name, file_path, id).graphs.contains_key(name),
        b.graphs.dom().subset_of(b.start(name, file_path, id).graphs.dom()),
        b.graphs.dom().subset_of(b.add_step(name, id, line).graphs.dom()),
        b.graphs.dom().subset_of(b.add_call(name, id, line).graphs.dom()),
        b.graphs.dom().subset_of(b.finish().graphs.dom()),
{
    lemma_start(b, name, file_path, id);
}

} // verus!
