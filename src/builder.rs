use vstd::prelude::*;
use vstd::string::*;

use crate::model::{
    lemma_by_name_push, ManifestView, WorkflowGraphManifest,
    graph_views, graphs_by_name, lemma_by_name_index, lemma_by_name_update, names_unique,
    opt_str_view, EdgeView, GraphEdge, GraphNode, GraphView, NodeData, NodeView, Position,
    WorkflowGraph, LAYOUT_STEP, LAYOUT_X,
};
use crate::laws::{lemma_inv_empty, lemma_inv_preserved};
use crate::text::{dec_str, push_decimal};

verus! {

/// Version of the manifest schema written by this builder.
pub open spec fn manifest_version() -> Seq<char> {
    "1.0.0"@
}

/// Id of the generated node with counter value `n`.
pub open spec fn generated_id(n: nat) -> Seq<char> {
    "node_"@ + dec_str(n)
}

/// The edge from the node with id `source` to the node with id `target`.
pub open spec fn edge_between(source: Seq<char>, target: Seq<char>) -> EdgeView {
    EdgeView {
        id: "e_"@ + source + "_"@ + target,
        source,
        target,
        edge_type: "default"@,
    }
}

/// A node placed at height `y` of the default layout.
pub open spec fn placed_node(
    id: Seq<char>,
    node_type: Seq<char>,
    y: nat,
    label: Seq<char>,
    node_kind: Seq<char>,
    step_id: Option<Seq<char>>,
    line: nat,
) -> NodeView {
    NodeView { id, node_type, x: LAYOUT_X as nat, y, label, node_kind, step_id, line }
}

/// A graph with no nodes and no edges yet.
pub open spec fn empty_graph(name: Seq<char>, file_path: Seq<char>, id: Seq<char>) -> GraphView {
    GraphView {
        workflow_id: id,
        workflow_name: name,
        file_path,
        nodes: Seq::empty(),
        edges: Seq::empty(),
    }
}

/// Mathematical state of a builder.
pub struct BuilderView {
    /// The graphs recorded so far, by workflow name.
    pub graphs: Map<Seq<char>, GraphView>,
    /// The name of the workflow being recorded, if any.
    pub current: Option<Seq<char>>,
    /// Height of the next node.
    pub y: nat,
    /// Counter value of the next generated node.
    pub count: nat,
    /// Id of the last node of the workflow being recorded.
    pub prev: Option<Seq<char>>,
}

impl BuilderView {
    /// The state of a new builder.
    pub open spec fn empty() -> BuilderView {
        BuilderView { graphs: Map::empty(), current: None, y: 0, count: 0, prev: None }
    }

    /// The graph of the workflow being recorded, if any.
    pub open spec fn recording(self) -> bool {
        self.current is Some && self.graphs.contains_key(self.current->0)
    }

    /// The counters can take one more node.
    pub open spec fn has_room(self) -> bool {
        self.current is None || (self.y + LAYOUT_STEP <= u64::MAX && self.count < usize::MAX)
    }

    /// Appends `node` to the workflow being recorded, wired to the previous node;
    /// `generated` tells whether it takes a counter value.
    pub open spec fn with_node(self, node: NodeView, generated: bool) -> BuilderView {
        if self.recording() {
            let name = self.current->0;
            let g = self.graphs[name];
            let edges = match self.prev {
                Some(p) => g.edges.push(edge_between(p, node.id)),
                None => g.edges,
            };
            BuilderView {
                graphs: self.graphs.insert(name, GraphView { nodes: g.nodes.push(node), edges, ..g }),
                current: self.current,
                y: self.y + LAYOUT_STEP as nat,
                count: if generated { self.count + 1 } else { self.count },
                prev: Some(node.id),
            }
        } else {
            self
        }
    }

    /// `start_workflow(name, file_path, id)`.
    pub open spec fn start(self, name: Seq<char>, file_path: Seq<char>, id: Seq<char>) -> BuilderView {
        let fresh = BuilderView {
            graphs: self.graphs.insert(name, empty_graph(name, file_path, id)),
            current: Some(name),
            y: 0,
            count: 0,
            prev: None,
        };
        fresh.with_node(
            placed_node("start"@, "workflowStart"@, 0, "Start: "@ + name, "workflow_start"@, None, 0),
            false,
        )
    }

    /// `add_step_node(step_name, step_id, line)`.
    pub open spec fn add_step(self, step_name: Seq<char>, step_id: Seq<char>, line: nat) -> BuilderView {
        self.with_node(
            placed_node(generated_id(self.count), "step"@, self.y, step_name, "step"@, Some(step_id), line),
            true,
        )
    }

    /// `add_workflow_node(workflow_name, workflow_id, line)`.
    pub open spec fn add_call(self, workflow_name: Seq<char>, workflow_id: Seq<char>, line: nat) -> BuilderView {
        self.with_node(
            placed_node(
                generated_id(self.count),
                "workflowCall"@,
                self.y,
                workflow_name,
                "workflow"@,
                Some(workflow_id),
                line,
            ),
            true,
        )
    }

    /// `finish_workflow()`.
    pub open spec fn finish(self) -> BuilderView {
        let graphs = if self.recording() {
            let name = self.current->0;
            let g = self.graphs[name];
            let end = placed_node("end"@, "workflowEnd"@, self.y, "Return"@, "workflow_end"@, None, 0);
            let edges = match self.prev {
                Some(p) => g.edges.push(edge_between(p, "end"@)),
                None => g.edges,
            };
            self.graphs.insert(name, GraphView { nodes: g.nodes.push(end), edges, ..g })
        } else {
            self.graphs
        };
        BuilderView { graphs, current: None, y: self.y, count: self.count, prev: None }
    }
}

/// Records the control-flow graphs of workflows from a stream of structural events.
#[derive(Debug)]
pub struct GraphBuilder {
    graphs: Vec<WorkflowGraph>,
    current: Option<usize>,
    current_y: u64,
    node_count: usize,
    prev_node_id: Option<String>,
}

impl View for GraphBuilder {
    type V = BuilderView;

    closed spec fn view(&self) -> BuilderView {
        BuilderView {
            graphs: graphs_by_name(graph_views(self.graphs@)),
            current: match self.current {
                Some(i) => Some(self.graphs@[i as int].workflow_name@),
                None => None,
            },
            y: self.current_y as nat,
            count: self.node_count as nat,
            prev: opt_str_view(self.prev_node_id),
        }
    }
}

fn owned(s: &str) -> (r: String)
    ensures
        r@ == s@,
{
    String::from_str(s)
}

fn make_generated_id(n: usize) -> (r: String)
    ensures
        r@ == generated_id(n as nat),
{
    let mut s = owned("node_");
    push_decimal(&mut s, n);
    s
}

fn make_edge(source: &String, target: &String) -> (e: GraphEdge)
    ensures
        e@ == edge_between(source@, target@),
{
    let mut id = owned("e_");
    id.append(source.as_str());
    id.append("_");
    id.append(target.as_str());
    GraphEdge { id, source: source.clone(), target: target.clone(), edge_type: owned("default") }
}

impl GraphBuilder {
    /// The fields agree with each other and the state is one that the operations
    /// reach from a new builder.
    pub closed spec fn wf(&self) -> bool {
        &&& self.fields_agree()
        &&& self@.inv()
    }

    /// Names are unique, the current index is in range, and no previous node is
    /// kept outside a recording.
    closed spec fn fields_agree(&self) -> bool {
        &&& names_unique(graph_views(self.graphs@))
        &&& match self.current {
            Some(i) => i < self.graphs@.len(),
            None => self.prev_node_id is None,
        }
    }

    /// A well-formed builder is in a state that the operations reach from a new
    /// builder, so the laws over such states hold of it.
    pub proof fn lemma_reachable(&self)
        requires
            self.wf(),
        ensures
            self@.inv(),
    {
    }

    proof fn lemma_wf_recording(&self)
        requires
            self.fields_agree(),
        ensures
            self@.current is Some ==> self@.recording(),
            self@.current is None ==> self@.prev is None,
    {
        if let Some(i) = self.current {
            lemma_by_name_index(graph_views(self.graphs@), i as int);
        }
    }

    /// A builder with no graphs and no workflow being recorded.
    pub fn new() -> (b: GraphBuilder)
        ensures
            b.wf(),
            b@ == BuilderView::empty(),
    {
        let b = GraphBuilder {
            graphs: Vec::new(),
            current: None,
            current_y: 0,
            node_count: 0,
            prev_node_id: None,
        };
        assert(b@.graphs =~= Map::empty());
        proof {
            lemma_inv_empty();
        }
        b
    }

    fn index_of(&self, name: &String) -> (r: Option<usize>)
        ensures
            match r {
                Some(i) => i < self.graphs@.len() && self.graphs@[i as int].workflow_name@ == name@,
                None => forall|i: int|
                    0 <= i < self.graphs@.len() ==> self.graphs@[i].workflow_name@ != name@,
            },
    {
        let mut i: usize = 0;
        while i < self.graphs.len()
            invariant
                i <= self.graphs@.len(),
                forall|j: int| 0 <= j < i ==> self.graphs@[j].workflow_name@ != name@,
            decreases self.graphs@.len() - i,
        {
            if self.graphs[i].workflow_name == *name {
                return Some(i);
            }
            i = i + 1;
        }
        None
    }

    fn add_node(
        &mut self,
        id: String,
        node_type: &str,
        label: String,
        node_kind: &str,
        step_id: Option<String>,
        line: usize,
        generated: bool,
    )
        requires
            old(self).fields_agree(),
            old(self)@.has_room(),
        ensures
            final(self).fields_agree(),
            final(self)@ == old(self)@.with_node(
                placed_node(id@, node_type@, old(self)@.y, label@, node_kind@, opt_str_view(step_id), line as nat),
                generated,
            ),
    {
        proof {
            self.lemma_wf_recording();
        }
        if let Some(i) = self.current {
            let ghost gs = graph_views(self.graphs@);
            let node = GraphNode {
                id: id.clone(),
                node_type: owned(node_type),
                position: Position { x: LAYOUT_X, y: self.current_y },
                data: NodeData { label, node_kind: owned(node_kind), step_id, line },
            };
            match &self.prev_node_id {
                Some(prev) => {
                    let edge = make_edge(prev, &id);
                    self.graphs[i].edges.push(edge);
                },
                None => {},
            }
            self.graphs[i].nodes.push(node);
            self.prev_node_id = Some(id);
            self.current_y = self.current_y + LAYOUT_STEP;
            if generated {
                self.node_count = self.node_count + 1;
            }
            proof {
                let g = self.graphs@[i as int]@;
                assert(graph_views(self.graphs@) =~= gs.update(i as int, g));
                lemma_by_name_update(gs, i as int, g);
                lemma_by_name_index(gs, i as int);
                assert(g.nodes =~= gs[i as int].nodes.push(node@));
                let nv = old(self)@.with_node(node@, generated);
                assert(g.edges =~= nv.graphs[old(self)@.current->0].edges);
            }
        }
    }
    /// Begins recording the workflow `name`: its graph, fresh with a start node,
    /// replaces any earlier graph of that name, and the counters start over.
    pub fn start_workflow(&mut self, name: &str, file_path: &str, workflow_id: &str)
        requires
            old(self).wf(),
        ensures
            final(self).wf(),
            final(self)@ == old(self)@.start(name@, file_path@, workflow_id@),
    {
        let key = owned(name);
        let graph = WorkflowGraph {
            workflow_id: owned(workflow_id),
            workflow_name: owned(name),
            file_path: owned(file_path),
            nodes: Vec::new(),
            edges: Vec::new(),
        };
        let ghost gs = graph_views(self.graphs@);
        let ghost gv = graph@;
        assert(gv == empty_graph(name@, file_path@, workflow_id@)) by {
            assert(gv.nodes =~= Seq::<NodeView>::empty());
            assert(gv.edges =~= Seq::<EdgeView>::empty());
        }
        let idx = match self.index_of(&key) {
            Some(i) => {
                self.graphs[i] = graph;
                proof {
                    assert(graph_views(self.graphs@) =~= gs.update(i as int, gv));
                    lemma_by_name_update(gs, i as int, gv);
                }
                i
            },
            None => {
                self.graphs.push(graph);
                proof {
                    assert(graph_views(self.graphs@) =~= gs.push(gv));
                    assert(!graphs_by_name(gs).contains_key(name@)) by {
                        if graphs_by_name(gs).contains_key(name@) {
                            let j = choose|j: int| 0 <= j < gs.len() && #[trigger] gs[j].workflow_name == name@;
                            assert(self.graphs@[j].workflow_name@ == name@);
                        }
                    }
                    lemma_by_name_push(gs, gv);
                }
                self.graphs.len() - 1
            },
        };
        self.current = Some(idx);
        self.current_y = 0;
        self.node_count = 0;
        self.prev_node_id = None;
        let mut label = owned("Start: ");
        label.append(name);
        self.add_node(owned("start"), "workflowStart", label, "workflow_start", None, 0, false);
        proof {
            lemma_inv_preserved(old(self)@, name@, file_path@, workflow_id@, 0);
        }
    }

    /// Records a call of the step `step_name` at source line `line`; does nothing
    /// when no workflow is being recorded.
    pub fn add_step_node(&mut self, step_name: &str, step_id: &str, line: usize)
        requires
            old(self).wf(),
            old(self)@.has_room(),
        ensures
            final(self).wf(),
            final(self)@ == old(self)@.add_step(step_name@, step_id@, line as nat),
    {
        let id = make_generated_id(self.node_count);
        self.add_node(id, "step", owned(step_name), "step", Some(owned(step_id)), line, true);
        proof {
            lemma_inv_preserved(old(self)@, step_name@, step_name@, step_id@, line as nat);
        }
    }

    /// Records a call of the workflow `workflow_name` at source line `line`; does
    /// nothing when no workflow is being recorded.
    pub fn add_workflow_node(&mut self, workflow_name: &str, workflow_id: &str, line: usize)
        requires
            old(self).wf(),
            old(self)@.has_room(),
        ensures
            final(self).wf(),
            final(self)@ == old(self)@.add_call(workflow_name@, workflow_id@, line as nat),
    {
        let id = make_generated_id(self.node_count);
        self.add_node(
            id,
            "workflowCall",
            owned(workflow_name),
            "workflow",
            Some(owned(workflow_id)),
            line,
            true,
        );
        proof {
            lemma_inv_preserved(old(self)@, workflow_name@, workflow_name@, workflow_id@, line as nat);
        }
    }

    /// Closes the workflow being recorded with an end node; with none being
    /// recorded, nothing changes.
    pub fn finish_workflow(&mut self)
        requires
            old(self).wf(),
        ensures
            final(self).wf(),
            final(self)@ == old(self)@.finish(),
    {
        proof {
            self.lemma_wf_recording();
        }
        if let Some(i) = self.current {
            let ghost gs = graph_views(self.graphs@);
            let end_id = owned("end");
            let node = GraphNode {
                id: end_id.clone(),
                node_type: owned("workflowEnd"),
                position: Position { x: LAYOUT_X, y: self.current_y },
                data: NodeData { label: owned("Return"), node_kind: owned("workflow_end"), step_id: None, line: 0 },
            };
            match &self.prev_node_id {
                Some(prev) => {
                    let edge = make_edge(prev, &end_id);
                    self.graphs[i].edges.push(edge);
                },
                None => {},
            }
            self.graphs[i].nodes.push(node);
            proof {
                let g = self.graphs@[i as int]@;
                assert(graph_views(self.graphs@) =~= gs.update(i as int, g));
                lemma_by_name_update(gs, i as int, g);
                lemma_by_name_index(gs, i as int);
                assert(g.nodes =~= gs[i as int].nodes.push(node@));
                let nv = old(self)@.finish();
                assert(g.edges =~= nv.graphs[old(self)@.current->0].edges);
                assert(g == nv.graphs[old(self)@.current->0]);
            }
        }
        self.current = None;
        self.prev_node_id = None;
        proof {
            lemma_inv_preserved(old(self)@, Seq::empty(), Seq::empty(), Seq::empty(), 0);
        }
    }

    /// Ends the recording and hands over every graph, under the schema version.
    pub fn to_manifest(self) -> (m: WorkflowGraphManifest)
        requires
            self.wf(),
        ensures
            m.wf(),
            m@ == (ManifestView { version: manifest_version(), workflows: self@.graphs }),
    {
        WorkflowGraphManifest { version: owned("1.0.0"), workflows: self.graphs }
    }

    /// Whether any workflow, finished or not, has been recorded.
    pub fn has_workflows(&self) -> (r: bool)
        ensures
            r == (self@.graphs != Map::<Seq<char>, GraphView>::empty()),
    {
        proof {
            let gs = graph_views(self.graphs@);
            if self.graphs@.len() > 0 {
                assert(gs[0].workflow_name == gs[0].workflow_name);
                assert(self@.graphs.contains_key(gs[0].workflow_name));
            } else {
                assert(self@.graphs =~= Map::<Seq<char>, GraphView>::empty());
            }
        }
        self.graphs.len() > 0
    }
}

} // verus!
