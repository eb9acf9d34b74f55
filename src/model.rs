use vstd::prelude::*;
use vstd::string::StringExecFns;

verus! {

/// Horizontal coordinate shared by every node of the default layout.
pub const LAYOUT_X: u64 = 250;

/// Vertical distance between two consecutive nodes of the default layout.
pub const LAYOUT_STEP: u64 = 100;

/// Default layout coordinate of a node, in whole layout units.
#[derive(Clone, Copy, Debug, PartialEq, Eq, Structural)]
pub struct Position {
    pub x: u64,
    pub y: u64,
}

/// What a node shows and where it came from.
#[derive(Clone, Debug)]
pub struct NodeData {
    pub label: String,
    pub node_kind: String,
    pub step_id: Option<String>,
    pub line: usize,
}

/// One visual element of a workflow graph.
#[derive(Clone, Debug)]
pub struct GraphNode {
    pub id: String,
    pub node_type: String,
    pub position: Position,
    pub data: NodeData,
}

/// One directed connection between two nodes of a graph.
#[derive(Clone, Debug)]
pub struct GraphEdge {
    pub id: String,
    pub source: String,
    pub target: String,
    pub edge_type: String,
}

/// The control-flow graph of one workflow.
#[derive(Clone, Debug)]
pub struct WorkflowGraph {
    pub workflow_id: String,
    pub workflow_name: String,
    pub file_path: String,
    pub nodes: Vec<GraphNode>,
    pub edges: Vec<GraphEdge>,
}

/// The versioned collection of all graphs of one compilation unit.
///
/// `workflows` holds one graph per workflow name: no two of them share a
/// `workflow_name`, and the name is the key under which the graph is found.
#[derive(Debug)]
pub struct WorkflowGraphManifest {
    pub version: String,
    pub workflows: Vec<WorkflowGraph>,
}

/// Mathematical value of a node.
pub struct NodeView {
    pub id: Seq<char>,
    pub node_type: Seq<char>,
    pub x: nat,
    pub y: nat,
    pub label: Seq<char>,
    pub node_kind: Seq<char>,
    pub step_id: Option<Seq<char>>,
    pub line: nat,
}

/// Mathematical value of an edge.
pub struct EdgeView {
    pub id: Seq<char>,
    pub source: Seq<char>,
    pub target: Seq<char>,
    pub edge_type: Seq<char>,
}

/// Mathematical value of a workflow graph.
pub struct GraphView {
    pub workflow_id: Seq<char>,
    pub workflow_name: Seq<char>,
    pub file_path: Seq<char>,
    pub nodes: Seq<NodeView>,
    pub edges: Seq<EdgeView>,
}

/// Mathematical value of a manifest: the version and the graphs by workflow name.
pub struct ManifestView {
    pub version: Seq<char>,
    pub workflows: Map<Seq<char>, GraphView>,
}

pub open spec fn opt_str_view(o: Option<String>) -> Option<Seq<char>> {
    match o {
        Some(s) => Some(s@),
        None => None,
    }
}

impl View for GraphNode {
    type V = NodeView;

    open spec fn view(&self) -> NodeView {
        NodeView {
            id: self.id@,
            node_type: self.node_type@,
            x: self.position.x as nat,
            y: self.position.y as nat,
            label: self.data.label@,
            node_kind: self.data.node_kind@,
            step_id: opt_str_view(self.data.step_id),
            line: self.data.line as nat,
        }
    }
}

impl View for GraphEdge {
    type V = EdgeView;

    open spec fn view(&self) -> EdgeView {
        EdgeView {
            id: self.id@,
            source: self.source@,
            target: self.target@,
            edge_type: self.edge_type@,
        }
    }
}

impl View for WorkflowGraph {
    type V = GraphView;

    open spec fn view(&self) -> GraphView {
        GraphView {
            workflow_id: self.workflow_id@,
            workflow_name: self.workflow_name@,
            file_path: self.file_path@,
            nodes: self.nodes@.map_values(|n: GraphNode| n@),
            edges: self.edges@.map_values(|e: GraphEdge| e@),
        }
    }
}

/// No two graphs of `gs` carry the same workflow name.
pub open spec fn names_unique(gs: Seq<GraphView>) -> bool {
    forall|i: int, j: int|
        0 <= i < gs.len() && 0 <= j < gs.len() && i != j ==> #[trigger] gs[i].workflow_name
            != #[trigger] gs[j].workflow_name
}

/// The graphs of `gs` keyed by workflow name.
pub open spec fn graphs_by_name(gs: Seq<GraphView>) -> Map<Seq<char>, GraphView> {
    Map::new(
        |k: Seq<char>| exists|i: int| 0 <= i < gs.len() && #[trigger] gs[i].workflow_name == k,
        |k: Seq<char>| gs[choose|i: int| 0 <= i < gs.len() && #[trigger] gs[i].workflow_name == k],
    )
}

pub open spec fn graph_views(gs: Seq<WorkflowGraph>) -> Seq<GraphView> {
    gs.map_values(|g: WorkflowGraph| g@)
}

impl WorkflowGraphManifest {
    /// Every workflow name occurs once.
    pub open spec fn wf(&self) -> bool {
        names_unique(graph_views(self.workflows@))
    }

    /// The graph recorded under the workflow name `name`, if any.
    pub fn get(&self, name: &str) -> (r: Option<&WorkflowGraph>)
        requires
            self.wf(),
        ensures
            match r {
                Some(g) => self@.workflows.contains_key(name@) && g@ == self@.workflows[name@],
                None => !self@.workflows.contains_key(name@),
            },
    {
        let ghost gs = graph_views(self.workflows@);
        let key = String::from_str(name);
        let mut i: usize = 0;
        while i < self.workflows.len()
            invariant
                i <= self.workflows@.len(),
                gs == graph_views(self.workflows@),
                names_unique(gs),
                key@ == name@,
                forall|j: int| 0 <= j < i ==> gs[j].workflow_name != name@,
            decreases self.workflows@.len() - i,
        {
            assert(gs[i as int] == self.workflows@[i as int]@);
            if self.workflows[i].workflow_name == key {
                proof {
                    lemma_by_name_index(gs, i as int);
                }
                return Some(&self.workflows[i]);
            }
            i = i + 1;
        }
        proof {
            if self@.workflows.contains_key(name@) {
                let j = choose|j: int| 0 <= j < gs.len() && #[trigger] gs[j].workflow_name == name@;
                assert(gs[j].workflow_name == name@);
            }
        }
        None
    }
}

impl View for WorkflowGraphManifest {
    type V = ManifestView;

    open spec fn view(&self) -> ManifestView {
        ManifestView {
            version: self.version@,
            workflows: graphs_by_name(graph_views(self.workflows@)),
        }
    }
}

/// Under unique names, the graph at index `i` is the one found under its name.
pub proof fn lemma_by_name_index(gs: Seq<GraphView>, i: int)
    requires
        names_unique(gs),
        0 <= i < gs.len(),
    ensures
        graphs_by_name(gs).contains_key(gs[i].workflow_name),
        graphs_by_name(gs)[gs[i].workflow_name] == gs[i],
{
    let k = gs[i].workflow_name;
    assert(gs[i].workflow_name == k);
    let j = choose|j: int| 0 <= j < gs.len() && #[trigger] gs[j].workflow_name == k;
    assert(j == i);
}

/// Replacing the graph at index `i` by one of the same name replaces the entry of that name.
pub proof fn lemma_by_name_update(gs: Seq<GraphView>, i: int, g: GraphView)
    requires
        names_unique(gs),
        0 <= i < gs.len(),
        g.workflow_name == gs[i].workflow_name,
    ensures
        names_unique(gs.update(i, g)),
        graphs_by_name(gs.update(i, g)) == graphs_by_name(gs).insert(g.workflow_name, g),
{
    let hs = gs.update(i, g);
    assert(names_unique(hs)) by {
        assert forall|a: int, b: int|
            0 <= a < hs.len() && 0 <= b < hs.len() && a != b implies #[trigger] hs[a].workflow_name
            != #[trigger] hs[b].workflow_name by {
            assert(gs[a].workflow_name != gs[b].workflow_name);
        }
    }
    let m1 = graphs_by_name(hs);
    let m2 = graphs_by_name(gs).insert(g.workflow_name, g);
    assert forall|k: Seq<char>| m1.contains_key(k) <==> m2.contains_key(k) by {
        if m1.contains_key(k) {
            let j = choose|j: int| 0 <= j < hs.len() && #[trigger] hs[j].workflow_name == k;
            if j != i {
                assert(gs[j].workflow_name == k);
            }
        }
        if m2.contains_key(k) && k != g.workflow_name {
            let j = choose|j: int| 0 <= j < gs.len() && #[trigger] gs[j].workflow_name == k;
            assert(hs[j].workflow_name == k);
        }
        if k == g.workflow_name {
            assert(hs[i].workflow_name == k);
        }
    }
    assert forall|k: Seq<char>| m1.contains_key(k) implies m1[k] == m2[k] by {
        let j = choose|j: int| 0 <= j < hs.len() && #[trigger] hs[j].workflow_name == k;
        lemma_by_name_index(hs, j);
        if j != i {
            lemma_by_name_index(gs, j);
        }
    }
    assert(m1 =~= m2);
}

/// Appending a graph of a new name adds the entry of that name.
pub proof fn lemma_by_name_push(gs: Seq<GraphView>, g: GraphView)
    requires
        names_unique(gs),
        !graphs_by_name(gs).contains_key(g.workflow_name),
    ensures
        names_unique(gs.push(g)),
        graphs_by_name(gs.push(g)) == graphs_by_name(gs).insert(g.workflow_name, g),
{
    let hs = gs.push(g);
    assert(names_unique(hs)) by {
        assert forall|a: int, b: int|
            0 <= a < hs.len() && 0 <= b < hs.len() && a != b implies #[trigger] hs[a].workflow_name
            != #[trigger] hs[b].workflow_name by {
            if a < gs.len() && b < gs.len() {
                assert(gs[a].workflow_name != gs[b].workflow_name);
            } else if a < gs.len() {
                assert(gs[a].workflow_name == hs[a].workflow_name);
            } else {
                assert(gs[b].workflow_name == hs[b].workflow_name);
            }
        }
    }
    let m1 = graphs_by_name(hs);
    let m2 = graphs_by_name(gs).insert(g.workflow_name, g);
    assert forall|k: Seq<char>| m1.contains_key(k) <==> m2.contains_key(k) by {
        if m1.contains_key(k) {
            let j = choose|j: int| 0 <= j < hs.len() && #[trigger] hs[j].workflow_name == k;
            if j < gs.len() {
                assert(gs[j].workflow_name == k);
            }
        }
        if m2.contains_key(k) && k != g.workflow_name {
            let j = choose|j: int| 0 <= j < gs.len() && #[trigger] gs[j].workflow_name == k;
            assert(hs[j].workflow_name == k);
        }
        if k == g.workflow_name {
            assert(hs[gs.len() as int].workflow_name == k);
        }
    }
    assert forall|k: Seq<char>| m1.contains_key(k) implies m1[k] == m2[k] by {
        let j = choose|j: int| 0 <= j < hs.len() && #[trigger] hs[j].workflow_name == k;
        lemma_by_name_index(hs, j);
        if j < gs.len() {
            lemma_by_name_index(gs, j);
        }
    }
    assert(m1 =~= m2);
}

} // verus!
