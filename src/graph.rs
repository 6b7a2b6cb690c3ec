//! The automaton: an arena of nodes addressed by index, each owning an
//! ordered list of labelled transitions.
use vstd::prelude::*;

verus! {

/// What a transition asks of the input before it may be followed.
#[derive(Clone, Copy, Debug, PartialEq, Eq, Structural)]
pub enum Condition {
    /// Consumes exactly this code point.
    Character(u32),
    /// Consumes any one code point.
    AnyCharacter,
    /// Consumes nothing.
    Epsilon,
}

/// A point of the search: the node occupied and the input position reached.
#[derive(Clone, Copy, Debug, PartialEq, Eq, Structural)]
pub struct State {
    pub node: usize,
    pub pos: usize,
}

/// A transition to node `to`, guarded by `condition`.
#[derive(Clone, Copy, Debug, PartialEq, Eq, Structural)]
pub struct Edge {
    pub to: usize,
    pub condition: Condition,
}

/// The position reached by following a transition with condition `c` from
/// position `pos` of `data`, or `None` when the transition cannot be taken.
pub open spec fn advance(c: Condition, data: Seq<u32>, pos: int) -> Option<int> {
    match c {
        Condition::Epsilon => Some(pos),
        Condition::Character(ch) => if 0 <= pos < data.len() && data[pos] == ch {
            Some(pos + 1)
        } else {
            None
        },
        Condition::AnyCharacter => if 0 <= pos < data.len() {
            Some(pos + 1)
        } else {
            None
        },
    }
}

/// The state reached by following `e` from `s`, if it can be followed.
pub open spec fn traverse(e: Edge, data: Seq<u32>, s: State) -> Option<State> {
    match advance(e.condition, data, s.pos as int) {
        Some(p) => Some(State { node: e.to, pos: p as usize }),
        None => None,
    }
}

impl Edge {
    pub fn new(to: usize, condition: Condition) -> (r: Edge)
        ensures
            r.to == to,
            r.condition == condition,
    {
        Edge { to, condition }
    }

    /// Follows this transition from `state` over `data`.
    pub fn try_traverse(&self, data: &Vec<u32>, state: &State) -> (r: Option<State>)
        ensures
            r == traverse(*self, data@, *state),
            state.pos <= data@.len() ==> (r matches Some(t) ==> t.pos <= data@.len()),
    {
        match self.condition {
            Condition::Epsilon => Some(State { node: self.to, pos: state.pos }),
            Condition::Character(ch) => {
                if state.pos < data.len() && data[state.pos] == ch {
                    Some(State { node: self.to, pos: state.pos + 1 })
                } else {
                    None
                }
            },
            Condition::AnyCharacter => {
                if state.pos < data.len() {
                    Some(State { node: self.to, pos: state.pos + 1 })
                } else {
                    None
                }
            },
        }
    }
}

/// A node: its identifier and its outgoing transitions, tried in order.
#[derive(Clone, Debug)]
pub struct Node {
    pub id: usize,
    pub edges: Vec<Edge>,
}

impl Node {
    pub fn new(id: usize) -> (r: Node)
        ensures
            r.id == id,
            r.edges@ == Seq::<Edge>::empty(),
    {
        Node { id, edges: Vec::new() }
    }

    /// Appends a transition at the end of the list.
    pub fn push_edge(&mut self, edge: Edge)
        ensures
            final(self).id == old(self).id,
            final(self).edges@ == old(self).edges@.push(edge),
    {
        self.edges.push(edge);
    }

    /// Inserts a transition at `position` of the list.
    pub fn add_edge(&mut self, position: usize, edge: Edge)
        requires
            position <= old(self).edges@.len(),
        ensures
            final(self).id == old(self).id,
            final(self).edges@ == old(self).edges@.insert(position as int, edge),
    {
        self.edges.insert(position, edge);
    }

    pub fn get_edges(&self) -> (r: &Vec<Edge>)
        ensures
            r@ == self.edges@,
    {
        &self.edges
    }

    /// A node without transitions is accepting.
    pub fn is_empty(&self) -> (r: bool)
        ensures
            r == (self.edges@.len() == 0),
    {
        self.edges.len() == 0
    }
}

/// The mathematical view of a graph: each node's transitions, and the start.
pub ghost struct GraphModel {
    pub nodes: Seq<Seq<Edge>>,
    pub start: Option<usize>,
}

impl GraphModel {
    /// Every transition leads to a node of the graph.
    pub open spec fn targets_valid(self) -> bool {
        forall|i: int, j: int|
            0 <= i < self.nodes.len() && 0 <= j < self.nodes[i].len() ==> #[trigger] self.nodes[i][j].to
                < self.nodes.len()
    }

    /// Transitions stay inside the graph and the start, if set, is a node.
    pub open spec fn well_formed(self) -> bool {
        &&& self.targets_valid()
        &&& self.start matches Some(s) ==> s < self.nodes.len()
    }

    /// `t` is one transition away from `s`.
    pub open spec fn step(self, data: Seq<u32>, s: State, t: State) -> bool {
        &&& s.node < self.nodes.len()
        &&& exists|j: int|
            0 <= j < self.nodes[s.node as int].len() && traverse(
                #[trigger] self.nodes[s.node as int][j],
                data,
                s,
            ) == Some(t)
    }

    /// `t` is reached from `s` in exactly `n` transitions.
    pub open spec fn reaches(self, data: Seq<u32>, s: State, t: State, n: nat) -> bool
        decreases n,
    {
        if n == 0 {
            s == t
        } else {
            exists|m: State| self.reaches(data, s, m, (n - 1) as nat) && #[trigger] self.step(data, m, t)
        }
    }

    /// A state whose node has no transitions.
    pub open spec fn accepting(self, s: State) -> bool {
        s.node < self.nodes.len() && self.nodes[s.node as int].len() == 0
    }

    /// Starting from the start node at position zero, the automaton can stop
    /// on an accepting node after consuming exactly `n` code points of `data`.
    pub open spec fn accepts_prefix(self, data: Seq<u32>, n: nat) -> bool {
        self.start matches Some(st) && exists|t: State, k: nat|
            #![trigger self.reaches(data, State { node: st, pos: 0 }, t, k)]
            self.reaches(data, State { node: st, pos: 0 }, t, k) && self.accepting(t) && t.pos
                == n
    }
}

/// The automaton under construction or compiled: nodes are never removed and
/// a node's identifier is its index.
#[derive(Clone, Debug)]
pub struct Graph {
    nodes: Vec<Node>,
    start: Option<usize>,
}

impl View for Graph {
    type V = GraphModel;

    closed spec fn view(&self) -> GraphModel {
        GraphModel { nodes: Seq::new(self.nodes@.len(), |i: int| self.nodes@[i].edges@), start: self.start }
    }
}

impl Graph {
    /// Internal consistency: identifiers match indices and the view is well formed.
    pub closed spec fn wf(&self) -> bool {
        &&& forall|i: int| 0 <= i < self.nodes@.len() ==> (#[trigger] self.nodes@[i]).id == i
        &&& self@.well_formed()
    }

    /// A consistent graph has a well-formed view.
    pub proof fn lemma_wf_view(&self)
        requires
            self.wf(),
        ensures
            self@.well_formed(),
    {
    }

    pub fn new() -> (r: Graph)
        ensures
            r.wf(),
            r@.nodes == Seq::<Seq<Edge>>::empty(),
            r@.start is None,
    {
        let r = Graph { nodes: Vec::new(), start: None };
        assert(r@.nodes =~= Seq::<Seq<Edge>>::empty());
        r
    }

    pub fn node_count(&self) -> (r: usize)
        ensures
            r == self@.nodes.len(),
    {
        self.nodes.len()
    }

    /// Adds a node without transitions and returns its index.
    pub fn add_node(&mut self) -> (r: usize)
        requires
            old(self).wf(),
        ensures
            final(self).wf(),
            r == old(self)@.nodes.len(),
            final(self)@.nodes == old(self)@.nodes.push(Seq::<Edge>::empty()),
            final(self)@.start == old(self)@.start,
    {
        let id = self.nodes.len();
        self.nodes.push(Node::new(id));
        assert(self@.nodes =~= old(self)@.nodes.push(Seq::<Edge>::empty()));
        id
    }

    pub fn set_start_node(&mut self, node: usize)
        requires
            old(self).wf(),
            node < old(self)@.nodes.len(),
        ensures
            final(self).wf(),
            final(self)@.nodes == old(self)@.nodes,
            final(self)@.start == Some(node),
    {
        self.start = Some(node);
        assert(self@.nodes =~= old(self)@.nodes);
    }

    pub fn get_start_node(&self) -> (r: usize)
        requires
            self@.start is Some,
        ensures
            self@.start == Some(r),
    {
        match self.start {
            Some(s) => s,
            None => 0,
        }
    }

    pub fn get_node(&self, node: usize) -> (r: &Node)
        requires
            self.wf(),
            node < self@.nodes.len(),
        ensures
            r.edges@ == self@.nodes[node as int],
            r.id == node,
    {
        &self.nodes[node]
    }

    /// Appends `edge` to the transitions of `node`.
    pub fn push_edge(&mut self, node: usize, edge: Edge)
        requires
            old(self).wf(),
            node < old(self)@.nodes.len(),
            edge.to < old(self)@.nodes.len(),
        ensures
            final(self).wf(),
            final(self)@.nodes == old(self)@.nodes.update(
                node as int,
                old(self)@.nodes[node as int].push(edge),
            ),
            final(self)@.start == old(self)@.start,
    {
        self.nodes[node].push_edge(edge);
        assert(self@.nodes =~= old(self)@.nodes.update(
            node as int,
            old(self)@.nodes[node as int].push(edge),
        ));
    }

    /// Inserts `edge` at `position` of the transitions of `node`.
    pub fn add_edge(&mut self, node: usize, position: usize, edge: Edge)
        requires
            old(self).wf(),
            node < old(self)@.nodes.len(),
            position <= old(self)@.nodes[node as int].len(),
            edge.to < old(self)@.nodes.len(),
        ensures
            final(self).wf(),
            final(self)@.nodes == old(self)@.nodes.update(
                node as int,
                old(self)@.nodes[node as int].insert(position as int, edge),
            ),
            final(self)@.start == old(self)@.start,
    {
        self.nodes[node].add_edge(position, edge);
        assert(self@.nodes =~= old(self)@.nodes.update(
            node as int,
            old(self)@.nodes[node as int].insert(position as int, edge),
        ));
    }
}

} // verus!
