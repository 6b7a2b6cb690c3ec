//! The compiled pattern and the matcher that runs it over an input.
use vstd::prelude::*;
use crate::graph::{Graph, GraphModel, State};
use crate::parser::{compiled, parse, ParserError};
use crate::search::{
    blank, first_accept, lemma_exhausted, lemma_mark, lemma_partial_full, lemma_pop_marked,
    lemma_push, lemma_table_extend, mark, marked, reachable, search, search_invariant, search_partial,
    successors, table_of, unmarked, unmarked_row,
};
use crate::text::{code_points, code_points_of};

verus! {

/// A compiled pattern.
pub struct Regex {
    graph: Graph,
}

impl View for Regex {
    type V = GraphModel;

    closed spec fn view(&self) -> GraphModel {
        self.graph@
    }
}

impl Regex {
    #[verifier::type_invariant]
    spec fn inv(&self) -> bool {
        &&& self.graph.wf()
        &&& self.graph@.start is Some
    }

    /// Compiles `pattern`. Succeeds exactly when the pattern is well formed;
    /// otherwise returns the first error met while reading it.
    pub fn new(pattern: &str) -> (r: Result<Regex, ParserError>)
        ensures
            match r {
                Ok(re) => compiled(code_points_of(pattern@)) == Ok::<GraphModel, ParserError>(re@),
                Err(e) => compiled(code_points_of(pattern@)) == Err::<GraphModel, ParserError>(e),
            },
    {
        match parse(pattern) {
            Err(e) => Err(e),
            Ok(graph) => {
                proof {
                    graph.lemma_wf_view();
                }
                Ok(Regex { graph })
            },
        }
    }

    /// Runs the automaton over `input` from position zero. Returns the
    /// position at which the first accepting node found stands, or `None`
    /// when no accepting node can be reached.
    ///
    /// Transitions are explored depth first with an explicit stack: the
    /// states reached by a node's transitions are pushed in the order of
    /// its list, so the last one is tried first. A state (node and
    /// position) is expanded at most once and dropped when it comes up
    /// again, so the search ends on every pattern, also where an empty loop
    /// leads back to where it started, as in `(a*)*`.
    pub fn test(&self, input: &str) -> (r: Option<usize>)
        ensures
            match r {
                Some(n) => self@.accepts_prefix(code_points_of(input@), n as nat),
                None => forall|n: nat| !self@.accepts_prefix(code_points_of(input@), n),
            },
            match r {
                Some(n) => search(self@, code_points_of(input@)) == Some(n as nat),
                None => search(self@, code_points_of(input@)) == None::<nat>,
            },
    {
        proof {
            use_type_invariant(self);
            self.graph.lemma_wf_view();
        }
        let data = code_points(input);
        let len = data.len();
        let ghost d = data@;
        let ghost g = self.graph@;
        let n_nodes = self.graph.node_count();
        let start = self.graph.get_start_node();
        let ghost st = State { node: start, pos: 0 };

        let mut visited: Vec<Vec<bool>> = Vec::new();
        let ghost nn = n_nodes as nat;
        let ghost m = (len + 1) as nat;
        let mut stack: Vec<State> = Vec::new();
        stack.push(State { node: start, pos: 0 });
        proof {
            assert(g.reaches(d, st, st, 0));
            assert(stack@[0] == st);
            assert forall|s: State| !marked(table_of(visited@, nn, m), s) by {}
            assert(stack@.contains(st));
            assert(search_partial(g, d, st, table_of(visited@, nn, m), stack@, st, g.nodes[st.node as int].len() as int));
            assert(table_of(visited@, nn, m) =~= blank(nn, m));
            assert(stack@ =~= seq![st]);
        }
        loop
            invariant
                data@ == d,
                d == code_points_of(input@),
                len == d.len(),
                g == self.graph@,
                self.graph.wf(),
                g.well_formed(),
                n_nodes == g.nodes.len(),
                g.start == Some(start),
                st == (State { node: start, pos: 0 }),
                nn == n_nodes,
                m == len + 1,
                visited@.len() <= len + 1,
                forall|q: int| 0 <= q < visited@.len() ==> (#[trigger] visited@[q])@.len() == n_nodes,
                search_invariant(g, d, st, table_of(visited@, nn, m), stack@),
                first_accept(g, d, table_of(visited@, nn, m), stack@) == search(g, d),
            decreases unmarked(table_of(visited@, nn, m)), stack@.len(),
        {
            let ghost v = table_of(visited@, nn, m);
            let ghost before = stack@;
            let s = match stack.pop() {
                None => {
                    proof {
                        assert(before =~= Seq::<State>::empty());
                        lemma_exhausted(g, d, st, v);
                    }
                    return None;
                },
                Some(s) => s,
            };
            let ghost rest = stack@;
            proof {
                assert(before =~= rest.push(s));
                assert(before[rest.len() as int] == s);
                assert(before.drop_last() =~= rest);
            }
            let node = self.graph.get_node(s.node);
            if node.is_empty() {
                proof {
                    let k = choose|k: nat| #[trigger] g.reaches(d, st, s, k);
                    assert(g.accepting(s));
                    assert(g.reaches(d, State { node: start, pos: 0 }, s, k));
                }
                return Some(s.pos);
            }
            while visited.len() <= s.pos
                invariant
                    visited@.len() <= len + 1,
                    s.pos <= len,
                    m == len + 1,
                    nn == n_nodes,
                    forall|q: int| 0 <= q < visited@.len() ==> (#[trigger] visited@[q])@.len() == n_nodes,
                    table_of(visited@, nn, m) == v,
                decreases s.pos + 1 - visited@.len(),
            {
                let ghost allocated = visited@;
                visited.push(unmarked_row(n_nodes));
                proof {
                    lemma_table_extend(allocated, visited@[allocated.len() as int], nn, m);
                    assert(allocated.push(visited@[allocated.len() as int]) =~= visited@);
                }
            }
            proof {
                assert(v[s.pos as int] == visited@[s.pos as int]@);
            }
            if visited[s.pos][s.node] {
                proof {
                    lemma_pop_marked(g, d, st, v, rest, s);
                }
                continue;
            }
            visited[s.pos].set(s.node, true);
            proof {
                assert forall|q: int| 0 <= q < m implies table_of(visited@, nn, m)[q] =~= mark(v, s)[q] by {}
                assert(table_of(visited@, nn, m) =~= mark(v, s));
                lemma_mark(g, d, st, v, table_of(visited@, nn, m), rest, s);
            }
            let edges = node.get_edges();
            let mut j: usize = 0;
            while j < edges.len()
                invariant
                    data@ == d,
                    g.well_formed(),
                    j <= edges@.len(),
                    edges@ == g.nodes[s.node as int],
                    s.node < g.nodes.len(),
                    s.pos <= d.len(),
                    reachable(g, d, st, s),
                    search_partial(g, d, st, table_of(visited@, nn, m), stack@, s, j as int),
                    stack@ == rest + successors(edges@.take(j as int), d, s),
                decreases edges@.len() - j,
            {
                let ghost prev = stack@;
                match edges[j].try_traverse(&data, &s) {
                    Some(t) => stack.push(t),
                    None => {},
                }
                proof {
                    lemma_push(g, d, st, table_of(visited@, nn, m), prev, s, j as int, stack@);
                    assert(edges@.take(j + 1).drop_last() =~= edges@.take(j as int));
                }
                j = j + 1;
            }
            proof {
                lemma_partial_full(g, d, st, table_of(visited@, nn, m), stack@, s);
                assert(edges@.take(edges@.len() as int) =~= edges@);
            }
        }
    }
}

/// Compiling one pattern twice gives two equal automata, which therefore
/// answer every input alike: `test` returns the same on both, and they
/// accept the same prefixes.
pub proof fn lemma_compile_twice(pattern: Seq<char>, a: Regex, b: Regex, input: Seq<char>)
    requires
        compiled(code_points_of(pattern)) == Ok::<GraphModel, ParserError>(a@),
        compiled(code_points_of(pattern)) == Ok::<GraphModel, ParserError>(b@),
    ensures
        a@ == b@,
        search(a@, code_points_of(input)) == search(b@, code_points_of(input)),
        forall|n: nat|
            a@.accepts_prefix(code_points_of(input), n) <==> b@.accepts_prefix(
                code_points_of(input),
                n,
            ),
{
}

} // verus!
