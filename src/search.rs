//! The depth-first search that matching performs, as a specification, and
//! the facts about it that the matcher's proof rests on.
use vstd::prelude::*;
use crate::graph::{traverse, Edge, GraphModel, State};

verus! {

/// The number of `false` entries of a row.
pub open spec fn unmarked_in_row(row: Seq<bool>) -> nat
    decreases row.len(),
{
    if row.len() == 0 {
        0
    } else {
        unmarked_in_row(row.drop_last()) + if row.last() {
            0nat
        } else {
            1nat
        }
    }
}

/// The number of `false` entries of a table.
pub open spec fn unmarked(rows: Seq<Seq<bool>>) -> nat
    decreases rows.len(),
{
    if rows.len() == 0 {
        0
    } else {
        unmarked(rows.drop_last()) + unmarked_in_row(rows.last())
    }
}

pub(crate) proof fn lemma_unmarked_in_row_mark(row: Seq<bool>, i: int)
    requires
        0 <= i < row.len(),
        !row[i],
    ensures
        unmarked_in_row(row.update(i, true)) + 1 == unmarked_in_row(row),
    decreases row.len(),
{
    let r2 = row.update(i, true);
    if i == row.len() - 1 {
        assert(r2.drop_last() =~= row.drop_last());
    } else {
        lemma_unmarked_in_row_mark(row.drop_last(), i);
        assert(r2.drop_last() =~= row.drop_last().update(i, true));
    }
}

pub(crate) proof fn lemma_unmarked_mark(rows: Seq<Seq<bool>>, p: int, row: Seq<bool>)
    requires
        0 <= p < rows.len(),
        unmarked_in_row(row) + 1 == unmarked_in_row(rows[p]),
    ensures
        unmarked(rows.update(p, row)) + 1 == unmarked(rows),
    decreases rows.len(),
{
    let r2 = rows.update(p, row);
    if p == rows.len() - 1 {
        assert(r2.drop_last() =~= rows.drop_last());
    } else {
        lemma_unmarked_mark(rows.drop_last(), p, row);
        assert(r2.drop_last() =~= rows.drop_last().update(p, row));
    }
}

/// `t` can be reached from `s` by some number of transitions.
pub open spec fn reachable(g: GraphModel, data: Seq<u32>, s: State, t: State) -> bool {
    exists|k: nat| #[trigger] g.reaches(data, s, t, k)
}

/// A set of states that holds `s` and every successor of each of its
/// members holds every state reachable from `s`.
pub(crate) proof fn lemma_closed_holds_reachable(
    g: GraphModel,
    data: Seq<u32>,
    seen: spec_fn(State) -> bool,
    s: State,
    t: State,
    k: nat,
)
    requires
        seen(s),
        forall|a: State, b: State| seen(a) && #[trigger] g.step(data, a, b) ==> seen(b),
        g.reaches(data, s, t, k),
    ensures
        seen(t),
    decreases k,
{
    if k > 0 {
        let m = choose|m: State| g.reaches(data, s, m, (k - 1) as nat) && #[trigger] g.step(data, m, t);
        lemma_closed_holds_reachable(g, data, seen, s, m, (k - 1) as nat);
    }
}

/// The table of marks, of `m` rows of `n` entries, that the rows allocated
/// so far stand for: the rows not allocated yet are unmarked.
pub open spec fn table_of(rows: Seq<Vec<bool>>, n: nat, m: nat) -> Seq<Seq<bool>> {
    Seq::new(m, |q: int| if q < rows.len() { rows[q]@ } else { Seq::new(n, |_x: int| false) })
}

/// Allocating the next row, unmarked, leaves the table as it was.
pub(crate) proof fn lemma_table_extend(rows: Seq<Vec<bool>>, row: Vec<bool>, n: nat, m: nat)
    requires
        rows.len() < m,
        row@.len() == n,
        forall|x: int| 0 <= x < n ==> !row@[x],
    ensures
        table_of(rows.push(row), n, m) == table_of(rows, n, m),
{
    assert forall|q: int| 0 <= q < m implies table_of(rows.push(row), n, m)[q] =~= table_of(rows, n, m)[q] by {
        if q < rows.len() {
            assert(rows.push(row)[q] == rows[q]);
        }
    }
    assert(table_of(rows.push(row), n, m) =~= table_of(rows, n, m));
}

/// State `s` has been expanded, according to the table `v` indexed by
/// position, then node.
pub open spec fn marked(v: Seq<Seq<bool>>, s: State) -> bool {
    &&& s.pos < v.len()
    &&& s.node < v[s.pos as int].len()
    &&& v[s.pos as int][s.node as int]
}

/// Transition `j` of state `s`, if it can be followed, leads to a state that
/// is expanded or waits on the stack.
pub open spec fn covered(
    g: GraphModel,
    d: Seq<u32>,
    v: Seq<Seq<bool>>,
    stack: Seq<State>,
    s: State,
    j: int,
) -> bool {
    match traverse(g.nodes[s.node as int][j], d, s) {
        Some(t) => marked(v, t) || stack.contains(t),
        None => true,
    }
}

/// What holds of the search at every step, but for the transitions of `cur`
/// from index `upto` on.
pub open spec fn search_partial(
    g: GraphModel,
    d: Seq<u32>,
    st: State,
    v: Seq<Seq<bool>>,
    stack: Seq<State>,
    cur: State,
    upto: int,
) -> bool {
    &&& v.len() == d.len() + 1
    &&& forall|q: int| 0 <= q < v.len() ==> (#[trigger] v[q]).len() == g.nodes.len()
    &&& forall|i: int|
        0 <= i < stack.len() ==> (#[trigger] stack[i]).node < g.nodes.len() && stack[i].pos
            <= d.len() && reachable(g, d, st, stack[i])
    &&& forall|s: State| #[trigger] marked(v, s) ==> !g.accepting(s)
    &&& marked(v, st) || stack.contains(st)
    &&& forall|s: State, j: int|
        marked(v, s) && 0 <= j < g.nodes[s.node as int].len() && (s != cur || j < upto)
            ==> #[trigger] covered(g, d, v, stack, s, j)
}

/// What holds of the search at every step: every state on the stack is
/// reachable, no expanded state is accepting, the start is expanded or
/// waiting, and every transition of an expanded state leads to a state that
/// is expanded or waiting.
pub open spec fn search_invariant(
    g: GraphModel,
    d: Seq<u32>,
    st: State,
    v: Seq<Seq<bool>>,
    stack: Seq<State>,
) -> bool {
    search_partial(g, d, st, v, stack, st, g.nodes[st.node as int].len() as int)
}

pub(crate) proof fn lemma_partial_full(
    g: GraphModel,
    d: Seq<u32>,
    st: State,
    v: Seq<Seq<bool>>,
    stack: Seq<State>,
    cur: State,
)
    requires
        search_partial(g, d, st, v, stack, cur, g.nodes[cur.node as int].len() as int),
    ensures
        search_invariant(g, d, st, v, stack),
        forall|s: State, j: int|
            marked(v, s) && 0 <= j < g.nodes[s.node as int].len() ==> #[trigger] covered(
                g,
                d,
                v,
                stack,
                s,
                j,
            ),
{
    assert forall|s: State, j: int| marked(v, s) && 0 <= j < g.nodes[s.node as int].len() implies #[trigger] covered(g, d, v, stack, s, j) by {
        if s == cur {
        }
    }
}

/// Popping an expanded state keeps the invariant.
pub(crate) proof fn lemma_pop_marked(
    g: GraphModel,
    d: Seq<u32>,
    st: State,
    v: Seq<Seq<bool>>,
    rest: Seq<State>,
    s: State,
)
    requires
        search_invariant(g, d, st, v, rest.push(s)),
        marked(v, s),
    ensures
        search_invariant(g, d, st, v, rest),
{
    let old_stack = rest.push(s);
    lemma_partial_full(g, d, st, v, old_stack, st);
    assert forall|i: int| 0 <= i < rest.len() implies (#[trigger] rest[i]).node < g.nodes.len()
        && rest[i].pos <= d.len() && reachable(g, d, st, rest[i]) by {
        assert(old_stack[i] == rest[i]);
    }
    lemma_contains_after_pop(rest, s, st);
    assert forall|x: State, j: int|
        marked(v, x) && 0 <= j < g.nodes[x.node as int].len() && (x != st || j < g.nodes[st.node as int].len()) implies #[trigger] covered(g, d, v, rest, x, j) by {
        assert(covered(g, d, v, old_stack, x, j));
        match traverse(g.nodes[x.node as int][j], d, x) {
            Some(t) => lemma_contains_after_pop(rest, s, t),
            None => {},
        }
    }
}

pub(crate) proof fn lemma_contains_after_pop(rest: Seq<State>, s: State, t: State)
    ensures
        rest.push(s).contains(t) ==> t == s || rest.contains(t),
{
    if rest.push(s).contains(t) && t != s {
        let i = choose|i: int| 0 <= i < rest.push(s).len() && rest.push(s)[i] == t;
        assert(rest[i] == t);
    }
}

pub(crate) proof fn lemma_contains_after_push(stack: Seq<State>, t: State, u: State)
    ensures
        stack.contains(u) ==> stack.push(t).contains(u),
        stack.push(t).contains(t),
{
    assert(stack.push(t)[stack.len() as int] == t);
    if stack.contains(u) {
        let i = choose|i: int| 0 <= i < stack.len() && stack[i] == u;
        assert(stack.push(t)[i] == u);
    }
}

/// Marking a popped state that is neither expanded nor accepting leaves
/// only its own transitions to be covered.
pub(crate) proof fn lemma_mark(
    g: GraphModel,
    d: Seq<u32>,
    st: State,
    v: Seq<Seq<bool>>,
    v2: Seq<Seq<bool>>,
    rest: Seq<State>,
    s: State,
)
    requires
        search_invariant(g, d, st, v, rest.push(s)),
        !marked(v, s),
        s.node < g.nodes.len(),
        s.pos <= d.len(),
        !g.accepting(s),
        v2.len() == v.len(),
        forall|q: int| 0 <= q < v.len() && q != s.pos ==> v2[q] == v[q],
        v2[s.pos as int] == v[s.pos as int].update(s.node as int, true),
    ensures
        search_partial(g, d, st, v2, rest, s, 0),
        marked(v2, s),
        unmarked(v2) < unmarked(v),
{
    let old_stack = rest.push(s);
    lemma_partial_full(g, d, st, v, old_stack, st);
    assert forall|x: State| marked(v2, x) implies marked(v, x) || x == s by {
        if x.pos != s.pos {
            assert(v2[x.pos as int] == v[x.pos as int]);
        }
    }
    assert forall|x: State| marked(v, x) implies marked(v2, x) by {
        if x.pos != s.pos {
            assert(v2[x.pos as int] == v[x.pos as int]);
        }
    }
    assert forall|q: int| 0 <= q < v2.len() implies (#[trigger] v2[q]).len() == g.nodes.len() by {
        if q != s.pos {
            assert(v2[q] == v[q]);
        }
    }
    assert forall|i: int| 0 <= i < rest.len() implies (#[trigger] rest[i]).node < g.nodes.len()
        && rest[i].pos <= d.len() && reachable(g, d, st, rest[i]) by {
        assert(old_stack[i] == rest[i]);
    }
    lemma_contains_after_pop(rest, s, st);
    assert forall|x: State, j: int|
        marked(v2, x) && 0 <= j < g.nodes[x.node as int].len() && (x != s || j < 0) implies #[trigger] covered(g, d, v2, rest, x, j) by {
        assert(marked(v, x));
        assert(covered(g, d, v, old_stack, x, j));
        match traverse(g.nodes[x.node as int][j], d, x) {
            Some(t) => {
                lemma_contains_after_pop(rest, s, t);
                if marked(v, t) {
                    assert(marked(v2, t));
                }
            },
            None => {},
        }
    }
    assert(v2 =~= v.update(s.pos as int, v2[s.pos as int]));
    lemma_unmarked_in_row_mark(v[s.pos as int], s.node as int);
    lemma_unmarked_mark(v, s.pos as int, v2[s.pos as int]);
}

/// Pushing the state reached by transition `j` of `cur` covers that transition.
pub(crate) proof fn lemma_push(
    g: GraphModel,
    d: Seq<u32>,
    st: State,
    v: Seq<Seq<bool>>,
    stack: Seq<State>,
    cur: State,
    j: int,
    pushed: Seq<State>,
)
    requires
        search_partial(g, d, st, v, stack, cur, j),
        g.well_formed(),
        cur.node < g.nodes.len(),
        cur.pos <= d.len(),
        reachable(g, d, st, cur),
        0 <= j < g.nodes[cur.node as int].len(),
        pushed == match traverse(g.nodes[cur.node as int][j], d, cur) {
            Some(t) => stack.push(t),
            None => stack,
        },
    ensures
        search_partial(g, d, st, v, pushed, cur, j + 1),
{
    match traverse(g.nodes[cur.node as int][j], d, cur) {
        Some(t) => {
            let k = choose|k: nat| #[trigger] g.reaches(d, st, cur, k);
            assert(g.step(d, cur, t));
            assert(g.reaches(d, st, t, k + 1));
            assert(reachable(g, d, st, t));
            assert forall|i: int| 0 <= i < pushed.len() implies (#[trigger] pushed[i]).node
                < g.nodes.len() && pushed[i].pos <= d.len() && reachable(g, d, st, pushed[i]) by {
                if i < stack.len() {
                    assert(pushed[i] == stack[i]);
                }
            }
            lemma_contains_after_push(stack, t, st);
            assert forall|x: State, jj: int|
                marked(v, x) && 0 <= jj < g.nodes[x.node as int].len() && (x != cur || jj < j + 1) implies #[trigger] covered(g, d, v, pushed, x, jj) by {
                if x == cur && jj == j {
                    lemma_contains_after_push(stack, t, t);
                } else {
                    assert(covered(g, d, v, stack, x, jj));
                    match traverse(g.nodes[x.node as int][jj], d, x) {
                        Some(u) => lemma_contains_after_push(stack, t, u),
                        None => {},
                    }
                }
            }
        },
        None => {
            assert forall|x: State, jj: int|
                marked(v, x) && 0 <= jj < g.nodes[x.node as int].len() && (x != cur || jj < j + 1) implies #[trigger] covered(g, d, v, pushed, x, jj) by {
                if !(x == cur && jj == j) {
                    assert(covered(g, d, v, stack, x, jj));
                }
            }
        },
    }
}

/// When the stack is empty, no accepting state can be reached.
pub(crate) proof fn lemma_exhausted(g: GraphModel, d: Seq<u32>, st: State, v: Seq<Seq<bool>>)
    requires
        search_invariant(g, d, st, v, Seq::<State>::empty()),
        g.start == Some(st.node),
        st.pos == 0,
    ensures
        forall|n: nat| !g.accepts_prefix(d, n),
{
    let empty = Seq::<State>::empty();
    lemma_partial_full(g, d, st, v, empty, st);
    let seen = |s: State| marked(v, s);
    assert forall|a: State, b: State| seen(a) && #[trigger] g.step(d, a, b) implies seen(b) by {
        let j = choose|j: int|
            0 <= j < g.nodes[a.node as int].len() && traverse(
                #[trigger] g.nodes[a.node as int][j],
                d,
                a,
            ) == Some(b);
        assert(covered(g, d, v, empty, a, j));
    }
    assert forall|n: nat| !g.accepts_prefix(d, n) by {
        if g.accepts_prefix(d, n) {
            let (t, k) = choose|t: State, k: nat|
                #![trigger g.reaches(d, State { node: st.node, pos: 0 }, t, k)]
                g.reaches(d, State { node: st.node, pos: 0 }, t, k) && g.accepting(t) && t.pos == n;
            assert(State { node: st.node, pos: 0 } == st);
            lemma_closed_holds_reachable(g, d, seen, st, t, k);
        }
    }
}

/// A row of `n` unmarked entries.
pub(crate) fn unmarked_row(n: usize) -> (r: Vec<bool>)
    ensures
        r@.len() == n,
        forall|x: int| 0 <= x < n ==> !r@[x],
{
    let mut row: Vec<bool> = Vec::new();
    let mut i: usize = 0;
    while i < n
        invariant
            row@.len() == i,
            i <= n,
            forall|x: int| 0 <= x < i ==> !row@[x],
        decreases n - i,
    {
        row.push(false);
        i = i + 1;
    }
    row
}

/// A table of `m` rows of `n` unmarked entries.
pub open spec fn blank(n: nat, m: nat) -> Seq<Seq<bool>> {
    Seq::new(m, |_q: int| Seq::new(n, |_x: int| false))
}

/// The table `v` with state `s` marked as expanded.
pub open spec fn mark(v: Seq<Seq<bool>>, s: State) -> Seq<Seq<bool>> {
    v.update(s.pos as int, v[s.pos as int].update(s.node as int, true))
}

/// The states that the transitions `es` lead to from `s`, in the order in
/// which they are pushed on the stack.
pub open spec fn successors(es: Seq<Edge>, d: Seq<u32>, s: State) -> Seq<State>
    decreases es.len(),
{
    if es.len() == 0 {
        Seq::empty()
    } else {
        let r = successors(es.drop_last(), d, s);
        match traverse(es.last(), d, s) {
            Some(t) => r.push(t),
            None => r,
        }
    }
}

/// The outcome of the depth-first search from the table of expanded states
/// `v` and the stack `stack`: the top of the stack is taken; an accepting
/// state ends the search with its position; an expanded state is dropped;
/// any other state is marked expanded and the states its transitions reach
/// are pushed in the order of the transitions.
pub open spec fn first_accept(g: GraphModel, d: Seq<u32>, v: Seq<Seq<bool>>, stack: Seq<State>) -> Option<nat>
    decreases unmarked(v), stack.len(),
{
    if stack.len() == 0 {
        None
    } else {
        let s = stack.last();
        let rest = stack.drop_last();
        if s.node < g.nodes.len() && g.nodes[s.node as int].len() == 0 {
            Some(s.pos as nat)
        } else if marked(v, s) {
            first_accept(g, d, v, rest)
        } else if unmarked(mark(v, s)) < unmarked(v) {
            first_accept(g, d, mark(v, s), rest + successors(g.nodes[s.node as int], d, s))
        } else {
            None
        }
    }
}

/// The position that matching `d` against `g` returns: the search starts
/// with nothing expanded and the start state alone on the stack.
pub open spec fn search(g: GraphModel, d: Seq<u32>) -> Option<nat> {
    match g.start {
        Some(st) => first_accept(
            g,
            d,
            blank(g.nodes.len(), d.len() + 1),
            seq![State { node: st, pos: 0 }],
        ),
        None => None,
    }
}

} // verus!
