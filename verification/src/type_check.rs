//! Pipeline checks: edge typing, disconnected sinks, and cycle detection.
//!
//! Every problem becomes a diagnostic and checking continues, so a user sees
//! as many problems per run as possible. When the bag ends up without
//! errors, the graph is provably acyclic and every edge well typed.

use vstd::prelude::*;
use vstd::string::StrSliceExecFns;
use vstd::string::StringExecFns;

use crate::diagnostics::Diagnostic;
use crate::diagnostics::Diagnostics;
use crate::diagnostics::Severity;
use crate::diagnostics::spec_has_errors;
use crate::document::Type;
use crate::document::TypeModel;
use crate::lowering::Edge;
use crate::lowering::Node;
use crate::lowering::Rune;
use crate::lowering::StageKind;

verus! {

// ---------------------------------------------------------------------------
// Edge typing
// ---------------------------------------------------------------------------

/// Tensor type compatibility: a consumer that expects nothing accepts
/// anything; element types must agree unless the expectation leaves the
/// element open; dimensions must agree element-wise when both sides declare
/// them.
pub open spec fn spec_compatible(produced: TypeModel, expected: Option<TypeModel>) -> bool {
    match expected {
        None => true,
        Some(e) => {
            &&& (e.ty.len() == 0 || e.ty == produced.ty)
            &&& (produced.dimensions.len() == 0 || e.dimensions.len() == 0 || produced.dimensions
                == e.dimensions)
        },
    }
}

/// Whether a produced tensor type satisfies an expectation.
pub fn types_compatible(produced: &Type, expected: Option<&Type>) -> (r: bool)
    ensures
        r == spec_compatible(produced@, match expected {
            Some(e) => Some((*e)@),
            None => None::<TypeModel>,
        }),
{
    match expected {
        None => true,
        Some(e) => {
            let element_ok = e.ty.as_str().is_empty() || crate::ordering::str_eq(
                e.ty.as_str(),
                produced.ty.as_str(),
            );
            let dims_ok = produced.dimensions.len() == 0 || e.dimensions.len() == 0
                || dims_equal(&produced.dimensions, &e.dimensions);
            proof {
                if e.ty@.len() == 0 {
                } else {
                }
            }
            element_ok && dims_ok
        },
    }
}

/// Whether two dimension lists are equal element-wise.
fn dims_equal(a: &Vec<usize>, b: &Vec<usize>) -> (r: bool)
    ensures
        r == (a@ == b@),
{
    if a.len() != b.len() {
        proof {
            assert(a@.len() != b@.len());
        }
        return false;
    }
    let n = a.len();
    let mut i: usize = 0;
    while i < n
        invariant
            0 <= i <= n,
            n == a@.len(),
            n == b@.len(),
            forall|j: int| 0 <= j < i ==> a@[j] == b@[j],
        decreases n - i,
    {
        if a[i] != b[i] {
            return false;
        }
        i += 1;
    }
    proof {
        assert(a@ =~= b@);
    }
    true
}

/// What the consumer declares about input `position`. The surface form
/// gives consumers no input declarations, so every expectation is open;
/// compatibility is checked against this so that a future surface form with
/// declared inputs slots in here.
pub open spec fn expected_input_type(consumer: Node, position: int) -> Option<TypeModel> {
    None
}

/// An edge is well typed when the cited output slot exists and its tensor
/// type satisfies the consumer's expectation.
pub open spec fn edge_well_typed(nodes: Seq<Node>, e: Edge) -> bool {
    &&& e.producer < nodes.len()
    &&& e.consumer < nodes.len()
    &&& e.slot < nodes[e.producer as int].outputs.len()
    &&& spec_compatible(
        nodes[e.producer as int].outputs@[e.slot as int]@,
        expected_input_type(nodes[e.consumer as int], e.position as int),
    )
}

pub open spec fn edges_well_typed(nodes: Seq<Node>, edges: Seq<Edge>) -> bool {
    forall|k: int| 0 <= k < edges.len() ==> edge_well_typed(nodes, #[trigger] edges[k])
}

/// Every sink consumes at least one input.
pub open spec fn sinks_have_inputs(nodes: Seq<Node>) -> bool {
    forall|k: int|
        0 <= k < nodes.len() ==> ((#[trigger] nodes[k]).kind matches StageKind::Sink { .. }
            ==> nodes[k].inputs.len() > 0)
}

// ---------------------------------------------------------------------------
// Cycles
// ---------------------------------------------------------------------------

/// Whether the edge list holds a dataflow edge from node `a` to node `b`.
pub open spec fn has_edge(edges: Seq<Edge>, a: int, b: int) -> bool {
    exists|k: int|
        0 <= k < edges.len() && (#[trigger] edges[k]).producer == a && edges[k].consumer == b
}

/// Whether `p` walks the graph along dataflow edges.
pub open spec fn is_path(edges: Seq<Edge>, p: Seq<int>) -> bool {
    forall|i: int| 0 <= i < p.len() - 1 ==> has_edge(edges, #[trigger] p[i], p[i + 1])
}

/// No walk returns to its start.
pub open spec fn acyclic(n: int, edges: Seq<Edge>) -> bool {
    forall|p: Seq<int>|
        !(#[trigger] is_path(edges, p) && p.len() >= 2 && p[0] == p[p.len() - 1])
}

/// A walk that leaves `g` and comes back to it.
pub open spec fn cycle_through(edges: Seq<Edge>, g: int) -> bool {
    exists|p: Seq<int>|
        #[trigger] is_path(edges, p) && p.len() >= 2 && p[0] == g && p[p.len() - 1] == g
}

/// The message of a cycle report, naming the member at which the cycle
/// closed.
pub open spec fn spec_cycle_message(name: Seq<char>) -> Seq<char> {
    "Cycle detected when checking \""@ + name + "\""@
}

/// An error whose message names a member through which the graph really
/// cycles.
pub open spec fn cycle_reported(d: Diagnostic, nodes: Seq<Node>, edges: Seq<Edge>) -> bool {
    &&& d.severity == Severity::Error
    &&& exists|g: int|
        0 <= g < nodes.len() && cycle_through(edges, g) && d.message@ == spec_cycle_message(
            (#[trigger] nodes[g]).name@,
        )
}

/// With no edges there is no walk at all, let alone a cycle.
pub proof fn lemma_no_edges_acyclic(n: int, edges: Seq<Edge>)
    requires
        edges.len() == 0,
    ensures
        acyclic(n, edges),
{
    assert forall|p: Seq<int>|
        !(#[trigger] is_path(edges, p) && p.len() >= 2 && p[0] == p[p.len() - 1]) by {
        if is_path(edges, p) && p.len() >= 2 {
            assert(has_edge(edges, p[0], p[1]));
            let k = choose|k: int|
                0 <= k < edges.len() && (#[trigger] edges[k]).producer == p[0] && edges[k].consumer
                    == p[1];
        }
    }
}

/// A rank that strictly increases along every edge rules out cycles.
proof fn lemma_rank_acyclic(n: int, edges: Seq<Edge>, rank: Map<int, int>)
    requires
        forall|k: int|
            0 <= k < edges.len() ==> rank[(#[trigger] edges[k]).producer as int]
                < rank[edges[k].consumer as int],
    ensures
        acyclic(n, edges),
{
    assert forall|p: Seq<int>|
        !(#[trigger] is_path(edges, p) && p.len() >= 2 && p[0] == p[p.len() - 1]) by {
        if is_path(edges, p) && p.len() >= 2 && p[0] == p[p.len() - 1] {
            lemma_path_rank(edges, rank, p, p.len() - 1);
            assert(rank[p[0]] + (p.len() - 1) <= rank[p[p.len() - 1]]);
        }
    }
}

/// Along a path, rank grows by at least one per step.
proof fn lemma_path_rank(edges: Seq<Edge>, rank: Map<int, int>, p: Seq<int>, i: int)
    requires
        forall|k: int|
            0 <= k < edges.len() ==> rank[(#[trigger] edges[k]).producer as int]
                < rank[edges[k].consumer as int],
        is_path(edges, p),
        0 <= i < p.len(),
    ensures
        rank[p[0]] + i <= rank[p[i]],
    decreases i,
{
    if i > 0 {
        lemma_path_rank(edges, rank, p, i - 1);
        assert(has_edge(edges, p[i - 1], p[i]));
        let k = choose|k: int|
            0 <= k < edges.len() && (#[trigger] edges[k]).producer == p[i - 1] && edges[k].consumer
                == p[i];
        assert(rank[p[i - 1]] < rank[p[i]]);
    }
}

/// How many nodes a search has not yet visited.
pub open spec fn count_white(colors: Seq<u8>) -> int
    decreases colors.len(),
{
    if colors.len() == 0 {
        0
    } else {
        count_white(colors.drop_last()) + if colors.last() == 0u8 {
            1int
        } else {
            0int
        }
    }
}

proof fn lemma_count_white_bounds(colors: Seq<u8>)
    ensures
        0 <= count_white(colors) <= colors.len(),
    decreases colors.len(),
{
    if colors.len() > 0 {
        lemma_count_white_bounds(colors.drop_last());
    }
}

/// Marking a white node decreases the count of white nodes by one.
proof fn lemma_count_white_update(colors: Seq<u8>, i: int, c: u8)
    requires
        0 <= i < colors.len(),
        colors[i] == 0u8,
        c != 0u8,
    ensures
        count_white(colors.update(i, c)) == count_white(colors) - 1,
    decreases colors.len(),
{
    let updated = colors.update(i, c);
    if i == colors.len() - 1 {
        assert(updated.drop_last() =~= colors.drop_last());
        assert(updated.last() == c);
    } else {
        assert(updated.drop_last() =~= colors.drop_last().update(i, c));
        lemma_count_white_update(colors.drop_last(), i, c);
        assert(updated.last() == colors.last());
    }
}

/// Recolouring a non-white node keeps the count of white nodes.
proof fn lemma_count_white_update_same(colors: Seq<u8>, i: int, c: u8)
    requires
        0 <= i < colors.len(),
        colors[i] != 0u8,
        c != 0u8,
    ensures
        count_white(colors.update(i, c)) == count_white(colors),
    decreases colors.len(),
{
    let updated = colors.update(i, c);
    if i == colors.len() - 1 {
        assert(updated.drop_last() =~= colors.drop_last());
    } else {
        assert(updated.drop_last() =~= colors.drop_last().update(i, c));
        lemma_count_white_update_same(colors.drop_last(), i, c);
        assert(updated.last() == colors.last());
    }
}

/// Finished nodes only have finished producers, of strictly smaller rank.
pub open spec fn ranked(colors: Seq<u8>, rank: Map<int, int>, edges: Seq<Edge>) -> bool {
    forall|k: int|
        0 <= k < edges.len() && (#[trigger] edges[k]).consumer < colors.len() && colors[edges[k].consumer as int]
            == 2u8 ==> {
            let e = edges[k];
            &&& e.producer < colors.len()
            &&& colors[e.producer as int] == 2u8
            &&& rank[e.producer as int] < rank[e.consumer as int]
        }
}

/// The mutable state of the depth-first search.
struct Search {
    colors: Vec<u8>,
    stack: Vec<usize>,
    rank: Ghost<Map<int, int>>,
    counter: Ghost<int>,
}

impl Search {
    spec fn wf(&self, n: int, edges: Seq<Edge>) -> bool {
        &&& self.colors@.len() == n
        &&& forall|v: int|
            0 <= v < n ==> (#[trigger] self.colors@[v]) == 0u8 || self.colors@[v] == 1u8
                || self.colors@[v] == 2u8
        &&& ranked(self.colors@, self.rank@, edges)
        &&& forall|v: int|
            0 <= v < n && (#[trigger] self.colors@[v]) == 2u8 ==> self.rank@[v] < self.counter@
        &&& forall|i: int|
            0 <= i < self.stack@.len() ==> (#[trigger] self.stack@[i]) < n
                && self.colors@[self.stack@[i] as int] == 1u8
        &&& forall|i: int|
            0 <= i < self.stack@.len() - 1 ==> has_edge(
                edges,
                (#[trigger] self.stack@[i + 1]) as int,
                self.stack@[i] as int,
            )
        &&& forall|v: int|
            0 <= v < n && (#[trigger] self.colors@[v]) == 1u8 ==> exists|i: int|
                0 <= i < self.stack@.len() && self.stack@[i] == v
    }
}

/// Walk the producers of `u` depth-first; returns whether a cycle was
/// reported. Without a cycle, `u` ends finished, the stack and diagnostics
/// are as before, no new unfinished node appears, and the rank invariant
/// still holds; with one, exactly one error was appended, naming a member
/// through which the graph really cycles.
fn dfs(
    st: &mut Search,
    rune: &Rune,
    u: usize,
    diags: &mut Diagnostics,
) -> (found: bool)
    requires
        old(st).wf(rune.nodes@.len() as int, rune.edges@),
        crate::lowering::edges_sound(rune.nodes@, rune.edges@),
        u < rune.nodes@.len(),
        old(st).colors@[u as int] == 0u8,
        old(st).stack@.len() > 0 ==> has_edge(
            rune.edges@,
            u as int,
            old(st).stack@[old(st).stack@.len() - 1] as int,
        ),
    ensures
        final(st).colors@.len() == old(st).colors@.len(),
        old(diags)@.is_prefix_of(final(diags)@),
        count_white(final(st).colors@) <= count_white(old(st).colors@),
        !found ==> {
            &&& final(st).wf(rune.nodes@.len() as int, rune.edges@)
            &&& final(st).colors@[u as int] == 2u8
            &&& final(st).stack@ == old(st).stack@
            &&& final(diags)@ == old(diags)@
            &&& forall|v: int|
                #![trigger old(st).colors@[v]]
                #![trigger final(st).colors@[v]]
                0 <= v < old(st).colors@.len() ==> {
                    &&& (old(st).colors@[v] == 2u8 ==> final(st).colors@[v] == 2u8
                        && final(st).rank@[v] == old(st).rank@[v])
                    &&& (final(st).colors@[v] == 1u8 <==> old(st).colors@[v] == 1u8)
                }
            &&& final(st).counter@ >= old(st).counter@
        },
        found ==> {
            &&& spec_has_errors(final(diags)@)
            &&& !acyclic(rune.nodes@.len() as int, rune.edges@)
            &&& final(diags)@.len() == old(diags)@.len() + 1
            &&& final(diags)@.last().severity == Severity::Error
            &&& exists|g: int|
                0 <= g < rune.nodes@.len() && cycle_through(rune.edges@, g)
                    && final(diags)@.last().message@ == spec_cycle_message(
                    rune.nodes@[g].name@,
                )
        },
    decreases count_white(old(st).colors@),
{
    let ghost n = rune.nodes@.len() as int;
    let ghost colors0 = st.colors@;
    let ghost stack0 = st.stack@;
    proof {
        lemma_count_white_update(colors0, u as int, 1u8);
    }
    st.colors.set(u, 1);
    st.stack.push(u);
    proof {
        assert forall|i: int| 0 <= i < st.stack@.len() implies (#[trigger] st.stack@[i]) < n
            && st.colors@[st.stack@[i] as int] == 1u8 by {
            if i < stack0.len() {
                assert(st.stack@[i] == stack0[i]);
                assert(colors0[stack0[i] as int] == 1u8);
            } else {
                assert(st.stack@[i] == u);
            }
        }
        assert forall|i: int| 0 <= i < st.stack@.len() - 1 implies has_edge(
            rune.edges@,
            (#[trigger] st.stack@[i + 1]) as int,
            st.stack@[i] as int,
        ) by {
            if i + 1 < stack0.len() {
                assert(st.stack@[i] == stack0[i] && st.stack@[i + 1] == stack0[i + 1]);
            } else {
                assert(st.stack@[i + 1] == u);
                assert(st.stack@[i] == stack0[stack0.len() - 1]);
            }
        }
        assert forall|v: int|
            0 <= v < n && (#[trigger] st.colors@[v]) == 1u8 implies exists|i: int|
            0 <= i < st.stack@.len() && st.stack@[i] == v by {
            if v == u as int {
                assert(st.stack@[stack0.len() as int] == u);
            } else {
                assert(colors0[v] == 1u8);
                let i = choose|i: int| 0 <= i < stack0.len() && stack0[i] == v;
                assert(st.stack@[i] == v);
            }
        }
    }

    let edge_count = rune.edges.len();
    let mut k: usize = 0;
    while k < edge_count
        invariant
            0 <= k <= edge_count,
            edge_count == rune.edges@.len(),
            u < rune.nodes@.len(),
            crate::lowering::edges_sound(rune.nodes@, rune.edges@),
            st.wf(rune.nodes@.len() as int, rune.edges@),
            colors0 == old(st).colors@,
            stack0 == old(st).stack@,
            st.colors@.len() == colors0.len(),
            colors0.len() == rune.nodes@.len(),
            st.colors@[u as int] == 1u8,
            colors0[u as int] == 0u8,
            st.stack@ == stack0.push(u),
            count_white(st.colors@) <= count_white(colors0) - 1,
            diags@ == old(diags)@,
            st.counter@ >= old(st).counter@,
            forall|v: int|
                0 <= v < colors0.len() ==> {
                    &&& (colors0[v] == 2u8 ==> st.colors@[v] == 2u8
                        && st.rank@[v] == old(st).rank@[v])
                    &&& ((#[trigger] st.colors@[v]) == 1u8 <==> colors0[v] == 1u8 || v == u)
                },
            forall|j: int|
                0 <= j < k && (#[trigger] rune.edges@[j]).consumer == u ==> st.colors@[rune.edges@[j].producer as int]
                    == 2u8,
        decreases edge_count - k,
    {
        let e = rune.edges[k];
        if e.consumer == u {
            let child = e.producer;
            proof {
                assert(crate::lowering::edge_sound(rune.nodes@, rune.edges@[k as int]));
            }
            let color = st.colors[child];
            if color == 0 {
                let ghost before = st.colors@;
                let ghost rank_before = st.rank@;
                let ghost dmid = diags@;
                proof {
                    lemma_count_white_bounds(st.colors@);
                    assert(st.stack@[st.stack@.len() - 1] == u);
                    assert(has_edge(rune.edges@, child as int, u as int)) by {
                        assert(rune.edges@[k as int].producer == child
                            && rune.edges@[k as int].consumer == u);
                    }
                }
                let found = dfs(st, rune, child, diags);
                if found {
                    return true;
                }
                proof {
                    assert forall|v: int|
                        0 <= v < colors0.len() implies ((#[trigger] st.colors@[v]) == 1u8 <==> (
                    colors0[v] == 1u8 || v == u)) by {
                        assert(st.colors@[v] == 1u8 <==> before[v] == 1u8);
                    }
                    assert forall|v: int|
                        0 <= v < colors0.len() && colors0[v] == 2u8 implies st.colors@[v] == 2u8
                        && st.rank@[v] == old(st).rank@[v] by {
                        assert(before[v] == 2u8);
                        assert(st.rank@[v] == rank_before[v]);
                    }
                    assert forall|j: int|
                        0 <= j < k + 1 && (#[trigger] rune.edges@[j]).consumer == u implies st.colors@[rune.edges@[j].producer as int]
                        == 2u8 by {
                        if j < k {
                            assert(before[rune.edges@[j].producer as int] == 2u8);
                        }
                    }
                }
            } else if color == 1 {
                proof {
                    // `child` is gray, so it sits on the stack; the stack
                    // from there to the top, closed by this edge, really
                    // cycles through `child`.
                    let stack = st.stack@;
                    let pos = choose|i: int| 0 <= i < stack.len() && stack[i] == child;
                    let q = Seq::new(
                        (stack.len() - pos + 1) as nat,
                        |j: int|
                            if j == 0 {
                                child as int
                            } else {
                                stack[stack.len() - j] as int
                            },
                    );
                    assert forall|j: int| 0 <= j < q.len() - 1 implies has_edge(
                        rune.edges@,
                        #[trigger] q[j],
                        q[j + 1],
                    ) by {
                        if j == 0 {
                            assert(q[1] == stack[stack.len() - 1] as int);
                            assert(stack[stack.len() - 1] == u);
                            assert(has_edge(rune.edges@, child as int, u as int)) by {
                                assert(rune.edges@[k as int].producer == child
                                    && rune.edges@[k as int].consumer == u);
                            }
                        } else {
                            assert(q[j] == stack[stack.len() - j] as int);
                            assert(q[j + 1] == stack[stack.len() - j - 1] as int);
                            assert(has_edge(
                                rune.edges@,
                                stack[(stack.len() - j - 1) + 1] as int,
                                stack[stack.len() - j - 1] as int,
                            ));
                        }
                    }
                    assert(is_path(rune.edges@, q));
                    assert(q[0] == child as int && q[q.len() - 1] == child as int && q.len()
                        >= 2);
                    assert(cycle_through(rune.edges@, child as int));
                    assert(!acyclic(n, rune.edges@)) by {
                        assert(is_path(rune.edges@, q) && q.len() >= 2 && q[0] == q[q.len()
                            - 1]);
                    }
                }
                report_cycle(st, rune, child, diags);
                return true;
            }
        }
        k += 1;
    }

    // every producer of u is finished: finish u
    let ghost before_finish = st.colors@;
    proof {
        lemma_count_white_update_same(before_finish, u as int, 2u8);
    }
    st.colors.set(u, 2);
    let popped = st.stack.pop();
    proof {
        assert(st.stack@ =~= stack0);
        st.rank@ = st.rank@.insert(u as int, st.counter@);
        st.counter@ = st.counter@ + 1;
        assert forall|k2: int|
            0 <= k2 < rune.edges@.len() && (#[trigger] rune.edges@[k2]).consumer
                < st.colors@.len() && st.colors@[rune.edges@[k2].consumer as int] == 2u8 implies {
            let e = rune.edges@[k2];
            &&& e.producer < st.colors@.len()
            &&& st.colors@[e.producer as int] == 2u8
            &&& st.rank@[e.producer as int] < st.rank@[e.consumer as int]
        } by {
            let e = rune.edges@[k2];
            assert(crate::lowering::edge_sound(rune.nodes@, e));
            if e.consumer == u as int {
                assert(st.colors@[e.producer as int] == 2u8);
            } else {
                assert(before_finish[e.consumer as int] == 2u8);
            }
        }
        assert forall|v: int|
            0 <= v < colors0.len() && colors0[v] == 2u8 implies st.colors@[v] == 2u8
            && st.rank@[v] == old(st).rank@[v] by {
            assert(v != u as int);
            assert(before_finish[v] == 2u8);
        }
        assert forall|v: int|
            0 <= v < colors0.len() implies (st.colors@[v] == 1u8 <==> colors0[v] == 1u8) by {
            if v == u as int {
            } else {
                assert(st.colors@[v] == before_finish[v]);
            }
        }
        assert forall|v: int|
            0 <= v < colors0.len() && (#[trigger] st.colors@[v]) == 2u8 implies st.rank@[v]
            < st.counter@ by {
            if v == u as int {
            } else {
                assert(before_finish[v] == 2u8);
            }
        }
        assert forall|v: int|
            0 <= v < n && (#[trigger] st.colors@[v]) == 1u8 implies exists|i: int|
            0 <= i < st.stack@.len() && st.stack@[i] == v by {
            assert(colors0[v] == 1u8);
            let i = choose|i: int| 0 <= i < stack0.len() && stack0[i] == v;
            assert(st.stack@[i] == v);
        }
    }
    false
}

/// Report one cycle: `g` is the gray node seen again; the members between
/// `g` and the top of the stack, in traversal order, complete the cycle.
fn report_cycle(st: &Search, rune: &Rune, g: usize, diags: &mut Diagnostics)
    requires
        g < rune.nodes@.len(),
    ensures
        old(diags)@.is_prefix_of(final(diags)@),
        spec_has_errors(final(diags)@),
        final(diags)@.len() == old(diags)@.len() + 1,
        final(diags)@.last().severity == Severity::Error,
        final(diags)@.last().message@ == spec_cycle_message(rune.nodes@[g as int].name@),
{
    let g_name = rune.nodes[g].name.clone();
    let mut message = String::from_str("Cycle detected when checking \"");
    message.append(g_name.as_str());
    message.append("\"");

    let mut notes: Vec<crate::diagnostics::Note> = Vec::new();
    // find where g sits on the stack
    let depth = st.stack.len();
    let n_nodes = rune.nodes.len();
    let mut pos: usize = depth;
    let mut i: usize = 0;
    while i < depth
        invariant
            0 <= i <= depth,
            depth == st.stack@.len(),
            n_nodes == rune.nodes@.len(),
            pos == depth || pos < i,
        decreases depth - i,
    {
        let v = st.stack[i];
        if pos == depth && v < n_nodes {
            if crate::ordering::str_eq(rune.nodes[v].name.as_str(), g_name.as_str()) {
                pos = i;
            }
        }
        i += 1;
    }
    // the members after g on the stack, in traversal order
    let mut i: usize = pos;
    while i < depth
        invariant
            0 <= i <= depth,
            depth == st.stack@.len(),
            n_nodes == rune.nodes@.len(),
        decreases depth - i,
    {
        let member = st.stack[i];
        if i + 1 < depth && member < n_nodes {
            let next = st.stack[i + 1];
            if next < n_nodes {
                let mut note = String::from_str("\"");
                note.append(rune.nodes[member].name.as_str());
                note.append("\" receives input from \"");
                note.append(rune.nodes[next].name.as_str());
                note.append("\"");
                notes.push(crate::diagnostics::Note { message: note, span: None });
            }
        }
        i += 1;
    }
    let mut last = String::from_str("... which receives input from \"");
    last.append(g_name.as_str());
    last.append("\", completing the cycle.");
    notes.push(crate::diagnostics::Note { message: last, span: None });

    proof {
        assert(message@ =~= spec_cycle_message(rune.nodes@[g as int].name@));
    }
    let d = Diagnostic { severity: Severity::Error, message, primary: None, notes };
    let ghost before = diags@;
    diags.push(d);
    proof {
        assert(diags@[before.len() as int].severity.spec_is_fatal());
        assert(before.is_prefix_of(diags@)) by {
            assert(diags@.subrange(0, before.len() as int) =~= before);
        }
    }
}

/// Detect cycles: search from every node, in sorted-name order. An acyclic
/// graph adds nothing; otherwise exactly one error is reported, naming a
/// member through which the graph really cycles.
#[verifier::rlimit(60)]
pub fn check_cycles(rune: &Rune, diags: &mut Diagnostics)
    requires
        crate::lowering::edges_sound(rune.nodes@, rune.edges@),
    ensures
        old(diags)@.is_prefix_of(final(diags)@),
        !spec_has_errors(final(diags)@) ==> acyclic(rune.nodes@.len() as int, rune.edges@),
        acyclic(rune.nodes@.len() as int, rune.edges@) ==> final(diags)@ == old(diags)@,
        !acyclic(rune.nodes@.len() as int, rune.edges@) ==> {
            &&& final(diags)@.len() == old(diags)@.len() + 1
            &&& final(diags)@.last().severity == Severity::Error
            &&& exists|g: int|
                0 <= g < rune.nodes@.len() && cycle_through(rune.edges@, g)
                    && final(diags)@.last().message@ == spec_cycle_message(
                    rune.nodes@[g].name@,
                )
        },
{
    let n = rune.nodes.len();
    let mut colors: Vec<u8> = Vec::new();
    let mut i: usize = 0;
    while i < n
        invariant
            0 <= i <= n,
            colors@.len() == i,
            forall|v: int| 0 <= v < i ==> colors@[v] == 0u8,
        decreases n - i,
    {
        colors.push(0);
        i += 1;
    }
    let mut st = Search { colors, stack: Vec::new(), rank: Ghost(Map::empty()), counter: Ghost(0) };

    let mut u: usize = 0;
    while u < n
        invariant
            0 <= u <= n,
            n == rune.nodes@.len(),
            crate::lowering::edges_sound(rune.nodes@, rune.edges@),
            st.wf(n as int, rune.edges@),
            st.colors@.len() == n,
            st.stack@.len() == 0,
            diags@ == old(diags)@,
            forall|v: int| 0 <= v < u ==> (#[trigger] st.colors@[v]) == 2u8,
            forall|v: int| 0 <= v < n ==> (#[trigger] st.colors@[v]) != 1u8,
        decreases n - u,
    {
        if st.colors[u] == 0 {
            let ghost before = st.colors@;
            let found = dfs(&mut st, rune, u, diags);
            if found {
                proof {
                    assert(old(diags)@.is_prefix_of(diags@)) by {
                        assert(old(diags)@ =~= diags@.subrange(0, old(diags)@.len() as int));
                    }
                }
                return ;
            }
            proof {
                assert forall|v: int| 0 <= v < u + 1 implies (#[trigger] st.colors@[v]) == 2u8 by {
                    if v < u {
                        assert(before[v] == 2u8);
                    }
                }
                assert forall|v: int| 0 <= v < n implies (#[trigger] st.colors@[v]) != 1u8 by {
                    assert(st.colors@[v] == 1u8 <==> before[v] == 1u8);
                }
            }
        }
        u += 1;
    }
    proof {
        // every node finished without a gray hit: the ranks witness that the
        // graph is acyclic
        assert forall|k: int|
            0 <= k < rune.edges@.len() implies st.rank@[(#[trigger] rune.edges@[k]).producer as int]
            < st.rank@[rune.edges@[k].consumer as int] by {
            assert(crate::lowering::edge_sound(rune.nodes@, rune.edges@[k]));
            assert(st.colors@[rune.edges@[k].consumer as int] == 2u8);
        }
        lemma_rank_acyclic(n as int, rune.edges@, st.rank@);
    }
}

// ---------------------------------------------------------------------------
// The whole phase
// ---------------------------------------------------------------------------

/// Why a lowered graph is rejected: a cited output slot is missing, a sink
/// consumes nothing, or the dataflow cycles.
pub open spec fn graph_rejects(rune: Rune) -> bool {
    ||| !edges_well_typed(rune.nodes@, rune.edges@)
    ||| !sinks_have_inputs(rune.nodes@)
    ||| !acyclic(rune.nodes@.len() as int, rune.edges@)
}

/// Check edge typing: a cited output slot must exist; a produced type with
/// no declared dimensions is flagged so users can tighten the declaration.
/// An error is added exactly when some edge is not well typed.
fn check_edge_types(rune: &Rune, diags: &mut Diagnostics)
    requires
        crate::lowering::edges_sound(rune.nodes@, rune.edges@),
    ensures
        old(diags)@.is_prefix_of(final(diags)@),
        spec_has_errors(final(diags)@) == (spec_has_errors(old(diags)@) || !edges_well_typed(
            rune.nodes@,
            rune.edges@,
        )),
{
    let count = rune.edges.len();
    let mut k: usize = 0;
    while k < count
        invariant
            0 <= k <= count,
            count == rune.edges@.len(),
            crate::lowering::edges_sound(rune.nodes@, rune.edges@),
            old(diags)@.is_prefix_of(diags@),
            spec_has_errors(diags@) == (spec_has_errors(old(diags)@) || exists|j: int|
                0 <= j < k && !edge_well_typed(rune.nodes@, #[trigger] rune.edges@[j])),
        decreases count - k,
    {
        let e = rune.edges[k];
        proof {
            assert(crate::lowering::edge_sound(rune.nodes@, rune.edges@[k as int]));
        }
        let producer = &rune.nodes[e.producer];
        if e.slot >= producer.outputs.len() {
            let mut message = String::from_str("the stage \"");
            message.append(producer.name.as_str());
            message.append("\" has no such output slot");
            let ghost before = diags@;
            diags.push(Diagnostic::error(message));
            proof {
                assert(diags@[before.len() as int].severity.spec_is_fatal());
                assert(before.is_prefix_of(diags@)) by {
                    assert(diags@.subrange(0, before.len() as int) =~= before);
                }
                crate::diagnostics::lemma_prefix_transitive(old(diags)@, before, diags@);
                assert(!edge_well_typed(rune.nodes@, rune.edges@[k as int]));
            }
        } else {
            // the consumer declares no expectation, so the produced type is
            // compatible (`spec_compatible` with an open expectation); an
            // undeclared dimension list is only flagged
            proof {
                assert(edge_well_typed(rune.nodes@, rune.edges@[k as int]));
            }
            let produced = &producer.outputs[e.slot];
            if produced.dimensions.len() == 0 {
                let mut message = String::from_str("the output of \"");
                message.append(producer.name.as_str());
                message.append("\" declares no dimensions; it is treated as unspecified");
                let ghost before = diags@;
                diags.push(Diagnostic::warning(message));
                proof {
                    assert(before.is_prefix_of(diags@)) by {
                        assert(diags@.subrange(0, before.len() as int) =~= before);
                    }
                    crate::diagnostics::lemma_prefix_transitive(old(diags)@, before, diags@);
                    assert(spec_has_errors(diags@) == spec_has_errors(before)) by {
                        if spec_has_errors(before) {
                            let w = choose|w: int|
                                0 <= w < before.len() && (#[trigger] before[w]).severity.spec_is_fatal();
                            assert(diags@[w].severity.spec_is_fatal());
                        }
                        if spec_has_errors(diags@) {
                            let w = choose|w: int|
                                0 <= w < diags@.len() && (#[trigger] diags@[w]).severity.spec_is_fatal();
                            if w < before.len() {
                                assert(before[w].severity.spec_is_fatal());
                            }
                        }
                    }
                }
            }
        }
        k += 1;
    }
    proof {
        assert((exists|j: int|
            0 <= j < count && !edge_well_typed(rune.nodes@, #[trigger] rune.edges@[j]))
            == !edges_well_typed(rune.nodes@, rune.edges@));
    }
}

/// A sink with no input is an error; nothing is added otherwise.
fn check_sinks(rune: &Rune, diags: &mut Diagnostics)
    ensures
        old(diags)@.is_prefix_of(final(diags)@),
        spec_has_errors(final(diags)@) == (spec_has_errors(old(diags)@) || !sinks_have_inputs(
            rune.nodes@,
        )),
        sinks_have_inputs(rune.nodes@) ==> final(diags)@ == old(diags)@,
{
    let n = rune.nodes.len();
    let mut k: usize = 0;
    while k < n
        invariant
            0 <= k <= n,
            n == rune.nodes@.len(),
            old(diags)@.is_prefix_of(diags@),
            spec_has_errors(diags@) == (spec_has_errors(old(diags)@) || exists|j: int|
                0 <= j < k && ((#[trigger] rune.nodes@[j]).kind matches StageKind::Sink { .. })
                    && rune.nodes@[j].inputs.len() == 0),
            (forall|j: int|
                0 <= j < k ==> ((#[trigger] rune.nodes@[j]).kind matches StageKind::Sink { .. }
                    ==> rune.nodes@[j].inputs.len() > 0)) ==> diags@ == old(diags)@,
        decreases n - k,
    {
        let node = &rune.nodes[k];
        let is_sink = match &node.kind {
            StageKind::Sink { .. } => true,
            _ => false,
        };
        if is_sink && node.inputs.len() == 0 {
            let mut message = String::from_str("the sink \"");
            message.append(node.name.as_str());
            message.append("\" has no inputs");
            let ghost before = diags@;
            diags.push(Diagnostic::error(message));
            proof {
                assert(diags@[before.len() as int].severity.spec_is_fatal());
                assert(before.is_prefix_of(diags@)) by {
                    assert(diags@.subrange(0, before.len() as int) =~= before);
                }
                crate::diagnostics::lemma_prefix_transitive(old(diags)@, before, diags@);
            }
        }
        k += 1;
    }
}

/// A stage that is neither a capability nor fed (transitively) from one is
/// flagged with a warning.
fn check_reachability(rune: &Rune, diags: &mut Diagnostics)
    requires
        crate::lowering::edges_sound(rune.nodes@, rune.edges@),
    ensures
        old(diags)@.is_prefix_of(final(diags)@),
        spec_has_errors(final(diags)@) == spec_has_errors(old(diags)@),
{
    let n = rune.nodes.len();
    let mut reachable: Vec<bool> = Vec::new();
    let mut i: usize = 0;
    while i < n
        invariant
            0 <= i <= n,
            n == rune.nodes@.len(),
            reachable@.len() == i,
        decreases n - i,
    {
        let is_source = match &rune.nodes[i].kind {
            StageKind::Source { .. } => true,
            _ => false,
        };
        reachable.push(is_source);
        i += 1;
    }
    // propagate along edges until nothing changes (at most n rounds)
    let mut round: usize = 0;
    while round < n
        invariant
            n == rune.nodes@.len(),
            reachable@.len() == n,
            crate::lowering::edges_sound(rune.nodes@, rune.edges@),
        decreases n - round,
    {
        let count = rune.edges.len();
        let mut k: usize = 0;
        while k < count
            invariant
                0 <= k <= count,
                count == rune.edges@.len(),
                n == rune.nodes@.len(),
                reachable@.len() == n,
                crate::lowering::edges_sound(rune.nodes@, rune.edges@),
            decreases count - k,
        {
            let e = rune.edges[k];
            proof {
                assert(crate::lowering::edge_sound(rune.nodes@, rune.edges@[k as int]));
            }
            if reachable[e.producer] && !reachable[e.consumer] {
                reachable.set(e.consumer, true);
            }
            k += 1;
        }
        round += 1;
    }
    let mut k: usize = 0;
    let ghost entry = diags@;
    while k < n
        invariant
            0 <= k <= n,
            n == rune.nodes@.len(),
            reachable@.len() == n,
            entry == old(diags)@,
            entry.is_prefix_of(diags@),
            spec_has_errors(diags@) == spec_has_errors(entry),
        decreases n - k,
    {
        if !reachable[k] {
            let mut message = String::from_str("the stage \"");
            message.append(rune.nodes[k].name.as_str());
            message.append("\" is not connected to any capability");
            let ghost before = diags@;
            diags.push(Diagnostic::warning(message));
            proof {
                assert(before.is_prefix_of(diags@)) by {
                    assert(diags@.subrange(0, before.len() as int) =~= before);
                }
                assert(entry.is_prefix_of(diags@)) by {
                    assert(diags@.subrange(0, entry.len() as int) =~= entry);
                }
                assert(spec_has_errors(diags@) == spec_has_errors(before)) by {
                    if spec_has_errors(before) {
                        let w = choose|w: int|
                            0 <= w < before.len() && (#[trigger] before[w]).severity.spec_is_fatal();
                        assert(diags@[w].severity.spec_is_fatal());
                    }
                    if spec_has_errors(diags@) {
                        let w = choose|w: int|
                            0 <= w < diags@.len() && (#[trigger] diags@[w]).severity.spec_is_fatal();
                        if w < before.len() {
                            assert(before[w].severity.spec_is_fatal());
                        }
                    }
                }
            }
        }
        k += 1;
    }
}

/// The type-checking phase: validate every edge, flag disconnected sinks
/// and unreachable stages, and detect cycles. A diagnostics bag without
/// errors afterwards means the graph is acyclic and every edge well typed.
pub fn check(rune: &Rune, diags: &mut Diagnostics)
    requires
        crate::lowering::edges_sound(rune.nodes@, rune.edges@),
    ensures
        old(diags)@.is_prefix_of(final(diags)@),
        spec_has_errors(final(diags)@) == (spec_has_errors(old(diags)@) || graph_rejects(*rune)),
        !spec_has_errors(final(diags)@) ==> acyclic(rune.nodes@.len() as int, rune.edges@),
        !spec_has_errors(final(diags)@) ==> edges_well_typed(rune.nodes@, rune.edges@),
        !spec_has_errors(final(diags)@) ==> sinks_have_inputs(rune.nodes@),
        !acyclic(rune.nodes@.len() as int, rune.edges@) ==> exists|i: int|
            0 <= i < final(diags)@.len() && cycle_reported(
                #[trigger] final(diags)@[i],
                rune.nodes@,
                rune.edges@,
            ),
{
    let ghost d0 = diags@;
    check_edge_types(rune, diags);
    let ghost d1 = diags@;
    check_sinks(rune, diags);
    let ghost d2 = diags@;
    check_cycles(rune, diags);
    let ghost d3 = diags@;
    check_reachability(rune, diags);
    proof {
        lemma_prefix_chain(d0, d1, d2, d3, diags@);
        if !spec_has_errors(diags@) {
            lemma_prefix_no_errors(d1, diags@);
            lemma_prefix_no_errors(d2, diags@);
            lemma_prefix_no_errors(d3, diags@);
        }
        // an error in the bag means some check rejected (or it was already
        // there); no rejection means every check left the bag's errors alone
        assert(spec_has_errors(d3) == (spec_has_errors(d2) || !acyclic(
            rune.nodes@.len() as int,
            rune.edges@,
        ))) by {
            if acyclic(rune.nodes@.len() as int, rune.edges@) {
                assert(d3 == d2);
            } else {
                assert(spec_has_errors(d3)) by {
                    if !spec_has_errors(d3) {
                        assert(acyclic(rune.nodes@.len() as int, rune.edges@));
                    }
                }
            }
        }
        if !acyclic(rune.nodes@.len() as int, rune.edges@) {
            // the cycle report sits where the cycle check appended it
            let at = d3.len() - 1;
            assert(cycle_reported(d3[at], rune.nodes@, rune.edges@));
            crate::diagnostics::lemma_prefix_index(d3, diags@, at);
        }
    }
}

/// Prefixes chain.
proof fn lemma_prefix_chain(
    a: Seq<Diagnostic>,
    b: Seq<Diagnostic>,
    c: Seq<Diagnostic>,
    d: Seq<Diagnostic>,
    e: Seq<Diagnostic>,
)
    requires
        a.is_prefix_of(b),
        b.is_prefix_of(c),
        c.is_prefix_of(d),
        d.is_prefix_of(e),
    ensures
        a.is_prefix_of(e),
        b.is_prefix_of(e),
        c.is_prefix_of(e),
{
    assert(a =~= e.subrange(0, a.len() as int));
    assert(b =~= e.subrange(0, b.len() as int));
    assert(c =~= e.subrange(0, c.len() as int));
}

/// No errors in a bag means none in any of its prefixes.
proof fn lemma_prefix_no_errors(a: Seq<Diagnostic>, b: Seq<Diagnostic>)
    requires
        a.is_prefix_of(b),
        !spec_has_errors(b),
    ensures
        !spec_has_errors(a),
{
    if spec_has_errors(a) {
        let w = choose|w: int| 0 <= w < a.len() && (#[trigger] a[w]).severity.spec_is_fatal();
        assert(b[w] == a[w]);
    }
}

} // verus!
