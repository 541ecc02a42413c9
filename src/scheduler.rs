//! Flow-efficient scheduling: drain a row from its source all the way to
//! the sinks before admitting the next one.
//!
//! The graph is walked depth first from the virtual root, taking the
//! leftmost outgoing edge first. A stream with several incoming edges is
//! left only once all of them have run (the remaining ones are requested
//! first), and its outgoing edges run right after the last one arrives.
use vstd::prelude::*;
use vstd::set_lib::{lemma_int_range, lemma_len_subset, set_int_range};
use crate::pipeline::Pipeline;
use crate::task_graph::{TaskGraph, TaskId};

verus! {

/// Every edge into stream `n` appears in `order` before position `k`.
pub open spec fn inputs_before(edges: Seq<crate::task_graph::TaskEdge>, order: Seq<usize>, n: usize, k: int) -> bool {
    forall|x: int| 0 <= x < edges.len() && (#[trigger] edges[x]).downstream == Some(n)
        ==> exists|j: int| 0 <= j < k && order[j] == x
}

/// Edge `e` hangs off the virtual root: a source task.
pub open spec fn is_root(edges: Seq<crate::task_graph::TaskEdge>, e: int) -> bool {
    edges[e].upstream is None
}

/// Edge `e` is the leftmost outgoing edge of the root.
pub open spec fn leftmost_root(edges: Seq<crate::task_graph::TaskEdge>, e: int) -> bool {
    &&& 0 <= e < edges.len()
    &&& is_root(edges, e)
    &&& forall|e2: int| 0 <= e2 < e ==> !is_root(edges, e2)
}

/// Edge `x` is the leftmost outgoing edge of stream `n`.
pub open spec fn leftmost_out(edges: Seq<crate::task_graph::TaskEdge>, n: usize, x: int) -> bool {
    &&& 0 <= x < edges.len()
    &&& edges[x].upstream == Some(n)
    &&& forall|y: int| 0 <= y < x ==> (#[trigger] edges[y]).upstream != Some(n)
}

/// Stream `n` has just been completed by task `order[i]`: that task writes
/// `n`, and every task writing `n` is among `order[0..=i]`.
pub open spec fn completes(edges: Seq<crate::task_graph::TaskEdge>, order: Seq<usize>, i: int, n: usize) -> bool {
    &&& edges[order[i] as int].downstream == Some(n)
    &&& inputs_before(edges, order, n, i + 1)
}

/// Flow joined immediately, leftmost edge first: right after the task that
/// completes a stream comes that stream's leftmost outgoing edge.
pub open spec fn joins_immediately(edges: Seq<crate::task_graph::TaskEdge>, order: Seq<usize>) -> bool {
    forall|i: int, n: usize, x: int| #![trigger completes(edges, order, i, n), leftmost_out(edges, n, x)]
        0 <= i < order.len() - 1 && completes(edges, order, i, n) && leftmost_out(edges, n, x) ==> order[i + 1] == x
}

/// The rotation `r` is a depth-first walk from the root of `d` tasks, which
/// respects the data flow, continues right after a completed stream with its
/// leftmost outgoing edge, and holds every source task; it is followed by the
/// tasks the walk cannot reach, in registration order.
pub open spec fn walk_then_rest(edges: Seq<crate::task_graph::TaskEdge>, r: Seq<usize>, d: int) -> bool {
    &&& 0 <= d <= r.len()
    &&& flow_order(edges, r.subrange(0, d))
    &&& joins_immediately(edges, r.subrange(0, d))
    &&& forall|e: int| 0 <= e < edges.len() && is_root(edges, e) ==> #[trigger] r.subrange(0, d).contains(e as usize)
    &&& forall|a: int, b: int| d <= a < b < r.len() ==> #[trigger] r[a] < #[trigger] r[b]
}

/// A valid flow order: each task at most once, and a task that reads a
/// stream comes after every task that writes that stream.
pub open spec fn flow_order(edges: Seq<crate::task_graph::TaskEdge>, order: Seq<usize>) -> bool {
    &&& order.no_duplicates()
    &&& forall|k: int| 0 <= k < order.len() ==> (#[trigger] order[k]) < edges.len()
    &&& forall|k: int| 0 <= k < order.len() ==> (edges[#[trigger] order[k] as int].upstream matches Some(n)
        ==> inputs_before(edges, order, n, k))
}

proof fn lemma_no_dup_len(s: Seq<usize>, m: int)
    requires
        s.no_duplicates(),
        forall|k: int| 0 <= k < s.len() ==> (#[trigger] s[k]) < m,
        m >= 0,
    ensures
        s.len() <= m,
{
    let t = s.map_values(|x: usize| x as int);
    assert(t.no_duplicates()) by {
        assert forall|i: int, j: int| 0 <= i < t.len() && 0 <= j < t.len() && i != j implies t[i] != t[j] by {
            assert(s[i] != s[j]);
        }
    }
    t.unique_seq_to_set();
    lemma_int_range(0, m);
    assert forall|x: int| t.to_set().contains(x) implies set_int_range(0, m).contains(x) by {
        let i = choose|i: int| 0 <= i < t.len() && t[i] == x;
        assert(s[i] < m);
    }
    lemma_len_subset(t.to_set(), set_int_range(0, m));
}

/// Whether every edge into stream `n` is done.
fn all_inputs_done(g: &TaskGraph, done: &Vec<bool>, n: usize) -> (r: bool)
    requires
        done@.len() == g.edges@.len(),
    ensures
        r == forall|x: int| 0 <= x < g.edges@.len() && (#[trigger] g.edges@[x]).downstream == Some(n) ==> done@[x],
{
    let mut i: usize = 0;
    while i < g.edges.len()
        invariant
            0 <= i <= g.edges@.len(),
            done@.len() == g.edges@.len(),
            forall|x: int| 0 <= x < i && (#[trigger] g.edges@[x]).downstream == Some(n) ==> done@[x],
        decreases g.edges@.len() - i,
    {
        match g.edges[i].downstream {
            Some(d) => if d == n && !done[i] {
                return false;
            },
            None => {},
        }
        i = i + 1;
    }
    true
}

/// The flow-efficient order of the tasks of a graph: every task exactly
/// once. The depth-first walk from the root comes first and respects the
/// data flow; tasks it cannot reach (inputs that never complete) follow in
/// registration order.
pub fn flow_efficient_order(g: &TaskGraph) -> (r: Vec<usize>)
    requires
        g.wf(),
    ensures
        r@.no_duplicates(),
        r@.len() == g.edges@.len(),
        forall|k: int| 0 <= k < r@.len() ==> (#[trigger] r@[k]) < g.edges@.len(),
        exists|d: int| #[trigger] walk_then_rest(g.edges@, r@, d),
        forall|e: int| #[trigger] leftmost_root(g.edges@, e) ==> r@[0] == e,
{
    let m = g.edges.len();
    let ghost edges = g.edges@;
    let mut done: Vec<bool> = Vec::new();
    let mut i: usize = 0;
    while i < m
        invariant
            0 <= i <= m,
            done@.len() == i,
            forall|x: int| 0 <= x < i ==> !done@[x],
        decreases m - i,
    {
        done.push(false);
        i = i + 1;
    }
    let mut stack: Vec<usize> = Vec::new();
    let mut i: usize = m;
    while i > 0
        invariant
            0 <= i <= m,
            m == edges.len(),
            edges == g.edges@,
            forall|k: int| 0 <= k < stack@.len() ==> (#[trigger] stack@[k]) < m
                && edges[stack@[k] as int].upstream is None,
            forall|e: int| i <= e < m && is_root(edges, e) ==> #[trigger] stack@.contains(e as usize),
            stack@.len() > 0 ==> stack@.last() >= i && is_root(edges, stack@.last() as int)
                && forall|e: int| i <= e < m && is_root(edges, e) ==> stack@.last() <= e,
            stack@.len() == 0 ==> forall|e: int| i <= e < m ==> !is_root(edges, e),
        decreases i,
    {
        i = i - 1;
        if g.edges[i].upstream.is_none() {
            let ghost before = stack@;
            stack.push(i);
            proof {
                assert forall|e: int| i <= e < m && is_root(edges, e) implies #[trigger] stack@.contains(e as usize) by {
                    if e == i {
                        assert(stack@[before.len() as int] == i);
                    } else {
                        assert(before.contains(e as usize));
                        let t = choose|t: int| 0 <= t < before.len() && before[t] == e as usize;
                        assert(stack@[t] == before[t]);
                    }
                }
            }
        }
    }
    let ghost init_stack = stack@;
    proof {
        assert forall|e: int| #[trigger] leftmost_root(edges, e) implies stack@.len() > 0 && stack@.last() == e by {
            assert(stack@.contains(e as usize));
            if stack@.last() < e {
                assert(is_root(edges, stack@.last() as int));
            }
        }
    }
    let mut order: Vec<usize> = Vec::new();
    while stack.len() > 0
        invariant
            m == edges.len(),
            edges == g.edges@,
            done@.len() == m,
            flow_order(edges, order@),
            forall|x: int| 0 <= x < m ==> (done@[x] <==> order@.contains(x as usize)),
            forall|k: int| 0 <= k < stack@.len() ==> (#[trigger] stack@[k]) < m
                && (edges[stack@[k] as int].upstream matches Some(n) ==> inputs_before(edges, order@, n, order@.len() as int)),
            forall|e: int| 0 <= e < m && is_root(edges, e) ==> order@.contains(e as usize) || #[trigger] stack@.contains(e as usize),
            order@.len() == 0 ==> stack@ == init_stack,
            forall|e: int| #[trigger] leftmost_root(edges, e) ==> init_stack.len() > 0 && init_stack.last() == e,
            forall|e: int| #[trigger] leftmost_root(edges, e) && order@.len() > 0 ==> order@[0] == e,
            joins_immediately(edges, order@),
            forall|n: usize, x: int| #![trigger completes(edges, order@, order@.len() - 1, n), leftmost_out(edges, n, x)]
                order@.len() > 0 && completes(edges, order@, order@.len() - 1, n) && leftmost_out(edges, n, x)
                ==> stack@.len() > 0 && stack@.last() == x,
        decreases m - order@.len(), stack@.len(),
    {
        let ghost stack_before = stack@;
        let ghost order_before = order@;
        proof {
            lemma_no_dup_len(order@, m as int);
        }
        let e = stack.pop().unwrap();
        proof {
            assert(stack@ == stack_before.drop_last());
            assert(stack_before[stack_before.len() - 1] == e);
            assert forall|x: int| 0 <= x < m && is_root(edges, x) && !order_before.contains(x as usize) && x != e
                implies #[trigger] stack@.contains(x as usize) by {
                assert(stack_before.contains(x as usize));
                let t = choose|t: int| 0 <= t < stack_before.len() && stack_before[t] == x as usize;
                assert(t != stack_before.len() - 1);
                assert(stack@[t] == stack_before[t]);
            }
        }
        proof {
            assert forall|x: int| 0 <= x < m && is_root(edges, x) && x != e implies order_before.contains(x as usize)
                || #[trigger] stack@.contains(x as usize) by {}
            assert forall|n: usize, x: int| order_before.len() > 0 && #[trigger] completes(edges, order_before, order_before.len() - 1, n)
                && #[trigger] leftmost_out(edges, n, x) implies e == x && !order_before.contains(e) by {
                if order_before.contains(e) {
                    let p = choose|p: int| 0 <= p < order_before.len() && order_before[p] == e;
                    assert(edges[order_before[p] as int].upstream == Some(n));
                    assert(inputs_before(edges, order_before, n, p));
                    let l = order_before.len() - 1;
                    let lx = order_before[l] as int;
                    assert(edges[lx].downstream == Some(n));
                    let q = choose|q: int| 0 <= q < p && order_before[q] == lx;
                    assert(order_before[q] == order_before[l]);
                }
            }
        }
        if !done[e] {
            let ghost before = order@;
            done.set(e, true);
            order.push(e);
            proof {
                lemma_joins_push(edges, before, e);
            }
            proof {
                assert forall|x: int| 0 <= x < m && is_root(edges, x) implies order@.contains(x as usize)
                    || #[trigger] stack@.contains(x as usize) by {
                    if x == e {
                        assert(order@[before.len() as int] == e);
                    } else if before.contains(x as usize) {
                        let t = choose|t: int| 0 <= t < before.len() && before[t] == x as usize;
                        assert(order@[t] == before[t]);
                    }
                }
            }
            proof {
                assert(!before.contains(e));
                assert forall|x: int| 0 <= x < m implies (done@[x] <==> order@.contains(x as usize)) by {
                    if order@.contains(x as usize) && x != e {
                        let j = choose|j: int| 0 <= j < order@.len() && order@[j] == x as usize;
                        assert(before[j] == x);
                    }
                    if done@[x] && x != e {
                        let j = choose|j: int| 0 <= j < before.len() && before[j] == x as usize;
                        assert(order@[j] == x);
                    }
                    if x == e {
                        assert(order@[before.len() as int] == e);
                    }
                }
                lemma_inputs_before_grow(edges, before, order@);
                assert forall|k: int| 0 <= k < order@.len() implies (edges[#[trigger] order@[k] as int].upstream matches Some(n)
                    ==> inputs_before(edges, order@, n, k)) by {
                    if k < before.len() {
                        assert(order@[k] == before[k]);
                        if let Some(n) = edges[order@[k] as int].upstream {
                            lemma_inputs_before_extend(edges, before, order@, n, k);
                        }
                    }
                }
                assert forall|a: int, b: int| 0 <= a < b < order@.len() implies order@[a] != order@[b] by {
                    if b == before.len() {
                        assert(before.contains(order@[a]) || a >= before.len());
                        assert(order@[a] == before[a]);
                    } else {
                        assert(order@[a] == before[a] && order@[b] == before[b]);
                    }
                }
            }
            match g.edges[e].downstream {
                Some(n) => {
                    if all_inputs_done(g, &done, n) {
                        proof {
                            assert forall|x: int| 0 <= x < edges.len() && (#[trigger] edges[x]).downstream == Some(n)
                                implies exists|j: int| 0 <= j < order@.len() && order@[j] == x by {
                                assert(done@[x]);
                                assert(order@.contains(x as usize));
                            }
                        }
                        let mut j: usize = m;
                        while j > 0
                            invariant
                                0 <= j <= m,
                                m == edges.len(),
                                edges == g.edges@,
                                inputs_before(edges, order@, n, order@.len() as int),
                                forall|k: int| 0 <= k < stack@.len() ==> (#[trigger] stack@[k]) < m
                                    && (edges[stack@[k] as int].upstream matches Some(n2) ==> inputs_before(edges, order@, n2, order@.len() as int)),
                                forall|x: int| 0 <= x < m && is_root(edges, x) ==> order@.contains(x as usize) || #[trigger] stack@.contains(x as usize),
                                forall|y: int| j <= y < m && (#[trigger] edges[y]).upstream == Some(n) ==> stack@.len() > 0
                                    && edges[stack@.last() as int].upstream == Some(n) && stack@.last() <= y,
                            decreases j,
                        {
                            j = j - 1;
                            if g.edges[j].upstream == Some(n) {
                                let ghost sb = stack@;
                                stack.push(j);
                                assert(stack@.last() == j);
                                proof {
                                    assert forall|x: int| 0 <= x < m && is_root(edges, x) && !order@.contains(x as usize)
                                        implies #[trigger] stack@.contains(x as usize) by {
                                        assert(sb.contains(x as usize));
                                        let t = choose|t: int| 0 <= t < sb.len() && sb[t] == x as usize;
                                        assert(stack@[t] == sb[t]);
                                    }
                                }
                            }
                        }
                        proof {
                            assert forall|n2: usize, x: int| order@.len() > 0 && #[trigger] completes(edges, order@, order@.len() - 1, n2)
                                && #[trigger] leftmost_out(edges, n2, x) implies stack@.len() > 0 && stack@.last() == x by {
                                assert(order@[order@.len() - 1] == e);
                                assert(n2 == n);
                                assert(edges[x].upstream == Some(n));
                                let l = stack@.last() as int;
                                if l != x {
                                    assert(l <= x);
                                    assert(edges[l].upstream == Some(n));
                                }
                            }
                        }
                    } else {
                        proof {
                            let z = choose|z: int| 0 <= z < edges.len() && (#[trigger] edges[z]).downstream == Some(n) && !done@[z];
                            assert(!order@.contains(z as usize));
                            assert forall|n2: usize| !#[trigger] completes(edges, order@, order@.len() - 1, n2) by {
                                if completes(edges, order@, order@.len() - 1, n2) {
                                    assert(order@[order@.len() - 1] == e);
                                    assert(n2 == n);
                                    let q = choose|q: int| 0 <= q < order@.len() && order@[q] == z;
                                    assert(order@.contains(z as usize));
                                }
                            }
                        }
                    }
                },
                None => {
                    proof {
                        assert forall|n2: usize| !#[trigger] completes(edges, order@, order@.len() - 1, n2) by {
                            assert(order@[order@.len() - 1] == e);
                        }
                    }
                },
            }
            proof {
                lemma_no_dup_len(order@, m as int);
            }
        }
    }
    let ghost walked = order@;
    assert(walked.subrange(0, walked.len() as int) =~= walked);
    assert forall|e: int| 0 <= e < m && is_root(edges, e) implies #[trigger] walked.contains(e as usize) by {
        if !walked.contains(e as usize) {
            assert(stack@.contains(e as usize));
        }
    }
    let mut x: usize = 0;
    while x < m
        invariant
            m == edges.len(),
            done@.len() == m,
            0 <= x <= m,
            order@.no_duplicates(),
            forall|k: int| 0 <= k < order@.len() ==> (#[trigger] order@[k]) < m,
            forall|y: int| 0 <= y < m ==> (done@[y] <==> order@.contains(y as usize)),
            forall|y: int| 0 <= y < x ==> #[trigger] done@[y],
            walked.len() <= order@.len(),
            order@.subrange(0, walked.len() as int) == walked,
            flow_order(edges, walked),
            joins_immediately(edges, walked),
            forall|a: int, b: int| walked.len() <= a < b < order@.len() ==> #[trigger] order@[a] < #[trigger] order@[b],
            forall|a: int| walked.len() <= a < order@.len() ==> #[trigger] order@[a] < x,
            forall|e: int| 0 <= e < m && is_root(edges, e) ==> #[trigger] walked.contains(e as usize),
        decreases m - x,
    {
        if !done[x] {
            let ghost before = order@;
            done.set(x, true);
            order.push(x);
            proof {
                assert(!before.contains(x));
                assert forall|a: int, b: int| 0 <= a < b < order@.len() implies order@[a] != order@[b] by {
                    if b == before.len() {
                        assert(order@[a] == before[a]);
                    } else {
                        assert(order@[a] == before[a] && order@[b] == before[b]);
                    }
                }
                assert forall|y: int| 0 <= y < m implies (done@[y] <==> order@.contains(y as usize)) by {
                    if order@.contains(y as usize) && y != x {
                        let j = choose|j: int| 0 <= j < order@.len() && order@[j] == y as usize;
                        assert(before[j] == y);
                    }
                    if done@[y] && y != x {
                        let j = choose|j: int| 0 <= j < before.len() && before[j] == y as usize;
                        assert(order@[j] == y);
                    }
                    if y == x {
                        assert(order@[before.len() as int] == x);
                    }
                }
                assert(order@.subrange(0, walked.len() as int) =~= before.subrange(0, walked.len() as int));
            }
        }
        x = x + 1;
    }
    proof {
        lemma_no_dup_len(order@, m as int);
        assert forall|y: int| 0 <= y < m implies #[trigger] order@.contains(y as usize) by {
            assert(done@[y]);
        }
        lemma_covers_len(order@, m as int);
        assert(flow_order(edges, order@.subrange(0, walked.len() as int)));
        assert(order@.subrange(0, walked.len() as int) == walked);
        assert(joins_immediately(edges, order@.subrange(0, walked.len() as int)));
        assert(walk_then_rest(edges, order@, walked.len() as int));
        assert forall|e: int| #[trigger] leftmost_root(edges, e) implies order@[0] == e by {
            assert(walked.contains(e as usize));
            assert(order@[0] == order@.subrange(0, walked.len() as int)[0]);
        }
    }
    order
}

proof fn lemma_covers_len(s: Seq<usize>, m: int)
    requires
        s.no_duplicates(),
        0 <= m <= usize::MAX,
        forall|y: int| 0 <= y < m ==> #[trigger] s.contains(y as usize),
        forall|k: int| 0 <= k < s.len() ==> (#[trigger] s[k]) < m,
    ensures
        s.len() == m,
{
    lemma_no_dup_len(s, m);
    let t = s.map_values(|x: usize| x as int);
    assert(t.no_duplicates()) by {
        assert forall|i: int, j: int| 0 <= i < t.len() && 0 <= j < t.len() && i != j implies t[i] != t[j] by {
            assert(s[i] != s[j]);
        }
    }
    t.unique_seq_to_set();
    lemma_int_range(0, m);
    assert forall|x: int| set_int_range(0, m).contains(x) implies t.to_set().contains(x) by {
        assert(0 <= x < m);
        assert(s.contains(x as usize));
        let i = choose|i: int| 0 <= i < s.len() && s[i] == x as usize;
        assert(t[i] == x);
    }
    lemma_len_subset(set_int_range(0, m), t.to_set());
}

proof fn lemma_joins_push(edges: Seq<crate::task_graph::TaskEdge>, before: Seq<usize>, e: usize)
    requires
        joins_immediately(edges, before),
        forall|n: usize, x: int| before.len() > 0 && #[trigger] completes(edges, before, before.len() - 1, n)
            && #[trigger] leftmost_out(edges, n, x) ==> e == x,
    ensures
        joins_immediately(edges, before.push(e)),
{
    let after = before.push(e);
    assert forall|i: int, n: usize, x: int| #![trigger completes(edges, after, i, n), leftmost_out(edges, n, x)]
        0 <= i < after.len() - 1 && completes(edges, after, i, n) && leftmost_out(edges, n, x) implies after[i + 1] == x by {
        assert(after[i] == before[i]);
        assert forall|z: int| 0 <= z < edges.len() && (#[trigger] edges[z]).downstream == Some(n)
            implies exists|j: int| 0 <= j < i + 1 && before[j] == z by {
            let j = choose|j: int| 0 <= j < i + 1 && after[j] == z;
            assert(before[j] == after[j]);
        }
        assert(completes(edges, before, i, n));
        if i + 1 < before.len() {
            assert(after[i + 1] == before[i + 1]);
        }
    }
}

proof fn lemma_inputs_before_extend(edges: Seq<crate::task_graph::TaskEdge>, before: Seq<usize>, after: Seq<usize>, n: usize, k: int)
    requires
        inputs_before(edges, before, n, k),
        k <= before.len(),
        before.len() <= after.len(),
        forall|j: int| 0 <= j < before.len() ==> after[j] == before[j],
    ensures
        inputs_before(edges, after, n, k),
{
    assert forall|x: int| 0 <= x < edges.len() && (#[trigger] edges[x]).downstream == Some(n)
        implies exists|j: int| 0 <= j < k && after[j] == x by {
        let j = choose|j: int| 0 <= j < k && before[j] == x;
        assert(after[j] == x);
    }
}

proof fn lemma_inputs_before_grow(edges: Seq<crate::task_graph::TaskEdge>, before: Seq<usize>, after: Seq<usize>)
    requires
        before.len() + 1 == after.len(),
        forall|j: int| 0 <= j < before.len() ==> after[j] == before[j],
    ensures
        forall|n: usize| inputs_before(edges, before, n, before.len() as int) ==> #[trigger] inputs_before(edges, after, n, before.len() as int),
        forall|n: usize| inputs_before(edges, before, n, before.len() as int) ==> inputs_before(edges, after, n, after.len() as int),
{
    assert forall|n: usize| inputs_before(edges, before, n, before.len() as int) implies #[trigger] inputs_before(edges, after, n, before.len() as int)
        && inputs_before(edges, after, n, after.len() as int) by {
        lemma_inputs_before_extend(edges, before, after, n, before.len() as int);
        assert forall|x: int| 0 <= x < edges.len() && (#[trigger] edges[x]).downstream == Some(n)
            implies exists|j: int| 0 <= j < after.len() && after[j] == x by {
            let j = choose|j: int| 0 <= j < before.len() && before[j] == x;
            assert(after[j] == x);
        }
    }
}

/// A worker's place in the rotation.
#[derive(Clone, Copy, Debug, PartialEq, Eq, Structural, Default)]
pub struct FlowEfficientWorkerState {
    pub cursor: usize,
}

/// Holds the current graph, its precomputed flow-efficient rotation, and
/// which worker (if any) is inside each task.
#[derive(Debug)]
pub struct FlowEfficientScheduler {
    pub graph: TaskGraph,
    pub order: Vec<usize>,
    pub running: Vec<Option<u64>>,
}

/// The assignment after `worker` finished whatever task it held.
pub open spec fn released(running: Seq<Option<u64>>, worker: u64) -> Seq<Option<u64>> {
    running.map_values(|w: Option<u64>| if w == Some(worker) { None } else { w })
}

/// Position `t` steps after `k` in a rotation of length `n`.
pub open spec fn rotate(k: int, t: int, n: int) -> int {
    (k + t) % n
}

fn all_none(n: usize) -> (r: Vec<Option<u64>>)
    ensures
        r@.len() == n,
        forall|t: int| 0 <= t < n ==> (#[trigger] r@[t]) is None,
{
    let mut running: Vec<Option<u64>> = Vec::new();
    let mut i: usize = 0;
    while i < n
        invariant
            0 <= i <= n,
            running@.len() == i,
            forall|t: int| 0 <= t < i ==> (#[trigger] running@[t]) is None,
        decreases n - i,
    {
        running.push(None);
        i = i + 1;
    }
    running
}

impl FlowEfficientScheduler {
    pub open spec fn wf(&self) -> bool {
        &&& self.graph.wf()
        &&& self.order@.no_duplicates()
        &&& forall|k: int| 0 <= k < self.order@.len() ==> (#[trigger] self.order@[k]) < self.graph.edges@.len()
        &&& exists|d: int| #[trigger] walk_then_rest(self.graph.edges@, self.order@, d)
        &&& forall|e: int| #[trigger] leftmost_root(self.graph.edges@, e) ==> self.order@[0] == e
        &&& self.order@.len() == self.graph.edges@.len()
        &&& self.running@.len() == self.graph.edges@.len()
    }

    /// Whether task `e` can be handed to `worker`: runnable, and no other
    /// worker is inside it.
    pub open spec fn free_for(&self, worker: u64, runnable: Seq<bool>, e: int) -> bool {
        runnable[e] && released(self.running@, worker)[e] is None
    }

    /// A scheduler with no tasks.
    pub fn new() -> (r: FlowEfficientScheduler)
        ensures
            r.wf(),
            r.order@.len() == 0,
            r.graph.edges@.len() == 0,
            r.graph.n_streams == 0,
    {
        let r = FlowEfficientScheduler {
            graph: TaskGraph { n_streams: 0, edges: Vec::new() },
            order: Vec::new(),
            running: Vec::new(),
        };
        assert(r.order@.no_duplicates());
        assert(flow_order(r.graph.edges@, r.order@.subrange(0, 0)));
        assert(walk_then_rest(r.graph.edges@, r.order@, 0));
        r
    }

    /// Re-reads the pipeline: rebuilds the graph and the rotation; no worker
    /// is inside any task of the new graph yet.
    pub fn update_pipeline(&mut self, pipeline: &Pipeline)
        ensures
            final(self).wf(),
            final(self).graph.edges@.len() == pipeline.readers@.len() + pipeline.pumps@.len() + pipeline.writers@.len(),
            final(self).graph.n_streams == pipeline.streams@.len(),
            forall|i: int| 0 <= i < pipeline.readers@.len() ==> (#[trigger] final(self).graph.edges@[i]).kind == crate::task_graph::TaskKind::Source
                && final(self).graph.edges@[i].id.name == pipeline.readers@[i].name,
            forall|i: int| 0 <= i < pipeline.pumps@.len() ==> (#[trigger] final(self).graph.edges@[pipeline.readers@.len() + i]).kind
                == crate::task_graph::TaskKind::Pump && final(self).graph.edges@[pipeline.readers@.len() + i].id.name == pipeline.pumps@[i].name.name,
            forall|i: int| 0 <= i < pipeline.writers@.len() ==> (#[trigger] final(self).graph.edges@[pipeline.readers@.len() + pipeline.pumps@.len() + i]).kind
                == crate::task_graph::TaskKind::Sink && final(self).graph.edges@[pipeline.readers@.len() + pipeline.pumps@.len() + i].id.name == pipeline.writers@[i].name,
            forall|t: int| 0 <= t < final(self).running@.len() ==> (#[trigger] final(self).running@[t]) is None,
    {
        let graph = TaskGraph::from_pipeline(pipeline);
        let order = flow_efficient_order(&graph);
        let running = all_none(graph.edges.len());
        self.graph = graph;
        self.order = order;
        self.running = running;
        proof {
            let d = choose|d: int| #[trigger] walk_then_rest(self.graph.edges@, self.order@, d);
            assert(walk_then_rest(self.graph.edges@, self.order@, d));
        }
    }

    /// Hands `worker` the next task of the rotation, from its place on, that
    /// is runnable and that no other worker is inside; the task the worker
    /// held before is released. Nothing when no task qualifies. So no task
    /// is ever given to two workers at once.
    pub fn pick(&mut self, worker: u64, state: FlowEfficientWorkerState, runnable: &Vec<bool>) -> (r: Option<(usize, FlowEfficientWorkerState)>)
        requires
            old(self).wf(),
            runnable@.len() == old(self).graph.edges@.len(),
        ensures
            final(self).wf(),
            final(self).graph == old(self).graph,
            final(self).order == old(self).order,
            r is None ==> final(self).running@ == released(old(self).running@, worker)
                && forall|t: int| 0 <= t < old(self).order@.len() ==> !old(self).free_for(worker, runnable@,
                    old(self).order@[#[trigger] rotate(state.cursor as int, t, old(self).order@.len() as int)] as int),
            r matches Some((e, next)) ==> exists|t: int| #![trigger rotate(state.cursor as int, t, old(self).order@.len() as int)]
                0 <= t < old(self).order@.len()
                && e == old(self).order@[rotate(state.cursor as int, t, old(self).order@.len() as int)]
                && old(self).free_for(worker, runnable@, e as int)
                && (forall|t2: int| 0 <= t2 < t ==> !old(self).free_for(worker, runnable@,
                    old(self).order@[#[trigger] rotate(state.cursor as int, t2, old(self).order@.len() as int)] as int))
                && next.cursor as int == rotate(state.cursor as int, t + 1, old(self).order@.len() as int)
                && final(self).running@ == released(old(self).running@, worker).update(e as int, Some(worker)),
    {
        let m = self.running.len();
        let mut i: usize = 0;
        while i < m
            invariant
                m == self.running@.len(),
                m == old(self).running@.len(),
                0 <= i <= m,
                self.graph == old(self).graph,
                self.order == old(self).order,
                forall|t: int| 0 <= t < i ==> #[trigger] self.running@[t] == released(old(self).running@, worker)[t],
                forall|t: int| i <= t < m ==> #[trigger] self.running@[t] == old(self).running@[t],
            decreases m - i,
        {
            if self.running[i] == Some(worker) {
                self.running.set(i, None);
            }
            i = i + 1;
        }
        assert(self.running@ =~= released(old(self).running@, worker));
        let ghost rel = self.running@;
        let n = self.order.len();
        if n == 0 {
            return None;
        }
        let k = state.cursor % n;
        let mut t: usize = 0;
        while t < n
            invariant
                0 <= t <= n,
                n == self.order@.len(),
                k == state.cursor as int % n as int,
                self.wf(),
                self.graph == old(self).graph,
                self.order == old(self).order,
                self.running@ == rel,
                rel == released(old(self).running@, worker),
                runnable@.len() == self.graph.edges@.len(),
                forall|t2: int| 0 <= t2 < t ==> !old(self).free_for(worker, runnable@,
                    old(self).order@[#[trigger] rotate(state.cursor as int, t2, n as int)] as int),
            decreases n - t,
        {
            let p = if t < n - k { k + t } else { t - (n - k) };
            proof {
                lemma_rotate(state.cursor as int, t as int, n as int);
                assert(p == rotate(state.cursor as int, t as int, n as int));
            }
            let e = self.order[p];
            if runnable[e] && self.running[e].is_none() {
                self.running.set(e, Some(worker));
                proof {
                    let d = choose|d: int| #[trigger] walk_then_rest(old(self).graph.edges@, old(self).order@, d);
                    assert(walk_then_rest(self.graph.edges@, self.order@, d));
                }
                let next = FlowEfficientWorkerState { cursor: if p + 1 == n { 0 } else { p + 1 } };
                proof {
                    lemma_rotate(state.cursor as int, t + 1, n as int);
                    if p + 1 == n {
                        vstd::arithmetic::div_mod::lemma_mod_self_0(n as int);
                    } else {
                        vstd::arithmetic::div_mod::lemma_small_mod((p + 1) as nat, n as nat);
                    }
                    assert(next.cursor as int == rotate(state.cursor as int, t + 1, n as int));
                }
                return Some((e, next));
            }
            t = t + 1;
        }
        None
    }

    /// The next task for `worker` in the rotation, from its place on, that no
    /// other worker is inside (every task counts as runnable here); the task
    /// the worker held before is released. Nothing only when every task is
    /// held by another worker.
    pub fn next_task(&mut self, worker: u64, state: FlowEfficientWorkerState) -> (r: Option<(TaskId, FlowEfficientWorkerState)>)
        requires
            old(self).wf(),
        ensures
            final(self).wf(),
            final(self).graph == old(self).graph,
            final(self).order == old(self).order,
            r is None ==> final(self).running@ == released(old(self).running@, worker)
                && forall|t: int| 0 <= t < old(self).order@.len() ==> released(old(self).running@, worker)[
                    old(self).order@[#[trigger] rotate(state.cursor as int, t, old(self).order@.len() as int)] as int] is Some,
            r matches Some((id, next)) ==> exists|t: int| #![trigger rotate(state.cursor as int, t, old(self).order@.len() as int)]
                0 <= t < old(self).order@.len() && {
                    let e = old(self).order@[rotate(state.cursor as int, t, old(self).order@.len() as int)] as int;
                    &&& id.name@ == old(self).graph.edges@[e].id.name@
                    &&& released(old(self).running@, worker)[e] is None
                    &&& forall|t2: int| 0 <= t2 < t ==> released(old(self).running@, worker)[
                        old(self).order@[#[trigger] rotate(state.cursor as int, t2, old(self).order@.len() as int)] as int] is Some
                    &&& next.cursor as int == rotate(state.cursor as int, t + 1, old(self).order@.len() as int)
                    &&& final(self).running@ == released(old(self).running@, worker).update(e, Some(worker))
                },
    {
        let runnable = all_true(self.graph.edges.len());
        match self.pick(worker, state, &runnable) {
            Some((e, next)) => {
                let id = self.graph.edges[e].id.copy_id();
                Some((id, next))
            },
            None => None,
        }
    }

    /// `worker` leaves the task it is inside, if any.
    pub fn release(&mut self, worker: u64)
        requires
            old(self).wf(),
        ensures
            final(self).wf(),
            final(self).graph == old(self).graph,
            final(self).order == old(self).order,
            final(self).running@ == released(old(self).running@, worker),
    {
        let m = self.running.len();
        let mut i: usize = 0;
        while i < m
            invariant
                m == self.running@.len(),
                m == old(self).running@.len(),
                0 <= i <= m,
                self.graph == old(self).graph,
                self.order == old(self).order,
                forall|t: int| 0 <= t < i ==> #[trigger] self.running@[t] == released(old(self).running@, worker)[t],
                forall|t: int| i <= t < m ==> #[trigger] self.running@[t] == old(self).running@[t],
            decreases m - i,
        {
            if self.running[i] == Some(worker) {
                self.running.set(i, None);
            }
            i = i + 1;
        }
        assert(self.running@ =~= released(old(self).running@, worker));
    }
}

fn all_true(n: usize) -> (r: Vec<bool>)
    ensures
        r@.len() == n,
        forall|t: int| 0 <= t < n ==> #[trigger] r@[t],
{
    let mut v: Vec<bool> = Vec::new();
    let mut i: usize = 0;
    while i < n
        invariant
            0 <= i <= n,
            v@.len() == i,
            forall|t: int| 0 <= t < i ==> #[trigger] v@[t],
        decreases n - i,
    {
        v.push(true);
        i = i + 1;
    }
    v
}

proof fn lemma_rotate(c: int, t: int, n: int)
    requires
        n > 0,
        c >= 0,
        0 <= t <= n,
    ensures
        c % n + t < n ==> rotate(c, t, n) == c % n + t,
        c % n + t >= n ==> rotate(c, t, n) == c % n + t - n,
{
    vstd::arithmetic::div_mod::lemma_fundamental_div_mod(c, n);
    vstd::arithmetic::div_mod::lemma_mod_bound(c, n);
    let q = c / n;
    let r0 = c % n;
    assert(n * q == q * n) by (nonlinear_arith);
    assert((q + 1) * n == q * n + n) by (nonlinear_arith);
    assert(c + t == q * n + (r0 + t));
    if r0 + t < n {
        vstd::arithmetic::div_mod::lemma_fundamental_div_mod_converse(c + t, n, q, r0 + t);
    } else {
        assert(c + t == (q + 1) * n + (r0 + t - n));
        vstd::arithmetic::div_mod::lemma_fundamental_div_mod_converse(c + t, n, q + 1, r0 + t - n);
    }
}

} // verus!
