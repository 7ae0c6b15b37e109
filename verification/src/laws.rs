//! Proofs about the model: the profiler invariant is preserved by every
//! operation, and the laws of the enter/leave protocol.

use vstd::prelude::*;
use crate::model::{
    NodeV, PState, node_call, node_new, node_reset, node_ret, node_ret_done, nodes_wf, on_path,
    inv, sat_add_u64, elapsed_ns, st_add, st_find, st_make_child, st_enter, st_leave,
    st_start_frame, st_end_frame,
};

verus! {

/// A node on the path from the root to `cur` has an index no greater than
/// `cur`.
pub proof fn lemma_on_path_bounds(nodes: Seq<NodeV>, cur: int, i: int)
    requires
        0 <= cur,
        on_path(nodes, cur, i),
    ensures
        0 <= i <= cur,
    decreases cur,
{
    if i != cur {
        match nodes[cur].parent {
            Option::Some(p) => {
                lemma_on_path_bounds(nodes, p, i);
            },
            Option::None => {},
        }
    }
}

/// The path from the root to the cursor depends only on the parent fields of
/// the nodes up to the cursor.
pub proof fn lemma_on_path_frame(nodes1: Seq<NodeV>, nodes2: Seq<NodeV>, cur: int, i: int)
    requires
        0 <= cur,
        forall|j: int|
            0 <= j <= cur ==> j < nodes1.len() && j < nodes2.len() && (#[trigger] nodes2[j]).parent
                == nodes1[j].parent,
    ensures
        on_path(nodes1, cur, i) == on_path(nodes2, cur, i),
    decreases cur,
{
    assert(nodes2[cur].parent == nodes1[cur].parent);
    match nodes1[cur].parent {
        Option::Some(p) => {
            if 0 <= p < cur {
                lemma_on_path_frame(nodes1, nodes2, p, i);
            }
        },
        Option::None => {},
    }
}

/// Two arenas with the same length and the same name, parent and children on
/// every node.
pub open spec fn same_topology(nodes1: Seq<NodeV>, nodes2: Seq<NodeV>) -> bool {
    &&& nodes1.len() == nodes2.len()
    &&& (forall|i: int|
        0 <= i < nodes1.len() ==> (#[trigger] nodes2[i]).name == nodes1[i].name && nodes2[i].parent
            == nodes1[i].parent && nodes2[i].children == nodes1[i].children)
}

/// Operations that only touch counters keep the arena well-formed and every
/// root-to-cursor path as it was.
pub proof fn lemma_same_topology(nodes1: Seq<NodeV>, nodes2: Seq<NodeV>)
    requires
        nodes_wf(nodes1),
        same_topology(nodes1, nodes2),
    ensures
        nodes_wf(nodes2),
        forall|cur: int, i: int|
            0 <= cur < nodes1.len() ==> #[trigger] on_path(nodes2, cur, i) == on_path(
                nodes1,
                cur,
                i,
            ),
{
    assert forall|cur: int, i: int| 0 <= cur < nodes1.len() implies #[trigger] on_path(
        nodes2,
        cur,
        i,
    ) == on_path(nodes1, cur, i) by {
        lemma_on_path_frame(nodes1, nodes2, cur, i);
    }
}

/// Appending a fresh child keeps the arena well-formed, provided no existing
/// child of the parent already carries the name.
pub proof fn lemma_add_wf(nodes: Seq<NodeV>, p: int, name: Seq<char>)
    requires
        nodes_wf(nodes),
        0 <= p < nodes.len(),
        forall|k: int|
            0 <= k < nodes[p].children.len() ==> nodes[#[trigger] nodes[p].children[k]].name
                != name,
    ensures
        nodes_wf(st_add(nodes, p, name)),
        st_add(nodes, p, name).len() == nodes.len() + 1,
        st_add(nodes, p, name)[nodes.len() as int] == node_new(Option::Some(p), name),
        st_add(nodes, p, name)[p].children == nodes[p].children.push(nodes.len() as int),
        forall|i: int|
            0 <= i < nodes.len() && i != p ==> #[trigger] st_add(nodes, p, name)[i] == nodes[i],
        forall|i: int|
            0 <= i < nodes.len() ==> (#[trigger] st_add(nodes, p, name)[i]).name == nodes[i].name
                && st_add(nodes, p, name)[i].parent == nodes[i].parent,
{
    let n1 = st_add(nodes, p, name);
    assert forall|i: int, k: int|
        0 <= i < n1.len() && 0 <= k < n1[i].children.len() implies i < #[trigger] n1[i].children[k]
        < n1.len() && n1[n1[i].children[k]].parent == Option::Some(i) by {
        if i == p {
            if k < nodes[p].children.len() {
                assert(n1[i].children[k] == nodes[p].children[k]);
            } else {
                assert(n1[i].children[k] == nodes.len() as int);
            }
        } else if i < nodes.len() {
            assert(n1[i].children == nodes[i].children);
        } else {
            assert(n1[i].children.len() == 0);
        }
    }
    assert forall|i: int, k1: int, k2: int|
        0 <= i < n1.len() && 0 <= k1 < n1[i].children.len() && 0 <= k2 < n1[i].children.len() && k1
        != k2 implies #[trigger] n1[i].children[k1] != #[trigger] n1[i].children[k2]
        && n1[n1[i].children[k1]].name != n1[n1[i].children[k2]].name by {
        if i == p {
            if k1 < nodes[p].children.len() && k2 < nodes[p].children.len() {
                assert(n1[i].children[k1] == nodes[p].children[k1]);
                assert(n1[i].children[k2] == nodes[p].children[k2]);
            } else if k1 < nodes[p].children.len() {
                assert(n1[i].children[k2] == nodes.len() as int);
                assert(nodes[nodes[p].children[k1]].name != name);
            } else {
                assert(n1[i].children[k1] == nodes.len() as int);
                assert(k2 < nodes[p].children.len());
                assert(nodes[nodes[p].children[k2]].name != name);
            }
        } else if i < nodes.len() {
            assert(n1[i].children == nodes[i].children);
        } else {
            assert(n1[i].children.len() == 0);
        }
    }
}

/// `enter` preserves the profiler invariant.
pub proof fn lemma_inv_st_enter(s: PState, name: Seq<char>, now: u64)
    requires
        inv(s),
    ensures
        inv(st_enter(s, name, now)),
{
    if s.enabled {
        let cur = s.current;
        if s.nodes[cur].name == name {
            let nodes2 = s.nodes.update(cur, node_call(s.nodes[cur], now));
            lemma_same_topology(s.nodes, nodes2);
        } else {
            match st_find(s.nodes, cur, name) {
                Option::Some(j) => {
                    let k = choose|k: int|
                        0 <= k < s.nodes[cur].children.len()
                            && s.nodes[s.nodes[cur].children[k]].name == name;
                    assert(j == s.nodes[cur].children[k]);
                    assert(cur < j < s.nodes.len());
                    let nodes2 = s.nodes.update(j, node_call(s.nodes[j], now));
                    lemma_same_topology(s.nodes, nodes2);
                    // j was off the old path, so its recursion was zero.
                    if on_path(s.nodes, cur, j) {
                        lemma_on_path_bounds(s.nodes, cur, j);
                    }
                    assert(s.nodes[j].recursion == 0);
                    // the new path is the old one extended with j
                    assert forall|i: int| #[trigger] on_path(nodes2, j, i) == (i == j || on_path(
                        s.nodes,
                        cur,
                        i,
                    )) by {
                        assert(nodes2[j].parent == Option::Some(cur));
                        lemma_same_topology(s.nodes, nodes2);
                    }
                    assert forall|i: int|
                        0 <= i < nodes2.len() && !on_path(nodes2, j, i) implies (
                    #[trigger] nodes2[i].recursion) == 0 by {
                        assert(!on_path(s.nodes, cur, i));
                    }
                },
                Option::None => {
                    let nodes1 = st_add(s.nodes, cur, name);
                    let j = s.nodes.len() as int;
                    assert forall|k: int| 0 <= k < s.nodes[cur].children.len() implies s.nodes[
                        #[trigger] s.nodes[cur].children[k]
                    ].name != name by {}
                    lemma_add_wf(s.nodes, cur, name);
                    let nodes2 = nodes1.update(j, node_call(nodes1[j], now));
                    assert(nodes_wf(nodes2)) by {
                        lemma_same_topology(nodes1, nodes2);
                    }
                    assert forall|i: int| #[trigger] on_path(nodes2, j, i) == (i == j || on_path(
                        s.nodes,
                        cur,
                        i,
                    )) by {
                        assert(nodes2[j].parent == Option::Some(cur));
                        assert forall|m: int|
                            0 <= m <= cur implies m < s.nodes.len() && m < nodes2.len() && (
                        #[trigger] nodes2[m]).parent == s.nodes[m].parent by {}
                        lemma_on_path_frame(s.nodes, nodes2, cur, i);
                    }
                    assert(nodes2[j].recursion == 1);
                    assert forall|i: int|
                        0 <= i < nodes2.len() && !on_path(nodes2, j, i) implies (
                    #[trigger] nodes2[i].recursion) == 0 by {
                        if i < s.nodes.len() {
                            assert(!on_path(s.nodes, cur, i));
                            if i != cur {
                                assert(nodes2[i] == s.nodes[i]);
                            }
                        }
                    }
                    assert forall|i: int|
                        0 < i < nodes2.len() && #[trigger] on_path(nodes2, j, i) implies nodes2[i].recursion
                        >= 1 by {
                        if i != j {
                            assert(on_path(s.nodes, cur, i));
                            lemma_on_path_bounds(s.nodes, cur, i);
                            if i != cur {
                                assert(nodes2[i] == s.nodes[i]);
                            }
                        }
                    }
                },
            }
        }
    }
}

/// `leave` preserves the profiler invariant.
pub proof fn lemma_inv_st_leave(s: PState, now: u64)
    requires
        inv(s),
    ensures
        inv(st_leave(s, now)),
{
    if s.enabled {
        let cur = s.current;
        let n = s.nodes[cur];
        let nodes2 = s.nodes.update(cur, node_ret(n, now));
        lemma_same_topology(s.nodes, nodes2);
        if node_ret_done(n) {
            match n.parent {
                Option::Some(p) => {
                    // cur itself leaves the path; everything else on the old
                    // path stays on the new one.
                    assert(0 <= p < cur);
                    assert forall|i: int| #[trigger] on_path(s.nodes, cur, i) == (i == cur
                        || on_path(s.nodes, p, i)) by {}
                    assert forall|i: int|
                        0 <= i < nodes2.len() && !on_path(nodes2, p, i) implies (
                    #[trigger] nodes2[i].recursion) == 0 by {
                        if i != cur {
                            assert(!on_path(s.nodes, cur, i));
                        }
                    }
                    assert forall|i: int|
                        0 < i < nodes2.len() && #[trigger] on_path(nodes2, p, i) implies nodes2[i].recursion
                        >= 1 by {
                        assert(on_path(s.nodes, p, i));
                        lemma_on_path_bounds(s.nodes, p, i);
                        assert(on_path(s.nodes, cur, i));
                        assert(i != cur);
                    }
                },
                Option::None => {},
            }
        }
    }
}

/// `start_frame` preserves the profiler invariant.
pub proof fn lemma_inv_st_start_frame(s: PState, now: u64)
    requires
        inv(s),
    ensures
        inv(st_start_frame(s, now)),
{
    if s.enabled {
        let reset_nodes = Seq::new(s.nodes.len(), |i: int| node_reset(s.nodes[i], now));
        let nodes2 = reset_nodes.update(0, node_call(reset_nodes[0], now));
        lemma_same_topology(s.nodes, nodes2);
        assert forall|i: int| #[trigger] on_path(nodes2, 0, i) == (i == 0) by {
            assert(nodes2[0].parent is None);
        }
    }
}

/// `end_frame` preserves the profiler invariant.
pub proof fn lemma_inv_st_end_frame(s: PState, now: u64)
    requires
        inv(s),
    ensures
        inv(st_end_frame(s, now)),
{
    if s.enabled && s.current == 0 {
        let nodes2 = s.nodes.update(0, node_ret(s.nodes[0], now));
        lemma_same_topology(s.nodes, nodes2);
        assert forall|i: int| #[trigger] on_path(s.nodes, 0, i) == (i == 0) by {
            assert(s.nodes[0].parent is None);
        }
    }
}

/// One balanced enter/leave pair applied to a single node.
pub open spec fn run_intervals(n: NodeV, iv: Seq<(u64, u64)>) -> NodeV
    decreases iv.len(),
{
    if iv.len() == 0 {
        n
    } else {
        run_intervals(node_ret(node_call(n, iv[0].0), iv[0].1), iv.drop_first())
    }
}

/// The summed lengths of a sequence of measured intervals.
pub open spec fn intervals_total(iv: Seq<(u64, u64)>) -> int
    decreases iv.len(),
{
    if iv.len() == 0 {
        0
    } else {
        (iv[0].1 - iv[0].0) + intervals_total(iv.drop_first())
    }
}

proof fn lemma_intervals_total_nonneg(iv: Seq<(u64, u64)>)
    requires
        forall|k: int| 0 <= k < iv.len() ==> (#[trigger] iv[k]).0 <= iv[k].1,
    ensures
        intervals_total(iv) >= 0,
    decreases iv.len(),
{
    if iv.len() > 0 {
        lemma_intervals_total_nonneg(iv.drop_first());
    }
}

/// A node entered `k` times with no overlapping recursion counts `k` calls
/// and accumulates exactly the sum of the `k` measured intervals; its
/// identity and topology do not move.
pub proof fn lemma_serial_calls_accumulate(n: NodeV, iv: Seq<(u64, u64)>)
    requires
        n.recursion == 0,
        forall|k: int| 0 <= k < iv.len() ==> (#[trigger] iv[k]).0 <= iv[k].1,
        n.calls + iv.len() <= u32::MAX,
        n.total_time + intervals_total(iv) <= u64::MAX,
    ensures
        ({
            let n1 = run_intervals(n, iv);
            &&& n1.calls == n.calls + iv.len()
            &&& n1.total_time == n.total_time + intervals_total(iv)
            &&& n1.recursion == 0
            &&& n1.name == n.name
            &&& n1.parent == n.parent
            &&& n1.children == n.children
        }),
    decreases iv.len(),
{
    if iv.len() > 0 {
        lemma_intervals_total_nonneg(iv.drop_first());
        let n0 = node_ret(node_call(n, iv[0].0), iv[0].1);
        assert(n0.total_time == n.total_time + (iv[0].1 - iv[0].0));
        lemma_serial_calls_accumulate(n0, iv.drop_first());
    }
}

/// Direct recursive re-entry of the current node (entering its own name
/// while it is the innermost open call) creates no node and no duplicate
/// child and does not move the cursor; the inner enter/leave pair is not
/// timed, and the outer return accumulates the whole outer interval once.
pub proof fn lemma_recursive_reentry(s: PState, name: Seq<char>, t1: u64, t2: u64, t3: u64)
    requires
        inv(s),
        s.enabled,
        s.nodes[s.current].name == name,
        s.nodes[s.current].recursion == 1,
        s.nodes[s.current].calls < u32::MAX,
    ensures
        ({
            let cur = s.current;
            let s1 = st_enter(s, name, t1);  // recursive re-entry
            let s2 = st_leave(s1, t2);  // its matching leave
            let s3 = st_leave(s2, t3);  // the outer call returns
            &&& s1.nodes.len() == s.nodes.len()
            &&& s1.nodes[cur].children == s.nodes[cur].children
            &&& s1.current == cur
            &&& s2.current == cur
            &&& s2.nodes[cur].calls == s.nodes[cur].calls + 1
            &&& s2.nodes[cur].recursion == 1
            &&& s2.nodes[cur].total_time == s.nodes[cur].total_time
            &&& s3.nodes[cur].recursion == 0
            &&& s3.nodes[cur].total_time == sat_add_u64(
                s.nodes[cur].total_time,
                elapsed_ns(s.nodes[cur].start_time, t3),
            )
        }),
{
}

/// Two lookups of the same name under the same parent yield the identical
/// node, and the second lookup changes nothing; the child found carries the
/// name and is registered with the parent.
pub proof fn lemma_make_child_memoized(nodes: Seq<NodeV>, p: int, name: Seq<char>)
    requires
        nodes_wf(nodes),
        0 <= p < nodes.len(),
    ensures
        ({
            let (nodes1, j) = st_make_child(nodes, p, name);
            let (nodes2, j2) = st_make_child(nodes1, p, name);
            &&& nodes2 == nodes1
            &&& j2 == j
            &&& 0 <= j < nodes1.len()
            &&& nodes1[j].name == name
            &&& nodes1[j].parent == Option::Some(p)
            &&& nodes1[p].children.contains(j)
        }),
{
    let (nodes1, j) = st_make_child(nodes, p, name);
    match st_find(nodes, p, name) {
        Option::Some(j0) => {
            let k = choose|k: int|
                0 <= k < nodes[p].children.len() && nodes[nodes[p].children[k]].name == name;
            assert(nodes[p].children.contains(j)) by {
                assert(nodes[p].children[k] == j);
            }
        },
        Option::None => {
            lemma_add_wf(nodes, p, name);
            assert(nodes1[p].children.contains(j)) by {
                assert(nodes1[p].children[nodes[p].children.len() as int] == j);
            }
            // the second lookup finds the freshly added child
            assert(st_find(nodes1, p, name) == Option::Some(j)) by {
                let cs = nodes1[p].children;
                assert(nodes1[cs[cs.len() - 1]].name == name);
                let k2 = choose|k2: int|
                    0 <= k2 < cs.len() && nodes1[cs[k2]].name == name;
                if k2 != cs.len() - 1 {
                    assert(nodes1[cs[k2]] == nodes[nodes[p].children[k2]]);
                    assert(false);
                }
            }
        },
    }
}

/// Children of one parent with different names are different nodes, and both
/// stay registered with the parent.
pub proof fn lemma_make_child_distinct(
    nodes: Seq<NodeV>,
    p: int,
    name_a: Seq<char>,
    name_b: Seq<char>,
)
    requires
        nodes_wf(nodes),
        0 <= p < nodes.len(),
        name_a != name_b,
    ensures
        ({
            let (nodes1, ja) = st_make_child(nodes, p, name_a);
            let (nodes2, jb) = st_make_child(nodes1, p, name_b);
            &&& ja != jb
            &&& nodes2[ja].name == name_a
            &&& nodes2[jb].name == name_b
            &&& nodes2[p].children.contains(ja)
            &&& nodes2[p].children.contains(jb)
        }),
{
    let (nodes1, ja) = st_make_child(nodes, p, name_a);
    let (nodes2, jb) = st_make_child(nodes1, p, name_b);
    lemma_make_child_memoized(nodes, p, name_a);
    if st_find(nodes, p, name_a) is None {
        lemma_add_wf(nodes, p, name_a);
    }
    lemma_make_child_memoized(nodes1, p, name_b);
    if st_find(nodes1, p, name_b) is None {
        lemma_add_wf(nodes1, p, name_b);
        assert(nodes2[ja] == nodes1[ja] || ja == p);
        if ja == p {
            assert(nodes1[ja].name == name_a);
            assert(nodes2[p].children == nodes1[p].children.push(nodes1.len() as int));
            assert(nodes2[ja].name == name_a);
        }
        assert(nodes2[p].children.contains(ja)) by {
            let k = choose|k: int|
                0 <= k < nodes1[p].children.len() && nodes1[p].children[k] == ja;
            assert(nodes2[p].children[k] == ja);
        }
    }
}

/// One balanced region: an `enter`, a balanced body, and the matching
/// `leave`.
pub struct CallTree {
    pub name: Seq<char>,
    pub t_enter: u64,
    pub t_leave: u64,
    pub body: Forest,
}

/// A balanced sequence of enter/leave calls: zero or more balanced regions
/// one after the other. Every balanced sequence has exactly this shape.
pub enum Forest {
    Nil,
    Cons(Box<CallTree>, Box<Forest>),
}

/// Running one balanced region from state `s`.
pub open spec fn run_call(s: PState, c: CallTree) -> PState
    decreases c,
{
    st_leave(run_forest(st_enter(s, c.name, c.t_enter), c.body), c.t_leave)
}

/// Running a balanced sequence of regions from state `s`.
pub open spec fn run_forest(s: PState, f: Forest) -> PState
    decreases f,
{
    match f {
        Forest::Nil => s,
        Forest::Cons(c, rest) => run_forest(run_call(s, *c), *rest),
    }
}

/// No recursion counter saturates along the run: whenever a region re-enters
/// the node the cursor already stands on, that node's recursion count is
/// still below the largest `u32`.
pub open spec fn call_fits(s: PState, c: CallTree) -> bool
    decreases c,
{
    &&& (s.enabled && s.nodes[s.current].name == c.name ==> s.nodes[s.current].recursion
        < u32::MAX)
    &&& forest_fits(st_enter(s, c.name, c.t_enter), c.body)
}

/// `call_fits` for every region of the sequence, each from the state the
/// previous regions left behind.
pub open spec fn forest_fits(s: PState, f: Forest) -> bool
    decreases f,
{
    match f {
        Forest::Nil => true,
        Forest::Cons(c, rest) => call_fits(s, *c) && forest_fits(run_call(s, *c), *rest),
    }
}

/// After one balanced region the cursor is back where it began, the
/// invariant still holds, and every pre-existing node keeps its name, its
/// parent and its recursion count.
pub proof fn lemma_balanced_call_restores_cursor(s: PState, c: CallTree)
    requires
        inv(s),
        call_fits(s, c),
    ensures
        ({
            let s1 = run_call(s, c);
            &&& inv(s1)
            &&& s1.current == s.current
            &&& s1.enabled == s.enabled
            &&& s1.nodes.len() >= s.nodes.len()
            &&& (forall|i: int|
                0 <= i < s.nodes.len() ==> (#[trigger] s1.nodes[i]).name == s.nodes[i].name
                    && s1.nodes[i].parent == s.nodes[i].parent && s1.nodes[i].recursion
                    == s.nodes[i].recursion)
        }),
    decreases c,
{
    let se = st_enter(s, c.name, c.t_enter);
    lemma_inv_st_enter(s, c.name, c.t_enter);
    lemma_balanced_forest_restores_cursor(se, c.body);
    let sb = run_forest(se, c.body);
    lemma_inv_st_leave(sb, c.t_leave);
    if s.enabled {
        let cur = s.current;
        let cn = s.nodes[cur];
        assert(on_path(s.nodes, cur, cur));
        if cn.name == c.name {
            // re-entry of the node under the cursor
            assert(se.current == cur && se.nodes[cur].recursion == cn.recursion + 1);
            assert(sb.current == cur && sb.nodes[cur].recursion == cn.recursion + 1);
            if cn.recursion == 0 {
                // only the root can rest with recursion zero, and leaving
                // the root does not move the cursor
                assert(cur == 0);
                assert(sb.nodes[0].parent is None);
            }
        } else {
            match st_find(s.nodes, cur, c.name) {
                Option::Some(j) => {
                    let k = choose|k: int|
                        0 <= k < s.nodes[cur].children.len()
                            && s.nodes[s.nodes[cur].children[k]].name == c.name;
                    assert(j == s.nodes[cur].children[k]);
                    assert(cur < j < s.nodes.len());
                    if on_path(s.nodes, cur, j) {
                        lemma_on_path_bounds(s.nodes, cur, j);
                    }
                    assert(s.nodes[j].recursion == 0);
                    assert(se.current == j && se.nodes[j].recursion == 1);
                    assert(se.nodes[j].parent == Option::Some(cur));
                    assert(sb.current == j && sb.nodes[j].recursion == 1);
                    assert(sb.nodes[j].parent == Option::Some(cur));
                },
                Option::None => {
                    let j = s.nodes.len() as int;
                    lemma_add_wf(s.nodes, cur, c.name);
                    assert(se.current == j && se.nodes[j].recursion == 1);
                    assert(se.nodes[j].parent == Option::Some(cur));
                    assert(sb.current == j && sb.nodes[j].recursion == 1);
                    assert(sb.nodes[j].parent == Option::Some(cur));
                },
            }
        }
    }
}

/// For every sequence of balanced enter/leave calls, after the sequence the
/// tree cursor equals the position it had before the sequence began; the
/// invariant is preserved and every pre-existing node keeps its name, its
/// parent and its recursion count.
pub proof fn lemma_balanced_forest_restores_cursor(s: PState, f: Forest)
    requires
        inv(s),
        forest_fits(s, f),
    ensures
        ({
            let s1 = run_forest(s, f);
            &&& inv(s1)
            &&& s1.current == s.current
            &&& s1.enabled == s.enabled
            &&& s1.nodes.len() >= s.nodes.len()
            &&& (forall|i: int|
                0 <= i < s.nodes.len() ==> (#[trigger] s1.nodes[i]).name == s.nodes[i].name
                    && s1.nodes[i].parent == s.nodes[i].parent && s1.nodes[i].recursion
                    == s.nodes[i].recursion)
        }),
    decreases f,
{
    match f {
        Forest::Nil => {},
        Forest::Cons(c, rest) => {
            lemma_balanced_call_restores_cursor(s, *c);
            lemma_balanced_forest_restores_cursor(run_call(s, *c), *rest);
        },
    }
}

} // verus!
