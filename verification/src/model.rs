//! Mathematical model of the profile tree.
//!
//! `NodeV` is the value of one node, `PState` the value of a whole profiler:
//! the arena of nodes, the cursor, the enabled switch and the warning count.
//! The `st_*` spec functions say exactly what each profiler operation does to
//! this state; the executable code in `node` and `profiler` is proved to
//! follow them, and the laws at the bottom are proved about them.

use vstd::prelude::*;

verus! {

/// The value of a single profile node.
#[verifier::ext_equal]
pub struct NodeV {
    pub name: Seq<char>,
    pub calls: u32,
    pub total_time: u64,
    pub start_time: u64,
    pub recursion: u32,
    pub parent: Option<int>,
    pub children: Seq<int>,
}

/// `x + 1`, stopping at the largest `u32` instead of overflowing.
pub open spec fn sat_inc_u32(x: u32) -> u32 {
    if x == u32::MAX {
        x
    } else {
        (x + 1) as u32
    }
}

/// `x - 1`, stopping at zero instead of underflowing.
pub open spec fn sat_dec_u32(x: u32) -> u32 {
    if x == 0 {
        x
    } else {
        (x - 1) as u32
    }
}

/// `a + b`, stopping at the largest `u64` instead of overflowing.
pub open spec fn sat_add_u64(a: u64, b: u64) -> u64 {
    if a + b > u64::MAX {
        u64::MAX
    } else {
        (a + b) as u64
    }
}

/// Nanoseconds from `start` to `now`; zero when the clock moved backwards.
pub open spec fn elapsed_ns(start: u64, now: u64) -> u64 {
    if now >= start {
        (now - start) as u64
    } else {
        0
    }
}

/// A freshly constructed node: zero counters, no children.
pub open spec fn node_new(parent: Option<int>, name: Seq<char>) -> NodeV {
    NodeV {
        name: name,
        calls: 0,
        total_time: 0,
        start_time: 0,
        recursion: 0,
        parent: parent,
        children: Seq::empty(),
    }
}

/// Entering a node at time `now`: one more call; if this is the outermost
/// (non-recursive) entry, timing starts now.
pub open spec fn node_call(n: NodeV, now: u64) -> NodeV {
    NodeV {
        calls: sat_inc_u32(n.calls),
        start_time: if n.recursion == 0 {
            now
        } else {
            n.start_time
        },
        recursion: sat_inc_u32(n.recursion),
        ..n
    }
}

/// Whether returning from `n` ends its outermost active call.
pub open spec fn node_ret_done(n: NodeV) -> bool {
    n.recursion == 1
}

/// Returning from a node at time `now`: the elapsed wall-clock time is
/// accumulated only when the outermost active call ends.
pub open spec fn node_ret(n: NodeV, now: u64) -> NodeV {
    NodeV {
        total_time: if n.recursion == 1 {
            sat_add_u64(n.total_time, elapsed_ns(n.start_time, now))
        } else {
            n.total_time
        },
        recursion: sat_dec_u32(n.recursion),
        ..n
    }
}

/// Resetting a node for a new frame: counters to zero, timing origin to
/// `now`, identity and topology untouched.
pub open spec fn node_reset(n: NodeV, now: u64) -> NodeV {
    NodeV { calls: 0, total_time: 0, start_time: now, recursion: 0, ..n }
}

/// The value of a whole profiler: the arena of nodes (node 0 is the root),
/// the cursor, the enabled switch and the count of detected protocol
/// violations.
#[verifier::ext_equal]
pub struct PState {
    pub nodes: Seq<NodeV>,
    pub current: int,
    pub enabled: bool,
    pub warnings: u32,
}

/// Structural well-formedness of the arena: node 0 is the root and has no
/// parent; every other node's parent comes before it; a child list only
/// holds later nodes whose parent field points back; and no two children of
/// one node share an index or a name.
pub open spec fn nodes_wf(nodes: Seq<NodeV>) -> bool {
    &&& nodes.len() >= 1
    &&& nodes[0].parent is None
    &&& (forall|i: int|
        1 <= i < nodes.len() ==> (#[trigger] nodes[i].parent) is Some && 0 <= nodes[i].parent->Some_0 < i)
    &&& (forall|i: int, k: int|
        0 <= i < nodes.len() && 0 <= k < nodes[i].children.len() ==> i < #[trigger] nodes[i].children[k]
            < nodes.len() && nodes[nodes[i].children[k]].parent == Option::Some(i))
    &&& (forall|i: int, k1: int, k2: int|
        0 <= i < nodes.len() && 0 <= k1 < nodes[i].children.len() && 0 <= k2
            < nodes[i].children.len() && k1 != k2 ==> #[trigger] nodes[i].children[k1]
            != #[trigger] nodes[i].children[k2] && nodes[nodes[i].children[k1]].name
            != nodes[nodes[i].children[k2]].name)
}

/// Whether node `i` lies on the path from the root to the cursor `cur`
/// (following parent links upwards from `cur`).
pub open spec fn on_path(nodes: Seq<NodeV>, cur: int, i: int) -> bool
    decreases cur,
{
    i == cur || (match nodes[cur].parent {
        Option::Some(p) => 0 <= p < cur && on_path(nodes, p, i),
        Option::None => false,
    })
}

/// The profiler invariant: a well-formed arena, a cursor that points into
/// it, recursion zero everywhere off the cursor's path, and recursion at
/// least one at every non-root node on it.
pub open spec fn inv(s: PState) -> bool {
    &&& nodes_wf(s.nodes)
    &&& 0 <= s.current < s.nodes.len()
    &&& (forall|i: int|
        0 <= i < s.nodes.len() && !on_path(s.nodes, s.current, i)
            ==> (#[trigger] s.nodes[i].recursion) == 0)
    &&& (forall|i: int|
        0 < i < s.nodes.len() && #[trigger] on_path(s.nodes, s.current, i)
            ==> s.nodes[i].recursion >= 1)
}

/// The child of `p` named `name`, if one exists. Under `nodes_wf` there is
/// at most one such child.
pub open spec fn st_find(nodes: Seq<NodeV>, p: int, name: Seq<char>) -> Option<int> {
    if exists|k: int|
        0 <= k < nodes[p].children.len() && nodes[nodes[p].children[k]].name == name {
        let k = choose|k: int|
            0 <= k < nodes[p].children.len() && nodes[nodes[p].children[k]].name == name;
        Option::Some(nodes[p].children[k])
    } else {
        Option::None
    }
}

/// Appending a fresh child of `p` named `name` at the end of the arena.
pub open spec fn st_add(nodes: Seq<NodeV>, p: int, name: Seq<char>) -> Seq<NodeV> {
    nodes.update(
        p,
        NodeV { children: nodes[p].children.push(nodes.len() as int), ..nodes[p] },
    ).push(node_new(Option::Some(p), name))
}

/// Finding or creating the child of `p` named `name`: the arena afterwards
/// and the child's index.
pub open spec fn st_make_child(nodes: Seq<NodeV>, p: int, name: Seq<char>) -> (Seq<NodeV>, int) {
    match st_find(nodes, p, name) {
        Option::Some(j) => (nodes, j),
        Option::None => (st_add(nodes, p, name), nodes.len() as int),
    }
}

/// Entering the region `name` at time `now`: a re-entry of the current node
/// stays in place; otherwise the cursor descends to the (found or created)
/// child; either way the target node is called.
pub open spec fn st_enter(s: PState, name: Seq<char>, now: u64) -> PState {
    if !s.enabled {
        s
    } else {
        let cur = s.current;
        if s.nodes[cur].name == name {
            PState { nodes: s.nodes.update(cur, node_call(s.nodes[cur], now)), ..s }
        } else {
            let (nodes1, j) = st_make_child(s.nodes, cur, name);
            PState { nodes: nodes1.update(j, node_call(nodes1[j], now)), current: j, ..s }
        }
    }
}

/// Leaving the current region at time `now`: the current node returns, and
/// the cursor ascends to the parent exactly when that return ended the
/// node's outermost active call.
pub open spec fn st_leave(s: PState, now: u64) -> PState {
    if !s.enabled {
        s
    } else {
        let cur = s.current;
        let n = s.nodes[cur];
        let cur1 = if node_ret_done(n) {
            match n.parent {
                Option::Some(p) => p,
                Option::None => cur,
            }
        } else {
            cur
        };
        PState { nodes: s.nodes.update(cur, node_ret(n, now)), current: cur1, ..s }
    }
}

/// Starting a frame at time `now`: warn if the cursor is not at the root,
/// then reset every node of the tree, force the cursor to the root and call
/// the root.
pub open spec fn st_start_frame(s: PState, now: u64) -> PState {
    if !s.enabled {
        s
    } else {
        let w = if s.current != 0 {
            sat_inc_u32(s.warnings)
        } else {
            s.warnings
        };
        let reset_nodes = Seq::new(s.nodes.len(), |i: int| node_reset(s.nodes[i], now));
        PState {
            nodes: reset_nodes.update(0, node_call(reset_nodes[0], now)),
            current: 0,
            enabled: s.enabled,
            warnings: w,
        }
    }
}

/// Ending a frame at time `now`: with the cursor at the root the root
/// returns and its time is finalized; anywhere else the frame is unbalanced,
/// a warning is counted and the timing is left unfinalized.
pub open spec fn st_end_frame(s: PState, now: u64) -> PState {
    if !s.enabled {
        s
    } else if s.current != 0 {
        PState { warnings: sat_inc_u32(s.warnings), ..s }
    } else {
        PState { nodes: s.nodes.update(0, node_ret(s.nodes[0], now)), ..s }
    }
}

} // verus!
