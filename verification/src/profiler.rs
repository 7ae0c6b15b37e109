//! The profiler: one tree of profile data and a cursor into it.

use vstd::prelude::*;
use crate::model::{
    PState, inv, node_call, node_new, node_reset, sat_inc_u32, st_enter, st_end_frame, st_find,
    st_leave, st_make_child, st_start_frame,
};
use crate::laws::{
    lemma_inv_st_enter, lemma_inv_st_end_frame, lemma_inv_st_leave, lemma_inv_st_start_frame,
    lemma_add_wf, lemma_on_path_bounds,
};
use crate::node::ProfileNode;

verus! {

/// A single tree of profile data.
///
/// The nodes live in an arena; node 0 is the root. One profiler is driven by
/// one logical thread of control: the type offers no internal locking, and
/// concurrent mutation of a shared instance is unsupported. The fields are
/// public for inspection; modifying them by hand breaks the bookkeeping.
pub struct Profiler {
    /// The arena of tree nodes; index 0 is the root.
    pub nodes: Vec<ProfileNode>,
    /// Arena index of the node most recently entered and not yet left.
    pub current: usize,
    /// While false, enter/leave/frame operations are no-ops.
    pub enabled: bool,
    /// How many protocol violations (pending `leave` calls at a frame
    /// boundary) have been detected; an embedding can log each increase.
    pub warnings: u32,
}

impl View for Profiler {
    type V = PState;

    open spec fn view(&self) -> PState {
        PState {
            nodes: self.nodes@.map_values(|n: ProfileNode| n@),
            current: self.current as int,
            enabled: self.enabled,
            warnings: self.warnings,
        }
    }
}

/// Relies on std::time::SystemTime::now: the current time, read as whole
/// nanoseconds since the Unix epoch (truncated to 64 bits, zero if the clock
/// reads before the epoch). The result depends on the clock, so nothing is
/// promised of it.
#[verifier::external_body]
fn now_ns() -> u64 {
    match std::time::SystemTime::now().duration_since(std::time::UNIX_EPOCH) {
        Ok(d) => d.as_nanos() as u64,
        Err(_) => 0,
    }
}

/// A guard handed out by the guarded `enter` variant; the embedding pairs it
/// with exactly one `leave`, releasing it on every exit path of the guarded
/// region.
#[must_use]
pub struct ProfileGuard {}

impl Profiler {
    /// Create a new profiler with the given name for the root node.
    ///
    /// The root is immediately entered: it anchors the tree and is active
    /// outside frame boundaries too.
    pub fn new(name: &str) -> (p: Profiler)
        ensures
            inv(p@),
            p@.nodes.len() == 1,
            p@.nodes[0].name == name@,
            p@.nodes[0].calls == 1,
            p@.nodes[0].recursion == 1,
            p@.nodes[0].total_time == 0,
            p@.nodes[0].parent is None,
            p@.nodes[0].children.len() == 0,
            p@.current == 0,
            p@.enabled,
            p@.warnings == 0,
    {
        let t = now_ns();
        let mut root = ProfileNode::new(None, name);
        root.call(t);
        let mut nodes: Vec<ProfileNode> = Vec::new();
        nodes.push(root);
        let p = Profiler { nodes, current: 0, enabled: true, warnings: 0 };
        proof {
            assert(p@.nodes =~= seq![node_call(node_new(Option::None, name@), t)]);
            assert forall|i: int| #[trigger] crate::model::on_path(p@.nodes, 0, i) == (i
                == 0) by {}
        }
        p
    }

    /// Enter a profile node for `name`, returning a guard object; the
    /// embedding performs one `leave` when the guard is released.
    pub fn enter(&mut self, name: &str) -> (g: ProfileGuard)
        requires
            inv(old(self)@),
        ensures
            inv(final(self)@),
            exists|t: u64| final(self)@ == st_enter(old(self)@, name@, t),
            !old(self).enabled ==> final(self)@ == old(self)@,
            final(self).enabled == old(self).enabled,
            final(self).warnings == old(self).warnings,
    {
        self.enter_noguard(name);
        ProfileGuard {  }
    }

    /// Enter a profile node for `name`.
    ///
    /// When the current node already carries this name (a direct recursive
    /// re-entry) no child is created or descended into: the same node is
    /// called again. Otherwise the cursor descends to the child of that
    /// name, creating it on first sight.
    pub fn enter_noguard(&mut self, name: &str)
        requires
            inv(old(self)@),
        ensures
            inv(final(self)@),
            exists|t: u64| final(self)@ == st_enter(old(self)@, name@, t),
            !old(self).enabled ==> final(self)@ == old(self)@,
            final(self).enabled == old(self).enabled,
            final(self).warnings == old(self).warnings,
    {
        if !self.enabled {
            proof {
                assert(final(self)@ == st_enter(old(self)@, name@, 0));
            }
            return ;
        }
        let t = now_ns();
        let cur = self.current;
        let name_string: String = name.to_owned();
        if self.nodes[cur].name == name_string {
            let node = &mut self.nodes[cur];
            node.call(t);
            proof {
                assert(final(self)@ =~= st_enter(old(self)@, name@, t));
                lemma_inv_st_enter(old(self)@, name@, t);
            }
        } else {
            let child = self.make_child(cur, name);
            self.current = child;
            let node = &mut self.nodes[child];
            node.call(t);
            proof {
                let (nodes1, j) = st_make_child(old(self)@.nodes, cur as int, name@);
                assert(child as int == j);
                assert(final(self)@ =~= st_enter(old(self)@, name@, t));
                lemma_inv_st_enter(old(self)@, name@, t);
            }
        }
    }

    /// Return the existing child of node `parent` carrying `name`, or
    /// create, register and return a new one. At most one child per name
    /// exists under a given parent.
    pub fn make_child(&mut self, parent: usize, name: &str) -> (child: usize)
        requires
            inv(old(self)@),
            parent < old(self)@.nodes.len(),
        ensures
            inv(final(self)@),
            ({
                let (nodes1, j) = st_make_child(old(self)@.nodes, parent as int, name@);
                final(self)@.nodes == nodes1 && child as int == j
            }),
            final(self).current == old(self).current,
            final(self).enabled == old(self).enabled,
            final(self).warnings == old(self).warnings,
            child < final(self)@.nodes.len(),
    {
        let name_string: String = name.to_owned();
        let children_len = self.nodes[parent].children.len();
        let mut k: usize = 0;
        while k < children_len
            invariant
                *self == *old(self),
                inv(self@),
                parent < self@.nodes.len(),
                children_len == self@.nodes[parent as int].children.len(),
                k <= children_len,
                name_string@ == name@,
                forall|k2: int|
                    0 <= k2 < k ==> self@.nodes[#[trigger] self@.nodes[parent as int].children[k2]].name
                        != name@,
            decreases children_len - k,
        {
            let ci = self.nodes[parent].children[k];
            proof {
                assert(self@.nodes[parent as int].children[k as int] == ci as int);
            }
            if self.nodes[ci].name == name_string {
                proof {
                    let ns = old(self)@.nodes;
                    let pi = parent as int;
                    assert(ns[ns[pi].children[k as int]].name == name@);
                    let k2 = choose|k2: int|
                        0 <= k2 < ns[pi].children.len() && ns[ns[pi].children[k2]].name == name@;
                    if k2 != k as int {
                        assert(ns[ns[pi].children[k2]].name != ns[ns[pi].children[k as int]].name);
                        assert(false);
                    }
                    assert(st_find(ns, pi, name@) == Option::Some(ci as int));
                }
                return ci;
            }
            k += 1;
        }
        let idx = self.nodes.len();
        let node = ProfileNode::new(Some(parent), name);
        self.nodes.push(node);
        let pnode = &mut self.nodes[parent];
        pnode.children.push(idx);
        proof {
            let ns = old(self)@.nodes;
            let pi = parent as int;
            assert forall|k2: int| 0 <= k2 < ns[pi].children.len() implies ns[#[trigger] ns[pi].children[k2]].name
                != name@ by {}
            assert(st_find(ns, pi, name@) is None) by {
                if st_find(ns, pi, name@) is Some {
                    let k2 = choose|k2: int|
                        0 <= k2 < ns[pi].children.len() && ns[ns[pi].children[k2]].name == name@;
                    assert(false);
                }
            }
            assert(final(self)@.nodes =~~= crate::model::st_add(ns, pi, name@));
            lemma_add_wf(ns, pi, name@);
            // the new node is off the unchanged root-to-cursor path, with
            // recursion zero, so the invariant carries over
            let n1 = crate::model::st_add(ns, pi, name@);
            let curi = old(self)@.current;
            assert forall|i: int| #[trigger] crate::model::on_path(n1, curi, i)
                == crate::model::on_path(ns, curi, i) by {
                assert forall|m: int|
                    0 <= m <= curi implies m < ns.len() && m < n1.len() && (#[trigger] n1[m]).parent
                    == ns[m].parent by {}
                crate::laws::lemma_on_path_frame(ns, n1, curi, i);
            }
            assert forall|i: int|
                0 <= i < n1.len() && !crate::model::on_path(n1, curi, i) implies (
            #[trigger] n1[i].recursion) == 0 by {
                if i < ns.len() {
                    if i != pi {
                        assert(n1[i] == ns[i]);
                    }
                }
            }
            assert forall|i: int|
                0 < i < n1.len() && #[trigger] crate::model::on_path(n1, curi, i) implies n1[i].recursion
                >= 1 by {
                lemma_on_path_bounds(ns, curi, i);
                if i != pi {
                    assert(n1[i] == ns[i]);
                }
            }
        }
        idx
    }

    /// Leave the current profile node; the cursor moves back to the parent
    /// exactly when this return ended the node's outermost active call.
    pub fn leave(&mut self)
        requires
            inv(old(self)@),
        ensures
            inv(final(self)@),
            exists|t: u64| final(self)@ == st_leave(old(self)@, t),
            !old(self).enabled ==> final(self)@ == old(self)@,
            final(self).enabled == old(self).enabled,
            final(self).warnings == old(self).warnings,
            final(self)@.nodes.len() == old(self)@.nodes.len(),
    {
        if !self.enabled {
            proof {
                assert(final(self)@ == st_leave(old(self)@, 0));
            }
            return ;
        }
        let t = now_ns();
        let cur = self.current;
        let node = &mut self.nodes[cur];
        let done = node.ret(t);
        if done {
            if let Some(p) = self.nodes[cur].parent {
                self.current = p;
            }
        }
        proof {
            assert(final(self)@ =~= st_leave(old(self)@, t));
            lemma_inv_st_leave(old(self)@, t);
        }
    }

    /// Start a frame: reset the timing data of every node of the tree and
    /// re-enter the root.
    ///
    /// A cursor away from the root means pending `leave` calls from the
    /// previous frame: the warning count rises, and the cursor is forced
    /// back to the root regardless.
    pub fn start_frame(&mut self)
        requires
            inv(old(self)@),
        ensures
            inv(final(self)@),
            exists|t: u64| final(self)@ == st_start_frame(old(self)@, t),
            !old(self).enabled ==> final(self)@ == old(self)@,
            old(self).enabled ==> {
                &&& final(self)@.nodes.len() == old(self)@.nodes.len()
                &&& (forall|i: int|
                    0 <= i < old(self)@.nodes.len() ==> (#[trigger] final(self)@.nodes[i]).name
                        == old(self)@.nodes[i].name && final(self)@.nodes[i].parent
                        == old(self)@.nodes[i].parent && final(self)@.nodes[i].children
                        == old(self)@.nodes[i].children)
                &&& (forall|i: int|
                    1 <= i < old(self)@.nodes.len() ==> (#[trigger] final(self)@.nodes[i]).calls
                        == 0 && final(self)@.nodes[i].total_time == 0
                        && final(self)@.nodes[i].recursion == 0)
                &&& final(self)@.nodes[0].calls == 1
                &&& final(self)@.nodes[0].recursion == 1
                &&& final(self)@.nodes[0].total_time == 0
                &&& final(self)@.current == 0
            },
    {
        if !self.enabled {
            proof {
                assert(final(self)@ == st_start_frame(old(self)@, 0));
            }
            return ;
        }
        let t = now_ns();
        if self.current != 0 {
            self.warnings = if self.warnings == u32::MAX {
                u32::MAX
            } else {
                self.warnings + 1
            };
        }
        self.current = 0;
        let n = self.nodes.len();
        let mut i: usize = 0;
        while i < n
            invariant
                n == self.nodes@.len(),
                self@.nodes.len() == old(self)@.nodes.len(),
                i <= n,
                self.current == 0,
                self.enabled == old(self).enabled,
                old(self).enabled,
                self.warnings == (if old(self)@.current != 0 {
                    sat_inc_u32(old(self)@.warnings)
                } else {
                    old(self)@.warnings
                }),
                forall|j: int|
                    0 <= j < i ==> (#[trigger] self@.nodes[j]) == node_reset(
                        old(self)@.nodes[j],
                        t,
                    ),
                forall|j: int| i <= j < n ==> (#[trigger] self@.nodes[j]) == old(self)@.nodes[j],
            decreases n - i,
        {
            let i0 = i;
            let ghost prev_nodes = self@.nodes;
            let node = &mut self.nodes[i0];
            node.reset(t);
            i = i0 + 1;
            proof {
                assert(self@.nodes =~= prev_nodes.update(
                    i0 as int,
                    node_reset(prev_nodes[i0 as int], t),
                ));
            }
        }
        let ghost mid_nodes = self@.nodes;
        let root = &mut self.nodes[0];
        root.call(t);
        proof {
            assert(self@.nodes =~= mid_nodes.update(0, node_call(mid_nodes[0], t)));
            let s1 = st_start_frame(old(self)@, t);
            assert(final(self)@.nodes =~= s1.nodes);
            assert(final(self)@ =~~= s1);
            lemma_inv_st_start_frame(old(self)@, t);
        }
    }

    /// Finish a frame.
    ///
    /// With the cursor at the root, the root returns and its frame time is
    /// finalized. Anywhere else there are pending `leave` calls: the warning
    /// count rises and the root's timing is left unfinalized, so the frame's
    /// report shows stale totals — a detectable misuse signal, not corrected
    /// silently.
    pub fn end_frame(&mut self)
        requires
            inv(old(self)@),
        ensures
            inv(final(self)@),
            exists|t: u64| final(self)@ == st_end_frame(old(self)@, t),
            !old(self).enabled ==> final(self)@ == old(self)@,
            old(self).enabled && old(self).current != 0 ==> final(self).warnings == sat_inc_u32(
                old(self).warnings,
            ) && final(self)@.nodes == old(self)@.nodes,
    {
        if !self.enabled {
            proof {
                assert(final(self)@ == st_end_frame(old(self)@, 0));
            }
            return ;
        }
        let t = now_ns();
        if self.current != 0 {
            self.warnings = if self.warnings == u32::MAX {
                u32::MAX
            } else {
                self.warnings + 1
            };
            proof {
                assert(final(self)@ =~= st_end_frame(old(self)@, t));
                lemma_inv_st_end_frame(old(self)@, t);
            }
        } else {
            let root = &mut self.nodes[0];
            let _done = root.ret(t);
            proof {
                assert(final(self)@ =~= st_end_frame(old(self)@, t));
                lemma_inv_st_end_frame(old(self)@, t);
            }
        }
    }

    /// Disable the profiler: all calls until `enable` do nothing.
    pub fn disable(&mut self)
        ensures
            final(self)@ == (PState { enabled: false, ..old(self)@ }),
            inv(old(self)@) ==> inv(final(self)@),
    {
        self.enabled = false;
        proof {
            assert(final(self)@ =~= (PState { enabled: false, ..old(self)@ }));
        }
    }

    /// Enable the profiler: calls take effect until `disable` is called.
    /// The tree and the cursor are exactly where they were left.
    pub fn enable(&mut self)
        ensures
            final(self)@ == (PState { enabled: true, ..old(self)@ }),
            inv(old(self)@) ==> inv(final(self)@),
    {
        self.enabled = true;
        proof {
            assert(final(self)@ =~= (PState { enabled: true, ..old(self)@ }));
        }
    }

    /// Toggle whether the profiler is enabled.
    pub fn toggle(&mut self)
        ensures
            final(self)@ == (PState { enabled: !old(self)@.enabled, ..old(self)@ }),
            inv(old(self)@) ==> inv(final(self)@),
    {
        self.enabled = !self.enabled;
        proof {
            assert(final(self)@ =~= (PState { enabled: !old(self)@.enabled, ..old(self)@ }));
        }
    }

    /// The root profile node, for external inspection.
    ///
    /// The tree contents are only meaningful outside an open frame.
    pub fn root(&self) -> (r: &ProfileNode)
        requires
            inv(self@),
        ensures
            r@ == self@.nodes[0],
    {
        &self.nodes[0]
    }

    /// The node at arena index `i`, for external inspection; child indices
    /// read from a node's `children` are valid here.
    pub fn node(&self, i: usize) -> (r: &ProfileNode)
        requires
            i < self@.nodes.len(),
        ensures
            r@ == self@.nodes[i as int],
    {
        &self.nodes[i]
    }
}

} // verus!
