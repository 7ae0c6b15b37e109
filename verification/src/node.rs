//! A single node in the profile tree.

use vstd::prelude::*;
use crate::model::{NodeV, node_new, node_call, node_ret, node_ret_done, node_reset};

verus! {

/// A single node in the profile tree, stored in the owning profiler's arena.
///
/// `parent` and `children` are indices into that arena. The fields are
/// public for external rendering and tooling; modifying them by hand breaks
/// the owning profiler's bookkeeping.
pub struct ProfileNode {
    /// Region name this node stands for.
    pub name: String,
    /// Number of calls made to this node since the last reset.
    pub calls: u32,
    /// Total time in ns used by this node and all of its children.
    ///
    /// Computed when the last pending `ret` ends the outermost call.
    pub total_time: u64,
    /// Timestamp in ns when the outermost pending `call` was made.
    pub start_time: u64,
    /// Number of currently active (recursive) calls to this node.
    pub recursion: u32,
    /// Arena index of the parent; absent only for the root.
    pub parent: Option<usize>,
    /// Arena indices of the child nodes, in creation order.
    pub children: Vec<usize>,
}

impl View for ProfileNode {
    type V = NodeV;

    open spec fn view(&self) -> NodeV {
        NodeV {
            name: self.name@,
            calls: self.calls,
            total_time: self.total_time,
            start_time: self.start_time,
            recursion: self.recursion,
            parent: match self.parent {
                Option::Some(p) => Option::Some(p as int),
                Option::None => Option::None,
            },
            children: self.children@.map_values(|c: usize| c as int),
        }
    }
}

impl ProfileNode {
    /// A fresh node with zero counters and no children.
    pub fn new(parent: Option<usize>, name: &str) -> (n: ProfileNode)
        ensures
            n@ == node_new(
                match parent {
                    Option::Some(p) => Option::Some(p as int),
                    Option::None => Option::None,
                },
                name@,
            ),
    {
        let n = ProfileNode {
            name: name.to_owned(),
            calls: 0,
            total_time: 0,
            start_time: 0,
            recursion: 0,
            parent,
            children: Vec::new(),
        };
        proof {
            assert(n@.children =~= Seq::<int>::empty());
            assert(n@ =~= node_new(n@.parent, name@));
        }
        n
    }

    /// Reset this node for a new frame: counters to zero, timing origin to
    /// `now`. The owning profiler resets every node of its tree this way.
    pub fn reset(&mut self, now: u64)
        ensures
            final(self)@ == node_reset(old(self)@, now),
    {
        self.calls = 0;
        self.total_time = 0;
        self.start_time = now;
        self.recursion = 0;
    }

    /// Enter this profile node at time `now`.
    pub fn call(&mut self, now: u64)
        ensures
            final(self)@ == node_call(old(self)@, now),
    {
        self.calls = if self.calls == u32::MAX {
            u32::MAX
        } else {
            self.calls + 1
        };
        if self.recursion == 0 {
            self.start_time = now;
        }
        self.recursion = if self.recursion == u32::MAX {
            u32::MAX
        } else {
            self.recursion + 1
        };
    }

    /// Return from this profile node at time `now`; the result says whether
    /// this return ended the outermost active call, so that the cursor must
    /// move back to the parent.
    pub fn ret(&mut self, now: u64) -> (done: bool)
        ensures
            final(self)@ == node_ret(old(self)@, now),
            done == node_ret_done(old(self)@),
    {
        let rec = self.recursion;
        if rec == 1 {
            let elapsed = if now >= self.start_time {
                now - self.start_time
            } else {
                0
            };
            self.total_time = if self.total_time > u64::MAX - elapsed {
                u64::MAX
            } else {
                self.total_time + elapsed
            };
        }
        if rec > 0 {
            self.recursion = rec - 1;
        }
        rec == 1
    }
}

} // verus!
