use hprof::profiler::Profiler;

#[test]
fn new_profiler_initial_state() {
    let p = Profiler::new("root");
    assert_eq!(p.nodes.len(), 1);
    assert_eq!(p.current, 0);
    assert!(p.enabled);
    assert_eq!(p.warnings, 0);
    let root = p.root();
    assert_eq!(root.name, "root");
    assert_eq!(root.calls, 1);
    assert_eq!(root.recursion, 1);
    assert_eq!(root.total_time, 0);
    assert!(root.parent.is_none());
    assert!(root.children.is_empty());
}

#[test]
fn balanced_calls_restore_cursor() {
    let mut p = Profiler::new("root");
    assert_eq!(p.current, 0);
    let _ = p.enter("a");
    let _ = p.enter("b");
    let _ = p.enter("c");
    p.leave();
    p.leave();
    p.leave();
    assert_eq!(p.current, 0);
    // a second balanced sequence through the same nodes also returns
    let _ = p.enter("a");
    p.leave();
    assert_eq!(p.current, 0);
}

#[test]
fn serial_calls_count_and_accumulate() {
    let mut p = Profiler::new("root");
    for _ in 0..2 {
        p.enter_noguard("a");
        let t0 = std::time::Instant::now();
        while t0.elapsed() < std::time::Duration::from_millis(5) {}
        p.leave();
    }
    let ai = p.nodes[0].children[0];
    let a = p.node(ai);
    assert_eq!(a.name, "a");
    assert_eq!(a.calls, 2);
    assert_eq!(a.recursion, 0);
    // two waits of at least 5 ms each, within scheduler jitter
    assert!(a.total_time >= 8_000_000, "total_time = {}", a.total_time);
    assert!(a.total_time < 60_000_000_000, "total_time = {}", a.total_time);
}

#[test]
fn recursive_reentry_creates_no_duplicate() {
    let mut p = Profiler::new("root");
    p.enter_noguard("f");
    p.enter_noguard("f"); // direct recursive re-entry
    let fi = p.nodes[0].children[0];
    assert_eq!(p.current, fi);
    assert_eq!(p.node(fi).recursion, 2);
    // no child named f under f itself, and no duplicate under the root
    assert!(p.node(fi).children.is_empty());
    assert_eq!(p.nodes[0].children.len(), 1);
    let t0 = std::time::Instant::now();
    while t0.elapsed() < std::time::Duration::from_millis(5) {}
    p.leave();
    // the inner leave accumulates nothing: the outer call is still open
    assert_eq!(p.node(fi).total_time, 0);
    assert_eq!(p.node(fi).recursion, 1);
    assert_eq!(p.current, fi);
    p.leave();
    // the outer leave accumulates the whole outer interval, once
    assert_eq!(p.node(fi).calls, 2);
    assert_eq!(p.node(fi).recursion, 0);
    assert!(p.node(fi).total_time >= 4_000_000);
    assert!(p.node(fi).total_time < 60_000_000_000);
    assert_eq!(p.current, 0);
}

#[test]
fn reentry_of_root_name_stays_at_root() {
    let mut p = Profiler::new("root");
    p.enter_noguard("root");
    assert_eq!(p.current, 0);
    assert_eq!(p.nodes.len(), 1);
    assert_eq!(p.nodes[0].calls, 2);
    assert_eq!(p.nodes[0].recursion, 2);
    p.leave();
    assert_eq!(p.current, 0);
    assert_eq!(p.nodes[0].recursion, 1);
}

#[test]
fn same_name_memoized_distinct_names_distinct() {
    let mut p = Profiler::new("root");
    p.enter_noguard("a");
    p.leave();
    p.enter_noguard("a");
    p.leave();
    assert_eq!(p.nodes[0].children.len(), 1);
    assert_eq!(p.nodes.len(), 2);
    p.enter_noguard("b");
    p.leave();
    assert_eq!(p.nodes[0].children.len(), 2);
    assert_eq!(p.nodes.len(), 3);
    let a = p.node(p.nodes[0].children[0]);
    let b = p.node(p.nodes[0].children[1]);
    assert_eq!(a.name, "a");
    assert_eq!(b.name, "b");
    assert_eq!(a.calls, 2);
    assert_eq!(b.calls, 1);
}

#[test]
fn make_child_returns_same_index() {
    let mut p = Profiler::new("root");
    let i1 = p.make_child(0, "x");
    let i2 = p.make_child(0, "x");
    assert_eq!(i1, i2);
    assert_eq!(p.nodes[0].children.len(), 1);
    let i3 = p.make_child(0, "y");
    assert_ne!(i1, i3);
    assert_eq!(p.nodes[0].children.len(), 2);
    assert_eq!(p.node(i3).parent, Some(0));
}

#[test]
fn start_frame_zeroes_deep_tree_keeps_topology() {
    let mut p = Profiler::new("root");
    p.start_frame();
    p.enter_noguard("a");
    p.enter_noguard("b");
    p.enter_noguard("c");
    p.leave();
    p.leave();
    p.leave();
    p.end_frame();
    let names: Vec<String> = p.nodes.iter().map(|n| n.name.clone()).collect();
    let children: Vec<Vec<usize>> = p.nodes.iter().map(|n| n.children.clone()).collect();
    let parents: Vec<Option<usize>> = p.nodes.iter().map(|n| n.parent).collect();
    p.start_frame();
    assert_eq!(p.nodes.len(), 4);
    assert_eq!(p.current, 0);
    for (i, n) in p.nodes.iter().enumerate() {
        assert_eq!(n.name, names[i]);
        assert_eq!(n.children, children[i]);
        assert_eq!(n.parent, parents[i]);
        if i == 0 {
            assert_eq!(n.calls, 1);
            assert_eq!(n.recursion, 1);
        } else {
            assert_eq!(n.calls, 0);
            assert_eq!(n.recursion, 0);
        }
        assert_eq!(n.total_time, 0);
    }
}

#[test]
fn disabled_operations_do_nothing() {
    let mut p = Profiler::new("root");
    p.enter_noguard("a");
    p.disable();
    assert!(!p.enabled);
    let cursor = p.current;
    let calls_a = p.node(1).calls;
    p.enter_noguard("b");
    p.enter_noguard("a");
    p.leave();
    p.start_frame();
    p.end_frame();
    assert_eq!(p.nodes.len(), 2);
    assert_eq!(p.current, cursor);
    assert_eq!(p.node(1).calls, calls_a);
    assert_eq!(p.warnings, 0);
    // re-enabling resumes exactly where the cursor was left
    p.enable();
    assert!(p.enabled);
    assert_eq!(p.current, cursor);
    p.leave();
    assert_eq!(p.current, 0);
}

#[test]
fn toggle_flips_enabledness() {
    let mut p = Profiler::new("root");
    assert!(p.enabled);
    p.toggle();
    assert!(!p.enabled);
    p.toggle();
    assert!(p.enabled);
}

#[test]
fn timed_region_shows_elapsed_time() {
    let mut p = Profiler::new("root");
    p.start_frame();
    p.enter_noguard("a");
    let t0 = std::time::Instant::now();
    while t0.elapsed() < std::time::Duration::from_millis(10) {}
    p.leave();
    p.end_frame();
    let a = p.node(p.nodes[0].children[0]);
    assert_eq!(a.calls, 1);
    assert!(a.total_time >= 9_000_000, "total_time = {}", a.total_time);
    assert!(a.total_time < 60_000_000_000, "total_time = {}", a.total_time);
    // the enclosing frame's root total covers the child's share
    assert!(p.nodes[0].total_time >= a.total_time);
}

#[test]
fn end_frame_unbalanced_warns_and_skips_finalizing() {
    let mut p = Profiler::new("root");
    p.start_frame();
    p.enter_noguard("a"); // still open
    let root_total = p.nodes[0].total_time;
    let root_rec = p.nodes[0].recursion;
    p.end_frame();
    assert_eq!(p.warnings, 1);
    // the root's timing was not finalized
    assert_eq!(p.nodes[0].total_time, root_total);
    assert_eq!(p.nodes[0].recursion, root_rec);
    // and nothing crashed; the next frame proceeds (and warns again)
    p.start_frame();
    assert_eq!(p.warnings, 2);
    assert_eq!(p.current, 0);
}

#[test]
fn leave_at_root_is_harmless() {
    let mut p = Profiler::new("root");
    p.leave(); // root becomes inactive
    assert_eq!(p.current, 0);
    assert_eq!(p.nodes[0].recursion, 0);
    p.leave(); // nothing left to leave; no underflow, no crash
    assert_eq!(p.current, 0);
    assert_eq!(p.nodes[0].recursion, 0);
}
