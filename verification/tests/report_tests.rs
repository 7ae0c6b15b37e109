use hprof::profiler::Profiler;
use hprof::report::{format_ns, render_line, u128_dec};

#[test]
fn decimal_digits() {
    assert_eq!(u128_dec(0).as_str(), "0");
    assert_eq!(u128_dec(7).as_str(), "7");
    assert_eq!(u128_dec(10).as_str(), "10");
    assert_eq!(u128_dec(90210).as_str(), "90210");
    assert_eq!(u128_dec(18446744073709551615).as_str(), "18446744073709551615");
}

#[test]
fn humanized_durations() {
    assert_eq!(format_ns(0).as_str(), "0ns");
    assert_eq!(format_ns(999).as_str(), "999ns");
    assert_eq!(format_ns(1_000).as_str(), "1.0us");
    assert_eq!(format_ns(1_500).as_str(), "1.5us");
    assert_eq!(format_ns(1_999).as_str(), "1.9us");
    assert_eq!(format_ns(999_999).as_str(), "999.9us");
    assert_eq!(format_ns(1_000_000).as_str(), "1.0ms");
    assert_eq!(format_ns(1_500_000).as_str(), "1.5ms");
    assert_eq!(format_ns(999_999_999).as_str(), "999.9ms");
    assert_eq!(format_ns(1_000_000_000).as_str(), "1.0s");
    assert_eq!(format_ns(2_750_000_000).as_str(), "2.7s");
}

#[test]
fn line_with_parent_total_shows_percent() {
    let s = render_line("a", 2, 3_000, 6_000);
    assert_eq!(s.as_str(), "a - 2 * 1.5us = 3.0us (50.0%)");
}

#[test]
fn line_with_full_share_shows_hundred_percent() {
    let s = render_line("b", 1, 6_000, 6_000);
    assert_eq!(s.as_str(), "b - 1 * 6.0us = 6.0us (100.0%)");
}

#[test]
fn zero_parent_total_renders_rate_not_percent() {
    let s = render_line("x", 5, 1_000, 0);
    assert_eq!(s.as_str(), "x - 5 * 200ns = 1.0us @ 5000000.0hz");
    assert!(!s.contains('%'));
    assert!(s.contains("hz"));
}

#[test]
fn zero_everything_renders_without_crash() {
    let s = render_line("z", 0, 0, 0);
    assert_eq!(s.as_str(), "z - 0 * 0ns = 0ns @ 0.0hz");
    assert!(!s.contains("NaN"));
}

#[test]
fn report_walks_tree_with_indentation() {
    let mut p = Profiler::new("root");
    p.start_frame();
    p.enter_noguard("physics");
    p.enter_noguard("collision");
    p.leave();
    p.leave();
    p.enter_noguard("render");
    p.leave();
    p.end_frame();
    let s = p.render_timing();
    assert!(s.starts_with("Timing information for root:\n"));
    let lines: Vec<&str> = s.lines().collect();
    assert_eq!(lines.len(), 4);
    assert!(lines[1].starts_with("  physics - 1 * "));
    assert!(lines[2].starts_with("    collision - 1 * "));
    assert!(lines[3].starts_with("  render - 1 * "));
}

#[test]
fn report_for_untimed_children_uses_rate_form() {
    let mut p = Profiler::new("root");
    // no frame: the root's total time is still zero, so its children have a
    // zero parent total and render in the rate-based form
    p.enter_noguard("a");
    p.leave();
    let s = p.render_timing();
    let lines: Vec<&str> = s.lines().collect();
    assert_eq!(lines.len(), 2);
    assert!(lines[1].contains("hz"));
    assert!(!lines[1].contains('%'));
}
