//! The plain-text report renderer.
//!
//! Each line reads `<name> - <calls> * <avg> = <total> (<percent>%)`, with
//! the percentage of the parent's total time; when the parent's total is
//! zero there is no meaningful ratio and the line ends `@ <rate>hz` (calls
//! per second) instead. Durations are rendered in the coarsest unit that
//! keeps the value at least one: nanoseconds below a thousand, then micro-
//! and milliseconds, then seconds — one decimal place (rounded down) in all
//! but the nanosecond case.

use vstd::prelude::*;
use crate::model::{NodeV, PState, inv};
use crate::profiler::Profiler;
use vstd::string::StringExecFns;

verus! {

/// The decimal digit character for `d`.
pub open spec fn digit_char(d: int) -> char {
    if d == 0 {
        '0'
    } else if d == 1 {
        '1'
    } else if d == 2 {
        '2'
    } else if d == 3 {
        '3'
    } else if d == 4 {
        '4'
    } else if d == 5 {
        '5'
    } else if d == 6 {
        '6'
    } else if d == 7 {
        '7'
    } else if d == 8 {
        '8'
    } else {
        '9'
    }
}

/// The decimal digits of `n`, most significant first.
pub open spec fn dec_digits(n: int) -> Seq<char>
    decreases n,
{
    if n < 10 {
        seq![digit_char(n)]
    } else {
        dec_digits(n / 10).push(digit_char(n % 10))
    }
}

/// A count of tenths rendered with one decimal place: `15` reads `1.5`.
pub open spec fn tenths_digits(tenths: int) -> Seq<char> {
    dec_digits(tenths / 10) + "."@ + seq![digit_char(tenths % 10)]
}

/// A duration in nanoseconds rendered in the coarsest unit that keeps the
/// value at least one, one decimal place (rounded down) except for plain
/// nanoseconds.
pub open spec fn ns_human(ns: u64) -> Seq<char> {
    if ns < 1000 {
        dec_digits(ns as int) + "ns"@
    } else if ns < 1000000 {
        tenths_digits(ns * 10 / 1000) + "us"@
    } else if ns < 1000000000 {
        tenths_digits(ns * 10 / 1000000) + "ms"@
    } else {
        tenths_digits(ns * 10 / 1000000000) + "s"@
    }
}

/// Time per call: the total divided by the number of calls, zero when there
/// were none.
pub open spec fn spec_avg_ns(total: u64, calls: u32) -> u64 {
    if calls > 0 {
        ((total as int) / (calls as int)) as u64
    } else {
        0
    }
}

/// Tenths of the percentage of `total` relative to `parent_total`.
pub open spec fn spec_percent_tenths(total: u64, parent_total: u64) -> int {
    (total * 1000) / (parent_total as int)
}

/// Tenths of the call rate in calls per second, zero when no time has been
/// accumulated.
pub open spec fn spec_rate_tenths(calls: u32, total: u64) -> int {
    if total > 0 {
        (calls * 10000000000) / (total as int)
    } else {
        0
    }
}

/// One report line. With a parent total of zero the rate-based form is
/// rendered instead of an undefined percentage.
pub open spec fn spec_line(name: Seq<char>, calls: u32, total: u64, parent_total: u64) -> Seq<
    char,
> {
    let head = name + " - "@ + dec_digits(calls as int) + " * "@ + ns_human(
        spec_avg_ns(total, calls),
    ) + " = "@ + ns_human(total);
    if parent_total == 0 {
        head + " @ "@ + tenths_digits(spec_rate_tenths(calls, total)) + "hz"@
    } else {
        head + " ("@ + tenths_digits(spec_percent_tenths(total, parent_total)) + "%)"@
    }
}

/// A digit as text.
fn digit_str(d: u64) -> (r: &'static str)
    requires
        d < 10,
    ensures
        r@ == seq![digit_char(d as int)],
{
    let r: &'static str = if d == 0 {
        "0"
    } else if d == 1 {
        "1"
    } else if d == 2 {
        "2"
    } else if d == 3 {
        "3"
    } else if d == 4 {
        "4"
    } else if d == 5 {
        "5"
    } else if d == 6 {
        "6"
    } else if d == 7 {
        "7"
    } else if d == 8 {
        "8"
    } else {
        "9"
    };
    proof {
        reveal_strlit("0");
        reveal_strlit("1");
        reveal_strlit("2");
        reveal_strlit("3");
        reveal_strlit("4");
        reveal_strlit("5");
        reveal_strlit("6");
        reveal_strlit("7");
        reveal_strlit("8");
        reveal_strlit("9");
        assert(r@ =~= seq![digit_char(d as int)]);
    }
    r
}

/// The decimal digits of `n`.
pub fn u128_dec(n: u128) -> (s: String)
    ensures
        s@ == dec_digits(n as int),
    decreases n,
{
    if n < 10 {
        let s = digit_str(n as u64).to_owned();
        proof {
            assert(s@ =~= dec_digits(n as int));
        }
        s
    } else {
        let mut s = u128_dec(n / 10);
        s.append(digit_str((n % 10) as u64));
        proof {
            assert(s@ =~= dec_digits(n as int));
        }
        s
    }
}

/// `tenths` tenths rendered with one decimal place.
fn tenths_str(tenths: u128) -> (s: String)
    ensures
        s@ == tenths_digits(tenths as int),
{
    let mut s = u128_dec(tenths / 10);
    s.append(".");
    s.append(digit_str((tenths % 10) as u64));
    proof {
        assert(s@ =~= tenths_digits(tenths as int));
    }
    s
}

/// A duration in nanoseconds, humanized.
pub fn format_ns(ns: u64) -> (s: String)
    ensures
        s@ == ns_human(ns),
{
    if ns < 1_000 {
        let mut s = u128_dec(ns as u128);
        s.append("ns");
        proof {
            assert(s@ =~= ns_human(ns));
        }
        s
    } else if ns < 1_000_000 {
        let mut s = tenths_str((ns as u128) * 10 / 1_000);
        s.append("us");
        proof {
            assert(s@ =~= ns_human(ns));
        }
        s
    } else if ns < 1_000_000_000 {
        let mut s = tenths_str((ns as u128) * 10 / 1_000_000);
        s.append("ms");
        proof {
            assert(s@ =~= ns_human(ns));
        }
        s
    } else {
        let mut s = tenths_str((ns as u128) * 10 / 1_000_000_000);
        s.append("s");
        proof {
            assert(s@ =~= ns_human(ns));
        }
        s
    }
}

/// One report line for a node with the given counters under a parent with
/// total time `parent_total`. A parent total of zero renders the rate-based
/// form rather than an undefined percentage.
pub fn render_line(name: &str, calls: u32, total_time: u64, parent_total: u64) -> (s: String)
    ensures
        s@ == spec_line(name@, calls, total_time, parent_total),
{
    let mut s = name.to_owned();
    s.append(" - ");
    let calls_digits = u128_dec(calls as u128);
    s.append(calls_digits.as_str());
    s.append(" * ");
    let avg: u64 = if calls > 0 {
        total_time / (calls as u64)
    } else {
        0
    };
    let avg_s = format_ns(avg);
    s.append(avg_s.as_str());
    s.append(" = ");
    let total_s = format_ns(total_time);
    s.append(total_s.as_str());
    if parent_total == 0 {
        s.append(" @ ");
        let tenths: u128 = if total_time > 0 {
            (calls as u128) * 10_000_000_000 / (total_time as u128)
        } else {
            0
        };
        let rate_s = tenths_str(tenths);
        s.append(rate_s.as_str());
        s.append("hz");
        proof {
            assert(s@ =~= spec_line(name@, calls, total_time, parent_total));
        }
    } else {
        s.append(" (");
        let tenths: u128 = (total_time as u128) * 1000 / (parent_total as u128);
        let pct_s = tenths_str(tenths);
        s.append(pct_s.as_str());
        s.append("%)");
        proof {
            assert(s@ =~= spec_line(name@, calls, total_time, parent_total));
        }
    }
    s
}

/// Spaces of indentation.
pub open spec fn spec_spaces(k: int) -> Seq<char>
    decreases k,
{
    if k <= 0 {
        Seq::empty()
    } else {
        " "@ + spec_spaces(k - 1)
    }
}

/// The total time of the node's parent; a node without one (the root) is
/// measured against itself.
pub open spec fn spec_parent_total(nodes: Seq<NodeV>, i: int) -> u64 {
    match nodes[i].parent {
        Option::Some(p) => if 0 <= p < nodes.len() {
            nodes[p].total_time
        } else {
            nodes[i].total_time
        },
        Option::None => nodes[i].total_time,
    }
}

/// The report block for node `i`: its own line at the given indentation,
/// then the blocks of its children, indented two further.
pub open spec fn spec_render_node(nodes: Seq<NodeV>, i: int, indent: int) -> Seq<char>
    decreases nodes.len() - i, 1int, 0int,
{
    spec_spaces(indent) + spec_line(
        nodes[i].name,
        nodes[i].calls,
        nodes[i].total_time,
        spec_parent_total(nodes, i),
    ) + "\n"@ + spec_render_children(nodes, i, 0, indent)
}

/// The report blocks for the children of node `i`, from child position `k`
/// on.
pub open spec fn spec_render_children(nodes: Seq<NodeV>, i: int, k: int, indent: int) -> Seq<char>
    decreases nodes.len() - i, 0int, nodes[i].children.len() - k,
{
    if 0 <= i < nodes.len() && 0 <= k < nodes[i].children.len() {
        let j = nodes[i].children[k];
        (if i < j < nodes.len() {
            spec_render_node(nodes, j, indent + 2)
        } else {
            Seq::empty()
        }) + spec_render_children(nodes, i, k + 1, indent)
    } else {
        Seq::empty()
    }
}

/// The whole report: a heading naming the root, then the blocks of the
/// root's children.
pub open spec fn spec_report(s: PState) -> Seq<char> {
    "Timing information for "@ + s.nodes[0].name + ":\n"@ + spec_render_children(s.nodes, 0, 0, 0)
}

impl Profiler {
    /// Append the report block for node `i` to `out`.
    fn render_node(&self, i: usize, indent: usize, out: &mut String)
        requires
            inv(self@),
            i < self@.nodes.len(),
            indent + 2 * (self@.nodes.len() - i) <= usize::MAX,
        ensures
            final(out)@ == old(out)@ + spec_render_node(self@.nodes, i as int, indent as int),
        decreases self@.nodes.len() - i,
    {
        push_spaces(out, indent);
        let parent_total: u64 = match self.nodes[i].parent {
            Some(p) => {
                proof {
                    assert(self@.nodes[i as int].parent == Option::Some(p as int));
                    assert(p < i);
                }
                self.nodes[p].total_time
            },
            None => self.nodes[i].total_time,
        };
        let line = render_line(
            self.nodes[i].name.as_str(),
            self.nodes[i].calls,
            self.nodes[i].total_time,
            parent_total,
        );
        out.append(line.as_str());
        out.append("\n");
        let cl = self.nodes[i].children.len();
        let mut k: usize = 0;
        while k < cl
            invariant
                inv(self@),
                i < self@.nodes.len(),
                indent + 2 * (self@.nodes.len() - i) <= usize::MAX,
                cl == self@.nodes[i as int].children.len(),
                k <= cl,
                out@ + spec_render_children(self@.nodes, i as int, k as int, indent as int) == old(
                    out,
                )@ + spec_render_node(self@.nodes, i as int, indent as int),
            decreases cl - k,
        {
            let j = self.nodes[i].children[k];
            proof {
                assert(self@.nodes[i as int].children[k as int] == j as int);
                assert(i < j < self@.nodes.len());
            }
            let ghost before = out@;
            self.render_node(j, indent + 2, out);
            proof {
                assert(out@ + spec_render_children(self@.nodes, i as int, k + 1, indent as int)
                    =~= before + spec_render_children(self@.nodes, i as int, k as int, indent as int));
            }
            k += 1;
        }
        proof {
            assert(spec_render_children(self@.nodes, i as int, cl as int, indent as int)
                =~= Seq::<char>::empty());
            assert(final(out)@ =~= old(out)@ + spec_render_node(
                self@.nodes,
                i as int,
                indent as int,
            ));
        }
    }

    /// Render the whole timing report: a heading for the root, then one
    /// indented line per node of the tree, in tree order. The embedding
    /// prints or stores the text.
    pub fn render_timing(&self) -> (s: String)
        requires
            inv(self@),
            2 * self@.nodes.len() <= usize::MAX,
        ensures
            s@ == spec_report(self@),
    {
        let mut out = String::new();
        out.append("Timing information for ");
        out.append(self.nodes[0].name.as_str());
        out.append(":\n");
        let cl = self.nodes[0].children.len();
        let mut k: usize = 0;
        while k < cl
            invariant
                inv(self@),
                2 * self@.nodes.len() <= usize::MAX,
                cl == self@.nodes[0].children.len(),
                k <= cl,
                out@ + spec_render_children(self@.nodes, 0, k as int, 0) == spec_report(self@),
            decreases cl - k,
        {
            let j = self.nodes[0].children[k];
            proof {
                assert(self@.nodes[0].children[k as int] == j as int);
                assert(0 < j < self@.nodes.len());
            }
            let ghost before = out@;
            self.render_node(j, 2, &mut out);
            proof {
                assert(out@ + spec_render_children(self@.nodes, 0, k + 1, 0) =~= before
                    + spec_render_children(self@.nodes, 0, k as int, 0));
            }
            k += 1;
        }
        proof {
            assert(spec_render_children(self@.nodes, 0, cl as int, 0) =~= Seq::<char>::empty());
            assert(out@ =~= spec_report(self@));
        }
        out
    }
}

/// Append `k` spaces to `out`.
fn push_spaces(out: &mut String, k: usize)
    ensures
        final(out)@ == old(out)@ + spec_spaces(k as int),
    decreases k,
{
    if k > 0 {
        out.append(" ");
        push_spaces(out, k - 1);
        proof {
            assert(final(out)@ =~= old(out)@ + spec_spaces(k as int));
        }
    } else {
        proof {
            assert(final(out)@ =~= old(out)@ + spec_spaces(0));
        }
    }
}

} // verus!
