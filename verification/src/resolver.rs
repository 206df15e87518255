//! The loop resolver: bidirectional bracket-matching scans over the
//! instruction sequence, performed by linear re-scan on every
//! loop-boundary crossing.

use vstd::prelude::*;

use crate::command::Command;
use crate::semantics::is_matching_close;
use crate::semantics::is_matching_open;
use crate::semantics::net_depth;
use crate::semantics::lemma_net_depth_unfold_lo;

verus! {

/// Scan forward from the opening bracket at `start`, with a depth counter
/// seeded at one, for the matching closing bracket.  Returns `None` when
/// the scan reaches the end of the sequence without the counter returning
/// to zero: the bracket is unmatched.
pub fn find_matching_close(code: &[Command], start: usize) -> (r: Option<usize>)
    requires
        start < code@.len(),
    ensures
        match r {
            Some(j) => is_matching_close(code@, start as int, j as int),
            None => forall|j: int| !is_matching_close(code@, start as int, j),
        },
{
    let n = code.len();
    let mut idx: usize = start + 1;
    let mut depth: usize = 1;
    while idx < n
        invariant
            n == code@.len(),
            start < idx <= code@.len(),
            depth >= 1,
            depth as int <= idx - start,
            depth as int == 1 + net_depth(code@, start + 1, idx as int),
            forall|t: int| start + 1 < t <= idx ==> 1 + #[trigger] net_depth(code@, start + 1, t)
                > 0,
        decreases code@.len() - idx,
    {
        let c = code[idx];
        if c == Command::JumpForward {
            depth += 1;
        } else if c == Command::JumpBackward {
            depth -= 1;
            if depth == 0 {
                return Some(idx);
            }
        }
        idx += 1;
    }
    None
}

/// Scan backward from the closing bracket at `start`, with a depth counter
/// seeded at one, for the matching opening bracket.  Returns `None` when
/// the scan reaches the beginning of the sequence without the counter
/// returning to zero: the bracket is unmatched.
pub fn find_matching_open(code: &[Command], start: usize) -> (r: Option<usize>)
    requires
        start < code@.len(),
    ensures
        match r {
            Some(i) => is_matching_open(code@, i as int, start as int),
            None => forall|i: int| !is_matching_open(code@, i, start as int),
        },
{
    let mut idx: usize = start;
    let mut depth: usize = 1;
    while idx > 0
        invariant
            idx <= start < code@.len(),
            depth >= 1,
            depth as int <= 1 + start - idx,
            depth as int == 1 - net_depth(code@, idx as int, start as int),
            forall|k: int| idx <= k < start ==> 1 - #[trigger] net_depth(code@, k, start as int)
                > 0,
        decreases idx,
    {
        idx -= 1;
        proof {
            lemma_net_depth_unfold_lo(code@, idx as int, start as int);
        }
        let c = code[idx];
        if c == Command::JumpBackward {
            depth += 1;
        } else if c == Command::JumpForward {
            depth -= 1;
            if depth == 0 {
                return Some(idx);
            }
        }
    }
    None
}

} // verus!
