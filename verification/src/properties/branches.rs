//! Where the readers hang a branch: a run numbered past the end of a line
//! carries it on, and a branch whose ply has no node leaves the line as it
//! was.

use vstd::prelude::*;
use crate::parser::kif::{attach_t, ply_index};
use crate::parser::ki2::at_path;
use crate::parser::tree::NodeT;

verus! {

proof fn lemma_no_node_at_the_ply(run: Seq<NodeT>, ply: int, at: int, k: int)
    requires
        0 <= k <= run.len(),
        at >= ply + (run.len() - k),
    ensures
        ply_index(run, ply, at, k) is None,
    decreases run.len() - k,
{
    if k < run.len() {
        lemma_no_node_at_the_ply(run, ply + 1, at, k + 1);
        lemma_no_node_at_the_ply(run, ply, at, k + 1);
    }
}

/// A KIF run numbered past the end of the line it hangs on carries that
/// line on: with fewer nodes in the line than plies up to the run's, the
/// run's nodes come after the line's, and no branch is made.
pub proof fn a_run_numbered_past_the_end_carries_the_line_on(line: Seq<NodeT>, first: int, at: int, run: Seq<NodeT>)
    requires
        at >= first + line.len(),
    ensures
        attach_t(line, first, at, run) == line + run,
{
    lemma_no_node_at_the_ply(line, first, at, 0);
}

/// A KI2 branch whose ply has no node on the line it is read against leaves
/// the line as it was, and no way through it is kept.
pub proof fn a_branch_with_no_node_at_its_ply_changes_nothing(line: Seq<NodeT>, first: int, ply: int, branch: Seq<NodeT>)
    requires
        ply < first || ply - first >= line.len(),
    ensures
        at_path(line, first, Seq::empty(), 0, ply, branch) == (line, Option::<usize>::None),
{
}

/// A KI2 branch whose ply has a node on the line it is read against is hung
/// on that node, after the branches it has; its place among them is how
/// many it had.
pub proof fn a_branch_is_hung_on_the_node_at_its_ply(line: Seq<NodeT>, first: int, ply: int, branch: Seq<NodeT>)
    requires
        first <= ply < first + line.len(),
    ensures
        at_path(line, first, Seq::empty(), 0, ply, branch) == (
            line.update(ply - first, crate::parser::tree::with_fork(line[ply - first], branch)),
            Some(crate::parser::ki2::forks_of(line[ply - first]).len() as usize),
        ),
{
}

} // verus!
