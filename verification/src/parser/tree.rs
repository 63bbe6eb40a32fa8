//! The move tree a reader builds, as the contracts speak of it: each node a
//! line made, the comments under that line, and the branches hung on it.

use vstd::prelude::*;
use crate::jkf::{JsonKifuFormat, MoveFormat};
use crate::parser::header_block::{comments_of, initial_described, HeaderView};
use crate::parser::kif::comments_are;

verus! {

/// A node of a move list: the node a line made (its move, time and outcome),
/// the comments under the line, and the branches hung on it.
pub struct NodeT {
    /// The move, time and outcome (its comments and branches aside).
    pub node: MoveFormat,
    /// The comments, in the order they were written.
    pub comments: Seq<Seq<char>>,
    /// The branches, in the order they were hung.
    pub forks: Option<Seq<Seq<NodeT>>>,
}

/// The node a line makes, with the comments under it and no branch.
pub open spec fn leaf(n: (MoveFormat, Seq<Seq<char>>)) -> NodeT {
    NodeT { node: n.0, comments: n.1, forks: None }
}

/// The nodes of a run, none with a branch.
pub open spec fn leaves(ns: Seq<(MoveFormat, Seq<Seq<char>>)>) -> Seq<NodeT> {
    ns.map_values(|n: (MoveFormat, Seq<Seq<char>>)| leaf(n))
}

/// Whether a node takes a ply number: a move does, and so does an outcome.
pub open spec fn occupies(t: NodeT) -> bool {
    t.node.move_ is Some || t.node.special is Some
}

/// Whether the node `m` is the tree `t`: the same move, time, outcome and
/// comments, and branch for branch the same lines.
pub open spec fn tree_is(m: MoveFormat, t: NodeT) -> bool
    decreases t,
{
    &&& m.move_ == t.node.move_
    &&& m.time == t.node.time
    &&& m.special == t.node.special
    &&& comments_are(m.comments, t.comments)
    &&& match t.forks {
        None => m.forks is None,
        Some(ts) => m.forks matches Some(fs) && fs@.len() == ts.len()
            && forall|i: int| 0 <= i < ts.len() ==> lines_are(#[trigger] fs@[i]@, ts[i]),
    }
}

/// Whether the nodes `v` are the trees `ts`, one for one.
pub open spec fn lines_are(v: Seq<MoveFormat>, ts: Seq<NodeT>) -> bool
    decreases ts,
{
    &&& v.len() == ts.len()
    &&& forall|k: int| 0 <= k < ts.len() ==> tree_is(#[trigger] v[k], ts[k])
}


/// A node with one more branch, `f`, after the ones it has.
pub open spec fn with_fork(t: NodeT, f: Seq<NodeT>) -> NodeT {
    NodeT {
        node: t.node,
        comments: t.comments,
        forks: Some(match t.forks {
            Some(v) => v.push(f),
            None => seq![f],
        }),
    }
}

/// Whether the runs `v` are the runs `fs`, each with the ply it starts at.
pub open spec fn runs_are_trees(v: Seq<(usize, Vec<MoveFormat>)>, fs: Seq<(int, Seq<NodeT>)>) -> bool {
    &&& v.len() == fs.len()
    &&& forall|k: int| 0 <= k < fs.len() ==> (#[trigger] v[k]).0 == fs[k].0 && lines_are(v[k].1@, fs[k].1)
}

pub proof fn lemma_tree_unfold(m: MoveFormat, t: NodeT)
    ensures
        tree_is(m, t) == {
            &&& m.move_ == t.node.move_
            &&& m.time == t.node.time
            &&& m.special == t.node.special
            &&& comments_are(m.comments, t.comments)
            &&& match t.forks {
                None => m.forks is None,
                Some(ts) => m.forks matches Some(fs) && fs@.len() == ts.len()
                    && forall|i: int| 0 <= i < ts.len() ==> lines_are(#[trigger] fs@[i]@, ts[i]),
            }
        },
{
}

/// Lines side by side make one line.
pub proof fn lemma_lines_concat(a: Seq<MoveFormat>, ta: Seq<NodeT>, b: Seq<MoveFormat>, tb: Seq<NodeT>)
    requires
        lines_are(a, ta),
        lines_are(b, tb),
    ensures
        lines_are(a + b, ta + tb),
{
    assert forall|k: int| 0 <= k < (ta + tb).len() implies tree_is(#[trigger] (a + b)[k], (ta + tb)[k]) by {
        if k < ta.len() {
            assert(tree_is(a[k], ta[k]));
        } else {
            assert(tree_is(b[k - ta.len()], tb[k - ta.len()]));
        }
    }
}

/// One node of a line replaced.
pub proof fn lemma_lines_update(a: Seq<MoveFormat>, ta: Seq<NodeT>, k: int, m: MoveFormat, t: NodeT)
    requires
        lines_are(a, ta),
        0 <= k < a.len(),
        tree_is(m, t),
    ensures
        lines_are(a.update(k, m), ta.update(k, t)),
{
    assert forall|j: int| 0 <= j < ta.len() implies tree_is(#[trigger] a.update(k, m)[j], ta.update(k, t)[j]) by {
        if j != k {
            assert(tree_is(a[j], ta[j]));
        }
    }
}

/// The nodes a run's lines make are its trees.
pub proof fn lemma_leaves(v: Seq<MoveFormat>, ns: Seq<(MoveFormat, Seq<Seq<char>>)>)
    requires
        crate::parser::kif::nodes_are(v, ns),
    ensures
        lines_are(v, leaves(ns)),
{
    assert forall|k: int| 0 <= k < ns.len() implies tree_is(#[trigger] v[k], leaves(ns)[k]) by {
        assert(crate::parser::kif::node_is(v[k], ns[k]));
        lemma_tree_unfold(v[k], leaves(ns)[k]);
    }
}

/// A node with a branch pushed onto the ones it has is that tree with the
/// branch.
pub proof fn lemma_pushed_fork(m: MoveFormat, t: NodeT, v: Seq<Vec<MoveFormat>>, f: Vec<MoveFormat>, ft: Seq<NodeT>, n: MoveFormat)
    requires
        tree_is(m, t),
        lines_are(f@, ft),
        v == (match m.forks { Some(w) => w@, None => Seq::<Vec<MoveFormat>>::empty() }),
        n.move_ == m.move_,
        n.time == m.time,
        n.special == m.special,
        n.comments == m.comments,
        n.forks matches Some(w) && w@ == v.push(f),
    ensures
        tree_is(n, with_fork(t, ft)),
{
    lemma_tree_unfold(m, t);
    lemma_tree_unfold(n, with_fork(t, ft));
    let w = n.forks->Some_0;
    let ts = with_fork(t, ft).forks->Some_0;
    assert forall|i: int| 0 <= i < ts.len() implies lines_are(#[trigger] w@[i]@, ts[i]) by {
        if i < v.len() {
            assert(w@[i] == v[i]);
        } else {
            assert(w@[i] == f);
        }
    }
}


/// The trees `ts` with the comments that stood among the header lines put
/// in front of the starting position's own.
pub open spec fn with_header_comments(ts: Seq<NodeT>, hc: Seq<Seq<char>>) -> Seq<NodeT> {
    if hc.len() == 0 || ts.len() == 0 {
        ts
    } else {
        ts.update(0, NodeT { node: ts[0].node, comments: hc + ts[0].comments, forks: ts[0].forks })
    }
}

/// Whether `j` is the record a reader makes of the block above the moves
/// `v` and the move tree `ts`: the header entries, where it starts, and the
/// moves, the comments among the header lines on the starting position.
pub open spec fn record_read(j: JsonKifuFormat, v: HeaderView, ts: Seq<NodeT>) -> bool {
    &&& j.header@.map_values(|x: (String, String)| (x.0@, x.1@)) == v.info.map
    &&& initial_described(j.initial, v)
    &&& lines_are(j.moves@, with_header_comments(ts, v.info.comments))
}

/// The comments among the header lines, put in front of the starting
/// position's own, make the trees [`with_header_comments`] describes.
pub proof fn lemma_header_comments(old: Seq<MoveFormat>, new: Seq<MoveFormat>, ts: Seq<NodeT>, h: Seq<String>, hc: Seq<Seq<char>>)
    requires
        lines_are(old, ts),
        h.map_values(|c: String| c@) == hc,
        h.len() == 0 || old.len() == 0 ==> new == old,
        h.len() > 0 && old.len() > 0 ==> {
            &&& new.len() == old.len()
            &&& new.skip(1) == old.skip(1)
            &&& new[0].comments matches Some(c) && c@ == h + comments_of(old[0])
            &&& new[0].move_ == old[0].move_
            &&& new[0].time == old[0].time
            &&& new[0].special == old[0].special
            &&& new[0].forks == old[0].forks
        },
    ensures
        lines_are(new, with_header_comments(ts, hc)),
{
    if h.len() > 0 && old.len() > 0 {
        let t0 = ts[0];
        let n0 = NodeT { node: t0.node, comments: hc + t0.comments, forks: t0.forks };
        assert(tree_is(old[0], t0));
        lemma_tree_unfold(old[0], t0);
        lemma_tree_unfold(new[0], n0);
        let c = new[0].comments->Some_0;
        assert(comments_of(old[0]).map_values(|x: String| x@) =~= t0.comments);
        assert(c@.map_values(|x: String| x@) =~= hc + t0.comments);
        assert(new =~= old.update(0, new[0])) by {
            assert forall|k: int| 0 < k < new.len() implies new[k] == old[k] by {
                assert(new[k] == new.skip(1)[k - 1]);
                assert(old[k] == old.skip(1)[k - 1]);
            }
        }
        lemma_lines_update(old, ts, 0, new[0], n0);
    }
}

} // verus!
