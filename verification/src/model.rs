//! The mathematical model of a board tree.
//!
//! A [`Node`] is either a resolved leaf holding an optional mark, or a grid
//! of nine child nodes addressed by `(column, row)` with each component in
//! `0..3`; the child at `(x, y)` sits at sequence index `3 * x + y`.  All
//! contracts of the executable code are stated over this model.

use vstd::prelude::*;

use crate::board::State;

verus! {

/// A board tree: a resolved cell, or a 3x3 grid of sub-trees.
pub enum Node {
    /// A decided or empty terminal position.
    Leaf(Option<State>),
    /// An undecided position holding a full sub-game of nine children.
    Grid(Seq<Node>),
}

/// Whether player `p` owns a complete line (column, row, or diagonal) of the
/// grid `n`, judging each child by its effective mark.
pub open spec fn has_line(n: Node, p: State) -> bool
    decreases n, 0int,
{
    match n {
        Node::Leaf(_) => false,
        Node::Grid(g) => {
            if g.len() == 9 {
                let m0 = mark_of(g[0]);
                let m1 = mark_of(g[1]);
                let m2 = mark_of(g[2]);
                let m3 = mark_of(g[3]);
                let m4 = mark_of(g[4]);
                let m5 = mark_of(g[5]);
                let m6 = mark_of(g[6]);
                let m7 = mark_of(g[7]);
                let m8 = mark_of(g[8]);
                ||| (m0 == Some(p) && m1 == Some(p) && m2 == Some(p))
                ||| (m3 == Some(p) && m4 == Some(p) && m5 == Some(p))
                ||| (m6 == Some(p) && m7 == Some(p) && m8 == Some(p))
                ||| (m0 == Some(p) && m3 == Some(p) && m6 == Some(p))
                ||| (m1 == Some(p) && m4 == Some(p) && m7 == Some(p))
                ||| (m2 == Some(p) && m5 == Some(p) && m8 == Some(p))
                ||| (m0 == Some(p) && m4 == Some(p) && m8 == Some(p))
                ||| (m6 == Some(p) && m4 == Some(p) && m2 == Some(p))
            } else {
                false
            }
        },
    }
}

/// The winner of the grid `n`, if any.  `Circle` lines are checked before
/// `Cross` lines, so if both were somehow present `Circle` takes priority.
pub open spec fn winner_of(n: Node) -> Option<State>
    decreases n, 1int,
{
    if has_line(n, State::Circle) {
        Some(State::Circle)
    } else if has_line(n, State::Cross) {
        Some(State::Cross)
    } else {
        None
    }
}

/// The effective mark of a node: a leaf's own cell, or the player (if any)
/// who already owns the sub-game of a grid.
pub open spec fn mark_of(n: Node) -> Option<State>
    decreases n, 2int,
{
    match n {
        Node::Leaf(s) => s,
        Node::Grid(_) => winner_of(n),
    }
}

/// Whether the child `n` is closed for move-legality purposes: a marked
/// leaf, or a grid that is stalemated or already has a winner.
pub open spec fn terminal(n: Node) -> bool
    decreases n, 1int,
{
    match n {
        Node::Leaf(s) => s is Some,
        Node::Grid(_) => stalemate_of(n) || winner_of(n) is Some,
    }
}

/// Whether the grid `n` is stalemated: every one of its nine children is
/// terminal, yet nobody has won `n` itself.  A node with an empty leaf child
/// is never stalemated, and a leaf is never stalemated.
pub open spec fn stalemate_of(n: Node) -> bool
    decreases n, 0int,
{
    match n {
        Node::Leaf(_) => false,
        Node::Grid(g) => {
            if g.len() == 9 {
                &&& terminal(g[0])
                &&& terminal(g[1])
                &&& terminal(g[2])
                &&& terminal(g[3])
                &&& terminal(g[4])
                &&& terminal(g[5])
                &&& terminal(g[6])
                &&& terminal(g[7])
                &&& terminal(g[8])
                &&& winner_of(n) is None
            } else {
                false
            }
        },
    }
}

/// The number of moves still possible in `n`: one for each empty leaf.
pub open spec fn count_of(n: Node) -> nat
    decreases n,
{
    match n {
        Node::Leaf(s) => if s is None { 1nat } else { 0nat },
        Node::Grid(g) => {
            if g.len() == 9 {
                count_of(g[0]) + count_of(g[1]) + count_of(g[2]) + count_of(g[3]) + count_of(g[4])
                    + count_of(g[5]) + count_of(g[6]) + count_of(g[7]) + count_of(g[8])
            } else {
                0nat
            }
        },
    }
}

/// A freshly built tree of depth `d`: for depth 1 a grid of nine empty
/// leaves, for greater depths a grid of nine fresh trees of depth `d - 1`.
pub open spec fn fresh_node(d: nat) -> Node
    decreases d,
{
    let c = if d <= 1 {
        Node::Leaf(None)
    } else {
        fresh_node((d - 1) as nat)
    };
    Node::Grid(seq![c, c, c, c, c, c, c, c, c])
}

/// Nine to the power `d`: the number of leaves of a fresh tree of depth `d`.
pub open spec fn pow9(d: nat) -> nat
    decreases d,
{
    if d == 0 {
        1nat
    } else {
        9 * pow9((d - 1) as nat)
    }
}

/// Whether every leaf of `n` lies at exactly depth `d` below it.
pub open spec fn uniform_depth(n: Node, d: nat) -> bool
    decreases n,
{
    match n {
        Node::Leaf(_) => d == 0,
        Node::Grid(g) => {
            &&& d >= 1
            &&& g.len() == 9
            &&& uniform_depth(g[0], (d - 1) as nat)
            &&& uniform_depth(g[1], (d - 1) as nat)
            &&& uniform_depth(g[2], (d - 1) as nat)
            &&& uniform_depth(g[3], (d - 1) as nat)
            &&& uniform_depth(g[4], (d - 1) as nat)
            &&& uniform_depth(g[5], (d - 1) as nat)
            &&& uniform_depth(g[6], (d - 1) as nat)
            &&& uniform_depth(g[7], (d - 1) as nat)
            &&& uniform_depth(g[8], (d - 1) as nat)
        },
    }
}

/// Whether the move path `path` is open in `n`: every addressed node before
/// the final element is a grid with the coordinates in range, and the node
/// addressed by the final element is an empty leaf.
pub open spec fn path_open(n: Node, path: Seq<(u8, u8)>) -> bool
    decreases path.len(),
{
    if path.len() == 0 {
        n == Node::Leaf(None::<State>)
    } else {
        match n {
            Node::Leaf(_) => false,
            Node::Grid(g) => {
                let x = path[0].0;
                let y = path[0].1;
                &&& x < 3
                &&& y < 3
                &&& g.len() == 9
                &&& path_open(g[3 * x + y], path.drop_first())
            },
        }
    }
}

/// Structural soundness of a tree: every grid in it has exactly nine
/// children.  This is the invariant the executable board operations need.
pub open spec fn node_inv(n: Node) -> bool
    decreases n,
{
    match n {
        Node::Leaf(_) => true,
        Node::Grid(g) => {
            &&& g.len() == 9
            &&& node_inv(g[0])
            &&& node_inv(g[1])
            &&& node_inv(g[2])
            &&& node_inv(g[3])
            &&& node_inv(g[4])
            &&& node_inv(g[5])
            &&& node_inv(g[6])
            &&& node_inv(g[7])
            &&& node_inv(g[8])
        },
    }
}

/// Whether every grid strictly below `n` is still undecided.  The collapse
/// propagator maintains this: a decided grid never survives a collapse, so
/// between moves only the root itself can hold a winner.
pub open spec fn undecided_below(n: Node) -> bool
    decreases n,
{
    match n {
        Node::Leaf(_) => true,
        Node::Grid(g) => {
            if g.len() == 9 {
                &&& (g[0] is Grid ==> winner_of(g[0]) is None)
                &&& (g[1] is Grid ==> winner_of(g[1]) is None)
                &&& (g[2] is Grid ==> winner_of(g[2]) is None)
                &&& (g[3] is Grid ==> winner_of(g[3]) is None)
                &&& (g[4] is Grid ==> winner_of(g[4]) is None)
                &&& (g[5] is Grid ==> winner_of(g[5]) is None)
                &&& (g[6] is Grid ==> winner_of(g[6]) is None)
                &&& (g[7] is Grid ==> winner_of(g[7]) is None)
                &&& (g[8] is Grid ==> winner_of(g[8]) is None)
                &&& undecided_below(g[0])
                &&& undecided_below(g[1])
                &&& undecided_below(g[2])
                &&& undecided_below(g[3])
                &&& undecided_below(g[4])
                &&& undecided_below(g[5])
                &&& undecided_below(g[6])
                &&& undecided_below(g[7])
                &&& undecided_below(g[8])
            } else {
                true
            }
        },
    }
}

/// A freshly built tree is structurally sound.
pub proof fn lemma_fresh_node_inv(d: nat)
    requires
        d >= 1,
    ensures
        node_inv(fresh_node(d)),
    decreases d,
{
    if d > 1 {
        lemma_fresh_node_inv((d - 1) as nat);
    }
    let c = if d <= 1 {
        Node::Leaf(None)
    } else {
        fresh_node((d - 1) as nat)
    };
    assert(fresh_node(d) == Node::Grid(seq![c, c, c, c, c, c, c, c, c]));
    assert(node_inv(c));
}

/// The child of the grid `n` at `(column x, row y)`.
pub open spec fn child_of(n: Node, x: int, y: int) -> Node
    recommends
        n is Grid,
        0 <= x < 3,
        0 <= y < 3,
{
    n->Grid_0[3 * x + y]
}

/// The tree `n` with the empty leaf addressed by `path` replaced by a leaf
/// marked by `p`.  Where the path does not address an empty leaf, the tree
/// is returned unchanged.
pub open spec fn place_in(n: Node, path: Seq<(u8, u8)>, p: State) -> Node
    decreases path.len(),
{
    if !path_open(n, path) {
        n
    } else if path.len() == 0 {
        Node::Leaf(Some(p))
    } else {
        match n {
            Node::Leaf(_) => n,
            Node::Grid(g) => {
                let i = 3 * path[0].0 + path[0].1;
                Node::Grid(g.update(i, place_in(g[i], path.drop_first(), p)))
            },
        }
    }
}

/// One element of a board under collapse: a grid with a winner becomes a
/// leaf marked by that winner, discarding its subtree; any other grid keeps
/// its variant and is collapsed inside.
pub open spec fn collapse_elem(n: Node) -> Node
    decreases n, 1int,
{
    match n {
        Node::Leaf(_) => n,
        Node::Grid(_) => {
            if winner_of(n) is Some {
                Node::Leaf(winner_of(n))
            } else {
                collapse_grid(n)
            }
        },
    }
}

/// A board under collapse: each of its nine elements is rewritten by
/// [`collapse_elem`], while the board itself keeps its variant.  This is the
/// rewrite that runs over the whole tree after every accepted move; note
/// that the root is never itself replaced by a leaf.
pub open spec fn collapse_grid(n: Node) -> Node
    decreases n, 0int,
{
    match n {
        Node::Leaf(_) => n,
        Node::Grid(g) => {
            if g.len() == 9 {
                Node::Grid(
                    seq![
                        collapse_elem(g[0]),
                        collapse_elem(g[1]),
                        collapse_elem(g[2]),
                        collapse_elem(g[3]),
                        collapse_elem(g[4]),
                        collapse_elem(g[5]),
                        collapse_elem(g[6]),
                        collapse_elem(g[7]),
                        collapse_elem(g[8]),
                    ],
                )
            } else {
                n
            }
        },
    }
}

/// The decidedness relation between an old tree `a` and a new tree `b`:
/// a marked leaf never changes, a leaf never reverts to a grid, and a grid
/// either collapses into a marked leaf or remains a grid whose children
/// stand in the same relation.
pub open spec fn decided_monotone(a: Node, b: Node) -> bool
    decreases a,
{
    match a {
        Node::Leaf(Some(p)) => b == Node::Leaf(Some(p)),
        Node::Leaf(None) => b is Leaf,
        Node::Grid(g) => match b {
            Node::Leaf(s) => s is Some,
            Node::Grid(h) => {
                &&& h.len() == g.len()
                &&& if g.len() == 9 {
                    &&& decided_monotone(g[0], h[0])
                    &&& decided_monotone(g[1], h[1])
                    &&& decided_monotone(g[2], h[2])
                    &&& decided_monotone(g[3], h[3])
                    &&& decided_monotone(g[4], h[4])
                    &&& decided_monotone(g[5], h[5])
                    &&& decided_monotone(g[6], h[6])
                    &&& decided_monotone(g[7], h[7])
                    &&& decided_monotone(g[8], h[8])
                } else {
                    g == h
                }
            },
        },
    }
}

} // verus!
