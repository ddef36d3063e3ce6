//! The general properties of the engine, stated and proved over the model.

use vstd::prelude::*;

use crate::board::State;
use crate::game::{status_of, Outcome, Status};
use crate::model::{
    collapse_elem, collapse_grid, count_of, decided_monotone, fresh_node, has_line, mark_of,
    path_open, place_in, pow9, stalemate_of, undecided_below, uniform_depth, winner_of, Node,
};

verus! {

/// Depth invariant: a freshly built tree of depth `d` has every leaf at
/// exactly depth `d` and every grid filled with nine children; it has no
/// winner and is not stalemated, and it holds exactly `9^d` possible moves
/// (one per leaf, so every leaf is empty).
pub proof fn lemma_fresh_tree(d: nat)
    requires
        d >= 1,
    ensures
        uniform_depth(fresh_node(d), d),
        winner_of(fresh_node(d)) is None,
        !stalemate_of(fresh_node(d)),
        count_of(fresh_node(d)) == pow9(d),
        undecided_below(fresh_node(d)),
    decreases d,
{
    let n = fresh_node(d);
    let c = if d <= 1 {
        Node::Leaf(None)
    } else {
        fresh_node((d - 1) as nat)
    };
    assert(n == Node::Grid(seq![c, c, c, c, c, c, c, c, c]));
    assert(n->Grid_0[0] == c);
    if d > 1 {
        lemma_fresh_tree((d - 1) as nat);
    }
    assert(uniform_depth(c, (d - 1) as nat));
    assert(undecided_below(c));
    assert(c is Grid ==> winner_of(c) is None);
    assert(count_of(n) == 9 * count_of(c));
    assert(pow9(d) == 9 * pow9((d - 1) as nat));
    if d == 1 {
        assert(count_of(c) == 1 && pow9(0) == 1);
    }
}

/// Move-count accounting, placement half: marking the empty leaf addressed
/// by an open path turns exactly one empty leaf into a marked one, so the
/// number of possible moves drops by exactly one.
pub proof fn lemma_place_count(n: Node, path: Seq<(u8, u8)>, p: State)
    requires
        path_open(n, path),
    ensures
        count_of(place_in(n, path, p)) + 1 == count_of(n),
    decreases path.len(),
{
    if path.len() == 0 {
        assert(n == Node::Leaf(None::<State>));
    } else {
        let g = n->Grid_0;
        let i = 3 * path[0].0 + path[0].1;
        lemma_place_count(g[i], path.drop_first(), p);
        let g2 = place_in(n, path, p)->Grid_0;
        assert(g2 == g.update(i, place_in(g[i], path.drop_first(), p)));
        assert(forall|j: int| 0 <= j < 9 && j != i ==> g2[j] == g[j]);
    }
}

/// Move-count accounting, collapse half: collapsing never invents a move.
/// A decided sub-board becomes a marked leaf, absorbing every empty leaf it
/// still held, so the count can only stay or drop.
pub proof fn lemma_collapse_count(n: Node)
    ensures
        count_of(collapse_elem(n)) <= count_of(n),
        count_of(collapse_grid(n)) <= count_of(n),
    decreases n,
{
    match n {
        Node::Leaf(_) => {},
        Node::Grid(g) => {
            if g.len() == 9 {
                lemma_collapse_count(g[0]);
                lemma_collapse_count(g[1]);
                lemma_collapse_count(g[2]);
                lemma_collapse_count(g[3]);
                lemma_collapse_count(g[4]);
                lemma_collapse_count(g[5]);
                lemma_collapse_count(g[6]);
                lemma_collapse_count(g[7]);
                lemma_collapse_count(g[8]);
            }
        },
    }
}

/// Win exclusivity: no board's status ever qualifies as a win for both
/// players at once.  Were both players' line sets somehow present,
/// `Circle` would take priority by the detector's ordering, so a `Cross`
/// win certifies that `Circle` held no line.
pub proof fn lemma_win_exclusive(n: Node)
    ensures
        !(status_of(n) == Status::Over(Outcome::Won(State::Circle)) && status_of(n)
            == Status::Over(Outcome::Won(State::Cross))),
        has_line(n, State::Circle) ==> status_of(n) == Status::Over(
            Outcome::Won(State::Circle),
        ),
        status_of(n) == Status::Over(Outcome::Won(State::Cross)) ==> !has_line(
            n,
            State::Circle,
        ),
{
}

/// Every tree stands in the decidedness relation with itself.
pub proof fn lemma_decided_monotone_refl(n: Node)
    ensures
        decided_monotone(n, n),
    decreases n,
{
    match n {
        Node::Leaf(_) => {},
        Node::Grid(g) => {
            if g.len() == 9 {
                lemma_decided_monotone_refl(g[0]);
                lemma_decided_monotone_refl(g[1]);
                lemma_decided_monotone_refl(g[2]);
                lemma_decided_monotone_refl(g[3]);
                lemma_decided_monotone_refl(g[4]);
                lemma_decided_monotone_refl(g[5]);
                lemma_decided_monotone_refl(g[6]);
                lemma_decided_monotone_refl(g[7]);
                lemma_decided_monotone_refl(g[8]);
            }
        },
    }
}

/// The decidedness relation is transitive, so what each accepted move
/// guarantees extends to any sequence of accepted moves: no resolved node
/// ever reverts to a grid, and no marked leaf ever changes.
pub proof fn lemma_decided_monotone_trans(a: Node, b: Node, c: Node)
    requires
        decided_monotone(a, b),
        decided_monotone(b, c),
    ensures
        decided_monotone(a, c),
    decreases a,
{
    match a {
        Node::Leaf(_) => {},
        Node::Grid(g) => match b {
            Node::Leaf(_) => {},
            Node::Grid(h) => match c {
                Node::Leaf(_) => {},
                Node::Grid(k) => {
                    if g.len() == 9 {
                        lemma_decided_monotone_trans(g[0], h[0], k[0]);
                        lemma_decided_monotone_trans(g[1], h[1], k[1]);
                        lemma_decided_monotone_trans(g[2], h[2], k[2]);
                        lemma_decided_monotone_trans(g[3], h[3], k[3]);
                        lemma_decided_monotone_trans(g[4], h[4], k[4]);
                        lemma_decided_monotone_trans(g[5], h[5], k[5]);
                        lemma_decided_monotone_trans(g[6], h[6], k[6]);
                        lemma_decided_monotone_trans(g[7], h[7], k[7]);
                        lemma_decided_monotone_trans(g[8], h[8], k[8]);
                    }
                },
            },
        },
    }
}

/// Placing a mark on an open path only turns one empty leaf into a marked
/// one: the old and new trees stand in the decidedness relation.
pub proof fn lemma_place_monotone(n: Node, path: Seq<(u8, u8)>, p: State)
    requires
        path_open(n, path),
    ensures
        decided_monotone(n, place_in(n, path, p)),
    decreases path.len(),
{
    if path.len() == 0 {
        assert(n == Node::Leaf(None::<State>));
    } else {
        let g = n->Grid_0;
        let i = 3 * path[0].0 + path[0].1;
        lemma_place_monotone(g[i], path.drop_first(), p);
        lemma_decided_monotone_refl(g[0]);
        lemma_decided_monotone_refl(g[1]);
        lemma_decided_monotone_refl(g[2]);
        lemma_decided_monotone_refl(g[3]);
        lemma_decided_monotone_refl(g[4]);
        lemma_decided_monotone_refl(g[5]);
        lemma_decided_monotone_refl(g[6]);
        lemma_decided_monotone_refl(g[7]);
        lemma_decided_monotone_refl(g[8]);
        let g2 = place_in(n, path, p)->Grid_0;
        assert(forall|j: int| 0 <= j < 9 && j != i ==> g2[j] == g[j]);
    }
}

/// Collapse only rewrites decided grids into leaves marked by their
/// winners: the old and collapsed trees stand in the decidedness relation.
pub proof fn lemma_collapse_monotone(n: Node)
    ensures
        decided_monotone(n, collapse_elem(n)),
        decided_monotone(n, collapse_grid(n)),
    decreases n,
{
    match n {
        Node::Leaf(_) => {
            lemma_decided_monotone_refl(n);
        },
        Node::Grid(g) => {
            if g.len() == 9 {
                lemma_collapse_monotone(g[0]);
                lemma_collapse_monotone(g[1]);
                lemma_collapse_monotone(g[2]);
                lemma_collapse_monotone(g[3]);
                lemma_collapse_monotone(g[4]);
                lemma_collapse_monotone(g[5]);
                lemma_collapse_monotone(g[6]);
                lemma_collapse_monotone(g[7]);
                lemma_collapse_monotone(g[8]);
            } else {
                lemma_decided_monotone_refl(n);
            }
        },
    }
}

/// Collapse preserves every node's effective mark, and so the winner of
/// the board it runs over.
pub proof fn lemma_collapse_marks(n: Node)
    ensures
        mark_of(collapse_elem(n)) == mark_of(n),
        winner_of(collapse_grid(n)) == winner_of(n),
    decreases n,
{
    match n {
        Node::Leaf(_) => {},
        Node::Grid(g) => {
            if g.len() == 9 {
                lemma_collapse_marks(g[0]);
                lemma_collapse_marks(g[1]);
                lemma_collapse_marks(g[2]);
                lemma_collapse_marks(g[3]);
                lemma_collapse_marks(g[4]);
                lemma_collapse_marks(g[5]);
                lemma_collapse_marks(g[6]);
                lemma_collapse_marks(g[7]);
                lemma_collapse_marks(g[8]);
                assert(has_line(collapse_grid(n), State::Circle) == has_line(n, State::Circle));
                assert(has_line(collapse_grid(n), State::Cross) == has_line(n, State::Cross));
            }
        },
    }
}

/// After a collapse no decided grid survives anywhere below the node the
/// collapse ran over: every remaining grid is still undecided.
pub proof fn lemma_collapse_undecided(n: Node)
    ensures
        collapse_elem(n) is Grid ==> winner_of(collapse_elem(n)) is None,
        undecided_below(collapse_elem(n)),
        undecided_below(collapse_grid(n)),
    decreases n,
{
    match n {
        Node::Leaf(_) => {},
        Node::Grid(g) => {
            lemma_collapse_marks(n);
            if g.len() == 9 {
                lemma_collapse_undecided(g[0]);
                lemma_collapse_undecided(g[1]);
                lemma_collapse_undecided(g[2]);
                lemma_collapse_undecided(g[3]);
                lemma_collapse_undecided(g[4]);
                lemma_collapse_undecided(g[5]);
                lemma_collapse_undecided(g[6]);
                lemma_collapse_undecided(g[7]);
                lemma_collapse_undecided(g[8]);
                lemma_collapse_marks(g[0]);
                lemma_collapse_marks(g[1]);
                lemma_collapse_marks(g[2]);
                lemma_collapse_marks(g[3]);
                lemma_collapse_marks(g[4]);
                lemma_collapse_marks(g[5]);
                lemma_collapse_marks(g[6]);
                lemma_collapse_marks(g[7]);
                lemma_collapse_marks(g[8]);
            }
        },
    }
}

/// Win exclusivity in play: marking an empty leaf for player `p` never
/// completes a line for the other player, on any board that has no winner
/// yet and, as the engine maintains between moves, no decided grid below
/// the root.  So the only win a move can produce is the mover's own.
pub proof fn lemma_mover_wins(n: Node, path: Seq<(u8, u8)>, p: State, q: State)
    requires
        path_open(n, path),
        winner_of(n) is None,
        undecided_below(n),
        q != p,
    ensures
        !has_line(place_in(n, path, p), q),
    decreases path.len(),
{
    if path.len() == 0 {
        assert(n == Node::Leaf(None::<State>));
    } else {
        let g = n->Grid_0;
        let i = 3 * path[0].0 + path[0].1;
        let rest = path.drop_first();
        let placed_child = place_in(g[i], rest, p);
        if rest.len() == 0 {
            assert(g[i] == Node::Leaf(None::<State>));
            assert(placed_child == Node::Leaf(Some(p)));
        } else {
            lemma_mover_wins(g[i], rest, p, q);
        }
        assert(mark_of(placed_child) != Some(q));
        let g2 = place_in(n, path, p)->Grid_0;
        assert(g2 == g.update(i, placed_child));
        assert(forall|j: int| 0 <= j < 9 && j != i ==> g2[j] == g[j]);
        assert(!has_line(n, q));
        assert(!has_line(place_in(n, path, p), q));
    }
}

/// Collapse idempotence: running the collapse propagator twice in
/// succession yields the same tree as running it once.
pub proof fn lemma_collapse_idempotent(n: Node)
    ensures
        collapse_elem(collapse_elem(n)) == collapse_elem(n),
        collapse_grid(collapse_grid(n)) == collapse_grid(n),
    decreases n,
{
    match n {
        Node::Leaf(_) => {},
        Node::Grid(g) => {
            lemma_collapse_marks(n);
            if g.len() == 9 {
                lemma_collapse_idempotent(g[0]);
                lemma_collapse_idempotent(g[1]);
                lemma_collapse_idempotent(g[2]);
                lemma_collapse_idempotent(g[3]);
                lemma_collapse_idempotent(g[4]);
                lemma_collapse_idempotent(g[5]);
                lemma_collapse_idempotent(g[6]);
                lemma_collapse_idempotent(g[7]);
                lemma_collapse_idempotent(g[8]);
                assert(collapse_grid(collapse_grid(n))->Grid_0 =~= collapse_grid(n)->Grid_0);
            }
        },
    }
}

} // verus!
