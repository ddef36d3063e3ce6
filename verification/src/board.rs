//! The executable board tree: players, cells, and nested 3x3 grids.

use vstd::prelude::*;

use crate::model::{
    child_of, collapse_elem, collapse_grid, count_of, fresh_node, has_line, lemma_fresh_node_inv,
    mark_of, node_inv, path_open, place_in, stalemate_of, terminal, winner_of, Node,
};

verus! {

/// A player's mark.  `Circle` moves first.
#[derive(Clone, Copy, PartialEq, Eq, Structural, Debug)]
pub enum State {
    Circle,
    Cross,
}

/// One position of a 3x3 grid: either a resolved cell (empty or marked), or
/// a nested board holding a full sub-game.
#[derive(Debug)]
pub enum Element {
    State(Option<State>),
    Board(Box<Board>),
}

/// A 3x3 grid of elements.  The element at `(column x, row y)`, with both
/// components in `0..3`, sits at index `3 * x + y`; a sound board holds
/// exactly nine elements, which [`Board::well_formed`] captures.
#[derive(Debug)]
pub struct Board {
    pub elements: Vec<Element>,
}

/// The model of an element: a leaf for a resolved cell, the nested board's
/// own model otherwise.
pub open spec fn elem_model(e: Element) -> Node
    decreases e,
{
    match e {
        Element::State(s) => Node::Leaf(s),
        Element::Board(b) => board_model(*b),
    }
}

/// The model of a board: the grid of its nine elements' models.  A board
/// whose element count is off is modelled as an empty grid, which no sound
/// board ever is.
pub open spec fn board_model(b: Board) -> Node
    decreases b,
{
    if b.elements@.len() == 9 {
        Node::Grid(
            seq![
                elem_model(b.elements@[0]),
                elem_model(b.elements@[1]),
                elem_model(b.elements@[2]),
                elem_model(b.elements@[3]),
                elem_model(b.elements@[4]),
                elem_model(b.elements@[5]),
                elem_model(b.elements@[6]),
                elem_model(b.elements@[7]),
                elem_model(b.elements@[8]),
            ],
        )
    } else {
        Node::Grid(Seq::empty())
    }
}

/// A board of nine elements is modelled as the grid of their models.
pub proof fn lemma_board_model_grid(b: Board)
    requires
        b.elements@.len() == 9,
    ensures
        board_model(b) is Grid,
        board_model(b)->Grid_0.len() == 9,
        forall|i: int|
            0 <= i < 9 ==> #[trigger] board_model(b)->Grid_0[i] == elem_model(b.elements@[i]),
{
    assert(forall|i: int|
        0 <= i < 9 ==> #[trigger] board_model(b)->Grid_0[i] == elem_model(b.elements@[i]));
}

impl View for Element {
    type V = Node;

    open spec fn view(&self) -> Node {
        elem_model(*self)
    }
}

impl View for Board {
    type V = Node;

    open spec fn view(&self) -> Node {
        board_model(*self)
    }
}

impl Element {
    /// The effective mark of this element: a resolved cell's own state, or
    /// the winner (if any) of a nested board's sub-game.
    pub fn get_state(&self) -> (r: Option<State>)
        requires
            node_inv(self@),
        ensures
            r == mark_of(self@),
        decreases self, 0int,
    {
        match self {
            Element::State(state) => *state,
            Element::Board(board) => board.get_winner(),
        }
    }
}

impl Default for Element {
    /// An empty resolved cell.
    fn default() -> (r: Self)
        ensures
            r@ == Node::Leaf(None::<State>),
    {
        Element::State(None)
    }
}

/// Whether the mark `m` is held by player `p`.
fn mark_is(m: Option<State>, p: State) -> (r: bool)
    ensures
        r == (m == Some(p)),
{
    match m {
        Some(q) => q == p,
        None => false,
    }
}

/// Whether the nine effective marks of a grid, listed in index order, hold
/// a complete column, row, or diagonal for player `p`.
#[verifier::inline]
pub open spec fn marks_won(
    m0: Option<State>,
    m1: Option<State>,
    m2: Option<State>,
    m3: Option<State>,
    m4: Option<State>,
    m5: Option<State>,
    m6: Option<State>,
    m7: Option<State>,
    m8: Option<State>,
    p: State,
) -> bool {
    ||| (m0 == Some(p) && m1 == Some(p) && m2 == Some(p))
    ||| (m3 == Some(p) && m4 == Some(p) && m5 == Some(p))
    ||| (m6 == Some(p) && m7 == Some(p) && m8 == Some(p))
    ||| (m0 == Some(p) && m3 == Some(p) && m6 == Some(p))
    ||| (m1 == Some(p) && m4 == Some(p) && m7 == Some(p))
    ||| (m2 == Some(p) && m5 == Some(p) && m8 == Some(p))
    ||| (m0 == Some(p) && m4 == Some(p) && m8 == Some(p))
    ||| (m6 == Some(p) && m4 == Some(p) && m2 == Some(p))
}

/// The check behind [`Board::get_winner`], on the derived marks: all three
/// columns, all three rows, and both diagonals.
fn check_winner(
    m0: Option<State>,
    m1: Option<State>,
    m2: Option<State>,
    m3: Option<State>,
    m4: Option<State>,
    m5: Option<State>,
    m6: Option<State>,
    m7: Option<State>,
    m8: Option<State>,
    p: State,
) -> (r: bool)
    ensures
        r == marks_won(m0, m1, m2, m3, m4, m5, m6, m7, m8, p),
{
    // Columns.
    if mark_is(m0, p) && mark_is(m1, p) && mark_is(m2, p) {
        return true;
    }
    if mark_is(m3, p) && mark_is(m4, p) && mark_is(m5, p) {
        return true;
    }
    if mark_is(m6, p) && mark_is(m7, p) && mark_is(m8, p) {
        return true;
    }
    // Rows.
    if mark_is(m0, p) && mark_is(m3, p) && mark_is(m6, p) {
        return true;
    }
    if mark_is(m1, p) && mark_is(m4, p) && mark_is(m7, p) {
        return true;
    }
    if mark_is(m2, p) && mark_is(m5, p) && mark_is(m8, p) {
        return true;
    }
    // Diagonals.
    if mark_is(m0, p) && mark_is(m4, p) && mark_is(m8, p) {
        return true;
    }
    if mark_is(m6, p) && mark_is(m4, p) && mark_is(m2, p) {
        return true;
    }
    false
}

impl Board {
    /// Structural soundness of this board and of every board nested in it.
    pub open spec fn well_formed(&self) -> bool {
        node_inv(self@)
    }

    /// The winner of this board, if any: the player holding a complete
    /// line of the 3x3 grid of the elements' effective marks.  `Circle`
    /// lines are checked first, so were both somehow present `Circle`
    /// would take priority.
    pub fn get_winner(&self) -> (r: Option<State>)
        requires
            self.well_formed(),
        ensures
            r == winner_of(self@),
        decreases self, 0int,
    {
        let m0 = self.elements[0].get_state();
        let m1 = self.elements[1].get_state();
        let m2 = self.elements[2].get_state();
        let m3 = self.elements[3].get_state();
        let m4 = self.elements[4].get_state();
        let m5 = self.elements[5].get_state();
        let m6 = self.elements[6].get_state();
        let m7 = self.elements[7].get_state();
        let m8 = self.elements[8].get_state();
        proof {
            assert(has_line(self@, State::Circle) == marks_won(
                m0, m1, m2, m3, m4, m5, m6, m7, m8, State::Circle,
            ));
            assert(has_line(self@, State::Cross) == marks_won(
                m0, m1, m2, m3, m4, m5, m6, m7, m8, State::Cross,
            ));
        }
        if check_winner(m0, m1, m2, m3, m4, m5, m6, m7, m8, State::Circle) {
            Some(State::Circle)
        } else if check_winner(m0, m1, m2, m3, m4, m5, m6, m7, m8, State::Cross) {
            Some(State::Cross)
        } else {
            None
        }
    }

    /// Whether this board is stalemated: every element is closed for play
    /// (a marked cell, or a nested board that is stalemated or won), yet
    /// nobody has won this board itself.
    pub fn is_stalemate(&self) -> (r: bool)
        requires
            self.well_formed(),
        ensures
            r == stalemate_of(self@),
        decreases self, 1int,
    {
        let r = elem_terminal(&self.elements[0]) && elem_terminal(&self.elements[1])
            && elem_terminal(&self.elements[2]) && elem_terminal(&self.elements[3])
            && elem_terminal(&self.elements[4]) && elem_terminal(&self.elements[5])
            && elem_terminal(&self.elements[6]) && elem_terminal(&self.elements[7])
            && elem_terminal(&self.elements[8]);
        r && self.get_winner().is_none()
    }
}

impl Board {
    /// A freshly built board of the given depth: for depth 1 a grid of nine
    /// empty cells, for greater depths a grid of nine independently built
    /// sub-boards of depth `depth - 1`.
    pub fn build(depth: usize) -> (r: Board)
        requires
            depth >= 1,
        ensures
            r.well_formed(),
            r@ == fresh_node(depth as nat),
        decreases depth,
    {
        let mut elements: Vec<Element> = Vec::new();
        if depth == 1 {
            let mut k: usize = 0;
            while k < 9
                invariant
                    k <= 9,
                    elements@.len() == k,
                    forall|j: int| 0 <= j < k ==> elements@[j] == Element::State(None::<State>),
                decreases 9 - k,
            {
                elements.push(Element::State(None));
                k += 1;
            }
        } else {
            let mut k: usize = 0;
            while k < 9
                invariant
                    depth >= 2,
                    k <= 9,
                    elements@.len() == k,
                    forall|j: int| 0 <= j < k ==> #[trigger] elem_model(elements@[j])
                        == fresh_node((depth - 1) as nat) && node_inv(elem_model(elements@[j])),
                decreases 9 - k,
            {
                elements.push(Element::Board(Box::new(Board::build(depth - 1))));
                k += 1;
            }
        }
        let r = Board { elements };
        proof {
            reveal_with_fuel(fresh_node, 2);
            assert(forall|i: int| 0 <= i < 9 ==> r@->Grid_0[i] == elem_model(r.elements@[i]));
            assert(forall|i: int|
                0 <= i < 9 ==> #[trigger] fresh_node(depth as nat)->Grid_0[i] == fresh_node(
                    depth as nat,
                )->Grid_0[0]);
            assert(r@->Grid_0 =~= fresh_node(depth as nat)->Grid_0);
            assert(r@ == fresh_node(depth as nat));
            lemma_fresh_node_inv(depth as nat);
        }
        r
    }

    /// The number of moves still possible on this board: one for each empty
    /// cell anywhere in the tree.  The bound in the precondition is forced
    /// by the machine word the result is returned in.
    pub fn count_remaining(&self) -> (r: usize)
        requires
            self.well_formed(),
            count_of(self@) <= usize::MAX,
        ensures
            r as nat == count_of(self@),
        decreases self,
    {
        let c0 = count_elem(&self.elements[0]);
        let c1 = count_elem(&self.elements[1]);
        let c2 = count_elem(&self.elements[2]);
        let c3 = count_elem(&self.elements[3]);
        let c4 = count_elem(&self.elements[4]);
        let c5 = count_elem(&self.elements[5]);
        let c6 = count_elem(&self.elements[6]);
        let c7 = count_elem(&self.elements[7]);
        let c8 = count_elem(&self.elements[8]);
        c0 + c1 + c2 + c3 + c4 + c5 + c6 + c7 + c8
    }

    /// Read-only access to the child at `(column x, row y)`, for callers
    /// that enumerate the tree (a renderer, say) and recurse themselves.
    pub fn child(&self, x: usize, y: usize) -> (r: &Element)
        requires
            self.well_formed(),
            x < 3,
            y < 3,
        ensures
            r@ == child_of(self@, x as int, y as int),
    {
        &self.elements[3 * x + y]
    }
}

impl Board {
    /// Mark the empty leaf addressed by `path[i..]` with `p`, in place.
    #[verifier::rlimit(50)]
    pub(crate) fn place_at(&mut self, path: &Vec<(u8, u8)>, i: usize, p: State)
        requires
            node_inv(old(self)@),
            i < path@.len(),
            path_open(old(self)@, path@.skip(i as int)),
        ensures
            node_inv(final(self)@),
            final(self)@ == place_in(old(self)@, path@.skip(i as int), p),
        decreases path@.len() - i,
    {
        proof {
            lemma_board_model_grid(*self);
        }
        let (x, y) = path[i];
        let idx = 3 * (x as usize) + (y as usize);
        let ghost sp = path@.skip(i as int);
        proof {
            assert(sp[0] == path@[i as int]);
            assert(sp.drop_first() =~= path@.skip(i as int + 1));
        }
        if i == path.len() - 1 {
            let ghost before = self.elements@;
            self.elements[idx] = Element::State(Some(p));
            proof {
                reveal_with_fuel(place_in, 2);
                reveal_with_fuel(path_open, 2);
                assert(self.elements@ =~= before.update(idx as int, Element::State(Some(p))));
                lemma_board_model_grid(*self);
                assert(final(self)@->Grid_0 =~= place_in(old(self)@, sp, p)->Grid_0);
                assert(final(self)@ == place_in(old(self)@, sp, p));
                assert forall|j: int| 0 <= j < 9 implies node_inv(
                    #[trigger] final(self)@->Grid_0[j],
                ) by {
                    if j != idx {
                        assert(final(self)@->Grid_0[j] == old(self)@->Grid_0[j]);
                    }
                }
                assert(node_inv(final(self)@));
            }
        } else {
            let e = self.elements.remove(idx);
            proof {
                assert(e == old(self).elements@[idx as int]);
                assert(elem_model(e) == old(self)@->Grid_0[idx as int]);
            }
            match e {
                Element::Board(mut sub) => {
                    sub.place_at(path, i + 1, p);
                    self.elements.insert(idx, Element::Board(sub));
                    proof {
                        assert(self.elements@ =~= old(self).elements@.update(
                            idx as int,
                            self.elements@[idx as int],
                        ));
                        lemma_board_model_grid(*self);
                        assert(final(self)@->Grid_0 =~= place_in(old(self)@, sp, p)->Grid_0);
                        assert(final(self)@ == place_in(old(self)@, sp, p));
                        assert forall|j: int| 0 <= j < 9 implies node_inv(
                            #[trigger] final(self)@->Grid_0[j],
                        ) by {
                            if j != idx {
                                assert(final(self)@->Grid_0[j] == old(self)@->Grid_0[j]);
                            }
                        }
                        assert(node_inv(final(self)@));
                    }
                },
                Element::State(s) => {
                    proof {
                        assert(false);
                    }
                    self.elements.insert(idx, Element::State(s));
                },
            }
        }
    }
}

impl Board {
    /// The collapse propagator: rewrite every nested board that now has a
    /// winner into a resolved cell marked by that winner, discarding its
    /// subtree, and leave every other nested board open (a stalemated
    /// sub-board stays a board).  The board this is called on keeps its
    /// variant; only its elements are rewritten.
    #[verifier::rlimit(50)]
    pub fn collapse_states(&mut self)
        requires
            old(self).well_formed(),
        ensures
            final(self).well_formed(),
            final(self)@ == collapse_grid(old(self)@),
        decreases *old(self), 0int,
    {
        proof {
            lemma_board_model_grid(*old(self));
        }
        let mut idx: usize = 0;
        while idx < 9
            invariant
                idx <= 9,
                node_inv(old(self)@),
                old(self).elements@.len() == 9,
                self.elements@.len() == 9,
                forall|j: int| idx <= j < 9 ==> self.elements@[j] == old(self).elements@[j],
                forall|j: int|
                    0 <= j < idx ==> #[trigger] elem_model(self.elements@[j]) == collapse_elem(
                        elem_model(old(self).elements@[j]),
                    ) && node_inv(elem_model(self.elements@[j])),
            decreases 9 - idx,
        {
            proof {
                lemma_board_model_grid(*old(self));
                assert(elem_model(self.elements@[idx as int]) == old(self)@->Grid_0[idx as int]);
                assert(node_inv(old(self)@->Grid_0[idx as int]));
            }
            let ghost prev = self.elements@;
            let e = self.elements.remove(idx);
            let e2 = collapse_element(e);
            self.elements.insert(idx, e2);
            proof {
                assert(self.elements@ =~= prev.update(idx as int, e2));
            }
            idx += 1;
        }
        proof {
            lemma_board_model_grid(*self);
            lemma_board_model_grid(*old(self));
            assert(final(self)@->Grid_0 =~= collapse_grid(old(self)@)->Grid_0);
            assert(final(self)@ == collapse_grid(old(self)@));
            assert(node_inv(final(self)@));
        }
    }
}

/// One element under collapse: a nested board with a winner becomes a
/// resolved cell marked by that winner; any other nested board is collapsed
/// inside and keeps its variant.
fn collapse_element(e: Element) -> (r: Element)
    requires
        node_inv(e@),
    ensures
        node_inv(r@),
        r@ == collapse_elem(e@),
    decreases e, 1int,
{
    match e {
        Element::State(_) => e,
        Element::Board(mut board) => {
            match board.get_winner() {
                Some(winner) => Element::State(Some(winner)),
                None => {
                    (&mut *board).collapse_states();
                    Element::Board(board)
                },
            }
        },
    }
}

impl Board {
    /// Whether `path` is open on this board: every addressed node before
    /// the final element is a grid with both coordinates in range, and the
    /// node addressed by the final element is an empty cell.
    pub fn path_is_open(&self, path: &Vec<(u8, u8)>) -> (r: bool)
        requires
            self.well_formed(),
            path@.len() >= 1,
        ensures
            r == path_open(self@, path@),
    {
        proof {
            lemma_board_model_grid(*self);
            assert(path@.skip(1) =~= path@.drop_first());
        }
        let (x, y) = path[0];
        if x < 3 && y < 3 {
            let idx = 3 * (x as usize) + (y as usize);
            elem_path_open(&self.elements[idx], path, 1)
        } else {
            false
        }
    }

    /// Whether this board and `other` hold exactly the same tree.
    pub fn same_as(&self, other: &Board) -> (r: bool)
        requires
            self.well_formed(),
            other.well_formed(),
        ensures
            r == (self@ == other@),
        decreases self, 0int,
    {
        proof {
            lemma_board_model_grid(*self);
            lemma_board_model_grid(*other);
        }
        let mut k: usize = 0;
        let mut eq: bool = true;
        while k < 9
            invariant
                k <= 9,
                self.well_formed(),
                other.well_formed(),
                eq == (forall|j: int|
                    0 <= j < k ==> self@->Grid_0[j] == other@->Grid_0[j]),
            decreases 9 - k,
        {
            proof {
                lemma_board_model_grid(*self);
                lemma_board_model_grid(*other);
            }
            if eq {
                eq = same_element(&self.elements[k], &other.elements[k]);
            }
            k += 1;
        }
        proof {
            if eq {
                assert(self@->Grid_0 =~= other@->Grid_0);
            } else {
                assert(self@ != other@) by {
                    if self@ == other@ {
                        assert(forall|j: int|
                            0 <= j < 9 ==> self@->Grid_0[j] == other@->Grid_0[j]);
                    }
                }
            }
        }
        eq
    }
}

/// Whether the suffix `path[i..]` is open in the element `e`.
fn elem_path_open(e: &Element, path: &Vec<(u8, u8)>, i: usize) -> (r: bool)
    requires
        node_inv(e@),
        1 <= i <= path@.len(),
    ensures
        r == path_open(e@, path@.skip(i as int)),
    decreases path@.len() - i,
{
    if i == path.len() {
        proof {
            assert(path@.skip(i as int) =~= Seq::<(u8, u8)>::empty());
        }
        match e {
            Element::State(state) => state.is_none(),
            Element::Board(_) => false,
        }
    } else {
        match e {
            Element::State(_) => false,
            Element::Board(board) => {
                let (x, y) = path[i];
                if x < 3 && y < 3 {
                    proof {
                        lemma_board_model_grid(**board);
                        assert(path@.skip(i as int).drop_first() =~= path@.skip(i as int + 1));
                        assert(path@.skip(i as int)[0] == path@[i as int]);
                    }
                    let idx = 3 * (x as usize) + (y as usize);
                    elem_path_open(&board.elements[idx], path, i + 1)
                } else {
                    false
                }
            },
        }
    }
}

/// Whether the elements `a` and `b` hold exactly the same tree.
fn same_element(a: &Element, b: &Element) -> (r: bool)
    requires
        node_inv(a@),
        node_inv(b@),
    ensures
        r == (a@ == b@),
    decreases a, 0int,
{
    match a {
        Element::State(s) => match b {
            Element::State(t) => match (s, t) {
                (None, None) => true,
                (Some(x), Some(y)) => *x == *y,
                _ => false,
            },
            Element::Board(_) => false,
        },
        Element::Board(x) => match b {
            Element::Board(y) => (&**x).same_as(&**y),
            Element::State(_) => false,
        },
    }
}

/// The number of moves still possible in the element `e`.
fn count_elem(e: &Element) -> (r: usize)
    requires
        node_inv(e@),
        count_of(e@) <= usize::MAX,
    ensures
        r as nat == count_of(e@),
    decreases e,
{
    match e {
        Element::State(state) => {
            if state.is_some() {
                0
            } else {
                1
            }
        },
        Element::Board(board) => board.count_remaining(),
    }
}

/// Whether the element `e` is closed for move-legality purposes: a marked
/// cell, or a nested board that is stalemated or already has a winner.
fn elem_terminal(e: &Element) -> (r: bool)
    requires
        node_inv(e@),
    ensures
        r == terminal(e@),
    decreases e, 2int,
{
    match e {
        Element::State(state) => state.is_some(),
        Element::Board(board) => board.is_stalemate() || board.get_winner().is_some(),
    }
}

} // verus!
