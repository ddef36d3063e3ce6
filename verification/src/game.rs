//! The game engine: the sole owner and mutator of the root board tree.

use vstd::prelude::*;

use crate::board::{Board, State};
use crate::laws::{
    lemma_collapse_count, lemma_collapse_marks, lemma_collapse_monotone,
    lemma_collapse_undecided, lemma_decided_monotone_trans, lemma_fresh_tree, lemma_mover_wins,
    lemma_place_count, lemma_place_monotone,
};
use crate::model::{
    collapse_grid, count_of, decided_monotone, fresh_node, node_inv, path_open, place_in, pow9,
    stalemate_of, undecided_below, winner_of, Node,
};

verus! {

/// The outcome of a finished game.
#[derive(Clone, Copy, PartialEq, Eq, Structural, Debug)]
pub enum Outcome {
    Won(State),
    Stalemate,
}

/// Whether a game is still being played or has ended, and how.
#[derive(Clone, Copy, PartialEq, Eq, Structural, Debug)]
pub enum Status {
    InProgress,
    Over(Outcome),
}

/// Why a request was rejected.  Every rejection leaves the game unchanged.
#[derive(Clone, Copy, PartialEq, Eq, Structural, Debug)]
pub enum GameError {
    /// A game cannot be built with depth 0.
    InvalidDepth,
    /// No move is accepted once the game is over.
    GameOver,
    /// The path has the wrong length, holds a coordinate out of range, or
    /// addresses a node that is already resolved before its final element
    /// (which covers an occupied cell and a decided or stalemated
    /// sub-board alike).
    InvalidPath,
}

/// The status a board tree yields: the winner if one holds a line of the
/// root grid, else stalemate if the root grid is stalemated, else still in
/// progress.
pub open spec fn status_of(n: Node) -> Status {
    match winner_of(n) {
        Some(w) => Status::Over(Outcome::Won(w)),
        None => if stalemate_of(n) {
            Status::Over(Outcome::Stalemate)
        } else {
            Status::InProgress
        },
    }
}

/// The other player.
pub open spec fn opponent(p: State) -> State {
    match p {
        State::Circle => State::Cross,
        State::Cross => State::Circle,
    }
}

/// The abstract state of a game session.
pub struct GameView {
    /// The root board tree.
    pub tree: Node,
    /// The configured depth, fixed for the session.
    pub depth: nat,
    /// The player whose turn it is.
    pub turn: State,
    /// How many moves have been accepted.
    pub moves_made: nat,
    /// How many moves are still possible.
    pub moves_left: nat,
    /// Whether the game is over, and how.
    pub status: Status,
}

/// Whether `apply_move` accepts `path` in the state `v`: the game is still
/// in progress, the path has exactly the configured length, and it
/// addresses an empty leaf through open grids.
pub open spec fn move_accepted(v: GameView, path: Seq<(u8, u8)>) -> bool {
    &&& v.status is InProgress
    &&& path.len() == v.depth
    &&& path_open(v.tree, path)
}

/// One game session: the root board, the configured depth, whose turn it
/// is, the move counters, and whether the game is over.
pub struct GameState {
    board: Board,
    depth: usize,
    turn: State,
    num_moves: usize,
    num_moves_left: usize,
    status: Status,
}

impl View for GameState {
    type V = GameView;

    closed spec fn view(&self) -> GameView {
        GameView {
            tree: self.board@,
            depth: self.depth as nat,
            turn: self.turn,
            moves_made: self.num_moves as nat,
            moves_left: self.num_moves_left as nat,
            status: self.status,
        }
    }
}

impl GameState {
    /// The session invariant: the tree is structurally sound, the cached
    /// counters and status agree with the tree, and the counters fit the
    /// machine word they are kept in.
    pub open spec fn wf(&self) -> bool {
        &&& node_inv(self@.tree)
        &&& self@.depth >= 1
        &&& self@.moves_left == count_of(self@.tree)
        &&& self@.moves_made + self@.moves_left <= pow9(self@.depth)
        &&& pow9(self@.depth) <= usize::MAX
        &&& self@.status == status_of(self@.tree)
        &&& undecided_below(self@.tree)
    }

    /// Start a new game of the given depth: a freshly built tree, turn
    /// reset to `Circle`, counters reset.  Fails exactly on depth 0.  The
    /// bound in the precondition is forced by the machine word the move
    /// counters are kept in.
    pub fn new_game(depth: usize) -> (r: Result<GameState, GameError>)
        requires
            pow9(depth as nat) <= usize::MAX,
        ensures
            r is Err <==> depth == 0,
            r matches Err(e) ==> e == GameError::InvalidDepth,
            r matches Ok(g) ==> {
                &&& g.wf()
                &&& g@.tree == fresh_node(depth as nat)
                &&& g@.depth == depth as nat
                &&& g@.turn == State::Circle
                &&& g@.moves_made == 0
                &&& g@.moves_left == pow9(depth as nat)
                &&& g@.status == Status::InProgress
            },
    {
        if depth == 0 {
            return Err(GameError::InvalidDepth);
        }
        let board = Board::build(depth);
        proof {
            lemma_fresh_tree(depth as nat);
        }
        let num_moves_left = board.count_remaining();
        Ok(
            GameState {
                board,
                depth,
                turn: State::Circle,
                num_moves: 0,
                num_moves_left,
                status: Status::InProgress,
            },
        )
    }

    /// Apply the current player's move at `path`, an ordered sequence of
    /// exactly `depth` coordinate pairs addressing root to leaf.
    ///
    /// On success the addressed empty leaf is marked by the current
    /// player, the collapse propagator runs over the whole tree, the
    /// status is recomputed, the turn flips (even when the move ends the
    /// game), the move counters update, and the resulting status is
    /// returned; the number of possible moves drops by at least one, and
    /// if the move ends the game with a win, the winner is the mover.  A
    /// rejected move leaves the game unchanged: `GameOver` when the game
    /// has ended, `InvalidPath` for a path of the wrong length, a
    /// coordinate out of range, or a path through a resolved node.
    pub fn apply_move(&mut self, path: &Vec<(u8, u8)>) -> (r: Result<Status, GameError>)
        requires
            old(self).wf(),
        ensures
            final(self).wf(),
            final(self)@.depth == old(self)@.depth,
            old(self)@.status is Over ==> r == Err::<Status, GameError>(GameError::GameOver)
                && final(self)@ == old(self)@,
            old(self)@.status is InProgress && !move_accepted(old(self)@, path@) ==> r == Err::<
                Status,
                GameError,
            >(GameError::InvalidPath) && final(self)@ == old(self)@,
            move_accepted(old(self)@, path@) ==> {
                let placed = place_in(old(self)@.tree, path@, old(self)@.turn);
                let collapsed = collapse_grid(placed);
                &&& r == Ok::<Status, GameError>(status_of(collapsed))
                &&& final(self)@.tree == collapsed
                &&& final(self)@.turn == opponent(old(self)@.turn)
                &&& final(self)@.moves_made == old(self)@.moves_made + 1
                &&& final(self)@.moves_left == count_of(collapsed)
                &&& count_of(placed) + 1 == old(self)@.moves_left
                &&& final(self)@.moves_left < old(self)@.moves_left
                &&& final(self)@.status == status_of(collapsed)
                &&& decided_monotone(old(self)@.tree, final(self)@.tree)
                &&& (final(self)@.status matches Status::Over(Outcome::Won(w)) ==> w == old(
                    self,
                )@.turn)
            },
    {
        match self.status {
            Status::Over(_) => {
                return Err(GameError::GameOver);
            },
            Status::InProgress => {},
        }
        if path.len() != self.depth {
            return Err(GameError::InvalidPath);
        }
        if !self.board.path_is_open(path) {
            return Err(GameError::InvalidPath);
        }
        let ghost orig = self.board@;
        let turn = self.turn;
        proof {
            assert(path@.skip(0) =~= path@);
            lemma_place_count(orig, path@, turn);
        }
        self.board.place_at(path, 0, turn);
        proof {
            lemma_collapse_count(self.board@);
            lemma_place_monotone(orig, path@, turn);
            lemma_collapse_monotone(self.board@);
            lemma_decided_monotone_trans(orig, self.board@, collapse_grid(self.board@));
            lemma_collapse_undecided(self.board@);
            lemma_collapse_marks(self.board@);
            lemma_mover_wins(orig, path@, turn, opponent(turn));
        }
        self.board.collapse_states();
        let status = match self.board.get_winner() {
            Some(winner) => Status::Over(Outcome::Won(winner)),
            None => {
                if self.board.is_stalemate() {
                    Status::Over(Outcome::Stalemate)
                } else {
                    Status::InProgress
                }
            },
        };
        self.status = status;
        self.turn = match turn {
            State::Circle => State::Cross,
            State::Cross => State::Circle,
        };
        self.num_moves = self.num_moves + 1;
        self.num_moves_left = self.board.count_remaining();
        Ok(status)
    }

    /// The player whose turn it is.
    pub fn current_turn(&self) -> (r: State)
        ensures
            r == self@.turn,
    {
        self.turn
    }

    /// Whether the game is over, and how.
    pub fn status(&self) -> (r: Status)
        requires
            self.wf(),
        ensures
            r == self@.status,
            r == status_of(self@.tree),
    {
        self.status
    }

    /// How many moves are still possible anywhere on the board.
    pub fn remaining_moves(&self) -> (r: usize)
        requires
            self.wf(),
        ensures
            r == self@.moves_left,
            r == count_of(self@.tree),
    {
        self.num_moves_left
    }

    /// How many moves have been accepted since the game started.
    pub fn moves_made(&self) -> (r: usize)
        ensures
            r == self@.moves_made,
    {
        self.num_moves
    }

    /// The configured depth of this session.
    pub fn depth(&self) -> (r: usize)
        ensures
            r == self@.depth,
    {
        self.depth
    }

    /// Read-only access to the root board, for callers that enumerate the
    /// tree (a renderer, say) and recurse themselves.
    pub fn board(&self) -> (r: &Board)
        requires
            self.wf(),
        ensures
            r@ == self@.tree,
            r.well_formed(),
    {
        &self.board
    }
}

} // verus!
