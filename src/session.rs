use vstd::prelude::*;
use crate::location::{Location, valid, location_is_valid};
use crate::piece::{BoardState, Colors};
use crate::board::{Board, Move, cell_after_move, initial_cell};
use crate::protocol::ServerMessage;

verus! {

/// Player 0 may move White's pieces and player 1 Black's; an empty cell may
/// not be moved from.
pub open spec fn may_move(b: Board, player: usize, from: Location) -> bool {
    match b.cell(from) {
        BoardState::Piece((Colors::White, _)) => player == 0,
        BoardState::Piece((Colors::Black, _)) => player == 1,
        BoardState::Empty => false,
    }
}

/// A move the server accepts from `player` on board `b`: the game is running,
/// both ends lie on the lattice, and the piece at its source belongs to that
/// player.
pub open spec fn accepted(b: Board, player: usize, m: Move) -> bool {
    b.running() && valid(m.from) && valid(m.to) && may_move(b, player, m.from)
}

/// `a` holds the same cells and the same running flag as `b`.
pub open spec fn same_board(a: Board, b: Board) -> bool {
    a.running() == b.running() && forall|l: Location| valid(l) ==> #[trigger] a.cell(l) == b.cell(l)
}

/// The server's state: the authoritative board and how many players have
/// joined. Players are numbered from 0 in the order they joined.
pub struct ServerState {
    board: Board,
    players: usize,
}

impl ServerState {
    pub closed spec fn board(&self) -> Board {
        self.board
    }

    pub closed spec fn players(&self) -> nat {
        self.players as nat
    }

    /// A game in its initial position, with nobody joined.
    pub fn new() -> (r: ServerState)
        ensures
            r.players() == 0,
            r.board().running(),
            forall|l: Location| valid(l) ==> #[trigger] r.board().cell(l) == initial_cell(l),
    {
        ServerState { board: Board::new(), players: 0 }
    }

    pub fn player_count(&self) -> (r: usize)
        ensures
            r == self.players(),
    {
        self.players
    }

    /// Registers a new player and returns its number.
    pub fn join(&mut self) -> (r: usize)
        requires
            old(self).players() < usize::MAX,
        ensures
            r == old(self).players(),
            final(self).players() == old(self).players() + 1,
            final(self).board() == old(self).board(),
    {
        let id = self.players;
        self.players = self.players + 1;
        id
    }

    /// A copy of the authoritative board.
    pub fn snapshot(&self) -> (r: Board)
        ensures
            same_board(r, self.board()),
    {
        self.board.clone()
    }

    pub fn is_running(&self) -> (r: bool)
        ensures
            r == self.board().running(),
    {
        self.board.is_running()
    }

    /// Executes `m` for `player` when the game is running, both ends lie on
    /// the lattice and the piece at its source belongs to that player, and
    /// returns the board to broadcast; otherwise the board stays as it was and
    /// nothing is returned.
    pub fn submit_move(&mut self, player: usize, m: &Move) -> (r: Option<Board>)
        ensures
            final(self).players() == old(self).players(),
            r is Some <==> accepted(old(self).board(), player, *m),
            r is None ==> final(self).board() == old(self).board(),
            final(self).board().running() == old(self).board().running(),
            r is Some ==> forall|l: Location| valid(l) ==> #[trigger] final(self).board().cell(l)
                    == cell_after_move(old(self).board(), *m, l),
            r matches Some(b) ==> same_board(b, final(self).board()),
    {
        if !self.board.is_running() || !location_is_valid(m.from()) || !location_is_valid(m.to()) {
            return None;
        }
        let allowed = match self.board.at(m.from()) {
            BoardState::Piece((Colors::White, _)) => player == 0,
            BoardState::Piece((Colors::Black, _)) => player == 1,
            BoardState::Empty => false,
        };
        if !allowed {
            return None;
        }
        self.board.execute_move(m);
        Some(self.snapshot())
    }

    /// Handles a message received from `player`: a move goes through
    /// `submit_move`, and what it returns is sent to every player as a board
    /// update; any other message is ignored.
    pub fn handle_message(&mut self, player: usize, msg: &ServerMessage) -> (r: Option<ServerMessage>)
        ensures
            final(self).players() == old(self).players(),
            r is Some <==> (*msg matches ServerMessage::PlayerMove { player_move } && accepted(
                old(self).board(),
                player,
                player_move,
            )),
            r is None ==> final(self).board() == old(self).board(),
            final(self).board().running() == old(self).board().running(),
            *msg matches ServerMessage::PlayerMove { player_move } ==> (r is Some ==> forall|l: Location|
                valid(l) ==> #[trigger] final(self).board().cell(l) == cell_after_move(old(self).board(), player_move, l)),
            r matches Some(ServerMessage::BoardUpdate { board }) ==> same_board(board, final(self).board()),
            r matches Some(u) ==> u is BoardUpdate,
    {
        match msg {
            ServerMessage::PlayerMove { player_move } => match self.submit_move(player, player_move) {
                Some(board) => Some(ServerMessage::BoardUpdate { board }),
                None => None,
            },
            ServerMessage::BoardUpdate { .. } => None,
        }
    }
}

/// What a client does with a message from the server: a board update replaces
/// the mirror board wholesale; anything else leaves it as it is. Returns
/// whether the mirror changed, that is whether the display must be redrawn.
pub fn receive_message(mirror: &mut Board, msg: &ServerMessage) -> (r: bool)
    ensures
        r == msg is BoardUpdate,
        *msg matches ServerMessage::BoardUpdate { board } ==> same_board(*final(mirror), board),
        !r ==> *final(mirror) == *old(mirror),
{
    match msg {
        ServerMessage::BoardUpdate { board } => {
            mirror.update_board(board);
            true
        },
        ServerMessage::PlayerMove { .. } => false,
    }
}

} // verus!
