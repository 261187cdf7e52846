//! The board, the turn order and the engine that applies and undoes actions.

pub mod action;
pub mod board;
pub mod error;
pub mod laws;
pub mod pieces;

use vstd::prelude::*;
use std::sync::Arc;
use crate::game::action::composite_vals::CaptureVal;
use crate::game::action::Action;
use crate::game::action::ActionView;
use crate::game::action::Composite;
use crate::game::board::applies;
use crate::game::board::cells_distinct;
use crate::game::board::cells_match;
use crate::game::board::inverted;
use crate::game::board::layout_of;
use crate::game::board::lemma_layout_of;
use crate::game::board::lemma_undo_reverts;
use crate::game::board::Board;
use crate::game::board::Layout;
use crate::game::error::Error;
use crate::game::pieces::unit_moves;
use crate::game::pieces::Alliance;
use crate::game::pieces::AllianceView;
use crate::game::pieces::MoveDir;
use crate::game::pieces::Piece;
use crate::game::pieces::PieceView;

verus! {

/// A game as the rules see it.
pub struct GameView {
    pub width: nat,
    pub height: nat,
    /// The occupied cells and the piece on each.
    pub layout: Layout,
    /// The teams in turn order.
    pub teams: Seq<AllianceView>,
    /// The index of the team that moves next.
    pub turn: nat,
    /// The committed actions, oldest first.
    pub history: Seq<ActionView>,
}

/// `teams` after the placing team has paid for `action`: a `Place` costs its
/// team one piece, any other action costs nothing.
pub open spec fn charged(teams: Seq<AllianceView>, action: ActionView) -> Seq<AllianceView> {
    match action {
        ActionView::Place(p) => if p.team < teams.len() && teams[p.team as int].pieces_left > 0 {
            teams.update(
                p.team as int,
                AllianceView {
                    pieces_left: (teams[p.team as int].pieces_left - 1) as nat,
                    ..teams[p.team as int]
                },
            )
        } else {
            teams
        },
        _ => teams,
    }
}

/// `teams` after the placing team got back what `action` cost.
pub open spec fn refunded(teams: Seq<AllianceView>, action: ActionView) -> Seq<AllianceView> {
    match action {
        ActionView::Place(p) => if p.team < teams.len() {
            teams.update(
                p.team as int,
                AllianceView {
                    pieces_left: teams[p.team as int].pieces_left + 1,
                    ..teams[p.team as int]
                },
            )
        } else {
            teams
        },
        _ => teams,
    }
}

/// Whether the whole of `history` can be undone, newest action first,
/// starting from `layout` and `teams`: every action can be inverted on the
/// layout that the later ones leave, and every placement can be refunded to
/// a team that exists, within the range of its counter.
pub open spec fn undoable(layout: Layout, teams: Seq<AllianceView>, history: Seq<ActionView>) -> bool
    decreases history.len(),
{
    history.len() == 0 || {
        let last = history.last();
        &&& inverted(layout, last) is Ok
        &&& last matches ActionView::Place(p) ==> p.team < teams.len() && teams[p.team as int].pieces_left
            < u32::MAX
        &&& undoable(inverted(layout, last)->Ok_0, refunded(teams, last), history.drop_last())
    }
}

/// Whether `(dx, dy)` is one of `moves`.
pub open spec fn reaches(moves: Seq<MoveDir>, dx: int, dy: int) -> bool {
    exists|i: int| 0 <= i < moves.len() && (#[trigger] moves[i]).dx == dx && moves[i].dy == dy
}

/// A piece of level 1 with the unit moves.
pub open spec fn fresh_piece(x: int, y: int, team: nat) -> PieceView {
    PieceView { x, y, team, level: 1, moves: unit_moves() }
}

impl GameView {
    /// There is a team, it is some team's turn, what a team may still place
    /// fits its counter, every piece is filed under its own cell, and the
    /// history can be undone.
    pub open spec fn wf(self) -> bool {
        &&& cells_match(self.layout)
        &&& self.teams.len() > 0
        &&& self.turn < self.teams.len()
        &&& forall|t: int| 0 <= t < self.teams.len() ==> (#[trigger] self.teams[t]).pieces_left <= u32::MAX
        &&& undoable(self.layout, self.teams, self.history)
    }

    /// The team that moves after the current one.
    pub open spec fn next_turn(self) -> nat {
        ((self.turn + 1) as int % (self.teams.len() as int)) as nat
    }

    /// The team that moved before the current one.
    pub open spec fn previous_turn(self) -> nat {
        ((self.turn + self.teams.len() - 1) as int % (self.teams.len() as int)) as nat
    }

    /// The action that a request to place a piece of `team` on `(x, y)`
    /// leads to: none while the team has nothing left to place, none on an
    /// occupied cell, else the placement of a fresh piece.
    pub open spec fn placement(self, x: int, y: int, team: nat) -> Result<ActionView, Error> {
        if self.teams[team as int].pieces_left == 0 {
            Err(Error::PlacementBudgetExhausted)
        } else if self.layout.dom().contains((x, y)) {
            Err(Error::CellOccupied)
        } else {
            Ok(ActionView::Place(fresh_piece(x, y, team)))
        }
    }

    /// The action that sending `selected` to the cell `(x, y)` amounts to.
    ///
    /// There is none without a piece, none for a piece of another team than
    /// the current one where `turn_restricted` is set, and none where the
    /// displacement is not in the capability set of the piece. On a cell held
    /// by the piece's own team the piece is merged into the occupant. On a
    /// cell held by another team the occupant is captured, provided that it
    /// is at most one level above the piece. A free cell is moved to.
    pub open spec fn intent(
        self,
        selected: Option<PieceView>,
        x: int,
        y: int,
        turn_restricted: bool,
    ) -> Option<ActionView> {
        match selected {
            None => None,
            Some(p) => {
                let dx = x - p.x;
                let dy = y - p.y;
                if turn_restricted && p.team != self.turn {
                    None
                } else if !reaches(p.moves, dx, dy) {
                    None
                } else if self.layout.dom().contains((x, y)) {
                    let other = self.layout[(x, y)];
                    if other.team == p.team {
                        Some(ActionView::Upgrade(p, other))
                    } else if p.level + 1 >= other.level {
                        Some(
                            ActionView::Capture(
                                Box::new(ActionView::Remove(other)),
                                Box::new(ActionView::Move(p, dx, dy)),
                            ),
                        )
                    } else {
                        None
                    }
                } else {
                    Some(ActionView::Move(p, dx, dy))
                }
            },
        }
    }

    /// Whether committing `action` can turn this game into `after`: a
    /// placement was paid for by a team that had a piece left, the action was
    /// applied to the layout, the turn went on and the action is the newest
    /// entry of the history.
    pub open spec fn commits(self, action: ActionView, after: GameView) -> bool {
        &&& action matches ActionView::Place(p) ==> p.team < self.teams.len() && self.teams[p.team as int].pieces_left
            > 0
        &&& after.width == self.width
        &&& after.height == self.height
        &&& applies(self.layout, action, Ok(after.layout))
        &&& after.teams == charged(self.teams, action)
        &&& after.turn == self.next_turn()
        &&& after.history == self.history.push(action)
    }

    /// Whether committing `action` can be refused with `e`: a placement for
    /// a team that has nothing left to place is refused as such; any other
    /// action is refused with the error that applying it ends in.
    pub open spec fn refuses(self, action: ActionView, e: Error) -> bool {
        if action matches ActionView::Place(p) && self.teams[p.team as int].pieces_left == 0 {
            e == Error::PlacementBudgetExhausted
        } else {
            applies(self.layout, action, Err(e))
        }
    }

    /// What the cell `(i, j)` shows while `selected` is the selected cell and
    /// `piece` the piece on it: the selection itself, else the kind of
    /// action that sending the piece there amounts to, whoever's turn it is,
    /// else the chequered ground.
    pub open spec fn tile(
        self,
        selected: Option<(int, int)>,
        i: int,
        j: int,
        piece: Option<PieceView>,
    ) -> Tile {
        if selected == Some((i, j)) {
            Tile::Selected
        } else {
            match self.intent(piece, i, j, false) {
                Some(ActionView::Move(_, _, _)) => Tile::Move,
                Some(ActionView::Upgrade(_, _)) => Tile::Upgrade,
                Some(ActionView::Capture(_, _)) => Tile::Capture,
                _ => if (i + j) % 2 == 0 {
                    Tile::Light
                } else {
                    Tile::Dark
                },
            }
        }
    }

    /// What a click on the cell `(x, y)` asks for while `selected` is the
    /// selected cell, and the cell that is selected after it.
    ///
    /// Any button but the left one clears the selection. A left click on the
    /// selected cell asks to place a piece of the current team there, and
    /// keeps the selection. A left click elsewhere sends the piece on the
    /// selected cell, if it is the current team's, to the clicked cell: where
    /// that amounts to an action, the action is to be committed and the
    /// selection is cleared; where not, the clicked cell is selected.
    pub open spec fn click(
        self,
        selected: Option<(int, int)>,
        left: bool,
        x: int,
        y: int,
    ) -> (RequestView, Option<(int, int)>) {
        if !left {
            (RequestView::Nothing, None)
        } else if selected == Some((x, y)) {
            (
                match self.placement(x, y, self.turn) {
                    Ok(action) => RequestView::Commit(action),
                    Err(e) => RequestView::Refused(e),
                },
                Some((x, y)),
            )
        } else {
            let piece = match selected {
                Some(cell) => if self.layout.dom().contains(cell) {
                    Some(self.layout[cell])
                } else {
                    None
                },
                None => None,
            };
            match self.intent(piece, x, y, true) {
                Some(action) => (RequestView::Commit(action), None),
                None => (RequestView::Nothing, Some((x, y))),
            }
        }
    }

    /// The game after its `n` newest actions were undone.
    pub open spec fn undone_times(self, n: nat) -> GameView
        decreases n,
    {
        if n == 0 {
            self
        } else {
            self.undone().undone_times((n - 1) as nat)
        }
    }

    /// The game after its newest action was undone: the action is inverted
    /// on the layout, a placement is refunded, the turn goes back and the
    /// history loses its newest entry. A game without history stays as it is.
    pub open spec fn undone(self) -> GameView {
        if self.history.len() == 0 {
            self
        } else {
            GameView {
                layout: inverted(self.layout, self.history.last())->Ok_0,
                teams: refunded(self.teams, self.history.last()),
                turn: self.previous_turn(),
                history: self.history.drop_last(),
                ..self
            }
        }
    }
}

/// The view of an action that was asked for, or the refusal.
pub open spec fn viewed(asked: Result<Action, Error>) -> Result<ActionView, Error> {
    match asked {
        Ok(action) => Ok(action@),
        Err(e) => Err(e),
    }
}

/// The view of an action, if there is one.
pub open spec fn viewed_some(found: Option<Action>) -> Option<ActionView> {
    match found {
        Some(action) => Some(action@),
        None => None,
    }
}

/// The view of a piece, if there is one.
pub open spec fn piece_viewed(found: Option<&Piece>) -> Option<PieceView> {
    match found {
        Some(p) => Some(p@),
        None => None,
    }
}

/// What a click asks for.
#[derive(Debug)]
pub enum Request {
    /// Nothing is to be done.
    Nothing,
    /// A placement was asked for, and is refused.
    Refused(Error),
    /// The action is to be committed.
    Commit(Action),
}

/// A request as the rules see it.
pub enum RequestView {
    Nothing,
    Refused(Error),
    Commit(ActionView),
}

impl View for Request {
    type V = RequestView;

    open spec fn view(&self) -> RequestView {
        match self {
            Request::Nothing => RequestView::Nothing,
            Request::Refused(e) => RequestView::Refused(*e),
            Request::Commit(action) => RequestView::Commit(action@),
        }
    }
}

/// A cell given by machine integers, as a cell of the grid.
pub open spec fn cell_viewed(cell: Option<(u32, u32)>) -> Option<(int, int)> {
    match cell {
        Some(c) => Some((c.0 as int, c.1 as int)),
        None => None,
    }
}

/// What a cell of the grid shows.
#[derive(Debug, Clone, Copy, PartialEq, Eq, Structural)]
pub enum Tile {
    /// The selected cell.
    Selected,
    /// A free cell that the selected piece can move to.
    Move,
    /// A cell whose occupant the selected piece can merge into.
    Upgrade,
    /// A cell whose occupant the selected piece can capture.
    Capture,
    /// A light cell of the chequered ground, tinted for the current team.
    Light,
    /// A dark cell of the chequered ground.
    Dark,
}

/// The pieces on a grid, the teams with what they may still place, whose
/// turn it is, and the actions committed so far.
pub struct Game {
    width: u32,
    height: u32,
    board: Board,
    teams: Vec<Alliance>,
    turn: usize,
    action_stack: Vec<Action>,
}

impl View for Game {
    type V = GameView;

    closed spec fn view(&self) -> GameView {
        GameView {
            width: self.width as nat,
            height: self.height as nat,
            layout: self.board@,
            teams: self.teams@.map_values(|t: Alliance| t@),
            turn: self.turn as nat,
            history: self.action_stack@.map_values(|a: Action| a@),
        }
    }
}

impl Game {
    /// The pieces in the order in which the game keeps them.
    pub closed spec fn pieces(&self) -> Seq<PieceView> {
        self.board.pieces()
    }

    /// No two pieces share a cell, the layout holds exactly the pieces, and
    /// the view is well-formed.
    pub open spec fn wf(&self) -> bool {
        &&& cells_distinct(self.pieces())
        &&& self@.layout == layout_of(self.pieces())
        &&& self@.wf()
    }

    /// A game on an empty board of the given size for three teams, which may
    /// place 20, 22 and 24 pieces.
    pub fn new(width: u32, height: u32) -> (game: Self)
        ensures
            game.wf(),
            game@ == (GameView {
                width: width as nat,
                height: height as nat,
                layout: Map::empty(),
                teams: seq![
                    AllianceView { name: "Team 1"@, pieces_left: 20 },
                    AllianceView { name: "Team 2"@, pieces_left: 22 },
                    AllianceView { name: "Team 2"@, pieces_left: 24 },
                ],
                turn: 0,
                history: Seq::empty(),
            }),
    {
        let team_1 = Alliance::new("Team 1", 20);
        let team_2 = Alliance::new("Team 2", 22);
        let team_3 = Alliance::new("Team 2", 24);
        let mut teams: Vec<Alliance> = Vec::new();
        teams.push(team_1);
        teams.push(team_2);
        teams.push(team_3);
        let pieces: Vec<Piece> = Vec::new();
        assert(pieces@.map_values(|p: Piece| p@) =~= Seq::<PieceView>::empty());
        let game = Game::from_vec(width, height, pieces, teams);
        assert(game@.teams =~= seq![
            AllianceView { name: "Team 1"@, pieces_left: 20 },
            AllianceView { name: "Team 2"@, pieces_left: 22 },
            AllianceView { name: "Team 2"@, pieces_left: 24 },
        ]);
        assert(game@.layout =~= Map::empty());
        game
    }

    /// A game that starts with `pieces` on the board and with `teams`, the
    /// first of which moves first. No two pieces may share a cell, and there
    /// must be a team.
    pub fn from_vec(width: u32, height: u32, pieces: Vec<Piece>, teams: Vec<Alliance>) -> (game:
        Self)
        requires
            cells_distinct(pieces@.map_values(|p: Piece| p@)),
            teams@.len() > 0,
        ensures
            game.wf(),
            game.pieces() == pieces@.map_values(|p: Piece| p@),
            game@ == (GameView {
                width: width as nat,
                height: height as nat,
                layout: layout_of(pieces@.map_values(|p: Piece| p@)),
                teams: teams@.map_values(|t: Alliance| t@),
                turn: 0,
                history: Seq::empty(),
            }),
    {
        let game = Self {
            width,
            height,
            board: Board::from_vec(pieces),
            teams,
            turn: 0,
            action_stack: Vec::new(),
        };
        proof {
            assert(game@.history =~= Seq::<ActionView>::empty());
            lemma_layout_of(game.pieces());
        }
        game
    }

    pub fn width(&self) -> (width: u32)
        ensures
            width == self@.width,
    {
        self.width
    }

    pub fn height(&self) -> (height: u32)
        ensures
            height == self@.height,
    {
        self.height
    }

    /// The pieces on the board, in no particular order.
    pub fn piece_list(&self) -> (list: &Vec<Piece>)
        ensures
            list@.map_values(|p: Piece| p@) == self.pieces(),
    {
        self.board.piece_list()
    }

    /// The teams in turn order.
    pub fn teams(&self) -> (teams: &Vec<Alliance>)
        ensures
            teams@.map_values(|t: Alliance| t@) == self@.teams,
    {
        &self.teams
    }

    /// The team with the given index.
    pub fn team(&self, index: usize) -> (team: &Alliance)
        requires
            index < self@.teams.len(),
        ensures
            team@ == self@.teams[index as int],
    {
        &self.teams[index]
    }

    /// The index of the team that moves next.
    pub fn current_team(&self) -> (turn: usize)
        ensures
            turn == self@.turn,
    {
        self.turn
    }

    /// The number of committed actions that can be undone.
    pub fn history_len(&self) -> (len: usize)
        ensures
            len == self@.history.len(),
    {
        self.action_stack.len()
    }

    /// The piece on the cell `(x, y)`, if one stands there.
    pub fn piece_at(&self, x: u32, y: u32) -> (found: Option<&Piece>)
        requires
            self.wf(),
        ensures
            match found {
                Some(p) => self@.layout.dom().contains((x as int, y as int)) && self@.layout[(
                    x as int,
                    y as int,
                )] == p@,
                None => !self@.layout.dom().contains((x as int, y as int)),
            },
    {
        if x > i32::MAX as u32 || y > i32::MAX as u32 {
            proof {
                self.board.lemma_cells_representable();
            }
            None
        } else {
            self.board.get_piece(x as i32, y as i32)
        }
    }

    /// The action that places a fresh piece of `team` on the cell `(x, y)`.
    ///
    /// Fails with [`Error::PlacementBudgetExhausted`] where the team has
    /// nothing left to place, else with [`Error::CellOccupied`] where a
    /// piece stands on the cell. The game is not changed: the action takes
    /// effect when it is handed to [`Game::commit`].
    ///
    /// `team` must be the index of a team, and the cell one that the machine
    /// can name as the position of a piece.
    pub fn place_intent(&self, x: u32, y: u32, team: usize) -> (asked: Result<Action, Error>)
        requires
            self.wf(),
            team < self@.teams.len(),
            x <= i32::MAX,
            y <= i32::MAX,
        ensures
            viewed(asked) == self@.placement(x as int, y as int, team as nat),
            asked matches Ok(action) ==> action@.fits(),
    {
        let is_empty = self.piece_at(x, y).is_none();
        if self.teams[team].pieces_left == 0 {
            Err(Error::PlacementBudgetExhausted)
        } else if is_empty {
            let piece = Piece::at(x as i32, y as i32, team);
            Ok(Action::Place(piece))
        } else {
            Err(Error::CellOccupied)
        }
    }

    /// The action that sending `piece` to the cell `(x, y)` amounts to, as
    /// [`GameView::intent`] defines it, or `None` where the rules allow none.
    /// The game is not changed.
    ///
    /// An occupant is never captured by a piece that is more than one level
    /// below it. A move or a capture onto a cell that the machine can name
    /// can be applied as it is.
    pub fn evaluate_intent(&self, piece: Option<&Piece>, x: u32, y: u32, turn_restricted: bool) -> (found:
        Option<Action>)
        requires
            self.wf(),
        ensures
            viewed_some(found) == self@.intent(
                piece_viewed(piece),
                x as int,
                y as int,
                turn_restricted,
            ),
            found matches Some(Action::Composite(_)) ==> {
                &&& piece matches Some(p)
                &&& self@.layout.dom().contains((x as int, y as int))
                &&& p@.level + 1 >= self@.layout[(x as int, y as int)].level
            },
            found matches Some(action) ==> !(action@ is Place) && !(action@ is Remove),
            found matches Some(action) ==> (x <= i32::MAX && y <= i32::MAX && !(action@ is Upgrade)
                ==> action@.fits()),
    {
        proof {
            reveal_with_fuel(ActionView::fits, 2);
        }
        match piece {
            None => None,
            Some(p) => {
                let dx: i64 = x as i64 - p.x() as i64;
                let dy: i64 = y as i64 - p.y() as i64;
                if turn_restricted && p.team() != self.turn {
                    return None;
                }
                if dx < i32::MIN as i64 || dx > i32::MAX as i64 || dy < i32::MIN as i64 || dy
                    > i32::MAX as i64 {
                    return None;
                }
                let dir = MoveDir::new(dx as i32, dy as i32);
                if !p.can_move(dir) {
                    proof {
                        if reaches(p@.moves, dx as int, dy as int) {
                            let i = choose|i: int|
                                0 <= i < p@.moves.len() && (#[trigger] p@.moves[i]).dx == dx
                                    && p@.moves[i].dy == dy;
                            assert(p@.moves[i] == dir);
                        }
                    }
                    return None;
                }
                proof {
                    let i = choose|i: int| 0 <= i < p@.moves.len() && p@.moves[i] == dir;
                    assert(p@.moves[i].dx == dx && p@.moves[i].dy == dy);
                }
                match self.piece_at(x, y) {
                    Some(other) => {
                        if other.team() == p.team() {
                            Some(Action::Upgrade(p.clone(), other.clone()))
                        } else if p.level() as u64 + 1 >= other.level() as u64 {
                            let remove_action = Action::Remove(other.clone());
                            let move_action = Action::Move(p.clone(), dir.dx(), dir.dy());
                            Some(
                                Action::Composite(
                                    Composite::Capture(
                                        Arc::new(CaptureVal::from([remove_action, move_action])),
                                    ),
                                ),
                            )
                        } else {
                            None
                        }
                    },
                    None => Some(Action::Move(p.clone(), dir.dx(), dir.dy())),
                }
            },
        }
    }

    /// What the cell `(i, j)` shows while `selected` is the selected cell and
    /// `piece` the piece on it, as [`GameView::tile`] defines it.
    pub fn tile_kind(&self, selected: Option<(u32, u32)>, i: u32, j: u32, piece: Option<&Piece>) -> (tile:
        Tile)
        requires
            self.wf(),
        ensures
            tile == self@.tile(
                cell_viewed(selected),
                i as int,
                j as int,
                piece_viewed(piece),
            ),
    {
        if let Some(cell) = selected {
            if cell.0 == i && cell.1 == j {
                return Tile::Selected;
            }
        }
        match self.evaluate_intent(piece, i, j, false) {
            Some(Action::Move(_, _, _)) => Tile::Move,
            Some(Action::Upgrade(_, _)) => Tile::Upgrade,
            Some(Action::Composite(_)) => Tile::Capture,
            _ => if (i as u64 + j as u64) % 2 == 0 {
                Tile::Light
            } else {
                Tile::Dark
            },
        }
    }

    /// What a click on the cell `(x, y)` asks for while `selected` is the
    /// selected cell, and the cell that is selected after it, as
    /// [`GameView::click`] defines them. The game is not changed: a request
    /// to commit is carried out by [`Game::commit`].
    ///
    /// A cell on which a piece is to be placed must be one that the machine
    /// can name.
    pub fn click(&self, selected: Option<(u32, u32)>, left: bool, x: u32, y: u32) -> (asked: (
        Request,
        Option<(u32, u32)>,
    ))
        requires
            self.wf(),
            left && selected == Some((x, y)) ==> x <= i32::MAX && y <= i32::MAX,
        ensures
            (asked.0@, cell_viewed(asked.1)) == self@.click(
                cell_viewed(selected),
                left,
                x as int,
                y as int,
            ),
            asked.0 matches Request::Commit(action) ==> {
                &&& action@ matches ActionView::Place(p) ==> p.team < self@.teams.len()
                &&& x <= i32::MAX && y <= i32::MAX && !(action@ is Upgrade) ==> action@.fits()
            },
    {
        if !left {
            return (Request::Nothing, None);
        }
        let on_selected = match selected {
            Some(cell) => cell.0 == x && cell.1 == y,
            None => false,
        };
        if on_selected {
            let request = match self.place_intent(x, y, self.turn) {
                Ok(action) => Request::Commit(action),
                Err(e) => Request::Refused(e),
            };
            (request, Some((x, y)))
        } else {
            let piece = match selected {
                Some(cell) => self.piece_at(cell.0, cell.1),
                None => None,
            };
            match self.evaluate_intent(piece, x, y, true) {
                Some(action) => (Request::Commit(action), None),
                None => (Request::Nothing, Some((x, y))),
            }
        }
    }

    /// Lets the next team move.
    fn inc(&mut self)
        requires
            old(self)@.teams.len() > 0,
            old(self)@.turn < old(self)@.teams.len(),
        ensures
            final(self)@ == (GameView { turn: old(self)@.next_turn(), ..old(self)@ }),
            final(self).pieces() == old(self).pieces(),
    {
        let len = self.teams.len();
        assert(self@.teams.len() == len);
        if self.turn + 1 == len {
            assert((self.turn + 1) as int % (len as int) == 0) by {
                vstd::arithmetic::div_mod::lemma_mod_self_0(len as int);
            }
            self.turn = 0;
        } else {
            assert((self.turn + 1) as int % (len as int) == self.turn + 1) by {
                vstd::arithmetic::div_mod::lemma_small_mod((self.turn + 1) as nat, len as nat);
            }
            self.turn = self.turn + 1;
        }
    }

    /// Gives the move back to the team before.
    fn dec(&mut self)
        requires
            old(self)@.teams.len() > 0,
            old(self)@.turn < old(self)@.teams.len(),
        ensures
            final(self)@ == (GameView { turn: old(self)@.previous_turn(), ..old(self)@ }),
            final(self).pieces() == old(self).pieces(),
    {
        let len = self.teams.len();
        assert(self@.teams.len() == len);
        if self.turn == 0 {
            assert((self.turn + len - 1) as int % (len as int) == len - 1) by {
                vstd::arithmetic::div_mod::lemma_small_mod((len - 1) as nat, len as nat);
            }
            self.turn = len - 1;
        } else {
            assert((self.turn + len - 1) as int % (len as int) == self.turn - 1) by {
                vstd::arithmetic::div_mod::lemma_mod_add_multiples_vanish(
                    self.turn as int - 1,
                    len as int,
                );
                vstd::arithmetic::div_mod::lemma_small_mod((self.turn - 1) as nat, len as nat);
            }
            self.turn = self.turn - 1;
        }
    }

    /// Takes one piece from, or gives one piece back to, the budget of `team`.
    fn adjust_budget(&mut self, team: usize, refund: bool)
        requires
            team < old(self)@.teams.len(),
            refund ==> old(self)@.teams[team as int].pieces_left < u32::MAX,
            !refund ==> old(self)@.teams[team as int].pieces_left > 0,
        ensures
            final(self)@ == (GameView {
                teams: old(self)@.teams.update(
                    team as int,
                    AllianceView {
                        pieces_left: if refund {
                            old(self)@.teams[team as int].pieces_left + 1
                        } else {
                            (old(self)@.teams[team as int].pieces_left - 1) as nat
                        },
                        ..old(self)@.teams[team as int]
                    },
                ),
                ..old(self)@
            }),
            final(self).pieces() == old(self).pieces(),
    {
        let ghost before = self@.teams;
        let mut entry = self.teams[team].clone();
        if refund {
            entry.pieces_left = entry.pieces_left + 1;
        } else {
            entry.pieces_left = entry.pieces_left - 1;
        }
        self.teams.set(team, entry);
        assert(self@.teams =~= before.update(team as int, entry@));
    }

    /// Carries out `action` as the move of the current team.
    ///
    /// On success the action was applied to the board, a `Place` has cost
    /// its team one piece, the turn has gone to the next team and the action
    /// is the newest entry of the history: see [`GameView::commits`]. A merge
    /// is the one thing that is not determined by the arguments.
    ///
    /// An action that cannot be carried out in full is refused, and the game
    /// stays exactly as it was: a `Place` for a team with nothing left to
    /// place with [`Error::PlacementBudgetExhausted`], anything else with
    /// the error of the step that failed, see [`GameView::refuses`].
    ///
    /// The action must stay within the machine's integers, which
    /// [`Action::fits`] tells, and a piece to be placed must belong to one of
    /// the teams of the game.
    pub fn commit(&mut self, action: Action) -> (done: Result<(), Error>)
        requires
            old(self).wf(),
            action@.fits(),
            action@ matches ActionView::Place(p) ==> p.team < old(self)@.teams.len(),
        ensures
            final(self).wf(),
            match done {
                Ok(()) => old(self)@.commits(action@, final(self)@),
                Err(e) => final(self)@ == old(self)@ && final(self).pieces() == old(self).pieces()
                    && old(self)@.refuses(action@, e),
            },
    {
        if let Action::Place(p) = &action {
            if self.teams[p.team()].pieces_left == 0 {
                return Err(Error::PlacementBudgetExhausted);
            }
        }
        let ghost before = self@;
        match self.board.apply_action(&action) {
            Ok(()) => {
                if let Action::Place(p) = &action {
                    self.adjust_budget(p.team(), false);
                }
                self.inc();
                let ghost history = self@.history;
                self.action_stack.push(action);
                proof {
                    assert(self@.history =~= history.push(action@));
                    assert(self@.history.drop_last() =~= before.history);
                    lemma_undo_reverts(before.layout, action@, self@.layout);
                    lemma_layout_of(self.pieces());
                    assert(refunded(self@.teams, action@) =~= before.teams);
                }
                Ok(())
            },
            Err(e) => Err(e),
        }
    }

    /// Undoes the newest action of the history, if there is one, and tells
    /// whether there was: the action is inverted on the board, a `Place` is
    /// refunded to its team, and the turn goes back to the team before.
    pub fn undo_last(&mut self) -> (undone: bool)
        requires
            old(self).wf(),
        ensures
            final(self).wf(),
            final(self)@ == old(self)@.undone(),
            undone == (old(self)@.history.len() > 0),
    {
        let ghost before = self@;
        match self.action_stack.pop() {
            Some(action) => {
                assert(action@ == before.history.last());
                assert(self@.history =~= before.history.drop_last());
                if let Action::Place(p) = &action {
                    self.adjust_budget(p.team(), true);
                }
                self.dec();
                let step = self.board.undo_action(&action);
                proof {
                    lemma_layout_of(self.pieces());
                }
                assert(step is Ok);
                true
            },
            None => false,
        }
    }
}

} // verus!
