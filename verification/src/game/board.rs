//! The pieces on the grid, and what actions do to them.

use vstd::prelude::*;
use crate::game::action::Action;
use crate::game::action::ActionView;
use crate::game::action::Composite;
use crate::game::error::Error;
use crate::game::pieces::Move;
use crate::game::pieces::MoveDir;
use crate::game::pieces::Piece;
use crate::game::pieces::PieceView;
use crate::game::pieces::can_stall;
use crate::game::pieces::MAX_LEVEL;

verus! {

/// The occupied cells and the piece on each.
pub type Layout = Map<(int, int), PieceView>;

/// No two pieces of `ps` stand on the same cell.
pub open spec fn cells_distinct(ps: Seq<PieceView>) -> bool {
    forall|i: int, j: int| 0 <= i < j < ps.len() ==> (#[trigger] ps[i]).cell() != (#[trigger] ps[j]).cell()
}

/// Every piece of `layout` is filed under the cell on which it stands.
pub open spec fn cells_match(layout: Layout) -> bool {
    forall|c: (int, int)| #[trigger] layout.dom().contains(c) ==> layout[c].cell() == c
}

/// The layout that holds the pieces of `ps`.
pub open spec fn layout_of(ps: Seq<PieceView>) -> Layout
    decreases ps.len(),
{
    if ps.len() == 0 {
        Map::empty()
    } else {
        layout_of(ps.drop_last()).insert(ps.last().cell(), ps.last())
    }
}

/// `layout` with `p` put on its cell, which must be free.
pub open spec fn placed(layout: Layout, p: PieceView) -> Result<Layout, Error> {
    if layout.dom().contains(p.cell()) {
        Err(Error::CellOccupied)
    } else {
        Ok(layout.insert(p.cell(), p))
    }
}

/// `layout` without `p`, which must stand on its cell exactly as given.
pub open spec fn removed(layout: Layout, p: PieceView) -> Result<Layout, Error> {
    if layout.dom().contains(p.cell()) && layout[p.cell()] == p {
        Ok(layout.remove(p.cell()))
    } else {
        Err(Error::PieceNotFound)
    }
}

/// `layout` without the piece on `cell`, which must be occupied.
pub open spec fn removed_at(layout: Layout, cell: (int, int)) -> Result<Layout, Error> {
    if layout.dom().contains(cell) {
        Ok(layout.remove(cell))
    } else {
        Err(Error::PieceNotFound)
    }
}

/// [`placed`] on the outcome of an earlier step, whose failure is passed on.
pub open spec fn then_placed(step: Result<Layout, Error>, p: PieceView) -> Result<Layout, Error> {
    match step {
        Ok(layout) => placed(layout, p),
        Err(e) => Err(e),
    }
}

/// [`removed`] on the outcome of an earlier step, whose failure is passed on.
pub open spec fn then_removed(step: Result<Layout, Error>, p: PieceView) -> Result<Layout, Error> {
    match step {
        Ok(layout) => removed(layout, p),
        Err(e) => Err(e),
    }
}

/// Marks the outcome of the first half of a composite action.
pub open spec fn halfway(mid: Result<Layout, Error>) -> bool {
    true
}

/// Whether applying `action` to `layout` can end in `outcome`.
///
/// Applying is a relation because a merge draws at random: an upgrade can
/// end with any piece that [`PieceView::is_upgrade_of`] admits. Everything
/// else is determined.
/// - `Place` puts the piece on its cell; `Remove` takes it off.
/// - `Move` removes the piece and places it displaced.
/// - `Upgrade(sacrifice, target)` fails on too high a level before anything
///   is touched; else it removes the target, then the sacrifice, and places
///   the merged piece.
/// - `Capture` applies its removal, then its move.
pub open spec fn applies(layout: Layout, action: ActionView, outcome: Result<Layout, Error>) -> bool
    decreases action,
{
    match action {
        ActionView::Place(p) => outcome == placed(layout, p),
        ActionView::Remove(p) => outcome == removed(layout, p),
        ActionView::Move(p, dx, dy) => outcome == then_placed(removed(layout, p), p.displaced(dx, dy)),
        ActionView::Upgrade(sacrifice, target) => {
            if target.level + sacrifice.level > MAX_LEVEL {
                outcome == Err::<Layout, Error>(Error::LevelTooHigh)
            } else {
                ||| outcome == Err::<Layout, Error>(Error::MergeStalled) && can_stall(
                    target.moves,
                    sacrifice.moves,
                )
                ||| exists|merged: PieceView|
                    #[trigger] merged.is_upgrade_of(target, sacrifice) && outcome == then_placed(
                        then_removed(removed(layout, target), sacrifice),
                        merged,
                    )
            }
        },
        ActionView::Capture(first, second) => exists|mid: Result<Layout, Error>|
            #[trigger] halfway(mid) && applies(layout, *first, mid) && match mid {
                Ok(between) => applies(between, *second, outcome),
                Err(e) => outcome == Err::<Layout, Error>(e),
            },
    }
}

/// What undoing `action` makes of `layout`: the mirror of [`applies`].
/// - `Place` is undone by removing the piece, `Remove` by placing it.
/// - `Move` is undone by removing the displaced piece and placing the
///   piece as it was.
/// - `Upgrade(sacrifice, target)` is undone by clearing the cell of the
///   target and placing the target, then the sacrifice, as they were.
/// - `Capture` undoes its move, then its removal.
pub open spec fn inverted(layout: Layout, action: ActionView) -> Result<Layout, Error>
    decreases action,
{
    match action {
        ActionView::Place(p) => removed(layout, p),
        ActionView::Remove(p) => placed(layout, p),
        ActionView::Move(p, dx, dy) => then_placed(removed(layout, p.displaced(dx, dy)), p),
        ActionView::Upgrade(sacrifice, target) => then_placed(
            then_placed(removed_at(layout, target.cell()), target),
            sacrifice,
        ),
        ActionView::Capture(first, second) => match inverted(layout, *second) {
            Ok(between) => inverted(between, *first),
            Err(e) => Err(e),
        },
    }
}

/// The outcome of a step that changed a board in place: the layout it left
/// on success, the error otherwise.
pub open spec fn outcome_of(step: Result<(), Error>, layout: Layout) -> Result<Layout, Error> {
    match step {
        Ok(()) => Ok(layout),
        Err(e) => Err(e),
    }
}

/// The pieces on the grid. No two stand on the same cell.
#[derive(Debug)]
pub struct Board {
    pieces: Vec<Piece>,
}

impl View for Board {
    type V = Layout;

    open spec fn view(&self) -> Layout {
        layout_of(self.pieces())
    }
}

impl Board {
    /// The pieces in the order in which the board keeps them.
    pub closed spec fn pieces(&self) -> Seq<PieceView> {
        self.pieces@.map_values(|p: Piece| p@)
    }

    /// No two pieces share a cell.
    pub open spec fn wf(&self) -> bool {
        cells_distinct(self.pieces())
    }

    /// A board without pieces.
    pub fn new() -> (board: Self)
        ensures
            board.wf(),
            board.pieces() == Seq::<PieceView>::empty(),
            board@ == Layout::empty(),
    {
        let board = Self { pieces: Vec::new() };
        assert(board.pieces() =~= Seq::<PieceView>::empty());
        board
    }

    /// A board that holds `pieces`, no two of which may share a cell.
    pub fn from_vec(pieces: Vec<Piece>) -> (board: Self)
        requires
            cells_distinct(pieces@.map_values(|p: Piece| p@)),
        ensures
            board.wf(),
            board.pieces() == pieces@.map_values(|p: Piece| p@),
    {
        Self { pieces }
    }

    /// The pieces, for a walk over the board.
    pub fn piece_list(&self) -> (list: &Vec<Piece>)
        ensures
            list@.map_values(|p: Piece| p@) == self.pieces(),
    {
        &self.pieces
    }

    /// Every piece on the board stands on a cell that the machine can name.
    pub proof fn lemma_cells_representable(&self)
        ensures
            forall|c: (int, int)| #[trigger]
                self@.dom().contains(c) ==> i32::MIN <= c.0 <= i32::MAX && i32::MIN <= c.1
                    <= i32::MAX,
    {
        lemma_layout_of(self.pieces());
        assert forall|c: (int, int)| #[trigger] self@.dom().contains(c) implies i32::MIN <= c.0
            <= i32::MAX && i32::MIN <= c.1 <= i32::MAX by {
            let i = choose|i: int| 0 <= i < self.pieces().len() && (#[trigger] self.pieces()[i]).cell() == c;
            assert(self.pieces()[i] == self.pieces@[i]@);
        }
    }

    fn index_at(&self, x: i32, y: i32) -> (found: Option<usize>)
        ensures
            match found {
                Some(i) => i < self.pieces().len() && self.pieces()[i as int].cell() == (
                    x as int,
                    y as int,
                ),
                None => forall|i: int|
                    0 <= i < self.pieces().len() ==> (#[trigger] self.pieces()[i]).cell() != (
                        x as int,
                        y as int,
                    ),
            },
    {
        let mut i: usize = 0;
        while i < self.pieces.len()
            invariant
                i <= self.pieces.len(),
                self.pieces().len() == self.pieces.len(),
                forall|j: int|
                    0 <= j < i ==> (#[trigger] self.pieces()[j]).cell() != (x as int, y as int),
            decreases self.pieces.len() - i,
        {
            let p = &self.pieces[i];
            assert(self.pieces()[i as int] == p@);
            if p.x() == x && p.y() == y {
                return Some(i);
            }
            i += 1;
        }
        None
    }

    fn index_of(&self, piece: &Piece) -> (found: Option<usize>)
        ensures
            match found {
                Some(i) => i < self.pieces().len() && self.pieces()[i as int] == piece@,
                None => forall|i: int|
                    0 <= i < self.pieces().len() ==> #[trigger] self.pieces()[i] != piece@,
            },
    {
        let mut i: usize = 0;
        while i < self.pieces.len()
            invariant
                i <= self.pieces.len(),
                self.pieces().len() == self.pieces.len(),
                forall|j: int| 0 <= j < i ==> #[trigger] self.pieces()[j] != piece@,
            decreases self.pieces.len() - i,
        {
            let p = &self.pieces[i];
            assert(self.pieces()[i as int] == p@);
            if *p == *piece {
                return Some(i);
            }
            i += 1;
        }
        None
    }

    /// The piece on the cell `(x, y)`, if one stands there.
    pub fn get_piece(&self, x: i32, y: i32) -> (found: Option<&Piece>)
        requires
            self.wf(),
        ensures
            match found {
                Some(p) => self@.dom().contains((x as int, y as int)) && self@[(x as int, y as int)]
                    == p@,
                None => !self@.dom().contains((x as int, y as int)),
            },
    {
        proof {
            lemma_layout_of(self.pieces());
        }
        match self.index_at(x, y) {
            Some(i) => {
                let p = &self.pieces[i];
                assert(self.pieces()[i as int] == p@);
                Some(p)
            },
            None => None,
        }
    }

    /// Puts a copy of `p` on its cell. Fails with [`Error::CellOccupied`],
    /// and changes nothing, where a piece stands there already.
    pub fn place_piece(&mut self, p: &Piece) -> (step: Result<(), Error>)
        requires
            old(self).wf(),
        ensures
            final(self).wf(),
            outcome_of(step, final(self)@) == placed(old(self)@, p@),
            step is Err ==> final(self).pieces() == old(self).pieces(),
    {
        proof {
            lemma_layout_of(self.pieces());
        }
        match self.index_at(p.x(), p.y()) {
            Some(_) => Err(Error::CellOccupied),
            None => {
                proof {
                    lemma_layout_push(self.pieces(), p@);
                }
                let ghost before = self.pieces();
                self.pieces.push(p.clone());
                assert(self.pieces() =~= before.push(p@));
                Ok(())
            },
        }
    }

    /// Takes the piece on the cell `(x, y)` off the board. Fails with
    /// [`Error::PieceNotFound`], and changes nothing, where the cell is free.
    pub fn remove_piece_at(&mut self, x: i32, y: i32) -> (step: Result<(), Error>)
        requires
            old(self).wf(),
        ensures
            final(self).wf(),
            outcome_of(step, final(self)@) == removed_at(old(self)@, (x as int, y as int)),
            step is Err ==> final(self).pieces() == old(self).pieces(),
    {
        proof {
            lemma_layout_of(self.pieces());
        }
        match self.index_at(x, y) {
            Some(index) => {
                proof {
                    lemma_layout_remove(self.pieces(), index as int);
                }
                let ghost before = self.pieces();
                self.pieces.remove(index);
                assert(self.pieces() =~= before.remove(index as int));
                Ok(())
            },
            None => Err(Error::PieceNotFound),
        }
    }

    /// Takes the piece that equals `piece` off the board. Fails with
    /// [`Error::PieceNotFound`], and changes nothing, where there is none.
    pub fn remove_piece(&mut self, piece: &Piece) -> (step: Result<(), Error>)
        requires
            old(self).wf(),
        ensures
            final(self).wf(),
            outcome_of(step, final(self)@) == removed(old(self)@, piece@),
            step is Err ==> final(self).pieces() == old(self).pieces(),
    {
        proof {
            lemma_layout_of(self.pieces());
        }
        match self.index_of(piece) {
            Some(index) => {
                proof {
                    lemma_layout_remove(self.pieces(), index as int);
                }
                let ghost before = self.pieces();
                self.pieces.remove(index);
                assert(self.pieces() =~= before.remove(index as int));
                Ok(())
            },
            None => {
                proof {
                    if self@.dom().contains(piece@.cell()) {
                        let i = choose|i: int|
                            0 <= i < self.pieces().len() && (#[trigger] self.pieces()[i]).cell()
                                == piece@.cell();
                        assert(self@[self.pieces()[i].cell()] == self.pieces()[i]);
                    }
                }
                Err(Error::PieceNotFound)
            },
        }
    }
    /// Applies `action` to the board, or fails and leaves the board as it was.
    ///
    /// What the board holds after a success, and which error a failure gives,
    /// is what [`applies`] says.
    pub fn apply_action(&mut self, action: &Action) -> (step: Result<(), Error>)
        requires
            old(self).wf(),
            action@.fits(),
        ensures
            final(self).wf(),
            applies(old(self)@, action@, outcome_of(step, final(self)@)),
            step is Err ==> final(self).pieces() == old(self).pieces(),
    {
        let mut trial = self.clone();
        match trial.apply_steps(action) {
            Ok(()) => {
                *self = trial;
                Ok(())
            },
            Err(e) => Err(e),
        }
    }

    /// Undoes `action` on the board, or fails and leaves the board as it was.
    ///
    /// What the board holds after a success, and which error a failure gives,
    /// is what [`inverted`] says.
    pub fn undo_action(&mut self, action: &Action) -> (step: Result<(), Error>)
        requires
            old(self).wf(),
        ensures
            final(self).wf(),
            outcome_of(step, final(self)@) == inverted(old(self)@, action@),
            step is Err ==> final(self).pieces() == old(self).pieces(),
    {
        let mut trial = self.clone();
        match trial.undo_steps(action) {
            Ok(()) => {
                *self = trial;
                Ok(())
            },
            Err(e) => Err(e),
        }
    }

    /// Applies `action` in place, sub-action by sub-action. The first step
    /// that fails ends the call with its error; what earlier steps did stays.
    fn apply_steps(&mut self, action: &Action) -> (step: Result<(), Error>)
        requires
            old(self).wf(),
            action@.fits(),
        ensures
            final(self).wf(),
            applies(old(self)@, action@, outcome_of(step, final(self)@)),
        decreases action,
    {
        let ghost start = self@;
        match action {
            Action::Place(p) => self.place_piece(p),
            Action::Remove(p) => self.remove_piece(p),
            Action::Move(old, dx, dy) => {
                let dir = MoveDir::new(*dx, *dy);
                let mut new = old.clone();
                new.apply(Move::from(dir));
                match self.remove_piece(old) {
                    Ok(()) => self.place_piece(&new),
                    Err(e) => Err(e),
                }
            },
            Action::Upgrade(sacrifice, old) => {
                let mut new = old.clone();
                match new.upgrade(sacrifice) {
                    Ok(()) => {
                        let step = match self.remove_piece(old) {
                            Ok(()) => match self.remove_piece(sacrifice) {
                                Ok(()) => self.place_piece(&new),
                                Err(e) => Err(e),
                            },
                            Err(e) => Err(e),
                        };
                        assert(new@.is_upgrade_of(old@, sacrifice@) && outcome_of(step, self@)
                            == then_placed(then_removed(removed(start, old@), sacrifice@), new@));
                        step
                    },
                    Err(e) => Err(e),
                }
            },
            Action::Composite(Composite::Capture(c)) => {
                match self.apply_steps(&c.remove_action) {
                    Ok(()) => {
                        let ghost mid = Ok::<Layout, Error>(self@);
                        let step = self.apply_steps(&c.move_action);
                        assert(halfway(mid));
                        step
                    },
                    Err(e) => {
                        assert(halfway(Err::<Layout, Error>(e)));
                        Err(e)
                    },
                }
            },
        }
    }

    /// Undoes `action` in place, sub-action by sub-action in reverse. The
    /// first step that fails ends the call with its error; what earlier steps
    /// did stays.
    fn undo_steps(&mut self, action: &Action) -> (step: Result<(), Error>)
        requires
            old(self).wf(),
        ensures
            final(self).wf(),
            outcome_of(step, final(self)@) == inverted(old(self)@, action@),
        decreases action,
    {
        match action {
            Action::Place(p) => self.remove_piece(p),
            Action::Remove(p) => self.place_piece(p),
            Action::Move(old, dx, dy) => {
                let x: i64 = old.x as i64 + *dx as i64;
                let y: i64 = old.y as i64 + *dy as i64;
                if x < i32::MIN as i64 || x > i32::MAX as i64 || y < i32::MIN as i64 || y
                    > i32::MAX as i64 {
                    proof {
                        self.lemma_cells_representable();
                    }
                    return Err(Error::PieceNotFound);
                }
                let dir = MoveDir::new(*dx, *dy);
                let mut new = old.clone();
                new.apply(Move::from(dir));
                match self.remove_piece(&new) {
                    Ok(()) => self.place_piece(old),
                    Err(e) => Err(e),
                }
            },
            Action::Upgrade(sacrifice, old) => {
                match self.remove_piece_at(old.x(), old.y()) {
                    Ok(()) => match self.place_piece(old) {
                        Ok(()) => self.place_piece(sacrifice),
                        Err(e) => Err(e),
                    },
                    Err(e) => Err(e),
                }
            },
            Action::Composite(Composite::Capture(c)) => {
                match self.undo_steps(&c.move_action) {
                    Ok(()) => self.undo_steps(&c.remove_action),
                    Err(e) => Err(e),
                }
            },
        }
    }
}

impl Clone for Board {
    fn clone(&self) -> (copy: Self)
        ensures
            copy.pieces() == self.pieces(),
    {
        let mut pieces: Vec<Piece> = Vec::new();
        let mut i: usize = 0;
        while i < self.pieces.len()
            invariant
                i <= self.pieces.len(),
                pieces@.len() == i,
                forall|j: int| 0 <= j < i ==> (#[trigger] pieces@[j])@ == self.pieces@[j]@,
            decreases self.pieces.len() - i,
        {
            pieces.push(self.pieces[i].clone());
            i += 1;
        }
        let copy = Self { pieces };
        assert(copy.pieces() =~= self.pieces());
        copy
    }
}

/// Undoing an action on the layout that applying it left gives back the
/// layout from before, whatever a merge drew.
pub proof fn lemma_undo_reverts(layout: Layout, action: ActionView, after: Layout)
    requires
        applies(layout, action, Ok(after)),
    ensures
        inverted(after, action) == Ok::<Layout, Error>(layout),
    decreases action,
{
    match action {
        ActionView::Place(p) => {
            assert(after.remove(p.cell()) =~= layout);
        },
        ActionView::Remove(p) => {
            assert(after.insert(p.cell(), p) =~= layout);
        },
        ActionView::Move(p, dx, dy) => {
            let moved = p.displaced(dx, dy);
            let lifted = layout.remove(p.cell());
            assert(after.remove(moved.cell()) =~= lifted);
            assert(lifted.insert(p.cell(), p) =~= layout);
        },
        ActionView::Upgrade(sacrifice, target) => {
            let merged = choose|merged: PieceView|
                #[trigger] merged.is_upgrade_of(target, sacrifice) && Ok::<Layout, Error>(after)
                    == then_placed(then_removed(removed(layout, target), sacrifice), merged);
            let first = layout.remove(target.cell());
            let second = first.remove(sacrifice.cell());
            assert(after.remove(target.cell()) =~= second);
            assert(second.insert(target.cell(), target).insert(sacrifice.cell(), sacrifice)
                =~= layout);
        },
        ActionView::Capture(first, second) => {
            let mid = choose|mid: Result<Layout, Error>|
                #[trigger] halfway(mid) && applies(layout, *first, mid) && match mid {
                    Ok(between) => applies(between, *second, Ok(after)),
                    Err(e) => Ok::<Layout, Error>(after) == Err::<Layout, Error>(e),
                };
            let between = mid->Ok_0;
            lemma_undo_reverts(between, *second, after);
            lemma_undo_reverts(layout, *first, between);
        },
    }
}

/// Applying an action keeps every piece filed under its own cell.
pub proof fn lemma_applies_keeps_cells(layout: Layout, action: ActionView, after: Layout)
    requires
        cells_match(layout),
        applies(layout, action, Ok(after)),
    ensures
        cells_match(after),
    decreases action,
{
    match action {
        ActionView::Capture(first, second) => {
            let mid = choose|mid: Result<Layout, Error>|
                #[trigger] halfway(mid) && applies(layout, *first, mid) && match mid {
                    Ok(between) => applies(between, *second, Ok(after)),
                    Err(e) => Ok::<Layout, Error>(after) == Err::<Layout, Error>(e),
                };
            lemma_applies_keeps_cells(layout, *first, mid->Ok_0);
            lemma_applies_keeps_cells(mid->Ok_0, *second, after);
        },
        _ => {},
    }
}

/// Undoing an action keeps every piece filed under its own cell.
pub proof fn lemma_inverted_keeps_cells(layout: Layout, action: ActionView)
    requires
        cells_match(layout),
        inverted(layout, action) is Ok,
    ensures
        cells_match(inverted(layout, action)->Ok_0),
    decreases action,
{
    match action {
        ActionView::Capture(first, second) => {
            lemma_inverted_keeps_cells(layout, *second);
            lemma_inverted_keeps_cells(inverted(layout, *second)->Ok_0, *first);
        },
        _ => {},
    }
}

/// A cell is occupied in [`layout_of`] exactly if a piece of the sequence
/// stands on it; where no two share a cell, it holds that piece.
pub proof fn lemma_layout_of(ps: Seq<PieceView>)
    ensures
        forall|c: (int, int)| #[trigger]
            layout_of(ps).dom().contains(c) <==> exists|i: int|
                0 <= i < ps.len() && (#[trigger] ps[i]).cell() == c,
        cells_distinct(ps) ==> forall|i: int|
            0 <= i < ps.len() ==> layout_of(ps)[(#[trigger] ps[i]).cell()] == ps[i],
        cells_match(layout_of(ps)),
    decreases ps.len(),
{
    if ps.len() > 0 {
        let front = ps.drop_last();
        let last = ps.last();
        lemma_layout_of(front);
        assert forall|c: (int, int)| #[trigger] layout_of(ps).dom().contains(c) implies exists|i: int|
            0 <= i < ps.len() && (#[trigger] ps[i]).cell() == c by {
            if c == last.cell() {
                assert(ps[ps.len() - 1].cell() == c);
            } else {
                assert(layout_of(front).dom().contains(c));
                let i = choose|i: int| 0 <= i < front.len() && (#[trigger] front[i]).cell() == c;
                assert(ps[i].cell() == c);
            }
        }
        assert forall|c: (int, int)|
            (exists|i: int| 0 <= i < ps.len() && (#[trigger] ps[i]).cell() == c) implies #[trigger]
            layout_of(ps).dom().contains(c) by {
            let i = choose|i: int| 0 <= i < ps.len() && (#[trigger] ps[i]).cell() == c;
            if i < front.len() {
                assert(front[i].cell() == c);
                assert(layout_of(front).dom().contains(c));
            }
        }
        if cells_distinct(ps) {
            assert(cells_distinct(front)) by {
                assert forall|i: int, j: int| 0 <= i < j < front.len() implies (#[trigger] front[i]).cell()
                    != (#[trigger] front[j]).cell() by {
                    assert(ps[i].cell() != ps[j].cell());
                }
            }
            assert forall|i: int| 0 <= i < ps.len() implies layout_of(ps)[(#[trigger] ps[i]).cell()]
                == ps[i] by {
                if i < front.len() {
                    assert(front[i] == ps[i]);
                    assert(ps[i].cell() != ps[ps.len() - 1].cell());
                    assert(layout_of(front)[front[i].cell()] == front[i]);
                }
            }
        }
    }
}

/// Adding a piece on a free cell keeps the cells distinct and inserts the
/// piece into the layout.
pub proof fn lemma_layout_push(ps: Seq<PieceView>, p: PieceView)
    requires
        cells_distinct(ps),
        !layout_of(ps).dom().contains(p.cell()),
    ensures
        cells_distinct(ps.push(p)),
        layout_of(ps.push(p)) == layout_of(ps).insert(p.cell(), p),
{
    let qs = ps.push(p);
    lemma_layout_of(ps);
    assert(qs.drop_last() == ps);
    assert forall|i: int, j: int| 0 <= i < j < qs.len() implies (#[trigger] qs[i]).cell() != (
    #[trigger] qs[j]).cell() by {
        if j < ps.len() {
            assert(ps[i].cell() != ps[j].cell());
        } else {
            assert(ps[i].cell() != p.cell());
        }
    }
}

/// Taking out the piece at index `k` keeps the cells distinct and removes
/// its cell from the layout.
pub proof fn lemma_layout_remove(ps: Seq<PieceView>, k: int)
    requires
        cells_distinct(ps),
        0 <= k < ps.len(),
    ensures
        cells_distinct(ps.remove(k)),
        layout_of(ps.remove(k)) == layout_of(ps).remove(ps[k].cell()),
{
    let qs = ps.remove(k);
    assert forall|i: int, j: int| 0 <= i < j < qs.len() implies (#[trigger] qs[i]).cell() != (
    #[trigger] qs[j]).cell() by {
        let a = if i < k { i } else { i + 1 };
        let b = if j < k { j } else { j + 1 };
        assert(ps[a].cell() != ps[b].cell());
    }
    lemma_layout_of(ps);
    lemma_layout_of(qs);
    let left = layout_of(qs);
    let right = layout_of(ps).remove(ps[k].cell());
    assert forall|c: (int, int)| left.dom().contains(c) <==> right.dom().contains(c) by {
        if left.dom().contains(c) {
            let i = choose|i: int| 0 <= i < qs.len() && (#[trigger] qs[i]).cell() == c;
            let a = if i < k { i } else { i + 1 };
            assert(ps[a].cell() == c);
            if a < k {
                assert(ps[a].cell() != ps[k].cell());
            } else {
                assert(ps[k].cell() != ps[a].cell());
            }
        }
        if right.dom().contains(c) {
            let a = choose|a: int| 0 <= a < ps.len() && (#[trigger] ps[a]).cell() == c;
            let i = if a < k { a } else { a - 1 };
            assert(qs[i].cell() == c);
        }
    }
    assert forall|c: (int, int)| left.dom().contains(c) implies left[c] == right[c] by {
        let i = choose|i: int| 0 <= i < qs.len() && (#[trigger] qs[i]).cell() == c;
        let a = if i < k { i } else { i + 1 };
        assert(ps[a] == qs[i]);
        assert(left[qs[i].cell()] == qs[i]);
        assert(layout_of(ps)[ps[a].cell()] == ps[a]);
    }
    assert(left =~= right);
}

} // verus!
