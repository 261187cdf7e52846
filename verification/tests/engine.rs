use std::sync::Arc;

use chess_like::game::action::composite_vals::CaptureVal;
use chess_like::game::action::Action;
use chess_like::game::action::Composite;
use chess_like::game::board::Board;
use chess_like::game::error::Error;
use chess_like::game::pieces::Alliance;
use chess_like::game::pieces::MoveDirSet;
use chess_like::game::pieces::Piece;
use chess_like::game::Game;
use chess_like::game::Request;
use chess_like::game::Tile;

fn two_teams(budget: u32) -> Vec<Alliance> {
    vec![Alliance::new("red", budget), Alliance::new("blue", budget)]
}

fn leveled(x: u16, y: u16, team: usize, level: u32) -> Piece {
    let mut p = Piece::new(x, y, team);
    p.level = level;
    p
}

fn budgets(game: &Game) -> Vec<u32> {
    game.teams().iter().map(|t| t.pieces_left).collect()
}

fn snapshot(game: &Game) -> (Vec<Piece>, Vec<u32>, usize, usize) {
    let mut pieces = game.piece_list().clone();
    pieces.sort_by_key(|p| (p.x(), p.y()));
    (pieces, budgets(game), game.current_team(), game.history_len())
}

fn same_snapshot(a: &(Vec<Piece>, Vec<u32>, usize, usize), b: &(Vec<Piece>, Vec<u32>, usize, usize)) -> bool {
    a.0.len() == b.0.len() && a.0.iter().zip(b.0.iter()).all(|(p, q)| p == q) && a.1 == b.1
        && a.2 == b.2 && a.3 == b.3
}

fn capture(remove: Action, mv: Action) -> Action {
    Action::Composite(Composite::Capture(Arc::new(CaptureVal::from([remove, mv]))))
}

#[test]
fn new_game_has_three_teams_and_an_empty_board() {
    let game = Game::new(10, 10);
    assert_eq!(game.width(), 10);
    assert_eq!(game.height(), 10);
    assert_eq!(budgets(&game), vec![20, 22, 24]);
    assert_eq!(game.team(0).name, "Team 1");
    assert_eq!(game.team(1).name, "Team 2");
    assert_eq!(game.teams().len(), 3);
    assert_eq!(game.current_team(), 0);
    assert_eq!(game.history_len(), 0);
    assert!(game.piece_list().is_empty());
    assert!(game.piece_at(0, 0).is_none());
}

#[test]
fn place_reject_and_undo() {
    let mut game = Game::from_vec(10, 10, Vec::new(), two_teams(1));

    let action = game.place_intent(3, 3, 0).expect("team 0 may place");
    assert_eq!(game.commit(action), Ok(()));
    assert_eq!(budgets(&game), vec![0, 1]);
    assert_eq!(game.current_team(), 1);
    let placed = game.piece_at(3, 3).expect("a piece at (3, 3)");
    assert!(*placed == Piece::new(3, 3, 0));

    let before = snapshot(&game);
    match game.place_intent(3, 3, 1) {
        Err(e) => assert_eq!(e, Error::CellOccupied),
        Ok(_) => panic!("the cell is occupied"),
    }
    assert!(same_snapshot(&before, &snapshot(&game)));

    assert!(game.undo_last());
    assert!(game.piece_at(3, 3).is_none());
    assert!(game.piece_list().is_empty());
    assert_eq!(budgets(&game), vec![1, 1]);
    assert_eq!(game.current_team(), 0);
    assert_eq!(game.history_len(), 0);
}

#[test]
fn placement_without_budget_is_refused() {
    let mut game = Game::from_vec(10, 10, Vec::new(), two_teams(1));
    let action = game.place_intent(0, 0, 0).expect("team 0 may place");
    assert_eq!(game.commit(action), Ok(()));
    match game.place_intent(5, 5, 0) {
        Err(e) => assert_eq!(e, Error::PlacementBudgetExhausted),
        Ok(_) => panic!("team 0 has nothing left"),
    }
    match game.place_intent(0, 0, 0) {
        Err(e) => assert_eq!(e, Error::PlacementBudgetExhausted),
        Ok(_) => panic!("team 0 has nothing left"),
    }
    let before = snapshot(&game);
    assert_eq!(game.commit(Action::Place(Piece::new(5, 5, 0))), Err(Error::PlacementBudgetExhausted));
    assert!(same_snapshot(&before, &snapshot(&game)));
}

#[test]
fn diagonal_is_not_in_the_unit_moves() {
    let game = Game::from_vec(10, 10, vec![Piece::new(2, 2, 0)], two_teams(5));
    let piece = game.piece_at(2, 2).expect("a piece at (2, 2)");
    assert!(game.evaluate_intent(Some(piece), 3, 3, true).is_none());
    assert!(game.evaluate_intent(Some(piece), 2, 2, true).is_none());
    assert!(game.evaluate_intent(Some(piece), 4, 2, true).is_none());
    assert!(game.evaluate_intent(None, 3, 2, true).is_none());
}

#[test]
fn move_to_a_free_cell() {
    let mut game = Game::from_vec(10, 10, vec![Piece::new(2, 2, 0)], two_teams(5));
    let piece = game.piece_at(2, 2).expect("a piece at (2, 2)").clone();
    let action = game.evaluate_intent(Some(&piece), 2, 1, true).expect("a legal move");
    match &action {
        Action::Move(p, dx, dy) => {
            assert!(*p == piece);
            assert_eq!((*dx, *dy), (0, -1));
        },
        other => panic!("expected a move, got {:?}", other),
    }
    assert!(action.fits());
    assert_eq!(game.commit(action), Ok(()));
    assert!(game.piece_at(2, 2).is_none());
    assert!(*game.piece_at(2, 1).expect("the moved piece") == Piece::new(2, 1, 0));
    assert_eq!(game.current_team(), 1);
    assert_eq!(budgets(&game), vec![5, 5]);
    assert!(game.undo_last());
    assert!(*game.piece_at(2, 2).expect("the piece is back") == piece);
    assert!(game.piece_at(2, 1).is_none());
    assert_eq!(game.current_team(), 0);
}

#[test]
fn turn_restriction() {
    let game = Game::from_vec(10, 10, vec![Piece::new(2, 2, 1)], two_teams(5));
    let piece = game.piece_at(2, 2).expect("a piece at (2, 2)");
    assert!(game.evaluate_intent(Some(piece), 3, 2, true).is_none());
    assert!(game.evaluate_intent(Some(piece), 3, 2, false).is_some());
}

#[test]
fn capture_and_undo() {
    let attacker = leveled(0, 0, 0, 2);
    let mut defender = Piece::new(1, 0, 1);
    defender.poss_moves = MoveDirSet::from(vec![(3, 4), (-2, 7)]);
    let mut game = Game::from_vec(10, 10, vec![attacker.clone(), defender.clone()], two_teams(5));
    let start = snapshot(&game);

    let action = game.evaluate_intent(Some(&attacker), 1, 0, true).expect("a capture");
    match &action {
        Action::Composite(Composite::Capture(c)) => {
            match &c.remove_action {
                Action::Remove(p) => assert!(*p == defender),
                other => panic!("expected a removal, got {:?}", other),
            }
            match &c.move_action {
                Action::Move(p, dx, dy) => {
                    assert!(*p == attacker);
                    assert_eq!((*dx, *dy), (1, 0));
                },
                other => panic!("expected a move, got {:?}", other),
            }
        },
        other => panic!("expected a capture, got {:?}", other),
    }
    assert!(action.fits());

    assert_eq!(game.commit(action), Ok(()));
    assert_eq!(game.piece_list().len(), 1);
    assert!(game.piece_at(0, 0).is_none());
    let mut moved = attacker.clone();
    moved.x = 1;
    assert!(*game.piece_at(1, 0).expect("the attacker") == moved);
    assert_eq!(game.current_team(), 1);
    assert_eq!(game.history_len(), 1);

    assert!(game.undo_last());
    assert!(*game.piece_at(0, 0).expect("the attacker is back") == attacker);
    assert!(*game.piece_at(1, 0).expect("the defender is back") == defender);
    assert!(same_snapshot(&start, &snapshot(&game)));
}

#[test]
fn capture_needs_a_level_within_one() {
    let attacker = Piece::new(0, 0, 0);
    for (level, allowed) in [(1, true), (2, true), (3, false), (6, false), (u32::MAX, false)] {
        let defender = leveled(1, 0, 1, level);
        let game = Game::from_vec(10, 10, vec![attacker.clone(), defender], two_teams(5));
        let found = game.evaluate_intent(Some(&attacker), 1, 0, true);
        assert_eq!(found.is_some(), allowed, "defender of level {}", level);
        if let Some(action) = found {
            assert!(matches!(action, Action::Composite(_)));
        }
    }
    let strong = leveled(0, 0, 0, u32::MAX);
    let defender = leveled(1, 0, 1, u32::MAX);
    let game = Game::from_vec(10, 10, vec![strong.clone(), defender], two_teams(5));
    assert!(game.evaluate_intent(Some(&strong), 1, 0, true).is_some());
}

#[test]
fn upgrade_through_the_engine_and_undo() {
    let sacrifice = Piece::new(4, 4, 0);
    let target = Piece::new(5, 4, 0);
    let bystander = Piece::new(9, 9, 1);
    let mut game = Game::from_vec(
        10,
        10,
        vec![sacrifice.clone(), bystander.clone(), target.clone()],
        two_teams(5),
    );
    let start = snapshot(&game);

    let action = game.evaluate_intent(Some(&sacrifice), 5, 4, true).expect("an upgrade");
    match &action {
        Action::Upgrade(s, t) => {
            assert!(*s == sacrifice);
            assert!(*t == target);
        },
        other => panic!("expected an upgrade, got {:?}", other),
    }
    assert!(action.fits());
    assert_eq!(game.commit(action), Ok(()));
    assert_eq!(game.piece_list().len(), 2);
    assert!(game.piece_at(4, 4).is_none());
    let merged = game.piece_at(5, 4).expect("the merged piece");
    assert_eq!(merged.level(), 2);
    assert_eq!(merged.team(), 0);
    assert_eq!(merged.poss_moves.len(), 8);
    assert!(*game.piece_at(9, 9).expect("the bystander") == bystander);
    assert_eq!(game.current_team(), 1);

    assert!(game.undo_last());
    assert!(same_snapshot(&start, &snapshot(&game)));
}

#[test]
fn upgrade_beyond_the_cap_changes_nothing() {
    let sacrifice = leveled(4, 4, 0, 3);
    let target = leveled(5, 4, 0, 4);
    let mut game = Game::from_vec(10, 10, vec![sacrifice.clone(), target.clone()], two_teams(5));
    let start = snapshot(&game);
    let action = game.evaluate_intent(Some(&sacrifice), 5, 4, true).expect("an upgrade");
    assert!(action.fits());
    assert_eq!(game.commit(action), Err(Error::LevelTooHigh));
    assert!(same_snapshot(&start, &snapshot(&game)));
    assert!(!game.undo_last());
}

#[test]
fn upgrade_that_stalls_changes_nothing() {
    let mut sacrifice = Piece::new(4, 4, 0);
    sacrifice.poss_moves = MoveDirSet::from(vec![(1, 0)]);
    let mut target = Piece::new(5, 4, 0);
    target.poss_moves = MoveDirSet::from(vec![(-1, 0)]);
    let mut game = Game::from_vec(10, 10, vec![sacrifice.clone(), target.clone()], two_teams(5));
    let start = snapshot(&game);
    let action = game.evaluate_intent(Some(&sacrifice), 5, 4, true).expect("an upgrade");
    assert_eq!(game.commit(action), Err(Error::MergeStalled));
    assert!(same_snapshot(&start, &snapshot(&game)));
}

#[test]
fn structural_failures_are_reported_and_change_nothing() {
    let here = Piece::new(1, 1, 0);
    let there = Piece::new(2, 1, 1);
    let mut game = Game::from_vec(10, 10, vec![here.clone(), there.clone()], two_teams(5));
    let start = snapshot(&game);

    assert_eq!(game.commit(Action::Remove(Piece::new(7, 7, 0))), Err(Error::PieceNotFound));
    assert_eq!(game.commit(Action::Remove(Piece::new(1, 1, 1))), Err(Error::PieceNotFound));
    assert_eq!(game.commit(Action::Place(Piece::new(1, 1, 1))), Err(Error::CellOccupied));
    assert_eq!(game.commit(Action::Move(here.clone(), 1, 0)), Err(Error::CellOccupied));
    assert_eq!(game.commit(Action::Move(Piece::new(5, 5, 0), 1, 0)), Err(Error::PieceNotFound));
    assert_eq!(
        game.commit(capture(Action::Remove(there.clone()), Action::Move(Piece::new(5, 5, 0), 1, 0))),
        Err(Error::PieceNotFound)
    );
    assert_eq!(
        game.commit(Action::Upgrade(Piece::new(8, 8, 0), here.clone())),
        Err(Error::PieceNotFound)
    );
    assert!(same_snapshot(&start, &snapshot(&game)));
    assert_eq!(game.history_len(), 0);
}

#[test]
fn a_run_of_commits_is_undone_step_by_step() {
    let teams = vec![Alliance::new("a", 3), Alliance::new("b", 3), Alliance::new("c", 3)];
    let mut game = Game::from_vec(8, 8, vec![Piece::new(0, 0, 2)], teams);
    let mut snapshots = vec![snapshot(&game)];

    let place = game.place_intent(3, 3, 0).expect("a placement");
    assert_eq!(game.commit(place), Ok(()));
    snapshots.push(snapshot(&game));

    let place = game.place_intent(4, 3, 1).expect("a placement");
    assert_eq!(game.commit(place), Ok(()));
    snapshots.push(snapshot(&game));

    let walker = game.piece_at(0, 0).expect("the first piece").clone();
    let walk = game.evaluate_intent(Some(&walker), 1, 0, true).expect("a move");
    assert_eq!(game.commit(walk), Ok(()));
    snapshots.push(snapshot(&game));

    let attacker = game.piece_at(3, 3).expect("the piece of team 0").clone();
    let take = game.evaluate_intent(Some(&attacker), 4, 3, true).expect("a capture");
    assert_eq!(game.commit(take), Ok(()));
    snapshots.push(snapshot(&game));

    let place = game.place_intent(4, 4, 1).expect("a placement");
    assert_eq!(game.commit(place), Ok(()));
    snapshots.push(snapshot(&game));

    let friend = Piece::new(4, 4, 1);
    assert_eq!(game.commit(Action::Place(Piece::new(5, 4, 1))), Ok(()));
    snapshots.push(snapshot(&game));
    let merge = game.evaluate_intent(Some(&friend), 5, 4, false).expect("an upgrade");
    assert_eq!(game.commit(merge), Ok(()));

    assert_eq!(game.history_len(), 7);
    assert_eq!(game.current_team(), 7 % 3);
    assert_eq!(budgets(&game), vec![2, 0, 3]);

    while let Some(expected) = snapshots.pop() {
        assert!(game.undo_last());
        assert!(same_snapshot(&expected, &snapshot(&game)));
    }
    assert!(!game.undo_last());
    assert_eq!(game.current_team(), 0);
    assert_eq!(budgets(&game), vec![3, 3, 3]);
}

#[test]
fn budget_moves_only_with_placements() {
    let mut game = Game::from_vec(8, 8, vec![Piece::new(0, 0, 0)], two_teams(2));
    let walker = Piece::new(0, 0, 0);
    let walk = game.evaluate_intent(Some(&walker), 0, 1, true).expect("a move");
    assert_eq!(game.commit(walk), Ok(()));
    assert_eq!(budgets(&game), vec![2, 2]);
    let place = game.place_intent(5, 5, 1).expect("a placement");
    assert_eq!(game.commit(place), Ok(()));
    assert_eq!(budgets(&game), vec![2, 1]);
    assert!(game.undo_last());
    assert_eq!(budgets(&game), vec![2, 2]);
    assert!(game.undo_last());
    assert_eq!(budgets(&game), vec![2, 2]);
}

#[test]
fn no_two_pieces_share_a_cell_after_commits_and_undos() {
    let mut game = Game::from_vec(8, 8, Vec::new(), two_teams(10));
    let cells = [(1, 1), (1, 2), (1, 1), (2, 2), (1, 2), (3, 3)];
    for (k, (x, y)) in cells.iter().enumerate() {
        if let Ok(action) = game.place_intent(*x, *y, k % 2) {
            assert_eq!(game.commit(action), Ok(()));
        }
        if k == 3 {
            assert!(game.undo_last());
        }
        let pieces = game.piece_list();
        for i in 0..pieces.len() {
            for j in 0..i {
                assert!((pieces[i].x(), pieces[i].y()) != (pieces[j].x(), pieces[j].y()));
            }
        }
    }
    assert_eq!(game.piece_list().len(), 3);
}

#[test]
fn far_cells_hold_no_piece_and_are_not_reached() {
    let game = Game::from_vec(8, 8, vec![Piece::new(0, 0, 0)], two_teams(2));
    assert!(game.piece_at(u32::MAX, 0).is_none());
    assert!(game.piece_at(0, u32::MAX).is_none());
    let piece = Piece::new(0, 0, 0);
    assert!(game.evaluate_intent(Some(&piece), u32::MAX, 0, false).is_none());
}

#[test]
fn action_fits_tells_overflow() {
    let edge = Piece::at(i32::MAX, 0, 0);
    assert!(!Action::Move(edge.clone(), 1, 0).fits());
    assert!(Action::Move(edge.clone(), -1, 0).fits());
    assert!(!Action::Move(Piece::at(0, i32::MIN, 0), 0, -1).fits());
    assert!(Action::Place(edge.clone()).fits());
    assert!(Action::Remove(edge.clone()).fits());
    assert!(!capture(Action::Remove(edge.clone()), Action::Move(edge.clone(), 1, 0)).fits());
    assert!(capture(Action::Remove(edge.clone()), Action::Move(edge.clone(), 0, 1)).fits());

    let mut far = Piece::new(0, 0, 0);
    far.poss_moves = MoveDirSet::from(vec![(i32::MAX, 0)]);
    let near = Piece::new(1, 0, 0);
    assert!(!Action::Upgrade(near.clone(), far.clone()).fits());
    let mut high = far.clone();
    high.level = 6;
    assert!(Action::Upgrade(near.clone(), high).fits());
    assert!(Action::Upgrade(near.clone(), near.clone()).fits());
}

#[test]
fn capture_val_from_two_actions() {
    let remove = Action::Remove(Piece::new(1, 0, 1));
    let mv = Action::Move(Piece::new(0, 0, 0), 1, 0);
    let val = CaptureVal::from([remove, mv]);
    assert!(matches!(&val.remove_action, Action::Remove(p) if *p == Piece::new(1, 0, 1)));
    assert!(matches!(&val.move_action, Action::Move(p, 1, 0) if *p == Piece::new(0, 0, 0)));
    let copy = val.clone();
    assert!(matches!(&copy.remove_action, Action::Remove(p) if *p == Piece::new(1, 0, 1)));
    assert!(matches!(&copy.move_action, Action::Move(p, 1, 0) if *p == Piece::new(0, 0, 0)));
}

#[test]
fn board_steps() {
    let mut board = Board::new();
    let p = Piece::new(1, 1, 0);
    assert_eq!(board.place_piece(&p), Ok(()));
    assert_eq!(board.place_piece(&Piece::new(1, 1, 1)), Err(Error::CellOccupied));
    assert!(*board.get_piece(1, 1).expect("the piece") == p);
    assert!(board.get_piece(1, 2).is_none());
    assert_eq!(board.remove_piece(&Piece::new(1, 1, 1)), Err(Error::PieceNotFound));
    assert_eq!(board.remove_piece_at(2, 2), Err(Error::PieceNotFound));
    assert_eq!(board.piece_list().len(), 1);
    assert_eq!(board.remove_piece(&p), Ok(()));
    assert!(board.piece_list().is_empty());
    assert_eq!(board.place_piece(&p), Ok(()));
    assert_eq!(board.remove_piece_at(1, 1), Ok(()));
    assert!(board.piece_list().is_empty());

    let action = Action::Move(p.clone(), 2, 3);
    assert_eq!(board.apply_action(&Action::Place(p.clone())), Ok(()));
    assert_eq!(board.apply_action(&action), Ok(()));
    assert!(*board.get_piece(3, 4).expect("the moved piece") == Piece::new(3, 4, 0));
    assert_eq!(board.undo_action(&action), Ok(()));
    assert!(*board.get_piece(1, 1).expect("the piece is back") == p);
    assert_eq!(board.undo_action(&action), Err(Error::PieceNotFound));
    assert_eq!(board.undo_action(&Action::Move(Piece::at(i32::MAX, 0, 0), 1, 0)), Err(Error::PieceNotFound));
}

#[test]
fn tiles() {
    let own = Piece::new(2, 2, 0);
    let friend = Piece::new(3, 2, 0);
    let enemy = Piece::new(2, 3, 1);
    let game = Game::from_vec(8, 8, vec![own.clone(), friend, enemy], two_teams(2));
    let sel = Some((2, 2));
    assert_eq!(game.tile_kind(sel, 2, 2, Some(&own)), Tile::Selected);
    assert_eq!(game.tile_kind(sel, 1, 2, Some(&own)), Tile::Move);
    assert_eq!(game.tile_kind(sel, 2, 1, Some(&own)), Tile::Move);
    assert_eq!(game.tile_kind(sel, 3, 2, Some(&own)), Tile::Upgrade);
    assert_eq!(game.tile_kind(sel, 2, 3, Some(&own)), Tile::Capture);
    assert_eq!(game.tile_kind(sel, 3, 3, Some(&own)), Tile::Light);
    assert_eq!(game.tile_kind(sel, 4, 3, Some(&own)), Tile::Dark);
    assert_eq!(game.tile_kind(None, 2, 2, None), Tile::Light);
    assert_eq!(game.tile_kind(None, 1, 2, None), Tile::Dark);
    assert_eq!(game.tile_kind(None, u32::MAX, u32::MAX, None), Tile::Light);
    assert_eq!(game.tile_kind(None, u32::MAX, 0, None), Tile::Dark);
}

#[test]
fn click_with_another_button_clears_the_selection() {
    let game = Game::from_vec(8, 8, vec![Piece::new(2, 2, 0)], two_teams(2));
    let (request, selected) = game.click(Some((2, 2)), false, 2, 3);
    assert!(matches!(request, Request::Nothing));
    assert_eq!(selected, None);
    let (request, selected) = game.click(None, false, 2, 2);
    assert!(matches!(request, Request::Nothing));
    assert_eq!(selected, None);
}

#[test]
fn click_on_the_selected_cell_asks_for_a_placement() {
    let mut game = Game::from_vec(8, 8, vec![Piece::new(2, 2, 0)], two_teams(1));
    let (request, selected) = game.click(Some((4, 4)), true, 4, 4);
    assert_eq!(selected, Some((4, 4)));
    match request {
        Request::Commit(Action::Place(p)) => {
            assert!(p == Piece::new(4, 4, 0));
            assert_eq!(game.commit(Action::Place(p)), Ok(()));
        },
        other => panic!("expected a placement, got {:?}", other),
    }
    assert_eq!(game.current_team(), 1);
    let (request, selected) = game.click(Some((2, 2)), true, 2, 2);
    assert_eq!(selected, Some((2, 2)));
    assert!(matches!(request, Request::Refused(Error::CellOccupied)));

    let place = game.place_intent(0, 0, 1).expect("a placement");
    assert_eq!(game.commit(place), Ok(()));
    assert_eq!(game.current_team(), 0);
    let (request, selected) = game.click(Some((6, 6)), true, 6, 6);
    assert_eq!(selected, Some((6, 6)));
    assert!(matches!(request, Request::Refused(Error::PlacementBudgetExhausted)));
}

#[test]
fn click_elsewhere_moves_the_selected_piece_or_selects() {
    let game = Game::from_vec(
        8,
        8,
        vec![Piece::new(2, 2, 0), Piece::new(5, 5, 1), Piece::new(2, 3, 1)],
        two_teams(2),
    );
    let (request, selected) = game.click(Some((2, 2)), true, 3, 2);
    assert_eq!(selected, None);
    assert!(matches!(request, Request::Commit(Action::Move(p, 1, 0)) if p == Piece::new(2, 2, 0)));

    let (request, selected) = game.click(Some((2, 2)), true, 2, 3);
    assert_eq!(selected, None);
    assert!(matches!(request, Request::Commit(Action::Composite(_))));

    let (request, selected) = game.click(Some((2, 2)), true, 3, 3);
    assert_eq!(selected, Some((3, 3)));
    assert!(matches!(request, Request::Nothing));

    let (request, selected) = game.click(Some((5, 5)), true, 5, 6);
    assert_eq!(selected, Some((5, 6)));
    assert!(matches!(request, Request::Nothing));

    let (request, selected) = game.click(Some((7, 7)), true, 7, 6);
    assert_eq!(selected, Some((7, 6)));
    assert!(matches!(request, Request::Nothing));

    let (request, selected) = game.click(None, true, 2, 2);
    assert_eq!(selected, Some((2, 2)));
    assert!(matches!(request, Request::Nothing));
}
