use chess_like::game::error::Error;
use chess_like::game::pieces::Alliance;
use chess_like::game::pieces::Move;
use chess_like::game::pieces::MoveDir;
use chess_like::game::pieces::MoveDirSet;
use chess_like::game::pieces::MoveDirSetIterator;
use chess_like::game::pieces::Piece;
use chess_like::game::pieces::MAX_LEVEL;

fn collect(set: &MoveDirSet) -> Vec<(i32, i32)> {
    let mut out = Vec::new();
    let mut iter = set.clone().into_iter();
    while let Some(dir) = iter.next() {
        out.push((dir.dx(), dir.dy()));
    }
    out
}

#[test]
fn new() {
    let p = Piece::new(3, 1, 0);

    assert_eq!(p.x(), 3);
    assert_eq!(p.y(), 1);
}

#[test]
fn new_piece_has_level_one_and_unit_moves() {
    let p = Piece::new(7, 9, 2);
    assert_eq!(p.team(), 2);
    assert_eq!(p.level(), 1);
    assert_eq!(collect(&p.poss_moves), vec![(1, 0), (-1, 0), (0, 1), (0, -1)]);
}

#[test]
fn piece_at_any_cell() {
    let p = Piece::at(-5, 70000, 1);
    assert_eq!((p.x(), p.y(), p.team(), p.level()), (-5, 70000, 1, 1));
    assert_eq!(collect(&p.poss_moves), vec![(1, 0), (-1, 0), (0, 1), (0, -1)]);
}

#[test]
fn move_dir_getters_and_sum() {
    let a = MoveDir::new(2, -3);
    assert_eq!(a.dx(), 2);
    assert_eq!(a.dy(), -3);
    let b = MoveDir::new(-7, 10);
    assert_eq!(a + b, MoveDir::new(-5, 7));
    assert_eq!(MoveDir::new(1, 0) + MoveDir::new(-1, 0), MoveDir::new(0, 0));
}

#[test]
fn move_from_direction() {
    let m = Move::from(MoveDir::new(4, -1));
    assert_eq!((m.dx, m.dy), (4, -1));
}

#[test]
fn apply_displaces_the_piece() {
    let mut p = Piece::new(2, 2, 0);
    p.apply(Move::from(MoveDir::new(-1, 3)));
    assert_eq!((p.x(), p.y()), (1, 5));
    assert_eq!(p.team(), 0);
    assert_eq!(p.level(), 1);
}

#[test]
fn empty_set() {
    let set = MoveDirSet::new();
    assert_eq!(set.len(), 0);
    assert!(!set.contains(MoveDir::new(1, 0)));
}

#[test]
fn insertion_keeps_order_and_drops_duplicates_and_zero() {
    let set = MoveDirSet::new() << MoveDir::new(1, 2) << MoveDir::new(0, 0) << MoveDir::new(3, 4)
        << MoveDir::new(1, 2) << MoveDir::new(-1, 0);
    assert_eq!(collect(&set), vec![(1, 2), (3, 4), (-1, 0)]);
    assert_eq!(set.len(), 3);
    assert!(set.contains(MoveDir::new(3, 4)));
    assert!(!set.contains(MoveDir::new(0, 0)));
    assert!(!set.contains(MoveDir::new(4, 3)));
}

#[test]
fn set_from_pairs() {
    let set = MoveDirSet::from(vec![(1, 0), (1, 0), (0, 0), (0, 1), (1, 0), (5, 5)]);
    assert_eq!(collect(&set), vec![(1, 0), (0, 1), (5, 5)]);
    assert_eq!(set[0], MoveDir::new(1, 0));
    assert_eq!(set[2], MoveDir::new(5, 5));
}

#[test]
fn set_equality_is_by_content_and_order() {
    let a = MoveDirSet::from(vec![(1, 0), (0, 1)]);
    let b = MoveDirSet::from(vec![(1, 0), (0, 1), (1, 0)]);
    let c = MoveDirSet::from(vec![(0, 1), (1, 0)]);
    assert!(a == b);
    assert!(a != c);
    assert!(a != MoveDirSet::new());
}

#[test]
fn iterator_walks_in_insertion_order_and_stays_finished() {
    let set = MoveDirSet::from(vec![(2, 0), (0, 2)]);
    let mut iter = MoveDirSetIterator::new(set);
    assert_eq!(iter.next(), Some(MoveDir::new(2, 0)));
    assert_eq!(iter.next(), Some(MoveDir::new(0, 2)));
    assert_eq!(iter.next(), None);
    assert_eq!(iter.next(), None);
}

#[test]
fn candidates_are_fresh_non_zero_sums_in_base_order() {
    let base = MoveDirSet::from(vec![(1, 0), (-1, 0), (0, 1), (0, -1)]);
    let found = base.candidates(&base, MoveDir::new(1, 0));
    assert_eq!(found, vec![MoveDir::new(2, 0), MoveDir::new(1, 1), MoveDir::new(1, -1)]);

    let taken = base.clone() << MoveDir::new(1, 1);
    let found = base.candidates(&taken, MoveDir::new(1, 0));
    assert_eq!(found, vec![MoveDir::new(2, 0), MoveDir::new(1, -1)]);

    let lone = MoveDirSet::from(vec![(1, 0)]);
    assert_eq!(lone.candidates(&lone, MoveDir::new(-1, 0)), vec![]);
    assert_eq!(lone.candidates(&lone, MoveDir::new(0, 0)), vec![]);
}

#[test]
fn sums_fit_tells_overflow() {
    let big = MoveDirSet::from(vec![(i32::MAX, 0)]);
    let one = MoveDirSet::from(vec![(1, 0)]);
    let back = MoveDirSet::from(vec![(-1, 0), (0, i32::MIN)]);
    assert!(!big.sums_fit(&one));
    assert!(!one.sums_fit(&big));
    assert!(big.sums_fit(&back));
    assert!(one.sums_fit(&one));
    assert!(big.sums_fit(&MoveDirSet::new()));
    let low = MoveDirSet::from(vec![(0, -1)]);
    assert!(!low.sums_fit(&back));
}

fn assert_is_merge(base: &[(i32, i32)], other: &[(i32, i32)], merged: &[(i32, i32)]) {
    assert_eq!(merged.len(), base.len() + other.len());
    assert_eq!(&merged[..base.len()], base);
    for (k, om) in other.iter().enumerate() {
        let tm = merged[base.len() + k];
        assert_ne!(tm, (0, 0));
        assert!(!merged[..base.len() + k].contains(&tm));
        assert!(base.iter().any(|pm| (om.0 + pm.0, om.1 + pm.1) == tm));
    }
}

#[test]
fn try_merge_of_fresh_sets() {
    let unit = vec![(1, 0), (-1, 0), (0, 1), (0, -1)];
    let base = MoveDirSet::from(unit.clone());
    for _ in 0..200 {
        let merged = base.try_merge(&base).expect("two fresh sets always merge");
        assert_is_merge(&unit, &unit, &collect(&merged));
    }
}

#[test]
fn try_merge_stalls_without_candidates() {
    let base = MoveDirSet::from(vec![(1, 0)]);
    let other = MoveDirSet::from(vec![(-1, 0)]);
    assert!(base.try_merge(&other).is_none());
}

#[test]
fn try_merge_with_nothing_keeps_the_set() {
    let base = MoveDirSet::from(vec![(1, 0), (0, 3)]);
    let merged = base.try_merge(&MoveDirSet::new()).expect("nothing to contribute");
    assert!(merged == base);
}

#[test]
fn upgrade_adds_levels_and_merges_moves() {
    let unit = vec![(1, 0), (-1, 0), (0, 1), (0, -1)];
    for _ in 0..100 {
        let mut a = Piece::new(4, 5, 1);
        let b = Piece::new(5, 5, 1);
        assert_eq!(a.upgrade(&b), Ok(()));
        assert_eq!(a.level(), 2);
        assert_eq!((a.x(), a.y(), a.team()), (4, 5, 1));
        assert_is_merge(&unit, &unit, &collect(&a.poss_moves));
        assert_eq!((b.x(), b.y(), b.level()), (5, 5, 1));
    }
}

#[test]
fn upgrade_up_to_the_level_cap() {
    let mut a = Piece::new(0, 0, 0);
    a.level = 3;
    let mut b = Piece::new(1, 0, 0);
    b.level = 3;
    assert_eq!(a.upgrade(&b), Ok(()));
    assert_eq!(a.level(), MAX_LEVEL);
    assert_eq!(a.poss_moves.len(), 8);
}

#[test]
fn upgrade_beyond_the_level_cap_fails() {
    let mut a = Piece::new(0, 0, 0);
    a.level = 4;
    let mut b = Piece::new(1, 0, 0);
    b.level = 3;
    let before = a.clone();
    assert_eq!(a.upgrade(&b), Err(Error::LevelTooHigh));
    assert!(a == before);

    let mut c = Piece::new(0, 0, 0);
    c.level = u32::MAX;
    let mut d = Piece::new(1, 0, 0);
    d.level = u32::MAX;
    assert_eq!(c.upgrade(&d), Err(Error::LevelTooHigh));
    assert_eq!(c.level(), u32::MAX);
}

#[test]
fn upgrade_that_cannot_merge_stalls_and_leaves_the_piece() {
    let mut a = Piece::new(0, 0, 0);
    a.poss_moves = MoveDirSet::from(vec![(1, 0)]);
    let mut b = Piece::new(1, 0, 0);
    b.poss_moves = MoveDirSet::from(vec![(-1, 0)]);
    let before = a.clone();
    assert_eq!(a.upgrade(&b), Err(Error::MergeStalled));
    assert!(a == before);
}

#[test]
fn can_move_is_membership() {
    let p = Piece::new(2, 2, 0);
    assert!(p.can_move(MoveDir::new(1, 0)));
    assert!(p.can_move(MoveDir::new(0, -1)));
    assert!(!p.can_move(MoveDir::new(1, 1)));
    assert!(!p.can_move(MoveDir::new(0, 0)));
    assert!(!p.can_move(MoveDir::new(2, 0)));
}

#[test]
fn piece_equality_is_structural() {
    let a = Piece::new(1, 2, 0);
    assert!(a == a.clone());
    assert!(a != Piece::new(2, 1, 0));
    assert!(a != Piece::new(1, 2, 1));
    let mut b = a.clone();
    b.level = 2;
    assert!(a != b);
    let mut c = a.clone();
    c.poss_moves = c.poss_moves << MoveDir::new(2, 2);
    assert!(a != c);
}

#[test]
fn alliance_holds_name_and_budget() {
    let team = Alliance::new("Team 1", 20);
    assert_eq!(team.name, "Team 1");
    assert_eq!(team.pieces_left, 20);
    assert!(team == team.clone());
    assert!(team != Alliance::new("Team 1", 19));
    assert!(team != Alliance::new("Team 2", 20));
}

#[test]
fn error_messages() {
    assert_eq!(Error::LevelTooHigh.message(), "that level is too high to control");
    assert_eq!(Error::MergeStalled.message(), "these capabilities cannot be merged");
    assert_eq!(Error::PlacementBudgetExhausted.message(), "cannot place any more pieces");
    assert_eq!(Error::CellOccupied.message(), "cannot place on top of another piece");
    assert_eq!(Error::PieceNotFound.message(), "piece does not exist in this game");
}
