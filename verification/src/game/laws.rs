//! What holds of every game, proved from the definitions of the rules.

use vstd::prelude::*;
use crate::game::action::ActionView;
use crate::game::board::applies;
use crate::game::board::halfway;
use crate::game::board::lemma_applies_keeps_cells;
use crate::game::board::lemma_inverted_keeps_cells;
use crate::game::board::lemma_undo_reverts;
use crate::game::error::Error;
use crate::game::pieces::PieceView;
use crate::game::board::Layout;
use crate::game::refunded;
use crate::game::GameView;

verus! {

/// Undoing a committed action gives back the game from before the commit:
/// its layout, what every team may still place, the turn and the history.
/// The game after the commit is well-formed again.
pub proof fn lemma_undo_reverts_commit(before: GameView, action: ActionView, after: GameView)
    requires
        before.wf(),
        before.commits(action, after),
    ensures
        after.wf(),
        after.undone() == before,
{
    let n = before.teams.len() as int;
    lemma_undo_reverts(before.layout, action, after.layout);
    lemma_applies_keeps_cells(before.layout, action, after.layout);
    assert(after.history.drop_last() =~= before.history);
    assert(after.history.last() == action);
    assert(refunded(after.teams, action) =~= before.teams);
    assert(after.teams.len() == before.teams.len());
    if before.turn + 1 == n {
        vstd::arithmetic::div_mod::lemma_mod_self_0(n);
        vstd::arithmetic::div_mod::lemma_small_mod((n - 1) as nat, n as nat);
    } else {
        vstd::arithmetic::div_mod::lemma_small_mod((before.turn + 1) as nat, n as nat);
        vstd::arithmetic::div_mod::lemma_mod_add_multiples_vanish(before.turn as int, n);
        vstd::arithmetic::div_mod::lemma_small_mod(before.turn, n as nat);
    }
    assert(after.previous_turn() == before.turn);
    assert(after.turn < after.teams.len()) by {
        vstd::arithmetic::div_mod::lemma_mod_bound((before.turn + 1) as int, n);
    }
}

/// After any run of commits, as many undos as there were commits give back
/// the game from before the run: `states[i + 1]` is what committing
/// `actions[i]` made of `states[i]`.
pub proof fn lemma_undo_reverts_commits(states: Seq<GameView>, actions: Seq<ActionView>)
    requires
        states.len() == actions.len() + 1,
        states[0].wf(),
        forall|i: int|
            0 <= i < actions.len() ==> (#[trigger] states[i]).commits(actions[i], states[i + 1]),
    ensures
        states.last().wf(),
        states.last().undone_times(actions.len()) == states[0],
    decreases actions.len(),
{
    if actions.len() > 0 {
        let n = actions.len() as int;
        let front_states = states.drop_last();
        let front_actions = actions.drop_last();
        assert forall|i: int| 0 <= i < front_actions.len() implies (#[trigger] front_states[i]).commits(
            front_actions[i],
            front_states[i + 1],
        ) by {
            assert(states[i].commits(actions[i], states[i + 1]));
        }
        lemma_undo_reverts_commits(front_states, front_actions);
        assert(front_states.last() == states[n - 1]);
        assert(states[n - 1].commits(actions[n - 1], states[n]));
        lemma_undo_reverts_commit(states[n - 1], actions[n - 1], states[n]);
    }
}

/// A commit changes what a team may still place only if it commits a
/// `Place` of that team, which had a piece left and has one less after.
pub proof fn lemma_budget_after_commit(
    before: GameView,
    action: ActionView,
    after: GameView,
    team: int,
)
    requires
        before.commits(action, after),
        0 <= team < before.teams.len(),
    ensures
        after.teams.len() == before.teams.len(),
        after.teams[team].name == before.teams[team].name,
        action matches ActionView::Place(p) && p.team == team ==> before.teams[team].pieces_left > 0
            && after.teams[team].pieces_left == before.teams[team].pieces_left - 1,
        !(action matches ActionView::Place(p) && p.team == team) ==> after.teams[team].pieces_left
            == before.teams[team].pieces_left,
{
}

/// An undo changes what a team may still place only if it undoes a `Place`
/// of that team, which has one more after.
pub proof fn lemma_budget_after_undo(game: GameView, team: int)
    requires
        game.wf(),
        0 <= team < game.teams.len(),
    ensures
        game.undone().teams.len() == game.teams.len(),
        game.undone().teams[team].name == game.teams[team].name,
        game.history.len() > 0 && (game.history.last() matches ActionView::Place(p) && p.team
            == team) ==> game.undone().teams[team].pieces_left == game.teams[team].pieces_left + 1,
        !(game.history.len() > 0 && (game.history.last() matches ActionView::Place(p) && p.team
            == team)) ==> game.undone().teams[team].pieces_left == game.teams[team].pieces_left,
{
}

/// The game that an undo leaves is well-formed.
pub proof fn lemma_undone_wf(game: GameView)
    requires
        game.wf(),
    ensures
        game.undone().wf(),
{
    if game.history.len() > 0 {
        let n = game.teams.len() as int;
        vstd::arithmetic::div_mod::lemma_mod_bound((game.turn + n - 1) as int, n);
        lemma_inverted_keeps_cells(game.layout, game.history.last());
    }
}

/// No capture is intended by a piece that is more than one level below the
/// occupant of the cell.
pub proof fn lemma_capture_needs_level(
    game: GameView,
    selected: Option<PieceView>,
    x: int,
    y: int,
    turn_restricted: bool,
)
    ensures
        game.intent(selected, x, y, turn_restricted) matches Some(ActionView::Capture(_, _)) ==> {
            &&& selected matches Some(p)
            &&& game.layout.dom().contains((x, y))
            &&& p.level + 1 >= game.layout[(x, y)].level
            &&& p.team != game.layout[(x, y)].team
        },
{
}

/// A placement that was asked for and granted is not refused when it is
/// committed.
pub proof fn lemma_placement_is_committed(game: GameView, x: int, y: int, team: nat, e: Error)
    requires
        team < game.teams.len(),
        game.placement(x, y, team) is Ok,
    ensures
        !game.refuses(game.placement(x, y, team)->Ok_0, e),
{
}

/// A move or a capture that was intended for a piece on the board is not
/// refused when it is committed.
pub proof fn lemma_intended_move_is_committed(
    game: GameView,
    p: PieceView,
    x: int,
    y: int,
    turn_restricted: bool,
    e: Error,
)
    requires
        game.wf(),
        game.layout.dom().contains(p.cell()),
        game.layout[p.cell()] == p,
        game.intent(Some(p), x, y, turn_restricted) matches Some(action) && !(action is Upgrade),
    ensures
        !game.refuses(game.intent(Some(p), x, y, turn_restricted)->Some_0, e),
{
    let action = game.intent(Some(p), x, y, turn_restricted)->Some_0;
    reveal_with_fuel(applies, 2);
    if let ActionView::Capture(first, second) = action {
        if applies(game.layout, action, Err(e)) {
            let mid = choose|mid: Result<Layout, Error>|
                #[trigger] halfway(mid) && applies(game.layout, *first, mid) && match mid {
                    Ok(between) => applies(between, *second, Err::<Layout, Error>(e)),
                    Err(f) => Err::<Layout, Error>(e) == Err::<Layout, Error>(f),
                };
            assert(mid is Ok);
        }
    }
}

} // verus!
