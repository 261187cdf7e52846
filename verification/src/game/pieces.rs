//! Pieces, teams and the algebra of movement directions.

use vstd::prelude::*;
use vstd::std_specs::cmp::PartialEqSpecImpl;
use std::ops::Add;
use std::ops::Index;
use std::ops::Shl;
use rand::Rng;
use crate::game::error::Error;

verus! {

/// A relative displacement on the grid.
#[derive(Debug, Clone, Copy, PartialEq, Eq, Structural)]
pub struct MoveDir {
    pub dx: i32,
    pub dy: i32,
}

impl MoveDir {
    pub fn new(dx: i32, dy: i32) -> (dir: Self)
        ensures
            dir == (MoveDir { dx, dy }),
    {
        Self { dx, dy }
    }

    pub fn dx(&self) -> (dx: i32)
        ensures
            dx == self.dx,
    {
        self.dx
    }

    pub fn dy(&self) -> (dy: i32)
        ensures
            dy == self.dy,
    {
        self.dy
    }

    /// Whether this is the displacement that moves nowhere.
    pub open spec fn is_zero(self) -> bool {
        self.dx == 0 && self.dy == 0
    }
}

/// Component-wise sum. Both components of the sum must be representable.
impl Add for MoveDir {
    type Output = MoveDir;

    fn add(self, other: MoveDir) -> (sum: MoveDir) {
        MoveDir::new(self.dx + other.dx, self.dy + other.dy)
    }
}

impl vstd::std_specs::ops::AddSpecImpl for MoveDir {
    open spec fn obeys_add_spec() -> bool {
        true
    }

    open spec fn add_req(self, other: MoveDir) -> bool {
        sum_fits(self, other)
    }

    open spec fn add_spec(self, other: MoveDir) -> MoveDir {
        sum(self, other)
    }
}

/// Whether both components of `a + b` are representable.
pub open spec fn sum_fits(a: MoveDir, b: MoveDir) -> bool {
    &&& i32::MIN <= a.dx + b.dx <= i32::MAX
    &&& i32::MIN <= a.dy + b.dy <= i32::MAX
}

/// The component-wise sum of `a` and `b`.
pub open spec fn sum(a: MoveDir, b: MoveDir) -> MoveDir {
    MoveDir { dx: (a.dx + b.dx) as i32, dy: (a.dy + b.dy) as i32 }
}

/// No vector occurs twice and none is the zero vector.
pub open spec fn is_direction_set(s: Seq<MoveDir>) -> bool {
    &&& s.no_duplicates()
    &&& forall|i: int| 0 <= i < s.len() ==> !(#[trigger] s[i]).is_zero()
}

/// `s` after an attempt to insert `dir`: a duplicate and the zero vector are dropped.
pub open spec fn inserted(s: Seq<MoveDir>, dir: MoveDir) -> Seq<MoveDir> {
    if s.contains(dir) || dir.is_zero() {
        s
    } else {
        s.push(dir)
    }
}

/// The set that results from inserting the pairs of `del` one after another.
pub open spec fn from_pairs(del: Seq<(i32, i32)>) -> Seq<MoveDir>
    decreases del.len(),
{
    if del.len() == 0 {
        Seq::empty()
    } else {
        inserted(from_pairs(del.drop_last()), MoveDir { dx: del.last().0, dy: del.last().1 })
    }
}

/// Inserting into a direction set gives a direction set.
pub proof fn lemma_inserted_is_direction_set(s: Seq<MoveDir>, dir: MoveDir)
    requires
        is_direction_set(s),
    ensures
        is_direction_set(inserted(s, dir)),
        inserted(s, dir).contains(dir) <==> !dir.is_zero(),
        forall|d: MoveDir| s.contains(d) ==> inserted(s, dir).contains(d),
{
    let t = inserted(s, dir);
    if !s.contains(dir) && !dir.is_zero() {
        assert(t[s.len() as int] == dir);
        assert forall|d: MoveDir| s.contains(d) implies t.contains(d) by {
            let i = choose|i: int| 0 <= i < s.len() && s[i] == d;
            assert(t[i] == d);
        }
    }
}

/// The vectors `om + pm`, for `pm` running through `base` in order, that are
/// neither zero nor in `taken`: what `om` can contribute to a merge.
pub open spec fn candidates(base: Seq<MoveDir>, taken: Seq<MoveDir>, om: MoveDir) -> Seq<MoveDir>
    decreases base.len(),
{
    if base.len() == 0 {
        Seq::empty()
    } else {
        let rest = candidates(base.drop_last(), taken, om);
        let tm = sum(om, base.last());
        if !tm.is_zero() && !taken.contains(tm) {
            rest.push(tm)
        } else {
            rest
        }
    }
}

/// Every sum of a vector of `other` and a vector of `base` is representable.
pub open spec fn merge_fits(base: Seq<MoveDir>, other: Seq<MoveDir>) -> bool {
    forall|i: int, j: int|
        0 <= i < base.len() && 0 <= j < other.len() ==> sum_fits(#[trigger] other[j], #[trigger] base[i])
}

/// `chosen[k]` was a candidate of `other[k]` when the choices before it had
/// joined `base`.
pub open spec fn choices_valid(base: Seq<MoveDir>, other: Seq<MoveDir>, chosen: Seq<MoveDir>) -> bool {
    &&& chosen.len() <= other.len()
    &&& forall|k: int|
        0 <= k < chosen.len() ==> candidates(base, base + chosen.take(k), other[k]).contains(
            #[trigger] chosen[k],
        )
}

/// `merged` is `base` followed by one valid choice for each vector of `other`.
pub open spec fn is_merge(base: Seq<MoveDir>, other: Seq<MoveDir>, merged: Seq<MoveDir>) -> bool {
    &&& merged.len() == base.len() + other.len()
    &&& merged.take(base.len() as int) == base
    &&& choices_valid(base, other, merged.skip(base.len() as int))
}

/// After the valid choices `chosen`, the next vector of `other` has no candidate.
pub open spec fn stalls_after(base: Seq<MoveDir>, other: Seq<MoveDir>, chosen: Seq<MoveDir>) -> bool {
    &&& chosen.len() < other.len()
    &&& choices_valid(base, other, chosen)
    &&& candidates(base, base + chosen, other[chosen.len() as int]).len() == 0
}

/// Some run of choices leaves a vector of `other` without a candidate.
pub open spec fn can_stall(base: Seq<MoveDir>, other: Seq<MoveDir>) -> bool {
    exists|chosen: Seq<MoveDir>| stalls_after(base, other, chosen)
}

/// A candidate is a non-zero sum that `taken` does not hold, and no sum comes twice.
pub proof fn lemma_candidates(base: Seq<MoveDir>, taken: Seq<MoveDir>, om: MoveDir)
    ensures
        candidates(base, taken, om).len() <= base.len(),
        forall|c: MoveDir| #[trigger]
            candidates(base, taken, om).contains(c) <==> {
                &&& !c.is_zero()
                &&& !taken.contains(c)
                &&& exists|i: int| 0 <= i < base.len() && c == sum(om, #[trigger] base[i])
            },
    decreases base.len(),
{
    let found = candidates(base, taken, om);
    if base.len() > 0 {
        let front = base.drop_last();
        let rest = candidates(front, taken, om);
        let tm = sum(om, base.last());
        lemma_candidates(front, taken, om);
        assert forall|c: MoveDir| #[trigger] found.contains(c) implies {
            &&& !c.is_zero()
            &&& !taken.contains(c)
            &&& exists|i: int| 0 <= i < base.len() && c == sum(om, #[trigger] base[i])
        } by {
            let k = choose|k: int| 0 <= k < found.len() && found[k] == c;
            if k < rest.len() {
                assert(rest[k] == c);
                assert(rest.contains(c));
                let i = choose|i: int| 0 <= i < front.len() && c == sum(om, #[trigger] front[i]);
                assert(c == sum(om, base[i]));
            } else {
                assert(c == sum(om, base[base.len() - 1]));
            }
        }
        assert forall|c: MoveDir|
            {
                &&& !c.is_zero()
                &&& !taken.contains(c)
                &&& exists|i: int| 0 <= i < base.len() && c == sum(om, #[trigger] base[i])
            } implies #[trigger] found.contains(c) by {
            let i = choose|i: int| 0 <= i < base.len() && c == sum(om, #[trigger] base[i]);
            if i < front.len() {
                assert(c == sum(om, front[i]));
                assert(rest.contains(c));
                let k = choose|k: int| 0 <= k < rest.len() && rest[k] == c;
                assert(found[k] == c);
            } else {
                assert(found[found.len() - 1] == c);
            }
        }
    }
}

/// The allowed moves of a piece: distinct non-zero vectors, in the order in
/// which they were inserted.
#[derive(Debug)]
pub struct MoveDirSet {
    moves: Vec<MoveDir>,
}

impl View for MoveDirSet {
    type V = Seq<MoveDir>;

    closed spec fn view(&self) -> Seq<MoveDir> {
        self.moves@
    }
}

impl MoveDirSet {
    #[verifier::type_invariant]
    spec fn well_formed(self) -> bool {
        is_direction_set(self.moves@)
    }

    pub fn new() -> (set: Self)
        ensures
            set@ == Seq::<MoveDir>::empty(),
            is_direction_set(set@),
    {
        Self { moves: Vec::new() }
    }

    pub fn from(del: Vec<(i32, i32)>) -> (set: Self)
        ensures
            set@ == from_pairs(del@),
            is_direction_set(set@),
    {
        let mut set = Self::new();
        let mut i: usize = 0;
        while i < del.len()
            invariant
                i <= del.len(),
                set@ == from_pairs(del@.take(i as int)),
            decreases del.len() - i,
        {
            let (dx, dy) = del[i];
            assert(del@.take(i + 1).drop_last() == del@.take(i as int));
            set = set << MoveDir::new(dx, dy);
            i += 1;
        }
        assert(del@.take(del.len() as int) == del@);
        proof {
            use_type_invariant(&set);
        }
        set
    }

    /// The number of vectors in the set.
    pub fn len(&self) -> (n: usize)
        ensures
            n == self@.len(),
    {
        self.moves.len()
    }

    /// Whether `dir` is one of the vectors of the set.
    pub fn contains(&self, dir: MoveDir) -> (found: bool)
        ensures
            found == self@.contains(dir),
    {
        let mut i: usize = 0;
        while i < self.moves.len()
            invariant
                i <= self.moves.len(),
                forall|j: int| 0 <= j < i ==> self.moves@[j] != dir,
            decreases self.moves.len() - i,
        {
            if self.moves[i] == dir {
                return true;
            }
            i += 1;
        }
        false
    }

    /// Whether every sum of a vector of `other` and a vector of this set is
    /// representable, as [`MoveDirSet::candidates`] and [`MoveDirSet::try_merge`] need it.
    pub fn sums_fit(&self, other: &MoveDirSet) -> (fits: bool)
        ensures
            fits == merge_fits(self@, other@),
    {
        let mut j: usize = 0;
        while j < other.moves.len()
            invariant
                j <= other.moves.len(),
                forall|i: int, k: int|
                    0 <= i < self.moves@.len() && 0 <= k < j ==> sum_fits(#[trigger] other.moves@[k], #[trigger] self.moves@[i]),
            decreases other.moves.len() - j,
        {
            let om = other.moves[j];
            let mut i: usize = 0;
            while i < self.moves.len()
                invariant
                    i <= self.moves.len(),
                    j < other.moves.len(),
                    om == other.moves@[j as int],
                    forall|h: int| 0 <= h < i ==> sum_fits(om, #[trigger] self.moves@[h]),
                decreases self.moves.len() - i,
            {
                let pm = self.moves[i];
                let sx: i64 = om.dx as i64 + pm.dx as i64;
                let sy: i64 = om.dy as i64 + pm.dy as i64;
                if sx < i32::MIN as i64 || sx > i32::MAX as i64 || sy < i32::MIN as i64 || sy
                    > i32::MAX as i64 {
                    assert(!sum_fits(other.moves@[j as int], self.moves@[i as int]));
                    return false;
                }
                i += 1;
            }
            j += 1;
        }
        true
    }

    /// What `om` can contribute when this set is merged and `taken` holds the
    /// vectors gathered so far.
    pub fn candidates(&self, taken: &MoveDirSet, om: MoveDir) -> (found: Vec<MoveDir>)
        requires
            forall|i: int| 0 <= i < self@.len() ==> sum_fits(om, #[trigger] self@[i]),
        ensures
            found@ == candidates(self@, taken@, om),
    {
        let mut found: Vec<MoveDir> = Vec::new();
        let mut i: usize = 0;
        while i < self.moves.len()
            invariant
                i <= self.moves.len(),
                self@ == self.moves@,
                forall|h: int| 0 <= h < self@.len() ==> sum_fits(om, #[trigger] self@[h]),
                found@ == candidates(self.moves@.take(i as int), taken@, om),
            decreases self.moves.len() - i,
        {
            let pm = self.moves[i];
            assert(self.moves@.take(i + 1).drop_last() == self.moves@.take(i as int));
            let tm = om + pm;
            if (tm.dx() != 0 || tm.dy() != 0) && !taken.contains(tm) {
                found.push(tm);
            }
            i += 1;
        }
        assert(self.moves@.take(self.moves.len() as int) == self.moves@);
        found
    }

    /// One attempt to merge `other` into this set: each vector of `other`, in
    /// order, contributes one of its candidates, drawn at random. The attempt
    /// is given up as soon as a vector has no candidate.
    pub fn try_merge(&self, other: &MoveDirSet) -> (outcome: Option<MoveDirSet>)
        requires
            merge_fits(self@, other@),
        ensures
            match outcome {
                Some(merged) => is_merge(self@, other@, merged@) && is_direction_set(merged@),
                None => can_stall(self@, other@),
            },
    {
        let mut merged = self.clone();
        let mut k: usize = 0;
        while k < other.moves.len()
            invariant
                k <= other.moves.len(),
                merge_fits(self@, other@),
                merged@.len() == self@.len() + k,
                merged@.take(self@.len() as int) == self@,
                choices_valid(self@, other@, merged@.skip(self@.len() as int)),
            decreases other.moves.len() - k,
        {
            let om = other.moves[k];
            assert(other@[k as int] == om);
            let found = self.candidates(&merged, om);
            let ghost chosen = merged@.skip(self@.len() as int);
            assert(self@ + chosen == merged@);
            if found.len() == 0 {
                assert(stalls_after(self@, other@, chosen));
                return None;
            }
            let pick = random_below(found.len());
            let tm = found[pick];
            proof {
                lemma_candidates(self@, merged@, om);
                assert(found@.contains(tm));
            }
            let ghost before = merged@;
            merged = merged << tm;
            proof {
                let after = merged@.skip(self@.len() as int);
                assert(merged@ == before.push(tm));
                assert(after == chosen.push(tm));
                assert(merged@.take(self@.len() as int) == before.take(self@.len() as int));
                assert forall|h: int| 0 <= h < after.len() implies candidates(
                    self@,
                    self@ + after.take(h),
                    other@[h],
                ).contains(#[trigger] after[h]) by {
                    if h < chosen.len() {
                        assert(after.take(h) == chosen.take(h));
                        assert(after[h] == chosen[h]);
                    } else {
                        assert(after.take(h) == chosen);
                    }
                }
            }
            k += 1;
        }
        proof {
            use_type_invariant(&merged);
        }
        Some(merged)
    }

    /// The vectors in insertion order, one at a time.
    pub fn into_iter(self) -> (iter: MoveDirSetIterator)
        ensures
            iter.set@ == self@,
            iter.cur == 0,
    {
        MoveDirSetIterator::new(self)
    }
}

impl Clone for MoveDirSet {
    fn clone(&self) -> (copy: Self)
        ensures
            copy@ == self@,
            is_direction_set(copy@),
    {
        proof {
            use_type_invariant(self);
        }
        Self { moves: self.moves.clone() }
    }
}

impl PartialEq for MoveDirSet {
    fn eq(&self, other: &Self) -> (equal: bool) {
        if self.moves.len() != other.moves.len() {
            return false;
        }
        let mut i: usize = 0;
        while i < self.moves.len()
            invariant
                i <= self.moves.len(),
                self.moves.len() == other.moves.len(),
                forall|j: int| 0 <= j < i ==> self.moves@[j] == other.moves@[j],
            decreases self.moves.len() - i,
        {
            if self.moves[i] != other.moves[i] {
                return false;
            }
            i += 1;
        }
        assert(self.moves@ =~= other.moves@);
        true
    }
}

impl PartialEqSpecImpl for MoveDirSet {
    open spec fn obeys_eq_spec() -> bool {
        true
    }

    open spec fn eq_spec(&self, other: &Self) -> bool {
        self@ == other@
    }
}

/// The vector at position `idx` in insertion order.
impl Index<usize> for MoveDirSet {
    type Output = MoveDir;

    fn index(&self, idx: usize) -> (dir: &MoveDir)
        ensures
            *dir == self@[idx as int],
    {
        &self.moves[idx]
    }
}

impl vstd::std_specs::core::IndexSpecImpl<usize> for MoveDirSet {
    open spec fn index_req(&self, idx: &usize) -> bool {
        *idx < self@.len()
    }
}

/// `set << dir` inserts `dir` unless the set holds it already or it is the
/// zero vector.
impl Shl<MoveDir> for MoveDirSet {
    type Output = MoveDirSet;

    fn shl(self, rhs: MoveDir) -> (set: MoveDirSet)
        ensures
            set@ == inserted(self@, rhs),
            is_direction_set(set@),
    {
        proof {
            use_type_invariant(&self);
            lemma_inserted_is_direction_set(self@, rhs);
        }
        if !self.contains(rhs) && (rhs.dx != 0 || rhs.dy != 0) {
            let mut moves = self.moves;
            moves.push(rhs);
            Self { moves }
        } else {
            self
        }
    }
}

/// What `<<` returns is stated by the contract of `shl`, over the view of the
/// set, and not by `shl_spec`.
impl vstd::std_specs::ops::ShlSpecImpl<MoveDir> for MoveDirSet {
    open spec fn obeys_shl_spec() -> bool {
        false
    }

    open spec fn shl_req(self, rhs: MoveDir) -> bool {
        true
    }

    open spec fn shl_spec(self, rhs: MoveDir) -> MoveDirSet {
        self
    }
}

/// An index below `bound`, drawn with `rand::Rng::gen_range` from the
/// generator that `rand::thread_rng` keeps for the calling thread. Every draw
/// lies in `0..bound`; nothing else is claimed of it. The call needs a
/// non-empty range and an entropy source that the operating system provides.
#[verifier::external_body]
fn random_below(bound: usize) -> (pick: usize)
    requires
        bound > 0,
    ensures
        pick < bound,
{
    rand::thread_rng().gen_range(0..bound)
}

/// A walk through the vectors of a [`MoveDirSet`] in insertion order.
pub struct MoveDirSetIterator {
    pub set: MoveDirSet,
    pub cur: usize,
}

impl MoveDirSetIterator {
    pub fn new(set: MoveDirSet) -> (iter: Self)
        ensures
            iter.set@ == set@,
            iter.cur == 0,
    {
        Self { set, cur: 0 }
    }

    /// The vectors that are still to come.
    pub open spec fn remaining(&self) -> Seq<MoveDir> {
        if self.cur <= self.set@.len() {
            self.set@.skip(self.cur as int)
        } else {
            Seq::empty()
        }
    }

    /// The next vector, or `None` when the walk is over.
    pub fn next(&mut self) -> (item: Option<MoveDir>)
        ensures
            final(self).set@ == old(self).set@,
            match item {
                Some(dir) => old(self).remaining().len() > 0 && dir == old(self).remaining()[0]
                    && final(self).remaining() == old(self).remaining().skip(1),
                None => old(self).remaining().len() == 0 && final(self).remaining().len() == 0,
            },
    {
        if self.cur < self.set.len() {
            let val = self.set[self.cur];
            self.cur += 1;
            Some(val)
        } else {
            None
        }
    }
}

/// A displacement to carry out on a piece.
pub struct Move {
    pub dx: i32,
    pub dy: i32,
}

impl Move {
    pub fn from(move_dir: MoveDir) -> (step: Self)
        ensures
            step.dx == move_dir.dx,
            step.dy == move_dir.dy,
    {
        Self { dx: move_dir.dx, dy: move_dir.dy }
    }
}

/// The highest level that a piece can reach by merging.
pub const MAX_LEVEL: u32 = 6;

/// How often [`Piece::upgrade`] tries to merge before it reports a stall.
pub const MERGE_ATTEMPTS: u32 = 1024;

/// A team: its name and the number of pieces it may still place.
#[derive(Debug)]
pub struct Alliance {
    pub name: String,
    pub pieces_left: u32,
}

/// What the rules know of a team.
pub struct AllianceView {
    pub name: Seq<char>,
    pub pieces_left: nat,
}

impl View for Alliance {
    type V = AllianceView;

    open spec fn view(&self) -> AllianceView {
        AllianceView { name: self.name@, pieces_left: self.pieces_left as nat }
    }
}

impl Alliance {
    pub fn new(name: &str, pieces_left: u32) -> (team: Self)
        ensures
            team@ == (AllianceView { name: name@, pieces_left: pieces_left as nat }),
    {
        Self { name: name.to_owned(), pieces_left }
    }
}

impl Clone for Alliance {
    fn clone(&self) -> (copy: Self)
        ensures
            copy@ == self@,
    {
        Self { name: self.name.clone(), pieces_left: self.pieces_left }
    }
}

impl PartialEq for Alliance {
    fn eq(&self, other: &Self) -> (equal: bool) {
        self.name == other.name && self.pieces_left == other.pieces_left
    }
}

impl PartialEqSpecImpl for Alliance {
    open spec fn obeys_eq_spec() -> bool {
        true
    }

    open spec fn eq_spec(&self, other: &Self) -> bool {
        self@ == other@
    }
}

/// A piece on the board.
#[derive(Debug)]
pub struct Piece {
    pub x: i32,
    pub y: i32,
    pub team: usize,
    pub poss_moves: MoveDirSet,
    pub level: u32,
}

/// A piece as the rules see it: its cell, its team, its level and its
/// capability set.
pub struct PieceView {
    pub x: int,
    pub y: int,
    pub team: nat,
    pub level: nat,
    pub moves: Seq<MoveDir>,
}

impl View for Piece {
    type V = PieceView;

    open spec fn view(&self) -> PieceView {
        PieceView {
            x: self.x as int,
            y: self.y as int,
            team: self.team as nat,
            level: self.level as nat,
            moves: self.poss_moves@,
        }
    }
}

/// The capability set of a fresh piece: one step along either axis.
pub open spec fn unit_moves() -> Seq<MoveDir> {
    seq![
        MoveDir { dx: 1, dy: 0 },
        MoveDir { dx: -1i32, dy: 0 },
        MoveDir { dx: 0, dy: 1 },
        MoveDir { dx: 0, dy: -1i32 },
    ]
}

impl PieceView {
    /// The cell on which the piece stands.
    pub open spec fn cell(self) -> (int, int) {
        (self.x, self.y)
    }

    /// The piece moved by `(dx, dy)`.
    pub open spec fn displaced(self, dx: int, dy: int) -> PieceView {
        PieceView { x: self.x + dx, y: self.y + dy, ..self }
    }

    /// Whether `self` can come out of merging `other` into `target`: it
    /// stands where `target` stood, for the same team, with the levels added
    /// and with one contribution of each vector of `other` behind the
    /// capability set of `target`.
    pub open spec fn is_upgrade_of(self, target: PieceView, other: PieceView) -> bool {
        &&& self.x == target.x
        &&& self.y == target.y
        &&& self.team == target.team
        &&& self.level == target.level + other.level
        &&& is_merge(target.moves, other.moves, self.moves)
    }
}

impl Piece {
    pub fn new(x: u16, y: u16, team: usize) -> (piece: Self)
        ensures
            piece@ == (PieceView {
                x: x as int,
                y: y as int,
                team: team as nat,
                level: 1,
                moves: unit_moves(),
            }),
    {
        let del: Vec<(i32, i32)> = vec![(1, 0), (-1, 0), (0, 1), (0, -1)];
        proof {
            lemma_unit_moves(del@);
        }
        Self { x: x as i32, y: y as i32, team, level: 1, poss_moves: MoveDirSet::from(del) }
    }

    /// A fresh piece on any representable cell.
    pub fn at(x: i32, y: i32, team: usize) -> (piece: Self)
        ensures
            piece@ == (PieceView {
                x: x as int,
                y: y as int,
                team: team as nat,
                level: 1,
                moves: unit_moves(),
            }),
    {
        let mut piece = Self::new(0, 0, team);
        piece.x = x;
        piece.y = y;
        piece
    }

    /// Moves the piece by `m`. The new cell must be representable.
    pub fn apply(&mut self, m: Move)
        requires
            i32::MIN <= old(self).x + m.dx <= i32::MAX,
            i32::MIN <= old(self).y + m.dy <= i32::MAX,
        ensures
            final(self)@ == old(self)@.displaced(m.dx as int, m.dy as int),
    {
        self.x += m.dx;
        self.y += m.dy;
    }

    /// Merges `other` into this piece.
    ///
    /// Fails with [`Error::LevelTooHigh`] exactly when the two levels add up
    /// to more than [`MAX_LEVEL`]. Otherwise up to [`MERGE_ATTEMPTS`] merges
    /// are tried, each from scratch (see [`MoveDirSet::try_merge`]); the first
    /// that goes through gives the piece its new level and capability set.
    /// Where every attempt stalls the piece is left as it was and
    /// [`Error::MergeStalled`] is returned, which cannot happen unless
    /// [`can_stall`] holds of the two capability sets.
    pub fn upgrade(&mut self, other: &Piece) -> (outcome: Result<(), Error>)
        requires
            old(self).level + other.level <= MAX_LEVEL ==> merge_fits(
                old(self).poss_moves@,
                other.poss_moves@,
            ),
        ensures
            outcome == Err::<(), Error>(Error::LevelTooHigh) <==> old(self).level + other.level
                > MAX_LEVEL,
            match outcome {
                Ok(()) => final(self)@.is_upgrade_of(old(self)@, other@) && is_direction_set(
                    final(self)@.moves,
                ),
                Err(e) => {
                    &&& *final(self) == *old(self)
                    &&& e == Error::LevelTooHigh || e == Error::MergeStalled
                    &&& e == Error::MergeStalled ==> can_stall(old(self)@.moves, other@.moves)
                },
            },
            !can_stall(old(self)@.moves, other@.moves) && old(self).level + other.level
                <= MAX_LEVEL ==> outcome is Ok,
    {
        if self.level as u64 + other.level as u64 > MAX_LEVEL as u64 {
            return Err(Error::LevelTooHigh);
        }
        let mut attempts: u32 = 0;
        while attempts < MERGE_ATTEMPTS
            invariant
                attempts <= MERGE_ATTEMPTS,
                *self == *old(self),
                self.level + other.level <= MAX_LEVEL,
                merge_fits(self.poss_moves@, other.poss_moves@),
                attempts > 0 ==> can_stall(self.poss_moves@, other.poss_moves@),
            decreases MERGE_ATTEMPTS - attempts,
        {
            match self.poss_moves.try_merge(&other.poss_moves) {
                Some(merged) => {
                    self.level = self.level + other.level;
                    self.poss_moves = merged;
                    return Ok(());
                },
                None => {},
            }
            attempts += 1;
        }
        Err(Error::MergeStalled)
    }

    pub fn x(&self) -> (x: i32)
        ensures
            x == self.x,
    {
        self.x
    }

    pub fn y(&self) -> (y: i32)
        ensures
            y == self.y,
    {
        self.y
    }

    pub fn team(&self) -> (team: usize)
        ensures
            team == self.team,
    {
        self.team
    }

    pub fn level(&self) -> (level: u32)
        ensures
            level == self.level,
    {
        self.level
    }

    /// Whether the capability set of the piece holds `dir`.
    pub fn can_move(&self, dir: MoveDir) -> (allowed: bool)
        ensures
            allowed == self@.moves.contains(dir),
    {
        self.poss_moves.contains(dir)
    }
}

impl Clone for Piece {
    fn clone(&self) -> (copy: Self)
        ensures
            copy@ == self@,
    {
        Self {
            x: self.x,
            y: self.y,
            team: self.team,
            poss_moves: self.poss_moves.clone(),
            level: self.level,
        }
    }
}

impl PartialEq for Piece {
    fn eq(&self, other: &Self) -> (equal: bool) {
        self.x == other.x && self.y == other.y && self.team == other.team && self.level
            == other.level && self.poss_moves == other.poss_moves
    }
}

impl PartialEqSpecImpl for Piece {
    open spec fn obeys_eq_spec() -> bool {
        true
    }

    open spec fn eq_spec(&self, other: &Self) -> bool {
        self@ == other@
    }
}

/// Inserting the four unit steps one after another gives [`unit_moves`].
proof fn lemma_unit_moves(del: Seq<(i32, i32)>)
    requires
        del == seq![(1i32, 0i32), (-1i32, 0i32), (0i32, 1i32), (0i32, -1i32)],
    ensures
        from_pairs(del) == unit_moves(),
{
    let d3 = del.drop_last();
    let d2 = d3.drop_last();
    let d1 = d2.drop_last();
    let d0 = d1.drop_last();
    assert(d0.len() == 0);
    assert(from_pairs(d0) == Seq::<MoveDir>::empty());
    let s1 = from_pairs(d1);
    assert(s1 == seq![MoveDir { dx: 1, dy: 0 }]);
    let s2 = from_pairs(d2);
    assert(s2 == seq![MoveDir { dx: 1, dy: 0 }, MoveDir { dx: -1i32, dy: 0 }]);
    let s3 = from_pairs(d3);
    assert(s3 == seq![MoveDir { dx: 1, dy: 0 }, MoveDir { dx: -1i32, dy: 0 }, MoveDir { dx: 0, dy: 1 }]);
    assert(from_pairs(del) == unit_moves());
}

/// Two fresh capability sets never stall: whatever was chosen before, a
/// unit step can still contribute twice itself.
pub proof fn lemma_unit_moves_never_stall()
    ensures
        !can_stall(unit_moves(), unit_moves()),
{
    let unit = unit_moves();
    assert forall|chosen: Seq<MoveDir>| !stalls_after(unit, unit, chosen) by {
        if chosen.len() < unit.len() && choices_valid(unit, unit, chosen) {
            let k = chosen.len() as int;
            let om = unit[k];
            let twice = sum(om, om);
            let taken = unit + chosen;
            lemma_candidates(unit, taken, om);
            assert forall|j: int| 0 <= j < taken.len() implies taken[j] != twice by {
                if j >= unit.len() {
                    let h = j - unit.len();
                    let c = chosen[h];
                    lemma_candidates(unit, unit + chosen.take(h), unit[h]);
                    assert(candidates(unit, unit + chosen.take(h), unit[h]).contains(c));
                    let i = choose|i: int| 0 <= i < unit.len() && c == sum(unit[h], #[trigger] unit[i]);
                    assert(c == sum(unit[h], unit[i]));
                }
            }
            assert(twice == sum(om, unit[k]));
            assert(candidates(unit, taken, om).contains(twice));
        }
    }
}

} // verus!
