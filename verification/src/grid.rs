//! The formation: five rows of invaders that march from wall to wall,
//! stepping down and turning round whenever one of them reaches a wall.

use vstd::prelude::*;
use rand::rngs::ThreadRng;
use crate::area::Area;
use crate::bunker::{Bunkers, BunkersView};
use crate::cannon::Cannon;
use crate::invaders::{
    fits, Invader, InvaderDirection, InvaderRow, InvaderType, RowView, INVADERS_PER_ROW,
};
use crate::laser::Laser;
use crate::points::{
    ALIEN_WIDTH, GAME_WIDTH, GRID_INITIAL_X, GRID_INITIAL_Y, INVADER_MOVE_X, INVADER_MOVE_Y,
    LASER_HEIGHT, ROW_HEIGHT,
};
use crate::random::sample_below;

verus! {

/// The number of rows of the formation.
pub const INVADER_ROWS: usize = 5;

/// The kind of the invaders in a row, counted from the bottom row.
pub open spec fn row_type(row: int) -> InvaderType {
    if row < 2 {
        InvaderType::Octopus
    } else if row < 4 {
        InvaderType::Crab
    } else {
        InvaderType::Squid
    }
}

/// The bottom of a row, counted from the bottom row, of a formation whose
/// origin is at height `bottom`.
pub open spec fn row_bottom(bottom: int, row: int) -> int {
    bottom + 10 * row
}

/// The height of the origin of a new formation at the given level: each
/// level starts half a row lower.
pub open spec fn level_bottom(level: u8) -> int {
    GRID_INITIAL_Y - 5 * level
}

/// The rows are a row's height apart, and each level starts one step down
/// of the formation lower than the one before.
pub proof fn lemma_row_geometry(bottom: int, row: int, level: u8)
    ensures
        row_bottom(bottom, row) == bottom + ROW_HEIGHT * row,
        level_bottom(level) == GRID_INITIAL_Y - level * INVADER_MOVE_Y,
{
    assert(ROW_HEIGHT * row == 10 * row) by (nonlinear_arith)
        requires
            ROW_HEIGHT == 10,
    ;
    assert(level * INVADER_MOVE_Y == 5 * level) by (nonlinear_arith)
        requires
            INVADER_MOVE_Y == 5,
    ;
}

/// The number of invaders in the rows together.
pub open spec fn rows_count(rows: Seq<RowView>) -> nat
    decreases rows.len(),
{
    if rows.len() == 0 {
        0
    } else {
        rows_count(rows.drop_last()) + rows.last().count as nat
    }
}

/// The width of the widest of the rows, zero without rows.
pub open spec fn rows_width(rows: Seq<RowView>) -> int
    decreases rows.len(),
{
    if rows.len() == 0 {
        0
    } else {
        let before = rows_width(rows.drop_last());
        if before < rows.last().width() {
            rows.last().width()
        } else {
            before
        }
    }
}

/// The invaders of the rows whose sprites overlap the rectangle, row by
/// row from the bottom.
pub open spec fn rows_overlapping(rows: Seq<RowView>, area: Area) -> Seq<Invader>
    decreases rows.len(),
{
    if rows.len() == 0 {
        Seq::empty()
    } else {
        rows_overlapping(rows.drop_last(), area) + rows.last().overlapping(area)
    }
}

/// Well-formed rows hold at most eight invaders each.
pub proof fn lemma_rows_count_bound(rows: Seq<RowView>)
    requires
        forall|r: int| 0 <= r < rows.len() ==> (#[trigger] rows[r]).wf(),
    ensures
        rows_count(rows) <= 8 * rows.len(),
    decreases rows.len(),
{
    if rows.len() > 0 {
        assert forall|r: int| 0 <= r < rows.drop_last().len() implies (
        #[trigger] rows.drop_last()[r]).wf() by {
            assert(rows.drop_last()[r] == rows[r]);
        }
        lemma_rows_count_bound(rows.drop_last());
        rows.last().lemma_wf_facts();
    }
}

/// The count is zero exactly when every row is empty.
pub proof fn lemma_rows_count_zero(rows: Seq<RowView>)
    ensures
        rows_count(rows) == 0 <==> (forall|r: int| 0 <= r < rows.len() ==> (#[trigger] rows[r]).is_empty()),
    decreases rows.len(),
{
    if rows.len() > 0 {
        lemma_rows_count_zero(rows.drop_last());
        if rows_count(rows) == 0 {
            assert forall|r: int| 0 <= r < rows.len() implies (#[trigger] rows[r]).is_empty() by {
                if r < rows.len() - 1 {
                    assert(rows.drop_last()[r] == rows[r]);
                }
            }
        }
        if forall|r: int| 0 <= r < rows.len() ==> (#[trigger] rows[r]).is_empty() {
            assert forall|r: int| 0 <= r < rows.drop_last().len() implies (
            #[trigger] rows.drop_last()[r]).is_empty() by {
                assert(rows.drop_last()[r] == rows[r]);
            }
        }
    }
}

/// Replacing one row changes the count by the difference of its counts.
pub proof fn lemma_rows_count_update(rows: Seq<RowView>, index: int, row: RowView)
    requires
        0 <= index < rows.len(),
    ensures
        rows_count(rows.update(index, row)) + rows[index].count == rows_count(rows) + row.count,
    decreases rows.len(),
{
    let updated = rows.update(index, row);
    if index == rows.len() - 1 {
        assert(updated.drop_last() =~= rows.drop_last());
    } else {
        lemma_rows_count_update(rows.drop_last(), index, row);
        assert(updated.drop_last() =~= rows.drop_last().update(index, row));
    }
}

/// Rows with the same counts hold equally many invaders together.
pub proof fn lemma_rows_count_same(a: Seq<RowView>, b: Seq<RowView>)
    requires
        a.len() == b.len(),
        forall|r: int| 0 <= r < a.len() ==> a[r].count == b[r].count,
    ensures
        rows_count(a) == rows_count(b),
    decreases a.len(),
{
    if a.len() > 0 {
        lemma_rows_count_same(a.drop_last(), b.drop_last());
    }
}

/// Well-formed rows are all 124 pixels wide.
pub proof fn lemma_rows_width(rows: Seq<RowView>)
    requires
        forall|r: int| 0 <= r < rows.len() ==> (#[trigger] rows[r]).wf(),
    ensures
        rows_width(rows) == if rows.len() == 0 {
            0int
        } else {
            124int
        },
    decreases rows.len(),
{
    if rows.len() > 0 {
        assert forall|r: int| 0 <= r < rows.drop_last().len() implies (
        #[trigger] rows.drop_last()[r]).wf() by {
            assert(rows.drop_last()[r] == rows[r]);
        }
        lemma_rows_width(rows.drop_last());
        rows.last().lemma_wf_facts();
    }
}

/// The formation of invaders.
#[derive(Clone, Debug)]
pub struct InvaderGrid {
    pub rows: Vec<InvaderRow>,
    pub left: i32,
    pub bottom: i32,
    pub direction: InvaderDirection,
}

/// The mathematical value of a formation.
pub struct GridView {
    pub rows: Seq<RowView>,
    pub left: i32,
    pub bottom: i32,
    pub direction: InvaderDirection,
}

impl View for InvaderGrid {
    type V = GridView;

    open spec fn view(&self) -> GridView {
        GridView {
            rows: Seq::new(self.rows.len() as nat, |r: int| self.rows[r]@),
            left: self.left,
            bottom: self.bottom,
            direction: self.direction,
        }
    }
}

impl GridView {
    /// Row `row` holds an invader in column `column`.
    pub open spec fn alive(self, row: int, column: int) -> bool {
        0 <= row < self.rows.len() && self.rows[row].alive(column)
    }

    /// The invader in the given row and column.
    pub open spec fn invader(self, row: int, column: int) -> Invader
        recommends
            self.alive(row, column),
    {
        self.rows[row].invaders[column].unwrap()
    }

    /// The formation has its five well-formed rows, which start at the
    /// formation's left edge and are stacked a row's height apart from the
    /// formation's bottom up.
    pub open spec fn wf(self) -> bool {
        &&& self.rows.len() == INVADER_ROWS
        &&& forall|r: int|
            0 <= r < self.rows.len() ==> {
                &&& (#[trigger] self.rows[r]).wf()
                &&& self.rows[r].left == self.left
                &&& self.rows[r].bottom == row_bottom(self.bottom as int, r)
            }
    }

    /// Every invader stands where the march can take it: between the
    /// walls, a whole number of steps from the formation's first position.
    pub open spec fn in_field(self) -> bool {
        forall|r: int, c: int| #[trigger]
            self.alive(r, c) ==> {
                &&& GRID_INITIAL_X <= self.invader(r, c).left <= GAME_WIDTH - ALIEN_WIDTH + 1
                &&& (self.invader(r, c).left - GRID_INITIAL_X) % 2 == 0
            }
    }

    /// The full formation a level starts with.
    pub open spec fn spec_new(level: u8) -> GridView {
        GridView {
            rows: Seq::new(
                INVADER_ROWS as nat,
                |r: int|
                    RowView::spec_new(
                        row_type(r),
                        GRID_INITIAL_X,
                        row_bottom(level_bottom(level), r) as i32,
                    ),
            ),
            left: GRID_INITIAL_X,
            bottom: level_bottom(level) as i32,
            direction: InvaderDirection::Right,
        }
    }

    /// Some invader has reached the wall the formation marches towards.
    pub open spec fn on_edge(self) -> bool {
        exists|r: int| 0 <= r < self.rows.len() && (#[trigger] self.rows[r]).on_edge(self.direction)
    }

    /// The positions after the next move fit the coordinate type.
    pub open spec fn can_move(self) -> bool {
        if self.on_edge() {
            &&& fits(self.bottom - INVADER_MOVE_Y)
            &&& forall|r: int|
                0 <= r < self.rows.len() ==> (#[trigger] self.rows[r]).can_move_down(INVADER_MOVE_Y)
        } else {
            &&& fits(self.left + self.direction.signed(INVADER_MOVE_X))
            &&& forall|r: int|
                0 <= r < self.rows.len() ==> (#[trigger] self.rows[r]).can_move_along(
                    self.direction,
                    INVADER_MOVE_X,
                )
        }
    }

    /// The formation after its next move: at a wall it steps down and turns
    /// round, otherwise it steps sideways.
    pub open spec fn moved(self) -> GridView {
        if self.on_edge() {
            GridView {
                rows: Seq::new(self.rows.len(), |r: int| self.rows[r].moved_down(INVADER_MOVE_Y)),
                bottom: (self.bottom - INVADER_MOVE_Y) as i32,
                direction: self.direction.switch(),
                ..self
            }
        } else {
            GridView {
                rows: Seq::new(
                    self.rows.len(),
                    |r: int| self.rows[r].moved_along(self.direction, INVADER_MOVE_X),
                ),
                left: (self.left + self.direction.signed(INVADER_MOVE_X)) as i32,
                ..self
            }
        }
    }

    /// The rectangle the formation takes up, thinned out or not.
    pub open spec fn area(self) -> Area {
        Area {
            left: self.left as i64,
            bottom: self.bottom as i64,
            right: (self.left + rows_width(self.rows)) as i64,
            top: (self.bottom + 5 * ROW_HEIGHT) as i64,
        }
    }

    /// The laser shoots an invader of the given row.
    pub open spec fn row_struck(self, row: int, laser: Laser) -> bool {
        0 <= row < self.rows.len() && self.rows[row].shot_column(laser)
            < self.rows[row].invaders.len()
    }

    /// The first row from `from` on of which the laser shoots an invader,
    /// or the number of rows if there is none.
    pub open spec fn first_struck(self, laser: Laser, from: int) -> int
        decreases self.rows.len() - from,
    {
        if from < 0 || from >= self.rows.len() {
            self.rows.len() as int
        } else if self.row_struck(from, laser) {
            from
        } else {
            self.first_struck(laser, from + 1)
        }
    }

    /// The row of the invader the laser shoots, or the number of rows if it
    /// shoots none: the lowest row with an invader it overlaps, provided it
    /// overlaps the formation.
    pub open spec fn shot_row(self, laser: Laser) -> int {
        if self.area().overlaps(laser.area()) {
            self.first_struck(laser, 0)
        } else {
            self.rows.len() as int
        }
    }

    /// The formation after the laser passed: without the invader it shot.
    pub open spec fn shot(self, laser: Laser) -> GridView {
        let row = self.shot_row(laser);
        if row < self.rows.len() {
            GridView { rows: self.rows.update(row, self.rows[row].shot(laser)), ..self }
        } else {
            self
        }
    }

    /// The points for the invader the laser shot, if it shot one.
    pub open spec fn shot_score(self, laser: Laser) -> Option<u32> {
        let row = self.shot_row(laser);
        if row < self.rows.len() {
            self.rows[row].shot_score(laser)
        } else {
            None
        }
    }

    /// Some invader overlaps the cannon.
    pub open spec fn collides_with_cannon(self, cannon: Cannon) -> bool {
        &&& self.area().overlaps(cannon.area())
        &&& exists|r: int|
            0 <= r < self.rows.len() && (#[trigger] self.rows[r]).collides_with_cannon(cannon)
    }

    /// The invaders whose sprites overlap the rectangle, if the formation
    /// reaches it at all.
    pub open spec fn overlapping(self, area: Area) -> Seq<Invader> {
        if self.area().overlaps(area) {
            rows_overlapping(self.rows, area)
        } else {
            Seq::empty()
        }
    }

    /// The formation has not landed: its origin is above the floor, or at
    /// least one of its rows is still visible.
    pub open spec fn is_visible(self) -> bool {
        self.bottom > 0 || exists|r: int|
            0 <= r < self.rows.len() && (#[trigger] self.rows[r]).is_visible()
    }

    /// The number of invaders left.
    pub open spec fn count(self) -> nat {
        rows_count(self.rows)
    }

    /// No invader is left.
    pub open spec fn is_empty(self) -> bool {
        forall|r: int| 0 <= r < self.rows.len() ==> (#[trigger] self.rows[r]).is_empty()
    }

    /// The first row from `from` on with an invader in the column, or the
    /// number of rows if there is none.
    pub open spec fn first_armed(self, column: int, from: int) -> int
        decreases self.rows.len() - from,
    {
        if from < 0 || from >= self.rows.len() {
            self.rows.len() as int
        } else if self.rows[from].get(column) is Some {
            from
        } else {
            self.first_armed(column, from + 1)
        }
    }

    /// A laser dropped by any invader would start at a position that fits
    /// the coordinate type.
    pub open spec fn can_fire(self) -> bool {
        forall|r: int, c: int| #[trigger]
            self.alive(r, c) ==> fits(self.invader(r, c).left + ALIEN_WIDTH / 2) && fits(
                self.invader(r, c).bottom - LASER_HEIGHT,
            )
    }

    /// The laser that column `column` fires: the one its lowest invader
    /// drops, none if the column is empty.
    pub open spec fn laser_at(self, column: int) -> Option<Laser> {
        let row = self.first_armed(column, 0);
        if row < self.rows.len() {
            let invader = self.rows[row].get(column).unwrap();
            Some(Laser::spec_new_invader(invader.left, invader.bottom, invader.invader_type))
        } else {
            None
        }
    }

    /// The search for the struck row finds the first, if there is one.
    pub proof fn lemma_first_struck(self, laser: Laser, from: int)
        requires
            0 <= from <= self.rows.len(),
        ensures
            from <= self.first_struck(laser, from) <= self.rows.len(),
            self.first_struck(laser, from) < self.rows.len() ==> self.row_struck(
                self.first_struck(laser, from),
                laser,
            ),
            forall|r: int| from <= r < self.first_struck(laser, from) ==> !self.row_struck(r, laser),
        decreases self.rows.len() - from,
    {
        if from < self.rows.len() && !self.row_struck(from, laser) {
            self.lemma_first_struck(laser, from + 1);
        }
    }

    /// The search for the firing row finds the lowest invader of the
    /// column, if there is one.
    pub proof fn lemma_first_armed(self, column: int, from: int)
        requires
            0 <= from <= self.rows.len(),
        ensures
            from <= self.first_armed(column, from) <= self.rows.len(),
            self.first_armed(column, from) < self.rows.len() ==> self.alive(
                self.first_armed(column, from),
                column,
            ),
            forall|r: int| from <= r < self.first_armed(column, from) ==> !self.alive(r, column),
        decreases self.rows.len() - from,
    {
        if from < self.rows.len() && !(self.rows[from].get(column) is Some) {
            self.lemma_first_armed(column, from + 1);
        }
    }

    /// A well-formed formation is 124 pixels wide and 50 high, and holds
    /// at most forty invaders: none exactly when its count is zero.
    pub proof fn lemma_wf_facts(self)
        requires
            self.wf(),
        ensures
            self.area() == (Area {
                left: self.left as i64,
                bottom: self.bottom as i64,
                right: (self.left + 124) as i64,
                top: (self.bottom + 50) as i64,
            }),
            self.count() <= 40,
            self.is_empty() <==> self.count() == 0,
            self.is_empty() <==> (forall|r: int, c: int| !self.alive(r, c)),
    {
        lemma_rows_width(self.rows);
        lemma_rows_count_bound(self.rows);
        lemma_rows_count_zero(self.rows);
        if self.is_empty() {
            assert forall|r: int, c: int| !self.alive(r, c) by {
                if 0 <= r < self.rows.len() {
                    self.rows[r].lemma_wf_facts();
                }
            }
        }
        if forall|r: int, c: int| !self.alive(r, c) {
            assert forall|r: int| 0 <= r < self.rows.len() implies (
            #[trigger] self.rows[r]).is_empty() by {
                self.rows[r].lemma_wf_facts();
                assert forall|c: int| !self.rows[r].alive(c) by {
                    assert(!self.alive(r, c));
                }
            }
        }
    }

    /// A new formation is well formed, in the field and full.
    pub proof fn lemma_new(level: u8)
        ensures
            GridView::spec_new(level).wf(),
            GridView::spec_new(level).in_field(),
            GridView::spec_new(level).count() == 40,
            !GridView::spec_new(level).is_empty(),
            GridView::spec_new(level).can_fire(),
    {
        let grid = GridView::spec_new(level);
        assert forall|r: int| 0 <= r < grid.rows.len() implies {
            &&& (#[trigger] grid.rows[r]).wf()
            &&& grid.rows[r].left == grid.left
            &&& grid.rows[r].bottom == row_bottom(grid.bottom as int, r)
            &&& grid.rows[r].count == 8
        } by {
            RowView::lemma_new_wf(
                row_type(r),
                GRID_INITIAL_X,
                row_bottom(level_bottom(level), r) as i32,
            );
        }
        assert(grid.rows.drop_last().drop_last().drop_last().drop_last().drop_last().len() == 0);
        assert(rows_count(grid.rows) == 40) by {
            reveal_with_fuel(rows_count, 6);
        }
        assert(grid.rows[0].count == 8);
    }

    /// A move keeps a formation well formed.
    pub proof fn lemma_moved_wf(self)
        requires
            self.wf(),
            self.can_move(),
        ensures
            self.moved().wf(),
            self.moved().count() == self.count(),
    {
        let moved = self.moved();
        assert forall|r: int| 0 <= r < moved.rows.len() implies {
            &&& (#[trigger] moved.rows[r]).wf()
            &&& moved.rows[r].left == moved.left
            &&& moved.rows[r].bottom == row_bottom(moved.bottom as int, r)
            &&& moved.rows[r].count == self.rows[r].count
        } by {
            assert(self.rows[r].wf());
            if self.on_edge() {
                self.rows[r].lemma_moved_down_wf(INVADER_MOVE_Y);
            } else {
                self.rows[r].lemma_moved_along_wf(self.direction, INVADER_MOVE_X);
            }
        }
        lemma_rows_count_same(self.rows, moved.rows);
    }

    /// A move keeps the invaders in the field: the formation turns round
    /// before any of them would cross a wall.
    pub proof fn lemma_moved_in_field(self)
        requires
            self.in_field(),
        ensures
            self.moved().in_field(),
    {
        let moved = self.moved();
        assert forall|r: int, c: int| #[trigger] moved.alive(r, c) implies {
            &&& GRID_INITIAL_X <= moved.invader(r, c).left <= GAME_WIDTH - ALIEN_WIDTH + 1
            &&& (moved.invader(r, c).left - GRID_INITIAL_X) % 2 == 0
        } by {
            assert(self.alive(r, c));
            if !self.on_edge() {
                assert(!self.rows[r].on_edge(self.direction));
                assert(self.rows[r].alive(c));
                assert(!self.invader(r, c).on_edge(self.direction));
            }
        }
    }

    /// In a well-formed formation with its invaders in the field, the
    /// sideways step always fits, and so does any laser's horizontal
    /// position, as long as some invader is left.
    pub proof fn lemma_in_field_bounds(self)
        requires
            self.wf(),
            self.in_field(),
            !self.is_empty(),
        ensures
            GRID_INITIAL_X - 7 * 16 <= self.left <= GAME_WIDTH - ALIEN_WIDTH + 1,
    {
        self.lemma_wf_facts();
        let (r, c) = choose|r: int, c: int| self.alive(r, c);
        assert(self.alive(r, c));
        assert(self.rows[r].wf());
        assert(self.rows[r].alive(c));
    }

    /// An invader at the left wall of a formation marching left makes the
    /// formation step down and turn round in the same move, without any
    /// sideways step.
    pub proof fn lemma_bounce_left(self, row: int, column: int)
        requires
            self.alive(row, column),
            self.invader(row, column).left == GRID_INITIAL_X,
            self.direction == InvaderDirection::Left,
            self.can_move(),
        ensures
            self.on_edge(),
            self.moved().direction == InvaderDirection::Right,
            self.moved().bottom == self.bottom - INVADER_MOVE_Y,
            self.moved().left == self.left,
            forall|r: int, c: int| #[trigger]
                self.alive(r, c) ==> {
                    &&& self.moved().alive(r, c)
                    &&& self.moved().invader(r, c).bottom == self.invader(r, c).bottom
                        - INVADER_MOVE_Y
                    &&& self.moved().invader(r, c).left == self.invader(r, c).left
                },
    {
        assert(self.rows[row].alive(column));
        assert(self.rows[row].on_edge(self.direction));
        assert forall|r: int, c: int| #[trigger] self.alive(r, c) implies {
            &&& self.moved().alive(r, c)
            &&& self.moved().invader(r, c).bottom == self.invader(r, c).bottom - INVADER_MOVE_Y
            &&& self.moved().invader(r, c).left == self.invader(r, c).left
        } by {
            assert(self.rows[r].can_move_down(INVADER_MOVE_Y));
            assert(self.rows[r].alive(c));
        }
    }

    /// The same at the right wall.
    pub proof fn lemma_bounce_right(self, row: int, column: int)
        requires
            self.alive(row, column),
            self.invader(row, column).left + ALIEN_WIDTH >= GAME_WIDTH,
            self.direction == InvaderDirection::Right,
            self.can_move(),
        ensures
            self.on_edge(),
            self.moved().direction == InvaderDirection::Left,
            self.moved().bottom == self.bottom - INVADER_MOVE_Y,
            self.moved().left == self.left,
            forall|r: int, c: int| #[trigger]
                self.alive(r, c) ==> {
                    &&& self.moved().alive(r, c)
                    &&& self.moved().invader(r, c).bottom == self.invader(r, c).bottom
                        - INVADER_MOVE_Y
                    &&& self.moved().invader(r, c).left == self.invader(r, c).left
                },
    {
        assert(self.rows[row].alive(column));
        assert(self.rows[row].on_edge(self.direction));
        assert forall|r: int, c: int| #[trigger] self.alive(r, c) implies {
            &&& self.moved().alive(r, c)
            &&& self.moved().invader(r, c).bottom == self.invader(r, c).bottom - INVADER_MOVE_Y
            &&& self.moved().invader(r, c).left == self.invader(r, c).left
        } by {
            assert(self.rows[r].can_move_down(INVADER_MOVE_Y));
            assert(self.rows[r].alive(c));
        }
    }

    /// Shooting keeps a formation well formed and in the field; the count
    /// drops by one exactly when an invader is shot, whose points are those
    /// of its kind.
    pub proof fn lemma_shot(self, laser: Laser)
        requires
            self.wf(),
        ensures
            self.shot(laser).wf(),
            self.in_field() ==> self.shot(laser).in_field(),
            self.can_fire() ==> self.shot(laser).can_fire(),
            self.shot(laser).left == self.left,
            self.shot(laser).bottom == self.bottom,
            self.shot(laser).direction == self.direction,
            self.shot_score(laser) is Some ==> self.shot(laser).count() == self.count() - 1,
            self.shot_score(laser) is None ==> self.shot(laser) == self,
            self.shot_score(laser) is Some ==> 10 <= self.shot_score(laser).unwrap() <= 30,
            forall|r: int, c: int| #[trigger]
                self.shot(laser).alive(r, c) ==> self.alive(r, c) && self.shot(laser).invader(r, c)
                    == self.invader(r, c),
    {
        self.lemma_first_struck(laser, 0);
        let row = self.shot_row(laser);
        let shot = self.shot(laser);
        if row < self.rows.len() {
            let before = self.rows[row];
            assert(before.wf());
            before.lemma_first_struck(laser, 0);
            let column = before.shot_column(laser);
            before.lemma_deleted_wf(column);
            lemma_rows_count_update(self.rows, row, before.shot(laser));
            assert forall|r: int, c: int| #[trigger] shot.alive(r, c) implies self.alive(r, c)
                && shot.invader(r, c) == self.invader(r, c) by {
                if r == row {
                    assert(before.deleted(column).get(c) == before.get(c));
                }
            }
            assert forall|r: int| 0 <= r < shot.rows.len() implies {
                &&& (#[trigger] shot.rows[r]).wf()
                &&& shot.rows[r].left == shot.left
                &&& shot.rows[r].bottom == row_bottom(shot.bottom as int, r)
            } by {
                assert(self.rows[r].wf());
            }
        }
        if self.in_field() {
            assert forall|r: int, c: int| #[trigger] shot.alive(r, c) implies {
                &&& GRID_INITIAL_X <= shot.invader(r, c).left <= GAME_WIDTH - ALIEN_WIDTH + 1
                &&& (shot.invader(r, c).left - GRID_INITIAL_X) % 2 == 0
            } by {
                assert(self.alive(r, c));
            }
        }
        if self.can_fire() {
            assert forall|r: int, c: int| #[trigger] shot.alive(r, c) implies fits(
                shot.invader(r, c).left + ALIEN_WIDTH / 2,
            ) && fits(shot.invader(r, c).bottom - LASER_HEIGHT) by {
                assert(self.alive(r, c));
            }
        }
    }
}

impl InvaderGrid {
    /// Builds the full formation for the given level.
    pub fn new(level: u8) -> (grid: InvaderGrid)
        ensures
            grid@ == GridView::spec_new(level),
            grid@.wf(),
            grid@.in_field(),
            grid@.count() == 40,
    {
        let level_offset: i32 = level as i32 * INVADER_MOVE_Y * -1;
        let bottom: i32 = GRID_INITIAL_Y + level_offset;
        assert(bottom == level_bottom(level));
        let mut rows: Vec<InvaderRow> = Vec::new();
        let mut i: usize = 0;
        while i < INVADER_ROWS
            invariant
                i <= INVADER_ROWS,
                rows.len() == i,
                bottom == level_bottom(level),
                forall|r: int|
                    0 <= r < i ==> (#[trigger] rows[r])@ == RowView::spec_new(
                        row_type(r),
                        GRID_INITIAL_X,
                        row_bottom(level_bottom(level), r) as i32,
                    ),
            decreases INVADER_ROWS - i,
        {
            let invader_type = if i < 2 {
                InvaderType::Octopus
            } else if i < 4 {
                InvaderType::Crab
            } else {
                InvaderType::Squid
            };
            let row = InvaderRow::new(invader_type, GRID_INITIAL_X, bottom + ROW_HEIGHT * (i as i32));
            rows.push(row);
            i += 1;
        }
        let grid = InvaderGrid {
            rows,
            left: GRID_INITIAL_X,
            bottom,
            direction: InvaderDirection::default(),
        };
        proof {
            assert(grid@.rows =~= GridView::spec_new(level).rows);
            GridView::lemma_new(level);
        }
        grid
    }

    /// Tells whether the formation is well formed.
    pub fn is_wf(&self) -> (r: bool)
        ensures
            r == self@.wf(),
    {
        if self.rows.len() != INVADER_ROWS {
            return false;
        }
        let mut i: usize = 0;
        while i < self.rows.len()
            invariant
                i <= self.rows.len(),
                self.rows.len() == INVADER_ROWS,
                forall|r: int|
                    0 <= r < i ==> {
                        &&& (#[trigger] self@.rows[r]).wf()
                        &&& self@.rows[r].left == self.left
                        &&& self@.rows[r].bottom == row_bottom(self.bottom as int, r)
                    },
            decreases self.rows.len() - i,
        {
            assert(self@.rows[i as int] == self.rows[i as int]@);
            if !self.rows[i].is_wf() || self.rows[i].left != self.left || self.rows[i].bottom as i64
                != self.bottom as i64 + 10 * (i as i64) {
                return false;
            }
            i += 1;
        }
        true
    }

    /// Tells whether every invader stands where the march can take it.
    pub fn is_in_field(&self) -> (r: bool)
        ensures
            r == self@.in_field(),
    {
        let mut i: usize = 0;
        while i < self.rows.len()
            invariant
                i <= self.rows.len(),
                forall|r: int, c: int| #[trigger]
                    self@.alive(r, c) && r < i ==> {
                        &&& GRID_INITIAL_X <= self@.invader(r, c).left <= GAME_WIDTH - ALIEN_WIDTH
                            + 1
                        &&& (self@.invader(r, c).left - GRID_INITIAL_X) % 2 == 0
                    },
            decreases self.rows.len() - i,
        {
            assert(self@.rows[i as int] == self.rows[i as int]@);
            let mut j: usize = 0;
            while j < self.rows[i].invaders.len()
                invariant
                    i < self.rows.len(),
                    j <= self.rows[i as int].invaders.len(),
                    self@.rows[i as int] == self.rows[i as int]@,
                    forall|c: int| #[trigger]
                        self@.alive(i as int, c) && c < j ==> {
                            &&& GRID_INITIAL_X <= self@.invader(i as int, c).left <= GAME_WIDTH
                                - ALIEN_WIDTH + 1
                            &&& (self@.invader(i as int, c).left - GRID_INITIAL_X) % 2 == 0
                        },
                decreases self.rows[i as int].invaders.len() - j,
            {
                if let Some(invader) = self.rows[i].invaders[j] {
                    if invader.left < GRID_INITIAL_X || invader.left > GAME_WIDTH - ALIEN_WIDTH + 1
                        || (invader.left - GRID_INITIAL_X) % 2 != 0 {
                        assert(self@.alive(i as int, j as int));
                        return false;
                    }
                }
                j += 1;
            }
            i += 1;
        }
        true
    }

    /// Tells whether some invader has reached the wall ahead.
    pub fn on_edge(&self) -> (r: bool)
        ensures
            r == self@.on_edge(),
    {
        let mut i: usize = 0;
        while i < self.rows.len()
            invariant
                i <= self.rows.len(),
                forall|r: int| 0 <= r < i ==> !(#[trigger] self@.rows[r]).on_edge(self.direction),
            decreases self.rows.len() - i,
        {
            if self.rows[i].on_edge(self.direction) {
                assert(self@.rows[i as int].on_edge(self.direction));
                return true;
            }
            i += 1;
        }
        false
    }

    /// Moves the formation: down and round at a wall, sideways otherwise.
    pub fn move_along(&mut self)
        requires
            old(self)@.can_move(),
        ensures
            final(self)@ == old(self)@.moved(),
            old(self)@.wf() ==> final(self)@.wf() && final(self)@.count() == old(self)@.count(),
            old(self)@.in_field() ==> final(self)@.in_field(),
    {
        let on_edge = self.on_edge();
        let direction = self.direction;
        if on_edge {
            self.direction = self.direction.switch();
            self.bottom = self.bottom - INVADER_MOVE_Y;
        } else {
            match self.direction {
                InvaderDirection::Left => {
                    self.left = self.left - INVADER_MOVE_X;
                },
                InvaderDirection::Right => {
                    self.left = self.left + INVADER_MOVE_X;
                },
            }
        }
        let mut i: usize = 0;
        while i < self.rows.len()
            invariant
                i <= self.rows.len(),
                self.rows.len() == old(self).rows.len(),
                on_edge == old(self)@.on_edge(),
                direction == old(self).direction,
                old(self)@.can_move(),
                self.left == old(self)@.moved().left,
                self.bottom == old(self)@.moved().bottom,
                self.direction == old(self)@.moved().direction,
                forall|r: int|
                    0 <= r < i ==> (#[trigger] self.rows[r])@ == if on_edge {
                        old(self)@.rows[r].moved_down(INVADER_MOVE_Y)
                    } else {
                        old(self)@.rows[r].moved_along(direction, INVADER_MOVE_X)
                    },
                forall|r: int| i <= r < self.rows.len() ==> (#[trigger] self.rows[r]) == old(self).rows[r],
            decreases self.rows.len() - i,
        {
            assert(self.rows[i as int]@ == old(self)@.rows[i as int]);
            if on_edge {
                self.rows[i].move_down(INVADER_MOVE_Y);
            } else {
                self.rows[i].move_along(direction, INVADER_MOVE_X);
            }
            i += 1;
        }
        proof {
            assert(self@.rows =~= old(self)@.moved().rows);
            if old(self)@.wf() {
                old(self)@.lemma_moved_wf();
            }
            if old(self)@.in_field() {
                old(self)@.lemma_moved_in_field();
            }
        }
    }

    /// Lets the laser shoot the first invader it overlaps, searching the
    /// rows from the bottom, and gives the points for it.
    pub fn collides_with_laser(&mut self, laser: &Laser) -> (r: Option<u32>)
        requires
            old(self)@.wf(),
        ensures
            final(self)@ == old(self)@.shot(*laser),
            r == old(self)@.shot_score(*laser),
            final(self)@.wf(),
            old(self)@.in_field() ==> final(self)@.in_field(),
            r is Some ==> final(self)@.count() == old(self)@.count() - 1,
            r is None ==> final(self)@.count() == old(self)@.count(),
    {
        proof {
            self@.lemma_shot(*laser);
            self@.lemma_first_struck(*laser, 0);
        }
        if self.area().overlaps(laser.area()) {
            let mut i: usize = 0;
            while i < self.rows.len()
                invariant
                    i <= self.rows.len(),
                    self@ == old(self)@,
                    self@.wf(),
                    self@.area().overlaps(laser.area()),
                    self@.first_struck(*laser, 0) == self@.first_struck(*laser, i as int),
                decreases self.rows.len() - i,
            {
                let ghost before = self@;
                assert(before.rows[i as int] == self.rows[i as int]@);
                assert(before.rows[i as int].wf());
                if let Some(score) = self.rows[i].collides_with_laser(laser) {
                    assert(before.row_struck(i as int, *laser));
                    assert(self@.rows =~= before.rows.update(
                        i as int,
                        before.rows[i as int].shot(*laser),
                    ));
                    proof {
                        before.lemma_shot(*laser);
                    }
                    return Some(score);
                }
                assert(!before.row_struck(i as int, *laser));
                proof {
                    before.rows[i as int].lemma_deleted_wf(before.rows[i as int].shot_column(*laser));
                }
                assert(self@.rows =~= before.rows);
                i += 1;
            }
        }
        None
    }

    /// Tells whether some invader overlaps the cannon.
    pub fn collides_with_cannon(&self, cannon: &Cannon) -> (r: bool)
        requires
            self@.wf(),
        ensures
            r == self@.collides_with_cannon(*cannon),
    {
        if self.area().overlaps(cannon.area()) {
            let mut i: usize = 0;
            while i < self.rows.len()
                invariant
                    i <= self.rows.len(),
                    self@.wf(),
                    self@.area().overlaps(cannon.area()),
                    forall|r: int|
                        0 <= r < i ==> !(#[trigger] self@.rows[r]).collides_with_cannon(*cannon),
                decreases self.rows.len() - i,
            {
                assert(self@.rows[i as int].wf());
                if self.rows[i].collides_with_cannon(cannon) {
                    assert(self@.rows[i as int].collides_with_cannon(*cannon));
                    return true;
                }
                i += 1;
            }
        }
        false
    }

    /// The invaders that have come down to the bunkers, row by row from
    /// the bottom.
    pub fn collides_with_bunkers(&self, bunkers: &Bunkers) -> (invaders: Vec<Invader>)
        requires
            self@.wf(),
        ensures
            invaders@ == self@.overlapping(BunkersView::area()),
    {
        let mut invaders: Vec<Invader> = Vec::new();
        if self.area().overlaps(bunkers.area()) {
            let mut i: usize = 0;
            while i < self.rows.len()
                invariant
                    i <= self.rows.len(),
                    invaders@ == rows_overlapping(self@.rows.take(i as int), BunkersView::area()),
                decreases self.rows.len() - i,
            {
                assert(self@.rows.take(i + 1).drop_last() =~= self@.rows.take(i as int));
                let mut found = self.rows[i].collides_with_bunkers(bunkers);
                invaders.append(&mut found);
                i += 1;
            }
            assert(self@.rows.take(i as int) =~= self@.rows);
        }
        invaders
    }

    /// Tells whether the formation has yet to land.
    pub fn is_visible(&self) -> (r: bool)
        ensures
            r == self@.is_visible(),
    {
        if self.bottom > 0 {
            return true;
        }
        let mut i: usize = 0;
        while i < self.rows.len()
            invariant
                i <= self.rows.len(),
                self.bottom <= 0,
                forall|r: int| 0 <= r < i ==> !(#[trigger] self@.rows[r]).is_visible(),
            decreases self.rows.len() - i,
        {
            if self.rows[i].is_visible() {
                assert(self@.rows[i as int].is_visible());
                return true;
            }
            i += 1;
        }
        false
    }

    /// The rectangle the formation takes up.
    pub fn area(&self) -> (area: Area)
        requires
            self@.wf(),
        ensures
            area == self@.area(),
            area.non_degenerate(),
    {
        let mut row_width: i64 = 0;
        let mut i: usize = 0;
        while i < self.rows.len()
            invariant
                i <= self.rows.len(),
                self@.wf(),
                row_width == rows_width(self@.rows.take(i as int)),
                0 <= row_width <= 124,
            decreases self.rows.len() - i,
        {
            assert(self@.rows.take(i + 1).drop_last() =~= self@.rows.take(i as int));
            assert(self@.rows[i as int].wf());
            let width = self.rows[i].width();
            if row_width < width {
                row_width = width;
            }
            i += 1;
        }
        assert(self@.rows.take(i as int) =~= self@.rows);
        Area::new(
            self.left as i64,
            self.bottom as i64,
            self.left as i64 + row_width,
            self.bottom as i64 + 5 * ROW_HEIGHT as i64,
        )
    }

    /// The number of invaders left.
    pub fn count(&self) -> (count: usize)
        requires
            self@.wf(),
        ensures
            count == self@.count(),
            count <= 40,
    {
        let mut count: usize = 0;
        let mut i: usize = 0;
        while i < self.rows.len()
            invariant
                i <= self.rows.len(),
                self@.wf(),
                count == rows_count(self@.rows.take(i as int)),
                count <= 8 * i,
            decreases self.rows.len() - i,
        {
            assert(self@.rows.take(i + 1).drop_last() =~= self@.rows.take(i as int));
            assert(self@.rows[i as int].wf());
            proof {
                self@.rows[i as int].lemma_wf_facts();
            }
            count = count + self.rows[i].count;
            i += 1;
        }
        assert(self@.rows.take(i as int) =~= self@.rows);
        count
    }

    /// Tells whether no invader is left.
    pub fn is_empty(&self) -> (r: bool)
        ensures
            r == self@.is_empty(),
    {
        let mut i: usize = 0;
        while i < self.rows.len()
            invariant
                i <= self.rows.len(),
                forall|r: int| 0 <= r < i ==> (#[trigger] self@.rows[r]).is_empty(),
            decreases self.rows.len() - i,
        {
            if !self.rows[i].is_empty() {
                assert(!self@.rows[i as int].is_empty());
                return false;
            }
            i += 1;
        }
        true
    }

    /// The laser the given column fires: its lowest invader drops it.
    pub fn laser_at(&self, column: usize) -> (laser: Option<Laser>)
        requires
            self@.can_fire(),
        ensures
            laser == self@.laser_at(column as int),
    {
        let mut i: usize = 0;
        while i < self.rows.len()
            invariant
                i <= self.rows.len(),
                self@.can_fire(),
                self@.first_armed(column as int, 0) == self@.first_armed(column as int, i as int),
            decreases self.rows.len() - i,
        {
            assert(self@.rows[i as int] == self.rows[i as int]@);
            if let Some(invader) = self.rows[i].get(column) {
                assert(self@.alive(i as int, column as int));
                return Some(Laser::new_invader(invader.left, invader.bottom, invader.invader_type));
            }
            i += 1;
        }
        None
    }

    /// Lets a column chosen at random fire.
    ///
    /// Which column fires is up to the generator; whichever it is, the
    /// result is the laser that column fires.
    pub fn laser(&self, rng: &mut ThreadRng) -> (laser: Option<Laser>)
        requires
            self@.wf(),
            self@.can_fire(),
        ensures
            exists|column: int| 0 <= column < INVADERS_PER_ROW && laser == self@.laser_at(column),
    {
        if self.is_empty() {
            proof {
                self@.lemma_wf_facts();
                self@.lemma_first_armed(0, 0);
                assert(self@.laser_at(0) is None);
            }
            return None;
        }
        let column = sample_below(rng, INVADERS_PER_ROW);
        self.laser_at(column)
    }
}

} // verus!
