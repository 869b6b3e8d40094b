//! The invaders: the three kinds, a single invader, a row of eight slots
//! and the formation of five rows that marches across the playfield.

use vstd::prelude::*;
use crate::area::Area;
use crate::bunker::{Bunkers, BunkersView};
use crate::cannon::Cannon;
use crate::color::Color;
use crate::laser::Laser;
use crate::points::{
    ALIEN_BUFFER_WIDTH, ALIEN_HEIGHT, ALIEN_PITCH, ALIEN_WIDTH, CRAB_WIDTH, GAME_WIDTH,
    GRID_INITIAL_X, OCTOPUS_WIDTH, SQUID_WIDTH,
};

verus! {

/// The three kinds of invaders.
#[derive(Copy, Clone, Debug, PartialEq, Eq, Structural)]
pub enum InvaderType {
    Crab,
    Squid,
    Octopus,
}

impl InvaderType {
    /// The colour invaders of this kind and their lasers are drawn in.
    pub open spec fn spec_color(&self) -> Color {
        match self {
            InvaderType::Crab => Color::White,
            InvaderType::Squid => Color::Yellow,
            InvaderType::Octopus => Color::Cyan,
        }
    }

    /// The points for shooting an invader of this kind.
    pub open spec fn spec_score(&self) -> u32 {
        match self {
            InvaderType::Crab => 20,
            InvaderType::Squid => 30,
            InvaderType::Octopus => 10,
        }
    }

    /// The width of the sprite of this kind.
    pub open spec fn spec_width(&self) -> i32 {
        match self {
            InvaderType::Crab => CRAB_WIDTH,
            InvaderType::Squid => SQUID_WIDTH,
            InvaderType::Octopus => OCTOPUS_WIDTH,
        }
    }

    /// The colour of this kind.
    #[verifier::when_used_as_spec(spec_color)]
    pub fn color(&self) -> (color: Color)
        ensures
            color == self.spec_color(),
    {
        match self {
            InvaderType::Crab => Color::White,
            InvaderType::Squid => Color::Yellow,
            InvaderType::Octopus => Color::Cyan,
        }
    }

    /// The points for shooting an invader of this kind.
    #[verifier::when_used_as_spec(spec_score)]
    pub fn score(&self) -> (score: u32)
        ensures
            score == self.spec_score(),
    {
        match self {
            InvaderType::Crab => 20,
            InvaderType::Squid => 30,
            InvaderType::Octopus => 10,
        }
    }

    /// The width of the sprite of this kind.
    #[verifier::when_used_as_spec(spec_width)]
    pub fn width(&self) -> (width: i32)
        ensures
            width == self.spec_width(),
    {
        match self {
            InvaderType::Crab => CRAB_WIDTH,
            InvaderType::Squid => SQUID_WIDTH,
            InvaderType::Octopus => OCTOPUS_WIDTH,
        }
    }
}

/// The two frames an invader alternates between as it moves.
#[derive(Copy, Clone, Debug, PartialEq, Eq, Structural)]
pub enum InvaderAnimation {
    Original,
    Alternate,
}

impl InvaderAnimation {
    /// The other frame.
    pub open spec fn spec_switch(&self) -> InvaderAnimation {
        match self {
            InvaderAnimation::Original => InvaderAnimation::Alternate,
            InvaderAnimation::Alternate => InvaderAnimation::Original,
        }
    }

    /// The other frame.
    #[verifier::when_used_as_spec(spec_switch)]
    pub fn switch(&self) -> (other: InvaderAnimation)
        ensures
            other == self.spec_switch(),
    {
        match self {
            InvaderAnimation::Original => InvaderAnimation::Alternate,
            InvaderAnimation::Alternate => InvaderAnimation::Original,
        }
    }

}

impl Default for InvaderAnimation {
    /// Invaders start in their first frame.
    fn default() -> (animation: InvaderAnimation)
        ensures
            animation == InvaderAnimation::Original,
    {
        InvaderAnimation::Original
    }
}

/// The way the formation is marching.
#[derive(Copy, Clone, Debug, PartialEq, Eq, Structural)]
pub enum InvaderDirection {
    Left,
    Right,
}

impl InvaderDirection {
    /// The opposite direction.
    pub open spec fn spec_switch(&self) -> InvaderDirection {
        match self {
            InvaderDirection::Left => InvaderDirection::Right,
            InvaderDirection::Right => InvaderDirection::Left,
        }
    }

    /// The signed distance covered by a move of `movement` pixels this way.
    pub open spec fn signed(self, movement: i32) -> int {
        match self {
            InvaderDirection::Left => -movement,
            InvaderDirection::Right => movement as int,
        }
    }

    /// The opposite direction.
    #[verifier::when_used_as_spec(spec_switch)]
    pub fn switch(&self) -> (other: InvaderDirection)
        ensures
            other == self.spec_switch(),
    {
        match self {
            InvaderDirection::Left => InvaderDirection::Right,
            InvaderDirection::Right => InvaderDirection::Left,
        }
    }

}

impl Default for InvaderDirection {
    /// The formation starts marching to the right.
    fn default() -> (direction: InvaderDirection)
        ensures
            direction == InvaderDirection::Right,
    {
        InvaderDirection::Right
    }
}

/// Whether `x` is a value of the coordinate type.
pub open spec fn fits(x: int) -> bool {
    i32::MIN <= x <= i32::MAX
}

/// An invader: its kind, its frame and the position of the lower left
/// corner of its cell.
#[derive(Copy, Clone, Debug, PartialEq, Eq, Structural)]
pub struct Invader {
    pub invader_type: InvaderType,
    pub animation: InvaderAnimation,
    pub left: i32,
    pub bottom: i32,
}

impl Invader {
    /// An invader of the given kind at the given position, in its first
    /// frame.
    pub open spec fn spec_new(invader_type: InvaderType, left: i32, bottom: i32) -> Invader {
        Invader { invader_type, animation: InvaderAnimation::Original, left, bottom }
    }

    /// The width of the invader's sprite.
    pub open spec fn spec_width(&self) -> i32 {
        self.invader_type.width()
    }

    /// The distance from the left of the invader's cell to its sprite, which
    /// is centred in the cell, rounding down.
    pub open spec fn spec_draw_x_offset(&self) -> i32 {
        ((ALIEN_WIDTH - self.width()) / 2) as i32
    }

    /// The invader has reached the wall it is marching towards.
    pub open spec fn spec_on_edge(&self, direction: InvaderDirection) -> bool {
        match direction {
            InvaderDirection::Left => self.left <= GRID_INITIAL_X,
            InvaderDirection::Right => self.left + ALIEN_WIDTH >= GAME_WIDTH,
        }
    }

    /// The invader after a sideways step: shifted, and in its other frame.
    pub open spec fn moved_along(self, direction: InvaderDirection, movement: i32) -> Invader {
        Invader {
            left: (self.left + direction.signed(movement)) as i32,
            animation: self.animation.switch(),
            ..self
        }
    }

    /// The invader after a step down: lowered, and in its other frame.
    pub open spec fn moved_down(self, movement: i32) -> Invader {
        Invader {
            bottom: (self.bottom - movement) as i32,
            animation: self.animation.switch(),
            ..self
        }
    }

    /// The rectangle of the sprite, which may be narrower than the cell.
    pub open spec fn spec_area(&self) -> Area {
        Area {
            left: (self.left + self.draw_x_offset()) as i64,
            bottom: self.bottom as i64,
            right: (self.left + self.draw_x_offset() + self.width()) as i64,
            top: (self.bottom + ALIEN_HEIGHT) as i64,
        }
    }

    /// The points a laser earns from this invader, if it overlaps it.
    pub open spec fn spec_collides_with_laser(&self, laser: &Laser) -> Option<u32> {
        if self.area().overlaps(laser.area()) {
            Some(self.invader_type.score())
        } else {
            None
        }
    }

    /// The invader's sprite overlaps the cannon.
    pub open spec fn spec_collides_with_cannon(&self, cannon: &Cannon) -> bool {
        self.area().overlaps(cannon.area())
    }

    /// An invader of the given kind at the given position.
    pub fn new(invader_type: InvaderType, left: i32, bottom: i32) -> (invader: Invader)
        ensures
            invader == Invader::spec_new(invader_type, left, bottom),
    {
        Invader { invader_type, animation: InvaderAnimation::Original, left, bottom }
    }

    /// The width of the invader's sprite.
    #[verifier::when_used_as_spec(spec_width)]
    pub fn width(&self) -> (width: i32)
        ensures
            width == self.spec_width(),
    {
        self.invader_type.width()
    }

    /// The distance from the left of the cell to the sprite.
    #[verifier::when_used_as_spec(spec_draw_x_offset)]
    pub fn draw_x_offset(&self) -> (offset: i32)
        ensures
            offset == self.spec_draw_x_offset(),
            0 <= offset <= 2,
    {
        (ALIEN_WIDTH - self.width()) / 2
    }

    /// Tells whether the invader has reached the wall in the given
    /// direction.
    #[verifier::when_used_as_spec(spec_on_edge)]
    pub fn on_edge(&self, direction: InvaderDirection) -> (r: bool)
        ensures
            r == self.spec_on_edge(direction),
    {
        match direction {
            InvaderDirection::Left => self.left <= GRID_INITIAL_X,
            InvaderDirection::Right => self.left >= GAME_WIDTH - ALIEN_WIDTH,
        }
    }

    /// Moves the invader sideways and switches its frame.
    pub fn move_along(&mut self, direction: InvaderDirection, movement: i32)
        requires
            fits(old(self).left + direction.signed(movement)),
        ensures
            *final(self) == old(self).moved_along(direction, movement),
            final(self).left == old(self).left + direction.signed(movement),
    {
        match direction {
            InvaderDirection::Left => {
                self.left = self.left - movement;
            },
            InvaderDirection::Right => {
                self.left = self.left + movement;
            },
        }
        self.animation = self.animation.switch();
    }

    /// Moves the invader down and switches its frame.
    pub fn move_down(&mut self, movement: i32)
        requires
            fits(old(self).bottom - movement),
        ensures
            *final(self) == old(self).moved_down(movement),
            final(self).bottom == old(self).bottom - movement,
    {
        self.bottom = self.bottom - movement;
        self.animation = self.animation.switch();
    }

    /// Gives the points a laser earns from the invader, if it overlaps it.
    #[verifier::when_used_as_spec(spec_collides_with_laser)]
    pub fn collides_with_laser(&self, laser: &Laser) -> (r: Option<u32>)
        ensures
            r == self.spec_collides_with_laser(laser),
    {
        if self.area().overlaps(laser.area()) {
            Some(self.invader_type.score())
        } else {
            None
        }
    }

    /// Tells whether the invader overlaps the cannon.
    #[verifier::when_used_as_spec(spec_collides_with_cannon)]
    pub fn collides_with_cannon(&self, cannon: &Cannon) -> (r: bool)
        ensures
            r == self.spec_collides_with_cannon(cannon),
    {
        self.area().overlaps(cannon.area())
    }

    /// The rectangle of the invader's sprite.
    #[verifier::when_used_as_spec(spec_area)]
    pub fn area(&self) -> (area: Area)
        ensures
            area == self.spec_area(),
            area.non_degenerate(),
    {
        let x_offset: i64 = self.draw_x_offset() as i64;
        Area::new(
            self.left as i64 + x_offset,
            self.bottom as i64,
            self.left as i64 + x_offset + self.width() as i64,
            self.bottom as i64 + ALIEN_HEIGHT as i64,
        )
    }

    /// The sprite of every kind lies within the invader's cell.
    pub proof fn lemma_area_in_cell(invader: Invader)
        ensures
            invader.left <= invader.area().left,
            invader.area().left < invader.area().right,
            invader.area().right <= invader.left + ALIEN_WIDTH,
            invader.area().bottom == invader.bottom,
            invader.area().top == invader.bottom + ALIEN_HEIGHT,
    {
    }
}

/// The number of slots in a row.
pub const INVADERS_PER_ROW: usize = 8;

/// The number of slots that hold an invader.
pub open spec fn count_alive(slots: Seq<Option<Invader>>) -> nat
    decreases slots.len(),
{
    if slots.len() == 0 {
        0
    } else {
        count_alive(slots.drop_last()) + if slots.last() is Some {
            1nat
        } else {
            0nat
        }
    }
}

/// The left edge of the cell in column `column` of a row that starts at
/// `left`: neighbouring cells are an invader and a gap apart.
pub open spec fn slot_left(left: int, column: int) -> int {
    left + 16 * column
}

/// The cells of a row are an invader's cell and a gap apart.
pub proof fn lemma_slot_left(left: int, column: int)
    ensures
        slot_left(left, column) == left + column * (ALIEN_WIDTH + ALIEN_BUFFER_WIDTH),
        slot_left(left, column) == left + column * ALIEN_PITCH,
{
    assert(column * (ALIEN_WIDTH + ALIEN_BUFFER_WIDTH) == 16 * column) by (nonlinear_arith)
        requires
            ALIEN_WIDTH + ALIEN_BUFFER_WIDTH == 16,
    ;
    assert(column * ALIEN_PITCH == 16 * column) by (nonlinear_arith)
        requires
            ALIEN_PITCH == 16,
    ;
}

/// A slot after a sideways step of its invader, if it holds one.
pub open spec fn slot_moved_along(
    slot: Option<Invader>,
    direction: InvaderDirection,
    movement: i32,
) -> Option<Invader> {
    match slot {
        Some(invader) => Some(invader.moved_along(direction, movement)),
        None => None,
    }
}

/// A slot after a step down of its invader, if it holds one.
pub open spec fn slot_moved_down(slot: Option<Invader>, movement: i32) -> Option<Invader> {
    match slot {
        Some(invader) => Some(invader.moved_down(movement)),
        None => None,
    }
}

/// The invaders among the first slots of a row whose sprites overlap the
/// rectangle, in column order.
pub open spec fn slots_overlapping(slots: Seq<Option<Invader>>, area: Area) -> Seq<Invader>
    decreases slots.len(),
{
    if slots.len() == 0 {
        Seq::empty()
    } else {
        let before = slots_overlapping(slots.drop_last(), area);
        match slots.last() {
            Some(invader) => if area.overlaps(invader.area()) {
                before.push(invader)
            } else {
                before
            },
            None => before,
        }
    }
}

/// A row holds no more invaders than it has slots.
pub proof fn lemma_count_alive_bound(slots: Seq<Option<Invader>>)
    ensures
        count_alive(slots) <= slots.len(),
    decreases slots.len(),
{
    if slots.len() > 0 {
        lemma_count_alive_bound(slots.drop_last());
    }
}

/// Replacing the content of one slot changes the count by what left and
/// what came.
pub proof fn lemma_count_alive_update(slots: Seq<Option<Invader>>, index: int, slot: Option<Invader>)
    requires
        0 <= index < slots.len(),
    ensures
        count_alive(slots.update(index, slot)) + (if slots[index] is Some {
            1nat
        } else {
            0nat
        }) == count_alive(slots) + (if slot is Some {
            1nat
        } else {
            0nat
        }),
    decreases slots.len(),
{
    let updated = slots.update(index, slot);
    if index == slots.len() - 1 {
        assert(updated.drop_last() =~= slots.drop_last());
    } else {
        lemma_count_alive_update(slots.drop_last(), index, slot);
        assert(updated.drop_last() =~= slots.drop_last().update(index, slot));
    }
}

/// Two rows with invaders in the same slots hold equally many.
pub proof fn lemma_count_alive_same_slots(a: Seq<Option<Invader>>, b: Seq<Option<Invader>>)
    requires
        a.len() == b.len(),
        forall|c: int| 0 <= c < a.len() ==> (a[c] is Some) == (b[c] is Some),
    ensures
        count_alive(a) == count_alive(b),
    decreases a.len(),
{
    if a.len() > 0 {
        lemma_count_alive_same_slots(a.drop_last(), b.drop_last());
    }
}

/// The count is zero exactly when every slot is empty.
pub proof fn lemma_count_alive_zero(slots: Seq<Option<Invader>>)
    ensures
        count_alive(slots) == 0 <==> (forall|c: int| 0 <= c < slots.len() ==> slots[c] is None),
    decreases slots.len(),
{
    if slots.len() > 0 {
        lemma_count_alive_zero(slots.drop_last());
        if count_alive(slots) == 0 {
            assert forall|c: int| 0 <= c < slots.len() implies slots[c] is None by {
                if c < slots.len() - 1 {
                    assert(slots.drop_last()[c] == slots[c]);
                }
            }
        }
        if forall|c: int| 0 <= c < slots.len() ==> slots[c] is None {
            assert forall|c: int| 0 <= c < slots.drop_last().len() implies slots.drop_last()[c]
                is None by {
                assert(slots.drop_last()[c] == slots[c]);
            }
        }
    }
}

/// A row with an invader in every slot holds as many as it has slots.
pub proof fn lemma_count_alive_full(slots: Seq<Option<Invader>>)
    requires
        forall|c: int| 0 <= c < slots.len() ==> slots[c] is Some,
    ensures
        count_alive(slots) == slots.len(),
    decreases slots.len(),
{
    if slots.len() > 0 {
        lemma_count_alive_full(slots.drop_last());
    }
}

/// One row of the formation: eight slots, each holding an invader or
/// empty, with the row's origin and the number of invaders left.
#[derive(Clone, Debug)]
pub struct InvaderRow {
    pub invaders: Vec<Option<Invader>>,
    pub left: i32,
    pub bottom: i32,
    pub size: usize,
    pub count: usize,
}

/// The mathematical value of a row.
pub struct RowView {
    pub invaders: Seq<Option<Invader>>,
    pub left: i32,
    pub bottom: i32,
    pub size: usize,
    pub count: usize,
}

impl View for InvaderRow {
    type V = RowView;

    open spec fn view(&self) -> RowView {
        RowView {
            invaders: self.invaders@,
            left: self.left,
            bottom: self.bottom,
            size: self.size,
            count: self.count,
        }
    }
}

impl RowView {
    /// Column `column` holds an invader.
    pub open spec fn alive(self, column: int) -> bool {
        0 <= column < self.invaders.len() && self.invaders[column] is Some
    }

    /// The row has its eight slots, counts its invaders rightly, and every
    /// invader stands in the cell of its column at the row's height.
    pub open spec fn wf(self) -> bool {
        &&& self.invaders.len() == INVADERS_PER_ROW
        &&& self.size == INVADERS_PER_ROW
        &&& self.count == count_alive(self.invaders)
        &&& forall|c: int| #[trigger]
            self.alive(c) ==> self.invaders[c].unwrap().left == slot_left(self.left as int, c)
                && self.invaders[c].unwrap().bottom == self.bottom
    }

    /// A full row of invaders of one kind starting at `(left, bottom)`.
    pub open spec fn spec_new(invader_type: InvaderType, left: i32, bottom: i32) -> RowView {
        RowView {
            invaders: Seq::new(
                INVADERS_PER_ROW as nat,
                |c: int| Some(Invader::spec_new(invader_type, slot_left(left as int, c) as i32, bottom)),
            ),
            left,
            bottom,
            size: INVADERS_PER_ROW,
            count: INVADERS_PER_ROW,
        }
    }

    /// Some invader of the row has reached the wall it marches towards.
    pub open spec fn on_edge(self, direction: InvaderDirection) -> bool {
        exists|c: int| #[trigger] self.alive(c) && self.invaders[c].unwrap().on_edge(direction)
    }

    /// The origin and every invader can take the sideways step.
    pub open spec fn can_move_along(self, direction: InvaderDirection, movement: i32) -> bool {
        &&& fits(self.left + direction.signed(movement))
        &&& forall|c: int| #[trigger]
            self.alive(c) ==> fits(self.invaders[c].unwrap().left + direction.signed(movement))
    }

    /// The row after every invader and the origin took a sideways step.
    pub open spec fn moved_along(self, direction: InvaderDirection, movement: i32) -> RowView {
        RowView {
            left: (self.left + direction.signed(movement)) as i32,
            invaders: Seq::new(
                self.invaders.len(),
                |c: int| slot_moved_along(self.invaders[c], direction, movement),
            ),
            ..self
        }
    }

    /// The origin and every invader can take the step down.
    pub open spec fn can_move_down(self, movement: i32) -> bool {
        &&& fits(self.bottom - movement)
        &&& forall|c: int| #[trigger]
            self.alive(c) ==> fits(self.invaders[c].unwrap().bottom - movement)
    }

    /// The row after every invader and the origin took a step down.
    pub open spec fn moved_down(self, movement: i32) -> RowView {
        RowView {
            bottom: (self.bottom - movement) as i32,
            invaders: Seq::new(
                self.invaders.len(),
                |c: int| slot_moved_down(self.invaders[c], movement),
            ),
            ..self
        }
    }

    /// The width of the row's cells and the gaps between them.
    pub open spec fn width(self) -> int {
        self.size * ALIEN_WIDTH + (self.size - 1) * ALIEN_BUFFER_WIDTH
    }

    /// The rectangle of the row.
    pub open spec fn area(self) -> Area {
        Area {
            left: self.left as i64,
            bottom: self.bottom as i64,
            right: (self.left + self.width()) as i64,
            top: (self.bottom + ALIEN_HEIGHT) as i64,
        }
    }

    /// Column `column` holds an invader whose sprite the laser overlaps.
    pub open spec fn struck(self, column: int, laser: Laser) -> bool {
        self.alive(column) && self.invaders[column].unwrap().area().overlaps(laser.area())
    }

    /// The first column from `from` on whose invader the laser overlaps, or
    /// the number of slots if there is none.
    pub open spec fn first_struck(self, laser: Laser, from: int) -> int
        decreases self.invaders.len() - from,
    {
        if from < 0 || from >= self.invaders.len() {
            self.invaders.len() as int
        } else if self.struck(from, laser) {
            from
        } else {
            self.first_struck(laser, from + 1)
        }
    }

    /// The column of the invader the laser shoots, or the number of slots if
    /// it shoots none: the first it overlaps, provided it overlaps the row.
    pub open spec fn shot_column(self, laser: Laser) -> int {
        if self.area().overlaps(laser.area()) {
            self.first_struck(laser, 0)
        } else {
            self.invaders.len() as int
        }
    }

    /// The row without the invader in the given column.
    pub open spec fn deleted(self, index: int) -> RowView {
        if self.alive(index) {
            RowView {
                invaders: self.invaders.update(index, None),
                count: (self.count - 1) as usize,
                ..self
            }
        } else {
            self
        }
    }

    /// The row after the laser passed: without the invader it shot.
    pub open spec fn shot(self, laser: Laser) -> RowView {
        self.deleted(self.shot_column(laser))
    }

    /// The points for the invader the laser shot, if it shot one.
    pub open spec fn shot_score(self, laser: Laser) -> Option<u32> {
        let column = self.shot_column(laser);
        if column < self.invaders.len() {
            Some(self.invaders[column].unwrap().invader_type.score())
        } else {
            None
        }
    }

    /// Some invader of the row overlaps the cannon.
    pub open spec fn collides_with_cannon(self, cannon: Cannon) -> bool {
        &&& self.area().overlaps(cannon.area())
        &&& exists|c: int| #[trigger]
            self.alive(c) && self.invaders[c].unwrap().collides_with_cannon(&cannon)
    }

    /// No invader of the row is left.
    pub open spec fn is_empty(self) -> bool {
        self.count == 0
    }

    /// The row is above the floor, or nothing of it is left.
    pub open spec fn is_visible(self) -> bool {
        self.bottom > 0 || self.is_empty()
    }

    /// The content of the slot, an empty slot for a column the row lacks.
    pub open spec fn get(self, index: int) -> Option<Invader> {
        if 0 <= index < self.invaders.len() {
            self.invaders[index]
        } else {
            None
        }
    }

    /// The invaders of the row whose sprites overlap the rectangle.
    pub open spec fn overlapping(self, area: Area) -> Seq<Invader> {
        slots_overlapping(self.invaders, area)
    }

    /// The search for the struck invader finds the first, if there is one.
    pub proof fn lemma_first_struck(self, laser: Laser, from: int)
        requires
            0 <= from <= self.invaders.len(),
        ensures
            from <= self.first_struck(laser, from) <= self.invaders.len(),
            self.first_struck(laser, from) < self.invaders.len() ==> self.struck(
                self.first_struck(laser, from),
                laser,
            ),
            forall|c: int| from <= c < self.first_struck(laser, from) ==> !self.struck(c, laser),
        decreases self.invaders.len() - from,
    {
        if from < self.invaders.len() && !self.struck(from, laser) {
            self.lemma_first_struck(laser, from + 1);
        }
    }

    /// A well-formed row is 124 pixels wide and holds at most eight
    /// invaders, none exactly when its count is zero.
    pub proof fn lemma_wf_facts(self)
        requires
            self.wf(),
        ensures
            self.width() == 124,
            self.count <= INVADERS_PER_ROW,
            self.is_empty() <==> (forall|c: int| !self.alive(c)),
    {
        lemma_count_alive_bound(self.invaders);
        lemma_count_alive_zero(self.invaders);
        if self.is_empty() {
            assert forall|c: int| !self.alive(c) by {}
        }
        if forall|c: int| !self.alive(c) {
            assert forall|c: int| 0 <= c < self.invaders.len() implies self.invaders[c] is None by {
                assert(!self.alive(c));
            }
        }
    }

    /// A freshly built row is well formed.
    pub proof fn lemma_new_wf(invader_type: InvaderType, left: i32, bottom: i32)
        requires
            slot_left(left as int, INVADERS_PER_ROW - 1) <= i32::MAX,
        ensures
            RowView::spec_new(invader_type, left, bottom).wf(),
    {
        let row = RowView::spec_new(invader_type, left, bottom);
        lemma_count_alive_full(row.invaders);
    }

    /// Moving sideways keeps a row well formed.
    pub proof fn lemma_moved_along_wf(self, direction: InvaderDirection, movement: i32)
        requires
            self.wf(),
            self.can_move_along(direction, movement),
        ensures
            self.moved_along(direction, movement).wf(),
    {
        let moved = self.moved_along(direction, movement);
        lemma_count_alive_same_slots(self.invaders, moved.invaders);
        assert forall|c: int| #[trigger] moved.alive(c) implies moved.invaders[c].unwrap().left
            == slot_left(moved.left as int, c) && moved.invaders[c].unwrap().bottom
            == moved.bottom by {
            assert(self.alive(c));
        }
    }

    /// Moving down keeps a row well formed.
    pub proof fn lemma_moved_down_wf(self, movement: i32)
        requires
            self.wf(),
            self.can_move_down(movement),
        ensures
            self.moved_down(movement).wf(),
    {
        let moved = self.moved_down(movement);
        lemma_count_alive_same_slots(self.invaders, moved.invaders);
        assert forall|c: int| #[trigger] moved.alive(c) implies moved.invaders[c].unwrap().left
            == slot_left(moved.left as int, c) && moved.invaders[c].unwrap().bottom
            == moved.bottom by {
            assert(self.alive(c));
        }
    }

    /// Deleting an invader keeps a row well formed and lowers its count by
    /// one if the slot held an invader.
    pub proof fn lemma_deleted_wf(self, index: int)
        requires
            self.wf(),
        ensures
            self.deleted(index).wf(),
            self.alive(index) ==> self.count >= 1 && self.deleted(index).count == self.count - 1,
            !self.alive(index) ==> self.deleted(index) == self,
            !self.deleted(index).alive(index),
            forall|c: int| c != index ==> self.deleted(index).get(c) == self.get(c),
    {
        if self.alive(index) {
            lemma_count_alive_update(self.invaders, index, None);
            let deleted = self.deleted(index);
            assert forall|c: int| #[trigger] deleted.alive(c) implies deleted.invaders[c].unwrap().left
                == slot_left(deleted.left as int, c) && deleted.invaders[c].unwrap().bottom
                == deleted.bottom by {
                assert(self.alive(c));
            }
        }
    }
}

impl InvaderRow {
    /// A full row of invaders of one kind, the first at `(left, bottom)`.
    pub fn new(invader_type: InvaderType, left: i32, bottom: i32) -> (row: InvaderRow)
        requires
            slot_left(left as int, INVADERS_PER_ROW - 1) <= i32::MAX,
        ensures
            row@ == RowView::spec_new(invader_type, left, bottom),
            row@.wf(),
    {
        let mut invaders: Vec<Option<Invader>> = Vec::new();
        let mut i: usize = 0;
        while i < INVADERS_PER_ROW
            invariant
                i <= INVADERS_PER_ROW,
                invaders.len() == i,
                slot_left(left as int, INVADERS_PER_ROW - 1) <= i32::MAX,
                forall|c: int|
                    0 <= c < i ==> invaders[c] == Some(
                        Invader::spec_new(invader_type, slot_left(left as int, c) as i32, bottom),
                    ),
            decreases INVADERS_PER_ROW - i,
        {
            assert(ALIEN_PITCH == 16);
            let invader = Invader::new(invader_type, left + ALIEN_PITCH * (i as i32), bottom);
            invaders.push(Some(invader));
            i += 1;
        }
        let row = InvaderRow {
            invaders,
            left,
            bottom,
            size: INVADERS_PER_ROW,
            count: INVADERS_PER_ROW,
        };
        proof {
            assert(row@.invaders =~= RowView::spec_new(invader_type, left, bottom).invaders);
            RowView::lemma_new_wf(invader_type, left, bottom);
        }
        row
    }

    /// Tells whether the row is well formed.
    pub fn is_wf(&self) -> (r: bool)
        ensures
            r == self@.wf(),
    {
        if self.invaders.len() != INVADERS_PER_ROW || self.size != INVADERS_PER_ROW {
            return false;
        }
        let mut alive: usize = 0;
        let mut i: usize = 0;
        while i < self.invaders.len()
            invariant
                i <= self.invaders.len(),
                self.invaders.len() == INVADERS_PER_ROW,
                alive == count_alive(self.invaders@.take(i as int)),
                alive <= i,
                forall|c: int| #[trigger]
                    self@.alive(c) && c < i ==> self.invaders[c].unwrap().left == slot_left(
                        self.left as int,
                        c,
                    ) && self.invaders[c].unwrap().bottom == self.bottom,
            decreases self.invaders.len() - i,
        {
            assert(self.invaders@.take(i + 1).drop_last() =~= self.invaders@.take(i as int));
            if let Some(invader) = self.invaders[i] {
                assert(self@.alive(i as int));
                if invader.left as i64 != self.left as i64 + 16 * (i as i64) || invader.bottom
                    != self.bottom {
                    return false;
                }
                alive = alive + 1;
            }
            i += 1;
        }
        assert(self.invaders@.take(i as int) =~= self.invaders@);
        self.count == alive
    }

    /// Tells whether some invader of the row has reached the wall in the
    /// given direction.
    pub fn on_edge(&self, direction: InvaderDirection) -> (r: bool)
        ensures
            r == self@.on_edge(direction),
    {
        let mut i: usize = 0;
        while i < self.invaders.len()
            invariant
                i <= self.invaders.len(),
                forall|c: int|
                    0 <= c < i ==> !(#[trigger] self@.alive(c) && self.invaders[c].unwrap().on_edge(
                        direction,
                    )),
            decreases self.invaders.len() - i,
        {
            if let Some(invader) = self.invaders[i] {
                if invader.on_edge(direction) {
                    assert(self@.alive(i as int));
                    return true;
                }
            }
            i += 1;
        }
        false
    }

    /// Moves the row and its invaders sideways.
    pub fn move_along(&mut self, direction: InvaderDirection, movement: i32)
        requires
            old(self)@.can_move_along(direction, movement),
        ensures
            final(self)@ == old(self)@.moved_along(direction, movement),
            old(self)@.wf() ==> final(self)@.wf(),
    {
        match direction {
            InvaderDirection::Left => {
                self.left = self.left - movement;
            },
            InvaderDirection::Right => {
                self.left = self.left + movement;
            },
        }
        let mut i: usize = 0;
        while i < self.invaders.len()
            invariant
                i <= self.invaders.len(),
                self.invaders.len() == old(self).invaders.len(),
                self.left == old(self).left + direction.signed(movement),
                self.bottom == old(self).bottom,
                self.size == old(self).size,
                self.count == old(self).count,
                old(self)@.can_move_along(direction, movement),
                forall|c: int|
                    0 <= c < i ==> self.invaders[c] == slot_moved_along(
                        old(self).invaders[c],
                        direction,
                        movement,
                    ),
                forall|c: int| i <= c < self.invaders.len() ==> self.invaders[c] == old(self).invaders[c],
            decreases self.invaders.len() - i,
        {
            if let Some(invader) = self.invaders[i] {
                assert(old(self)@.alive(i as int));
                let mut moved = invader;
                moved.move_along(direction, movement);
                self.invaders[i] = Some(moved);
            }
            i += 1;
        }
        proof {
            assert(self@.invaders =~= old(self)@.moved_along(direction, movement).invaders);
            if old(self)@.wf() {
                old(self)@.lemma_moved_along_wf(direction, movement);
            }
        }
    }

    /// Moves the row and its invaders down.
    pub fn move_down(&mut self, movement: i32)
        requires
            old(self)@.can_move_down(movement),
        ensures
            final(self)@ == old(self)@.moved_down(movement),
            old(self)@.wf() ==> final(self)@.wf(),
    {
        self.bottom = self.bottom - movement;
        let mut i: usize = 0;
        while i < self.invaders.len()
            invariant
                i <= self.invaders.len(),
                self.invaders.len() == old(self).invaders.len(),
                self.left == old(self).left,
                self.bottom == old(self).bottom - movement,
                self.size == old(self).size,
                self.count == old(self).count,
                old(self)@.can_move_down(movement),
                forall|c: int|
                    0 <= c < i ==> self.invaders[c] == slot_moved_down(
                        old(self).invaders[c],
                        movement,
                    ),
                forall|c: int| i <= c < self.invaders.len() ==> self.invaders[c] == old(self).invaders[c],
            decreases self.invaders.len() - i,
        {
            if let Some(invader) = self.invaders[i] {
                assert(old(self)@.alive(i as int));
                let mut moved = invader;
                moved.move_down(movement);
                self.invaders[i] = Some(moved);
            }
            i += 1;
        }
        proof {
            assert(self@.invaders =~= old(self)@.moved_down(movement).invaders);
            if old(self)@.wf() {
                old(self)@.lemma_moved_down_wf(movement);
            }
        }
    }

    /// Lets the laser shoot the first invader of the row that it overlaps,
    /// and gives the points for it.
    pub fn collides_with_laser(&mut self, laser: &Laser) -> (r: Option<u32>)
        requires
            old(self)@.wf(),
        ensures
            final(self)@ == old(self)@.shot(*laser),
            r == old(self)@.shot_score(*laser),
            final(self)@.wf(),
    {
        proof {
            self@.lemma_deleted_wf(self@.shot_column(*laser));
            self@.lemma_first_struck(*laser, 0);
        }
        if self.area().overlaps(laser.area()) {
            let mut i: usize = 0;
            while i < self.invaders.len()
                invariant
                    i <= self.invaders.len(),
                    *self == *old(self),
                    self@.wf(),
                    self@.first_struck(*laser, 0) == self@.first_struck(*laser, i as int),
                decreases self.invaders.len() - i,
            {
                if let Some(invader) = self.invaders[i] {
                    if let Some(score) = invader.collides_with_laser(laser) {
                        assert(self@.struck(i as int, *laser));
                        self.delete(i);
                        return Some(score);
                    }
                }
                assert(!self@.struck(i as int, *laser));
                i += 1;
            }
        }
        None
    }

    /// Tells whether some invader of the row overlaps the cannon.
    pub fn collides_with_cannon(&self, cannon: &Cannon) -> (r: bool)
        requires
            self@.wf(),
        ensures
            r == self@.collides_with_cannon(*cannon),
    {
        if self.area().overlaps(cannon.area()) {
            let mut i: usize = 0;
            while i < self.invaders.len()
                invariant
                    i <= self.invaders.len(),
                    self@.area().overlaps(cannon.area()),
                    forall|c: int|
                        0 <= c < i ==> !(#[trigger] self@.alive(c)
                            && self.invaders[c].unwrap().collides_with_cannon(cannon)),
                decreases self.invaders.len() - i,
            {
                if let Some(invader) = self.invaders[i] {
                    if invader.collides_with_cannon(cannon) {
                        assert(self@.alive(i as int) && self@.invaders[i as int].unwrap().collides_with_cannon(
                            &*cannon,
                        ));
                        return true;
                    }
                }
                i += 1;
            }
        }
        false
    }

    /// The rectangle of the row.
    pub fn area(&self) -> (area: Area)
        requires
            self@.wf(),
        ensures
            area == self@.area(),
            area.non_degenerate(),
    {
        Area::new(
            self.left as i64,
            self.bottom as i64,
            self.left as i64 + self.width(),
            self.bottom as i64 + ALIEN_HEIGHT as i64,
        )
    }

    /// The width of the row.
    pub fn width(&self) -> (width: i64)
        requires
            self@.wf(),
        ensures
            width == self@.width(),
            width == 124,
    {
        let size: i64 = self.size as i64;
        assert(size == 8 && ALIEN_WIDTH == 12 && ALIEN_BUFFER_WIDTH == 4);
        size * ALIEN_WIDTH as i64 + (size - 1) * ALIEN_BUFFER_WIDTH as i64
    }

    /// The invaders of the row that have come down to the bunkers.
    pub fn collides_with_bunkers(&self, bunkers: &Bunkers) -> (invaders: Vec<Invader>)
        ensures
            invaders@ == self@.overlapping(BunkersView::area()),
    {
        let bunkers_area = bunkers.area();
        let mut invaders: Vec<Invader> = Vec::new();
        let mut i: usize = 0;
        while i < self.invaders.len()
            invariant
                i <= self.invaders.len(),
                bunkers_area == BunkersView::area(),
                invaders@ == slots_overlapping(self.invaders@.take(i as int), bunkers_area),
            decreases self.invaders.len() - i,
        {
            assert(self.invaders@.take(i + 1).drop_last() =~= self.invaders@.take(i as int));
            if let Some(invader) = self.invaders[i] {
                if bunkers_area.overlaps(invader.area()) {
                    invaders.push(invader);
                }
            }
            i += 1;
        }
        assert(self.invaders@.take(i as int) =~= self.invaders@);
        invaders
    }

    /// Empties the slot, if it holds an invader.
    pub fn delete(&mut self, index: usize)
        requires
            old(self)@.wf(),
            index < old(self).invaders.len(),
        ensures
            final(self)@ == old(self)@.deleted(index as int),
            final(self)@.wf(),
    {
        proof {
            self@.lemma_deleted_wf(index as int);
        }
        if self.invaders[index].is_some() {
            self.invaders[index] = None;
            self.count = self.count - 1;
        }
    }

    /// Tells whether no invader of the row is left.
    pub fn is_empty(&self) -> (r: bool)
        ensures
            r == self@.is_empty(),
    {
        self.count == 0
    }

    /// Tells whether the row is above the floor or empty.
    pub fn is_visible(&self) -> (r: bool)
        ensures
            r == self@.is_visible(),
    {
        self.bottom > 0 || self.is_empty()
    }

    /// The content of the slot in the given column.
    pub fn get(&self, index: usize) -> (slot: Option<Invader>)
        ensures
            slot == self@.get(index as int),
    {
        if index < self.invaders.len() {
            self.invaders[index]
        } else {
            None
        }
    }
}

} // verus!
