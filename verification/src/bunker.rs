//! The bunkers that shield the cannon. A bunker is a set of pixels; a laser
//! or an invader that reaches it removes the pixels under its footprint.

use vstd::prelude::*;
use crate::area::Area;
use crate::color::Color;
use crate::invaders::Invader;
use crate::laser::Laser;
use crate::points::{
    BUNKER_HEIGHT, BUNKER_INITIAL_Y, BUNKER_OFFSET_X, BUNKER_WIDTH, GAME_WIDTH,
};

verus! {

/// The number of bunkers.
pub const BUNKER_COUNT: usize = 4;

/// The width left between and beside the bunkers once the margins at both
/// walls are taken off: the three gaps share it.
pub const BUNKER_FREE_WIDTH: i32 = GAME_WIDTH - 2 * BUNKER_OFFSET_X - 4 * BUNKER_WIDTH;

/// Whether the pixel at `(x, y)`, counted from the lower left corner of a
/// bunker, belongs to a new bunker: a block with its upper corners cut off
/// and an arch hollowed out of the middle of its base.
pub open spec fn bunker_solid(x: int, y: int) -> bool {
    let inset = if y >= 9 {
        y - 8
    } else {
        0
    };
    &&& 0 <= y < 12
    &&& inset <= x < 20 - inset
    &&& !(y < 3 && 6 <= x < 14)
    &&& !(y == 3 && 7 <= x < 13)
}

/// The pixel of a bunker's bounding box with the given number, counting
/// row by row from the lower left corner.
pub open spec fn bunker_cell(index: int) -> (i32, i32) {
    ((index % 20) as i32, (index / 20) as i32)
}

/// The pixels of a new bunker among the first `cells` cells of its
/// bounding box.
pub open spec fn bunker_shape_prefix(cells: nat) -> Seq<(i32, i32)>
    decreases cells,
{
    if cells == 0 {
        Seq::empty()
    } else {
        let before = bunker_shape_prefix((cells - 1) as nat);
        let cell = bunker_cell(cells - 1);
        if bunker_solid(cell.0 as int, cell.1 as int) {
            before.push(cell)
        } else {
            before
        }
    }
}

/// The pixels of a new bunker.
pub open spec fn bunker_shape() -> Seq<(i32, i32)> {
    bunker_shape_prefix(240)
}

/// The left edge of the bunker with the given number: the bunkers are
/// spread evenly between the margins, each position rounded down to a
/// whole pixel.
pub open spec fn bunker_left(index: int) -> int {
    20 + 20 * index + (80 * index) / 3
}

/// The bunkers stand a bunker's width and a third of the free width apart,
/// the first at the margin; the last ends at the margin of the other wall.
pub proof fn lemma_bunker_left(index: int)
    requires
        0 <= index < BUNKER_COUNT,
    ensures
        bunker_left(index) == BUNKER_OFFSET_X + index * BUNKER_WIDTH + (index * BUNKER_FREE_WIDTH)
            / 3,
        bunker_left(0) == BUNKER_OFFSET_X,
        bunker_left(BUNKER_COUNT - 1) + BUNKER_WIDTH == GAME_WIDTH - BUNKER_OFFSET_X,
{
    assert(index * BUNKER_WIDTH == 20 * index) by (nonlinear_arith)
        requires
            BUNKER_WIDTH == 20,
    ;
    assert(index * BUNKER_FREE_WIDTH == 80 * index) by (nonlinear_arith)
        requires
            BUNKER_FREE_WIDTH == 80,
    ;
}

/// A new bunker fills its bounding box from wall to wall and from the
/// base to the top, but for its arch and its corners.
pub proof fn lemma_bunker_solid(x: int, y: int)
    ensures
        bunker_solid(x, y) ==> 0 <= x < BUNKER_WIDTH && 0 <= y < BUNKER_HEIGHT,
        0 <= x < BUNKER_WIDTH && 4 <= y <= 8 ==> bunker_solid(x, y),
        bunker_solid(0, 0) && bunker_solid(BUNKER_WIDTH - 1, 0),
        bunker_solid(x, y) <==> bunker_solid(BUNKER_WIDTH - 1 - x, y),
{
}

/// A filter that keeps every element leaves the sequence as it is.
pub proof fn lemma_filter_keeps_all<A>(s: Seq<A>, pred: spec_fn(A) -> bool)
    requires
        forall|i: int| 0 <= i < s.len() ==> pred(s[i]),
    ensures
        s.filter(pred) == s,
    decreases s.len(),
{
    reveal(Seq::filter);
    if s.len() > 0 {
        lemma_filter_keeps_all(s.drop_last(), pred);
        assert(s.drop_last().push(s.last()) =~= s);
    }
}

/// A filter that drops some element gives a shorter sequence.
pub proof fn lemma_filter_drops_one<A>(s: Seq<A>, pred: spec_fn(A) -> bool, index: int)
    requires
        0 <= index < s.len(),
        !pred(s[index]),
    ensures
        s.filter(pred).len() < s.len(),
    decreases s.len(),
{
    reveal(Seq::filter);
    s.drop_last().lemma_filter_len(pred);
    if index < s.len() - 1 {
        lemma_filter_drops_one(s.drop_last(), pred, index);
    }
}

/// One bunker: its lower left corner and the pixels it still has, each
/// counted from that corner.
#[derive(Clone, Debug)]
pub struct Bunker {
    pub left: i32,
    pub bottom: i32,
    pub color: Color,
    pub data: Vec<(i32, i32)>,
}

/// The mathematical value of a bunker.
pub struct BunkerView {
    pub left: i32,
    pub bottom: i32,
    pub color: Color,
    pub data: Seq<(i32, i32)>,
}

impl View for Bunker {
    type V = BunkerView;

    open spec fn view(&self) -> BunkerView {
        BunkerView { left: self.left, bottom: self.bottom, color: self.color, data: self.data@ }
    }
}

impl BunkerView {
    /// A whole bunker at the given position.
    pub open spec fn spec_new(left: i32, bottom: i32) -> BunkerView {
        BunkerView { left, bottom, color: Color::Green, data: bunker_shape() }
    }

    /// The bounding box of the bunker.
    pub open spec fn area(self) -> Area {
        Area {
            left: self.left as i64,
            bottom: self.bottom as i64,
            right: (self.left + BUNKER_WIDTH) as i64,
            top: (self.bottom + BUNKER_HEIGHT) as i64,
        }
    }

    /// The pixel, placed in the playfield, lies inside the footprint.
    pub open spec fn pixel_struck(self, pixel: (i32, i32), footprint: Area) -> bool {
        footprint.contains((pixel.0 + self.left) as i64, (pixel.1 + self.bottom) as i64)
    }

    /// The test a pixel passes when the footprint misses it.
    pub open spec fn survives(self, footprint: Area) -> spec_fn((i32, i32)) -> bool {
        |pixel: (i32, i32)| !self.pixel_struck(pixel, footprint)
    }

    /// Something whose rectangle is `target` reaches the bunker and its
    /// footprint covers at least one pixel.
    pub open spec fn struck(self, target: Area, footprint: Area) -> bool {
        &&& self.area().overlaps(target)
        &&& exists|i: int| 0 <= i < self.data.len() && self.pixel_struck(#[trigger] self.data[i], footprint)
    }

    /// The bunker after something whose rectangle is `target` met it: if
    /// it reaches the bunker, the pixels inside its footprint are gone.
    pub open spec fn eroded(self, target: Area, footprint: Area) -> BunkerView {
        if self.area().overlaps(target) {
            BunkerView { data: self.data.filter(self.survives(footprint)), ..self }
        } else {
            self
        }
    }

    /// Erosion never adds a pixel; it removes one exactly when the bunker
    /// is struck, and leaves a bunker that is not struck as it is.
    pub proof fn lemma_eroded(self, target: Area, footprint: Area)
        ensures
            self.eroded(target, footprint).data.len() <= self.data.len(),
            self.struck(target, footprint) <==> self.eroded(target, footprint).data.len()
                < self.data.len(),
            !self.struck(target, footprint) ==> self.eroded(target, footprint) == self,
    {
        let pred = self.survives(footprint);
        self.data.lemma_filter_len(pred);
        if self.area().overlaps(target) {
            if self.struck(target, footprint) {
                let i = choose|i: int|
                    0 <= i < self.data.len() && self.pixel_struck(#[trigger] self.data[i], footprint);
                lemma_filter_drops_one(self.data, pred, i);
            } else {
                assert forall|i: int| 0 <= i < self.data.len() implies pred(self.data[i]) by {
                    assert(!self.pixel_struck(self.data[i], footprint));
                }
                lemma_filter_keeps_all(self.data, pred);
            }
        }
    }
}

impl Bunker {
    /// A whole bunker with its lower left corner at the given position.
    pub fn new(left: i32, bottom: i32) -> (bunker: Bunker)
        ensures
            bunker@ == BunkerView::spec_new(left, bottom),
    {
        let mut data: Vec<(i32, i32)> = Vec::new();
        let mut cell: i32 = 0;
        while cell < 240
            invariant
                0 <= cell <= 240,
                data@ == bunker_shape_prefix(cell as nat),
            decreases 240 - cell,
        {
            let x: i32 = cell % 20;
            let y: i32 = cell / 20;
            assert((x, y) == bunker_cell(cell as int));
            if Bunker::solid(x, y) {
                data.push((x, y));
            }
            cell += 1;
        }
        Bunker { left, bottom, color: Color::Green, data }
    }

    /// Whether a new bunker has the pixel at `(x, y)`.
    pub fn solid(x: i32, y: i32) -> (r: bool)
        ensures
            r == bunker_solid(x as int, y as int),
    {
        let inset: i32 = if y >= 9 && y < 12 {
            y - 8
        } else {
            0
        };
        0 <= y && y < 12 && inset <= x && x < 20 - inset && !(y < 3 && 6 <= x && x < 14) && !(y
            == 3 && 7 <= x && x < 13)
    }

    /// Removes the pixels inside `footprint` if `target` reaches the
    /// bunker, and tells whether any was removed.
    fn erode(&mut self, target: Area, footprint: Area) -> (collision: bool)
        ensures
            final(self)@ == old(self)@.eroded(target, footprint),
            collision == old(self)@.struck(target, footprint),
    {
        if !self.area().overlaps(target) {
            return false;
        }
        let ghost pred = self@.survives(footprint);
        let mut kept: Vec<(i32, i32)> = Vec::new();
        let mut collision = false;
        let mut i: usize = 0;
        while i < self.data.len()
            invariant
                i <= self.data.len(),
                *self == *old(self),
                pred == self@.survives(footprint),
                kept@ == self.data@.take(i as int).filter(pred),
                collision <==> exists|j: int|
                    0 <= j < i && self@.pixel_struck(#[trigger] self.data[j], footprint),
            decreases self.data.len() - i,
        {
            let (x, y) = self.data[i];
            proof {
                self.data@.lemma_take_succ_push(i as int);
                self.data@.take(i as int).lemma_filter_push(self.data[i as int], pred);
            }
            if footprint.contains(x as i64 + self.left as i64, y as i64 + self.bottom as i64) {
                collision = true;
            } else {
                kept.push((x, y));
            }
            i += 1;
        }
        proof {
            self.data@.lemma_take_len();
        }
        self.data = kept;
        collision
    }

    /// Lets the laser burn away the pixels it touches, and tells whether it
    /// burnt any.
    pub fn collides_with_laser(&mut self, laser: &Laser) -> (collision: bool)
        ensures
            final(self)@ == old(self)@.eroded(laser.area(), laser.bunker_collision_area()),
            collision == old(self)@.struck(laser.area(), laser.bunker_collision_area()),
            final(self).data.len() <= old(self).data.len(),
            collision <==> final(self).data.len() < old(self).data.len(),
    {
        proof {
            self@.lemma_eroded(laser.area(), laser.bunker_collision_area());
        }
        self.erode(laser.area(), laser.bunker_collision_area())
    }

    /// Lets the invader eat the pixels its sprite covers, and tells whether
    /// it ate any.
    pub fn collides_with_invader(&mut self, invader: &Invader) -> (collision: bool)
        ensures
            final(self)@ == old(self)@.eroded(invader.area(), invader.area()),
            collision == old(self)@.struck(invader.area(), invader.area()),
            final(self).data.len() <= old(self).data.len(),
            collision <==> final(self).data.len() < old(self).data.len(),
    {
        proof {
            self@.lemma_eroded(invader.area(), invader.area());
        }
        self.erode(invader.area(), invader.area())
    }

    /// The bounding box of the bunker.
    pub fn area(&self) -> (area: Area)
        ensures
            area == self@.area(),
            area.non_degenerate(),
    {
        Area::new(
            self.left as i64,
            self.bottom as i64,
            self.left as i64 + BUNKER_WIDTH as i64,
            self.bottom as i64 + BUNKER_HEIGHT as i64,
        )
    }
}

/// The four bunkers, from left to right.
#[derive(Clone, Debug)]
pub struct Bunkers {
    pub bunkers: Vec<Bunker>,
}

/// The mathematical value of the bunkers.
pub struct BunkersView {
    pub bunkers: Seq<BunkerView>,
}

impl View for Bunkers {
    type V = BunkersView;

    open spec fn view(&self) -> BunkersView {
        BunkersView { bunkers: Seq::new(self.bunkers.len() as nat, |i: int| self.bunkers[i]@) }
    }
}

impl BunkersView {
    /// The four whole bunkers at their places.
    pub open spec fn spec_new() -> BunkersView {
        BunkersView {
            bunkers: Seq::new(
                BUNKER_COUNT as nat,
                |i: int| BunkerView::spec_new(bunker_left(i) as i32, BUNKER_INITIAL_Y),
            ),
        }
    }

    /// The band across the playfield in which the bunkers stand.
    pub open spec fn area() -> Area {
        Area {
            left: 0,
            bottom: BUNKER_INITIAL_Y as i64,
            right: GAME_WIDTH as i64,
            top: (BUNKER_INITIAL_Y + BUNKER_HEIGHT) as i64,
        }
    }

    /// The first bunker from `from` on that is struck, or the number of
    /// bunkers if none is.
    pub open spec fn first_struck(self, target: Area, footprint: Area, from: int) -> int
        decreases self.bunkers.len() - from,
    {
        if from < 0 || from >= self.bunkers.len() {
            self.bunkers.len() as int
        } else if self.bunkers[from].struck(target, footprint) {
            from
        } else {
            self.first_struck(target, footprint, from + 1)
        }
    }

    /// The bunkers after the first that is struck lost the pixels inside
    /// the footprint.
    pub open spec fn eroded(self, target: Area, footprint: Area) -> BunkersView {
        let index = self.first_struck(target, footprint, 0);
        if index < self.bunkers.len() {
            BunkersView {
                bunkers: self.bunkers.update(index, self.bunkers[index].eroded(target, footprint)),
            }
        } else {
            self
        }
    }

    /// The laser is in the band of the bunkers and burns pixels of one.
    pub open spec fn struck_by_laser(self, laser: Laser) -> bool {
        &&& BunkersView::area().overlaps(laser.area())
        &&& self.first_struck(laser.area(), laser.bunker_collision_area(), 0) < self.bunkers.len()
    }

    /// The bunkers after a laser passed.
    pub open spec fn shot(self, laser: Laser) -> BunkersView {
        if BunkersView::area().overlaps(laser.area()) {
            self.eroded(laser.area(), laser.bunker_collision_area())
        } else {
            self
        }
    }

    /// The bunkers after an invader marched into them.
    pub open spec fn eaten(self, invader: Invader) -> BunkersView {
        self.eroded(invader.area(), invader.area())
    }

    /// The bunkers after each of the invaders, in turn, marched into them.
    pub open spec fn eaten_by_all(self, invaders: Seq<Invader>) -> BunkersView
        decreases invaders.len(),
    {
        if invaders.len() == 0 {
            self
        } else {
            self.eaten_by_all(invaders.drop_last()).eaten(invaders.last())
        }
    }

    /// The search for the struck bunker finds the first, if there is one.
    pub proof fn lemma_first_struck(self, target: Area, footprint: Area, from: int)
        requires
            0 <= from <= self.bunkers.len(),
        ensures
            from <= self.first_struck(target, footprint, from) <= self.bunkers.len(),
            self.first_struck(target, footprint, from) < self.bunkers.len()
                ==> self.bunkers[self.first_struck(target, footprint, from)].struck(
                target,
                footprint,
            ),
            forall|i: int|
                from <= i < self.first_struck(target, footprint, from) ==> !(
                #[trigger] self.bunkers[i]).struck(target, footprint),
        decreases self.bunkers.len() - from,
    {
        if from < self.bunkers.len() && !self.bunkers[from].struck(target, footprint) {
            self.lemma_first_struck(target, footprint, from + 1);
        }
    }

    /// These bunkers are what is left of `before`: as many bunkers at the
    /// same places, none with more pixels than it had.
    pub open spec fn worn_from(self, before: BunkersView) -> bool {
        &&& self.bunkers.len() == before.bunkers.len()
        &&& forall|i: int|
            0 <= i < self.bunkers.len() ==> {
                &&& (#[trigger] self.bunkers[i]).left == before.bunkers[i].left
                &&& self.bunkers[i].bottom == before.bunkers[i].bottom
                &&& self.bunkers[i].color == before.bunkers[i].color
                &&& self.bunkers[i].data.len() <= before.bunkers[i].data.len()
            }
    }

    /// Erosion keeps the number of bunkers and where they stand, and never
    /// adds a pixel to any.
    pub proof fn lemma_eroded(self, target: Area, footprint: Area)
        ensures
            self.eroded(target, footprint).worn_from(self),
    {
        self.lemma_first_struck(target, footprint, 0);
        let index = self.first_struck(target, footprint, 0);
        if index < self.bunkers.len() {
            self.bunkers[index].lemma_eroded(target, footprint);
        }
    }

    /// A laser never adds a pixel to a bunker.
    pub proof fn lemma_shot(self, laser: Laser)
        ensures
            self.shot(laser).worn_from(self),
    {
        self.lemma_eroded(laser.area(), laser.bunker_collision_area());
    }

    /// Invaders never add a pixel to a bunker.
    pub proof fn lemma_eaten_by_all(self, invaders: Seq<Invader>)
        ensures
            self.eaten_by_all(invaders).worn_from(self),
        decreases invaders.len(),
    {
        if invaders.len() > 0 {
            self.lemma_eaten_by_all(invaders.drop_last());
            let before = self.eaten_by_all(invaders.drop_last());
            before.lemma_eroded(invaders.last().area(), invaders.last().area());
        }
    }
}

impl Bunkers {
    /// The four whole bunkers at their places.
    pub fn new() -> (bunkers: Bunkers)
        ensures
            bunkers@ == BunkersView::spec_new(),
    {
        let mut bunkers: Vec<Bunker> = Vec::new();
        let mut i: i32 = 0;
        while i < 4
            invariant
                0 <= i <= 4,
                bunkers.len() == i,
                forall|j: int|
                    0 <= j < i ==> (#[trigger] bunkers[j])@ == BunkerView::spec_new(
                        bunker_left(j) as i32,
                        BUNKER_INITIAL_Y,
                    ),
            decreases 4 - i,
        {
            assert(BUNKER_FREE_WIDTH == 80);
            let x_offset: i32 = BUNKER_OFFSET_X + i * BUNKER_WIDTH + (i * BUNKER_FREE_WIDTH) / 3;
            assert(x_offset == bunker_left(i as int));
            bunkers.push(Bunker::new(x_offset, BUNKER_INITIAL_Y));
            i += 1;
        }
        let bunkers = Bunkers { bunkers };
        assert(bunkers@.bunkers =~= BunkersView::spec_new().bunkers);
        bunkers
    }

    /// Lets the first bunker that is struck lose the pixels inside the
    /// footprint, and tells whether one was struck.
    fn erode(&mut self, target: Area, footprint: Area) -> (collision: bool)
        ensures
            final(self)@ == old(self)@.eroded(target, footprint),
            collision == (old(self)@.first_struck(target, footprint, 0) < old(self).bunkers.len()),
    {
        proof {
            self@.lemma_first_struck(target, footprint, 0);
        }
        let mut i: usize = 0;
        while i < self.bunkers.len()
            invariant
                i <= self.bunkers.len(),
                self@ == old(self)@,
                self.bunkers.len() == old(self).bunkers.len(),
                self@.first_struck(target, footprint, 0) == self@.first_struck(
                    target,
                    footprint,
                    i as int,
                ),
            decreases self.bunkers.len() - i,
        {
            let ghost before = self@;
            assert(before.bunkers[i as int] == self.bunkers[i as int]@);
            proof {
                before.bunkers[i as int].lemma_eroded(target, footprint);
            }
            if self.bunkers[i].erode(target, footprint) {
                assert(self@.bunkers =~= before.bunkers.update(
                    i as int,
                    before.bunkers[i as int].eroded(target, footprint),
                ));
                return true;
            }
            assert(self@.bunkers =~= before.bunkers);
            i += 1;
        }
        false
    }

    /// Lets a laser in the band of the bunkers burn the first bunker it
    /// strikes, and tells whether it struck one.
    pub fn collides_with_laser(&mut self, laser: &Laser) -> (collision: bool)
        ensures
            final(self)@ == old(self)@.shot(*laser),
            collision == old(self)@.struck_by_laser(*laser),
    {
        if self.area().overlaps(laser.area()) {
            self.erode(laser.area(), laser.bunker_collision_area())
        } else {
            false
        }
    }

    /// Lets the invader eat into the first bunker its sprite strikes.
    pub fn collides_with_invader(&mut self, invader: &Invader)
        ensures
            final(self)@ == old(self)@.eaten(*invader),
    {
        self.erode(invader.area(), invader.area());
    }

    /// The band across the playfield in which the bunkers stand.
    pub fn area(&self) -> (area: Area)
        ensures
            area == BunkersView::area(),
            area.non_degenerate(),
    {
        Area::new(
            0,
            BUNKER_INITIAL_Y as i64,
            GAME_WIDTH as i64,
            BUNKER_INITIAL_Y as i64 + BUNKER_HEIGHT as i64,
        )
    }
}

} // verus!
