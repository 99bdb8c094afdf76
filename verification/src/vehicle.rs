use vstd::prelude::*;
use rand::rngs::StdRng;
use crate::bounds::{overlaps, Bounds, Shape};
use crate::dir_bounds::DirBounds;
use crate::direction::{
    lemma_heading_shape, spec_leave_by, Direction, RoutingError, TileDirection,
};
use crate::point::{GridPoint, Point};
use crate::rect_bounds::{
    envelope_steps, in_reach, length_steps, OrientedRect, RectBounds, HALF_WIDTH,
    POSITION_LIMIT,
};
use crate::stop_sign::StopSign;
use crate::stoplight::Stoplight;
use crate::tile::Tile;
use crate::tile_map::{covers, first_cover, lemma_first_cover, TileMap, HALF_TILE, TILE_UNITS};

verus! {

/// Speed gained in a tick with a free road, in quarters per second.
pub const ACCEL: i16 = 1;

/// Speed gained in a tick of braking: a loss of half a world unit per second.
pub const BRAKE: i16 = -2;

/// Highest speed, in quarters per second: twenty world units per second.
pub const MAX_SPEED: i16 = 80;

/// A vehicle: where it is, the tile it was last seen on, its length and
/// speed in quarters, and the direction it travels in.
#[derive(Debug, PartialEq, Eq, Structural, Clone, Copy)]
pub struct Vehicle {
    pub pos: Point,
    pub tile_pos: GridPoint,
    pub length: u16,
    pub speed: i16,
    pub dir: Direction,
}

/// The speed after a tick: braking or accelerating, and kept within nought
/// and `MAX_SPEED`.
pub open spec fn next_speed(speed: int, slow: bool) -> int {
    let raw = speed + if slow {
        BRAKE as int
    } else {
        ACCEL as int
    };
    if raw < 0 {
        0
    } else if raw > MAX_SPEED {
        MAX_SPEED as int
    } else {
        raw
    }
}

/// The speed after `ticks` ticks of braking.
pub open spec fn braked(speed: int, ticks: nat) -> int
    decreases ticks,
{
    if ticks == 0 {
        speed
    } else {
        next_speed(braked(speed, (ticks - 1) as nat), true)
    }
}

/// A speed within range stays within range, whatever the road ahead.
pub proof fn lemma_speed_in_range(speed: int, slow: bool)
    ensures
        0 <= next_speed(speed, slow) <= MAX_SPEED,
{
}

/// A vehicle that is held back tick after tick loses two quarters of speed
/// each tick until it stands, and then stands: its speed never rises, never
/// turns negative and is nought from half its speed in ticks onward.
pub proof fn lemma_obstructed_decay(speed: int, ticks: nat)
    requires
        0 <= speed <= MAX_SPEED,
    ensures
        braked(speed, ticks) == if speed - 2 * ticks > 0 {
            speed - 2 * ticks
        } else {
            0
        },
        braked(speed, ticks + 1) <= braked(speed, ticks),
        2 * ticks >= speed ==> braked(speed, ticks) == 0,
    decreases ticks,
{
    if ticks > 0 {
        lemma_obstructed_decay(speed, (ticks - 1) as nat);
    }
    assert(braked(speed, ticks + 1) == next_speed(braked(speed, ticks), true));
}

/// The stoplight holds back a vehicle that leaves in `dir` and whose
/// envelope is `shape`: during a grace period at each of the four edges,
/// else only across the axis with the right of way, at the two edges that
/// gate it.
pub open spec fn light_blocks(light: Stoplight, dir: Direction, shape: Shape) -> bool {
    let bounds = DirBounds::spec_new(light.pos);
    if light.grace is Some {
        bounds.touches(shape)
    } else {
        let pair = bounds.spec_opp_axis(light.axis);
        dir.spec_out_dir().spec_axis() != light.axis && (overlaps(shape, Shape::Segment(pair.0))
            || overlaps(shape, Shape::Segment(pair.1)))
    }
}

/// Whether `light` holds back a vehicle that leaves in `dir` and whose
/// envelope is `collider`.
pub fn light_holds(light: &Stoplight, dir: Direction, collider: &Bounds) -> (r: bool)
    requires
        collider.wf(),
    ensures
        r == light_blocks(*light, dir, collider@),
{
    let on_axis = dir.out_dir().on_axis(&light.axis);
    if light.grace_period() {
        light.all_bounds().colliding(collider)
    } else {
        let pair = light.bounds();
        !on_axis && (collider.colliding(&Bounds::Segment(pair.0)) || collider.colliding(
            &Bounds::Segment(pair.1),
        ))
    }
}

/// `pos` lies on the square of some cell of the grid.
pub open spec fn on_some_tile(pos: Point) -> bool {
    exists|cell: GridPoint| covers(cell, pos)
}

impl Vehicle {
    /// The position is one at which the vehicle's shapes can be built.
    pub open spec fn wf(self) -> bool {
        in_reach(self.pos)
    }

    /// Whether the position is one at which the vehicle's shapes can be
    /// built.
    pub fn is_wf(&self) -> (r: bool)
        ensures
            r == self.wf(),
    {
        -POSITION_LIMIT <= self.pos.x && self.pos.x <= POSITION_LIMIT && -POSITION_LIMIT
            <= self.pos.y && self.pos.y <= POSITION_LIMIT
    }

    /// The ground the vehicle stands on.
    pub open spec fn spec_bounds(self) -> OrientedRect {
        OrientedRect {
            origin: Point {
                x: (self.pos.x - length_steps(self.length as int) / 2 * self.dir.spec_vector().x) as i64,
                y: (self.pos.y - length_steps(self.length as int) / 2 * self.dir.spec_vector().y) as i64,
            },
            dir: self.dir,
            reach: length_steps(self.length as int),
            half_width: HALF_WIDTH as int,
        }
    }

    /// The envelope ahead of the vehicle that it keeps free.
    pub open spec fn spec_envelope(self) -> OrientedRect {
        OrientedRect {
            origin: self.pos,
            dir: self.dir,
            reach: envelope_steps(self.length as int, self.speed as int, self.dir),
            half_width: HALF_WIDTH as int,
        }
    }

    /// Places a vehicle on the network. It takes the direction of the tile
    /// under `pos`, which has to be a constant one.
    pub fn new(pos: Point, length: u16, speed: i16, tiles: &TileMap<Tile>) -> (r: Result<
        Vehicle,
        RoutingError,
    >)
        ensures
            match first_cover(tiles.cells(), pos) {
                None => r == Err::<Vehicle, RoutingError>(RoutingError::OffNetwork),
                Some(i) => match tiles.tiles@[i].dir {
                    TileDirection::Constant(dir) => r == Ok::<Vehicle, RoutingError>(
                        Vehicle { pos, tile_pos: tiles.tiles@[i].pos, length, speed, dir },
                    ),
                    TileDirection::Intersection(_) => r == Err::<Vehicle, RoutingError>(
                        RoutingError::StartsOnIntersection,
                    ),
                },
            },
            r is Ok ==> r.unwrap().wf(),
    {
        proof {
            lemma_first_cover(tiles.cells(), pos);
        }
        match tiles.index_at(&pos) {
            None => Err(RoutingError::OffNetwork),
            Some(i) => {
                let tile = &tiles.tiles[i];
                assert(tiles.cells()[i as int] == tile.pos);
                match &tile.dir {
                    TileDirection::Constant(dir) => Ok(
                        Vehicle { pos, tile_pos: tile.pos, length, speed, dir: *dir },
                    ),
                    TileDirection::Intersection(_) => Err(RoutingError::StartsOnIntersection),
                }
            },
        }
    }

    /// The ground the vehicle stands on.
    pub fn bounds(&self) -> (r: RectBounds)
        requires
            self.wf(),
        ensures
            r.wf(),
            r@ == self.spec_bounds(),
    {
        RectBounds::vehicle(&self.pos, self.length, self.dir)
    }

    /// The look-ahead envelope, by which every decision to yield is taken.
    pub fn envelope(&self) -> (r: RectBounds)
        requires
            self.wf(),
        ensures
            r.wf(),
            r@ == self.spec_envelope(),
    {
        RectBounds::collider(&self.pos, self.length, self.speed, self.dir)
    }

    /// The vehicle has to slow down: its envelope reaches the ground of
    /// another vehicle, or a stop sign or a stoplight holds it back.
    pub open spec fn spec_should_slow(
        self,
        vehicles: Seq<&Vehicle>,
        stop_signs: Seq<StopSign>,
        stoplights: Seq<Stoplight>,
    ) -> bool {
        let shape = Shape::Rect(self.spec_envelope());
        ||| exists|i: int|
            0 <= i < vehicles.len() && overlaps(
                shape,
                Shape::Rect((#[trigger] vehicles[i]).spec_bounds()),
            )
        ||| exists|i: int|
            0 <= i < stop_signs.len() && (#[trigger] stop_signs[i]).blocks(self.tile_pos, shape)
        ||| exists|i: int|
            0 <= i < stoplights.len() && light_blocks(#[trigger] stoplights[i], self.dir, shape)
    }

    /// Whether the vehicle has to slow down.
    pub fn should_slow(
        &self,
        vehicles: &[&Vehicle],
        stop_signs: &[StopSign],
        stoplights: &[Stoplight],
    ) -> (r: bool)
        requires
            self.wf(),
            forall|i: int| 0 <= i < vehicles@.len() ==> (#[trigger] vehicles@[i]).wf(),
        ensures
            r == self.spec_should_slow(vehicles@, stop_signs@, stoplights@),
    {
        let collider = Bounds::Rect(self.envelope());
        let mut i: usize = 0;
        while i < vehicles.len()
            invariant
                i <= vehicles@.len(),
                collider.wf(),
                collider@ == Shape::Rect(self.spec_envelope()),
                forall|j: int| 0 <= j < vehicles@.len() ==> (#[trigger] vehicles@[j]).wf(),
                forall|j: int|
                    0 <= j < i ==> !overlaps(
                        collider@,
                        Shape::Rect((#[trigger] vehicles@[j]).spec_bounds()),
                    ),
            decreases vehicles@.len() - i,
        {
            let bounds = Bounds::Rect(vehicles[i].bounds());
            if collider.colliding(&bounds) {
                return true;
            }
            i += 1;
        }
        let mut k: usize = 0;
        while k < stop_signs.len()
            invariant
                k <= stop_signs@.len(),
                collider.wf(),
                collider@ == Shape::Rect(self.spec_envelope()),
                forall|j: int|
                    0 <= j < k ==> !(#[trigger] stop_signs@[j]).blocks(self.tile_pos, collider@),
            decreases stop_signs@.len() - k,
        {
            if stop_signs[k].colliding(self.tile_pos, &collider) {
                return true;
            }
            k += 1;
        }
        let mut n: usize = 0;
        while n < stoplights.len()
            invariant
                n <= stoplights@.len(),
                collider.wf(),
                collider@ == Shape::Rect(self.spec_envelope()),
                forall|j: int|
                    0 <= j < n ==> !light_blocks(#[trigger] stoplights@[j], self.dir, collider@),
            decreases stoplights@.len() - n,
        {
            if light_holds(&stoplights[n], self.dir, &collider) {
                return true;
            }
            n += 1;
        }
        false
    }

    /// The vehicle as it enters the tile at `cell` in direction `dir`: set
    /// back to the middle of the edge by which it came in.
    pub open spec fn entered(self, cell: GridPoint, dir: Direction) -> Vehicle {
        Vehicle {
            pos: Point {
                x: (cell.x * TILE_UNITS - dir.spec_in_dir().spec_offset().0 * HALF_TILE) as i64,
                y: (cell.y * TILE_UNITS - dir.spec_in_dir().spec_offset().1 * HALF_TILE) as i64,
            },
            tile_pos: cell,
            length: self.length,
            speed: self.speed,
            dir,
        }
    }

    /// The vehicle a tick later: slower if `slow`, else faster, and moved on
    /// by its new speed along its heading.
    pub open spec fn moved(self, slow: bool) -> Vehicle {
        let speed = next_speed(self.speed as int, slow);
        Vehicle {
            pos: Point {
                x: (self.pos.x + speed * self.dir.spec_vector().x) as i64,
                y: (self.pos.y + speed * self.dir.spec_vector().y) as i64,
            },
            tile_pos: self.tile_pos,
            length: self.length,
            speed: speed as i16,
            dir: self.dir,
        }
    }

    /// One tick of a vehicle that has just entered the tile `entry.0` in
    /// direction `entry.1`, or that has stayed on its tile.
    pub open spec fn spec_step(
        self,
        entry: Option<(GridPoint, Direction)>,
        vehicles: Seq<&Vehicle>,
        stop_signs: Seq<StopSign>,
        stoplights: Seq<Stoplight>,
    ) -> Vehicle {
        let placed = match entry {
            Some((cell, dir)) => self.entered(cell, dir),
            None => self,
        };
        placed.moved(placed.spec_should_slow(vehicles, stop_signs, stoplights))
    }

    /// One tick, once the tile under the vehicle is known: `entry` holds the
    /// cell and the direction of a tile that the vehicle has just entered.
    pub fn step(
        &mut self,
        entry: Option<(GridPoint, Direction)>,
        vehicles: &[&Vehicle],
        stop_signs: &[StopSign],
        stoplights: &[Stoplight],
    )
        requires
            entry is None ==> on_some_tile(old(self).pos),
            forall|i: int| 0 <= i < vehicles@.len() ==> (#[trigger] vehicles@[i]).wf(),
        ensures
            *final(self) == old(self).spec_step(entry, vehicles@, stop_signs@, stoplights@),
            0 <= final(self).speed <= MAX_SPEED,
            final(self).wf(),
    {
        match entry {
            Some((cell, dir)) => {
                let inward = dir.in_dir().offset();
                self.pos = Point {
                    x: (cell.x as i64) * TILE_UNITS - inward.0 * HALF_TILE,
                    y: (cell.y as i64) * TILE_UNITS - inward.1 * HALF_TILE,
                };
                self.tile_pos = cell;
                self.dir = dir;
            },
            None => {},
        }
        proof {
            if entry is None {
                let cell = choose|cell: GridPoint| covers(cell, self.pos);
                assert(covers(cell, self.pos));
            }
        }
        let slow = self.should_slow(vehicles, stop_signs, stoplights);
        let raw: i32 = self.speed as i32 + if slow { BRAKE as i32 } else { ACCEL as i32 };
        let speed: i16 = if raw < 0 {
            0
        } else if raw > MAX_SPEED as i32 {
            MAX_SPEED
        } else {
            raw as i16
        };
        let heading = self.dir.vector();
        proof {
            lemma_heading_shape(self.dir);
            assert(-80 * 14142 <= speed * heading.x <= 80 * 14142) by (nonlinear_arith)
                requires
                    0 <= speed <= 80,
                    -14142 <= heading.x <= 14142,
            ;
            assert(-80 * 14142 <= speed * heading.y <= 80 * 14142) by (nonlinear_arith)
                requires
                    0 <= speed <= 80,
                    -14142 <= heading.y <= 14142,
            ;
        }
        self.speed = speed;
        self.pos = Point {
            x: self.pos.x + (speed as i64) * heading.x,
            y: self.pos.y + (speed as i64) * heading.y,
        };
    }

    /// One tick against the other vehicles as they stood when the tick
    /// began. The vehicle finds the tile under it; on a new tile it takes
    /// its direction from that tile and is set back to the tile's entry;
    /// then it brakes or accelerates and moves on.
    pub fn update(
        &mut self,
        vehicles: &[&Vehicle],
        tiles: &TileMap<Tile>,
        stop_signs: &[StopSign],
        stoplights: &[Stoplight],
        rng: &mut StdRng,
    ) -> (r: Result<(), RoutingError>)
        requires
            forall|i: int| 0 <= i < vehicles@.len() ==> (#[trigger] vehicles@[i]).wf(),
        ensures
            r is Err ==> *final(self) == *old(self),
            r is Ok ==> 0 <= final(self).speed <= MAX_SPEED && final(self).wf(),
            match first_cover(tiles.cells(), old(self).pos) {
                None => r == Err::<(), RoutingError>(RoutingError::OffNetwork),
                Some(i) => {
                    let tile = tiles.tiles@[i];
                    if tile.pos == old(self).tile_pos {
                        r is Ok && *final(self) == old(self).spec_step(
                            None,
                            vehicles@,
                            stop_signs@,
                            stoplights@,
                        )
                    } else if !tile.dir.routes(old(self).dir) {
                        r == Err::<(), RoutingError>(RoutingError::MalformedIntersection)
                    } else {
                        r is Ok && match tile.dir {
                            TileDirection::Constant(dir) => *final(self) == old(self).spec_step(
                                Some((tile.pos, dir)),
                                vehicles@,
                                stop_signs@,
                                stoplights@,
                            ),
                            TileDirection::Intersection(_) => exists|k: int|
                                0 <= k < tile.dir.permitted(old(self).dir).unwrap().len()
                                    && *final(self) == old(self).spec_step(
                                    Some(
                                        (
                                            tile.pos,
                                            spec_leave_by(
                                                old(self).dir,
                                                #[trigger] tile.dir.permitted(
                                                    old(self).dir,
                                                ).unwrap()[k],
                                            ),
                                        ),
                                    ),
                                    vehicles@,
                                    stop_signs@,
                                    stoplights@,
                                ),
                        }
                    }
                },
            },
    {
        proof {
            lemma_first_cover(tiles.cells(), self.pos);
        }
        let cur_tile = match tiles.index_at(&self.pos) {
            None => {
                return Err(RoutingError::OffNetwork);
            },
            Some(i) => {
                assert(tiles.cells()[i as int] == tiles.tiles@[i as int].pos);
                &tiles.tiles[i]
            },
        };
        assert(covers(cur_tile.pos, self.pos));
        if cur_tile.pos == self.tile_pos {
            self.step(None, vehicles, stop_signs, stoplights);
        } else {
            let tile_dir = match cur_tile.dir.as_dir(self.dir, rng) {
                Ok(dir) => dir,
                Err(e) => {
                    return Err(e);
                },
            };
            self.step(Some((cur_tile.pos, tile_dir)), vehicles, stop_signs, stoplights);
        }
        Ok(())
    }
}

} // verus!
