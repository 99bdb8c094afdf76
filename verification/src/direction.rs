use vstd::prelude::*;
use std::collections::HashMap;
use rand::rngs::StdRng;
use crate::point::Vector;
use crate::random::{sample_weighted, total_weight};

verus! {

/// Length of a straight heading vector: headings are held in ten-thousandths.
pub const DIR_SCALE: i64 = 10_000;

/// Each component of a diagonal heading: `DIR_SCALE` divided by the square
/// root of two, rounded down.
pub const DIAGONAL: i64 = 7_071;

/// One of the four directions of the grid. Up is toward smaller `y`.
#[derive(Debug, PartialEq, Eq, Structural, Clone, Copy, Hash)]
pub enum Cardinal {
    Up,
    Down,
    Left,
    Right,
}

/// One of the two axes along which roads run.
#[derive(Debug, PartialEq, Eq, Structural, Clone, Copy, Hash)]
pub enum Axis {
    Horizontal,
    Vertical,
}

/// The way a vehicle moves over a tile: straight on in one cardinal, or
/// turning from one cardinal into another.
#[derive(Debug, PartialEq, Eq, Structural, Clone, Copy, Hash)]
pub enum Direction {
    Straight(Cardinal),
    Turn(Cardinal, Cardinal),
}

impl Axis {
    /// The other axis.
    pub open spec fn spec_flip(self) -> Axis {
        match self {
            Axis::Horizontal => Axis::Vertical,
            Axis::Vertical => Axis::Horizontal,
        }
    }

    /// The other axis.
    pub fn flip(&self) -> (r: Self)
        ensures
            r == self.spec_flip(),
    {
        match self {
            Axis::Horizontal => Axis::Vertical,
            Axis::Vertical => Axis::Horizontal,
        }
    }

    /// Heading of a device sprite that shows this axis, in whole degrees.
    pub open spec fn spec_degrees(self) -> int {
        match self {
            Axis::Horizontal => 0,
            Axis::Vertical => 90,
        }
    }

    /// Heading of a device sprite that shows this axis, in whole degrees.
    pub fn degrees(&self) -> (r: u32)
        ensures
            r == self.spec_degrees(),
    {
        match self {
            Axis::Horizontal => 0,
            Axis::Vertical => 90,
        }
    }
}

impl Cardinal {
    /// The next cardinal clockwise: Up, Right, Down, Left, Up.
    pub open spec fn spec_rotate(self) -> Cardinal {
        match self {
            Cardinal::Up => Cardinal::Right,
            Cardinal::Right => Cardinal::Down,
            Cardinal::Down => Cardinal::Left,
            Cardinal::Left => Cardinal::Up,
        }
    }

    /// Returns the next cardinal clockwise and leaves `self` as it was.
    pub fn rotate(&mut self) -> (r: Self)
        ensures
            r == old(self).spec_rotate(),
            *final(self) == *old(self),
    {
        match self {
            Cardinal::Up => Cardinal::Right,
            Cardinal::Right => Cardinal::Down,
            Cardinal::Down => Cardinal::Left,
            Cardinal::Left => Cardinal::Up,
        }
    }

    /// Step on the grid: x grows to the right, y grows downward.
    pub open spec fn spec_offset(self) -> (int, int) {
        match self {
            Cardinal::Up => (0, -1),
            Cardinal::Down => (0, 1),
            Cardinal::Left => (-1, 0),
            Cardinal::Right => (1, 0),
        }
    }

    /// The step on the grid: one cell along this cardinal.
    pub fn offset(&self) -> (r: (i64, i64))
        ensures
            r.0 == self.spec_offset().0,
            r.1 == self.spec_offset().1,
    {
        match self {
            Cardinal::Up => (0, -1),
            Cardinal::Down => (0, 1),
            Cardinal::Left => (-1, 0),
            Cardinal::Right => (1, 0),
        }
    }

    /// The unit vector of this cardinal, of length `DIR_SCALE`.
    pub open spec fn spec_vector(self) -> Vector {
        Vector {
            x: (self.spec_offset().0 * DIR_SCALE) as i64,
            y: (self.spec_offset().1 * DIR_SCALE) as i64,
        }
    }

    /// The unit vector of this cardinal, of length `DIR_SCALE`.
    pub fn vector(&self) -> (v: Vector)
        ensures
            v == self.spec_vector(),
    {
        match self {
            Cardinal::Up => Vector { x: 0, y: -DIR_SCALE },
            Cardinal::Down => Vector { x: 0, y: DIR_SCALE },
            Cardinal::Left => Vector { x: -DIR_SCALE, y: 0 },
            Cardinal::Right => Vector { x: DIR_SCALE, y: 0 },
        }
    }

    /// Up counts as 360 beside Left, so that the two average to 315.
    pub open spec fn spec_degrees(self, other: Option<Cardinal>) -> int {
        match self {
            Cardinal::Up => if other == Some(Cardinal::Left) { 360 } else { 0 },
            Cardinal::Down => 180,
            Cardinal::Left => 270,
            Cardinal::Right => 90,
        }
    }

    /// Heading in whole degrees, clockwise from Up; `other` is the cardinal
    /// that this one is about to be averaged with.
    pub fn degrees(&self, other: Option<&Cardinal>) -> (r: u32)
        ensures
            r == self.spec_degrees(
                match other {
                    Some(c) => Some(*c),
                    None => None,
                },
            ),
    {
        match self {
            Cardinal::Up => {
                match other {
                    Some(Cardinal::Left) => 360,
                    _ => 0,
                }
            },
            Cardinal::Down => 180,
            Cardinal::Left => 270,
            Cardinal::Right => 90,
        }
    }

    /// The axis along which travel in this cardinal runs.
    pub open spec fn spec_axis(self) -> Axis {
        match self {
            Cardinal::Up => Axis::Vertical,
            Cardinal::Down => Axis::Vertical,
            Cardinal::Left => Axis::Horizontal,
            Cardinal::Right => Axis::Horizontal,
        }
    }

    /// Whether travel in this cardinal runs along `axis`.
    pub fn on_axis(&self, axis: &Axis) -> (r: bool)
        ensures
            r == (self.spec_axis() == *axis),
    {
        let right_axis = match self {
            Cardinal::Up => Axis::Vertical,
            Cardinal::Down => Axis::Vertical,
            Cardinal::Left => Axis::Horizontal,
            Cardinal::Right => Axis::Horizontal,
        };
        *axis == right_axis
    }
}

impl Direction {
    /// The cardinal in which a vehicle enters a tile of this direction.
    pub open spec fn spec_in_dir(self) -> Cardinal {
        match self {
            Direction::Straight(dir) => dir,
            Direction::Turn(dir, _) => dir,
        }
    }

    /// The cardinal in which a vehicle enters a tile of this direction.
    pub fn in_dir(&self) -> (r: Cardinal)
        ensures
            r == self.spec_in_dir(),
    {
        match self {
            Direction::Straight(dir) => *dir,
            Direction::Turn(dir, _) => *dir,
        }
    }

    /// The cardinal in which a vehicle leaves a tile of this direction.
    pub open spec fn spec_out_dir(self) -> Cardinal {
        match self {
            Direction::Straight(dir) => dir,
            Direction::Turn(_, dir) => dir,
        }
    }

    /// The cardinal in which a vehicle leaves a tile of this direction.
    pub fn out_dir(&self) -> (r: Cardinal)
        ensures
            r == self.spec_out_dir(),
    {
        match self {
            Direction::Straight(dir) => *dir,
            Direction::Turn(_, dir) => *dir,
        }
    }

    /// A turn between two cardinals on different axes.
    pub open spec fn is_corner(self) -> bool {
        match self {
            Direction::Straight(_) => false,
            Direction::Turn(a, b) => a.spec_axis() != b.spec_axis(),
        }
    }

    /// A straight heading is the cardinal's own vector; a turn is the sum of
    /// its two cardinals scaled by `DIAGONAL / DIR_SCALE`.
    pub open spec fn spec_vector(self) -> Vector {
        match self {
            Direction::Straight(dir) => dir.spec_vector(),
            Direction::Turn(a, b) => Vector {
                x: ((a.spec_offset().0 + b.spec_offset().0) * DIAGONAL) as i64,
                y: ((a.spec_offset().1 + b.spec_offset().1) * DIAGONAL) as i64,
            },
        }
    }

    /// The heading vector, in ten-thousandths.
    pub fn vector(&self) -> (v: Vector)
        ensures
            v == self.spec_vector(),
    {
        match self {
            Direction::Straight(dir) => dir.vector(),
            Direction::Turn(a, b) => {
                let va = a.vector();
                let vb = b.vector();
                Vector {
                    x: (va.x + vb.x) / DIR_SCALE * DIAGONAL,
                    y: (va.y + vb.y) / DIR_SCALE * DIAGONAL,
                }
            },
        }
    }

    /// A straight heading has its cardinal's degrees; a turn has the average
    /// of its two cardinals' degrees.
    pub open spec fn spec_degrees(self) -> int {
        match self {
            Direction::Straight(dir) => dir.spec_degrees(None),
            Direction::Turn(a, b) => (a.spec_degrees(Some(b)) + b.spec_degrees(Some(a))) / 2,
        }
    }

    /// Heading in whole degrees, clockwise from Up.
    pub fn degrees(&self) -> (r: u32)
        ensures
            r == self.spec_degrees(),
    {
        match self {
            Direction::Straight(dir) => dir.degrees(None),
            Direction::Turn(a, b) => (a.degrees(Some(b)) + b.degrees(Some(a))) / 2,
        }
    }

    /// A number that tells the twenty directions apart; it keys the table of
    /// an intersection tile.
    pub open spec fn spec_code(self) -> u8 {
        match self {
            Direction::Straight(c) => cardinal_index(c) as u8,
            Direction::Turn(a, b) => (4 + 4 * cardinal_index(a) + cardinal_index(b)) as u8,
        }
    }

    /// The key of this direction in the table of an intersection tile.
    pub fn code(&self) -> (r: u8)
        ensures
            r == self.spec_code(),
    {
        match self {
            Direction::Straight(c) => index_of(*c),
            Direction::Turn(a, b) => 4 + 4 * index_of(*a) + index_of(*b),
        }
    }
}

/// The place of a cardinal in the order Up, Down, Left, Right.
pub open spec fn cardinal_index(c: Cardinal) -> int {
    match c {
        Cardinal::Up => 0,
        Cardinal::Down => 1,
        Cardinal::Left => 2,
        Cardinal::Right => 3,
    }
}

fn index_of(c: Cardinal) -> (r: u8)
    ensures
        r == cardinal_index(c),
{
    match c {
        Cardinal::Up => 0,
        Cardinal::Down => 1,
        Cardinal::Left => 2,
        Cardinal::Right => 3,
    }
}

/// Two directions with the same code are the same direction.
pub proof fn lemma_code_injective(a: Direction, b: Direction)
    requires
        a.spec_code() == b.spec_code(),
    ensures
        a == b,
{
}

/// A straight heading has length `DIR_SCALE`. A turn between cardinals on
/// different axes has both components of magnitude `DIAGONAL`, the largest
/// whole diagonal whose length does not exceed `DIR_SCALE`; its degrees lie
/// halfway between those of its cardinals.
pub proof fn lemma_heading_magnitude(d: Direction)
    ensures
        d is Straight ==> d.spec_vector().x * d.spec_vector().x + d.spec_vector().y
            * d.spec_vector().y == DIR_SCALE * DIR_SCALE,
        d.is_corner() ==> {
            &&& d.spec_vector().x == DIAGONAL || d.spec_vector().x == -DIAGONAL
            &&& d.spec_vector().y == DIAGONAL || d.spec_vector().y == -DIAGONAL
        },
        2 * (DIAGONAL * DIAGONAL) <= DIR_SCALE * DIR_SCALE < 2 * ((DIAGONAL + 1) * (DIAGONAL + 1)),
        d is Straight ==> d.spec_degrees() == 90 * clockwise_quarters(d.spec_out_dir()),
        d.is_corner() ==> d.spec_degrees() % 90 == 45 && 0 < d.spec_degrees() < 360,
{
    let v = d.spec_vector();
    if d is Straight {
        assert(v.x == 0 && (v.y == DIR_SCALE || v.y == -DIR_SCALE) || v.y == 0 && (v.x
            == DIR_SCALE || v.x == -DIR_SCALE));
        assert(v.x * v.x + v.y * v.y == DIR_SCALE * DIR_SCALE) by (nonlinear_arith)
            requires
                v.x == 0 && (v.y == DIR_SCALE || v.y == -DIR_SCALE) || v.y == 0 && (v.x
                    == DIR_SCALE || v.x == -DIR_SCALE),
        ;
    }
}

/// Every heading runs along an axis or along a diagonal, and no component
/// is longer than two diagonals.
pub proof fn lemma_heading_shape(d: Direction)
    ensures
        -2 * DIAGONAL <= d.spec_vector().x <= 2 * DIAGONAL,
        -2 * DIAGONAL <= d.spec_vector().y <= 2 * DIAGONAL,
        d.spec_vector().x == 0 || d.spec_vector().y == 0 || d.spec_vector().x
            == d.spec_vector().y || d.spec_vector().x == -d.spec_vector().y,
{
}

/// Quarter turns clockwise from Up.
pub open spec fn clockwise_quarters(c: Cardinal) -> int {
    match c {
        Cardinal::Up => 0,
        Cardinal::Right => 1,
        Cardinal::Down => 2,
        Cardinal::Left => 3,
    }
}

/// The defects that end a simulation, and the one that refuses a vehicle its
/// place.
#[derive(Debug, PartialEq, Eq, Structural, Clone, Copy)]
pub enum RoutingError {
    /// A vehicle's position lies on no tile.
    OffNetwork,
    /// An intersection tile has no usable entry for a direction of arrival.
    MalformedIntersection,
    /// A vehicle was placed on an intersection tile, which gives it no
    /// direction to start in.
    StartsOnIntersection,
}

/// Longest list of outgoing cardinals whose weights still sum within `u32`.
pub const MAX_CHOICES: usize = 1_431_655_765;

/// Weight of the outgoing cardinal that continues straight on.
pub const STRAIGHT_WEIGHT: u32 = 3;

/// Weight of every other outgoing cardinal.
pub const TURN_WEIGHT: u32 = 1;

/// How a tile steers the vehicles on it: one fixed direction, or at an
/// intersection a table from the code of the direction of arrival to the
/// cardinals by which a vehicle may leave.
#[derive(Debug, PartialEq, Eq)]
pub enum TileDirection {
    Constant(Direction),
    Intersection(HashMap<u8, Vec<Cardinal>>),
}

/// The direction of a vehicle that arrived as `arrival` and leaves by `drawn`.
pub open spec fn spec_leave_by(arrival: Direction, drawn: Cardinal) -> Direction {
    if drawn == arrival.spec_out_dir() {
        Direction::Straight(drawn)
    } else {
        Direction::Turn(arrival.spec_out_dir(), drawn)
    }
}

/// Weights of the outgoing cardinals: three for the one that continues the
/// arrival, one for each other.
pub open spec fn spec_turn_weights(possible: Seq<Cardinal>, straight: Cardinal) -> Seq<u32> {
    Seq::new(
        possible.len(),
        |i: int| if possible[i] == straight { STRAIGHT_WEIGHT } else { TURN_WEIGHT },
    )
}

impl Direction {
    /// Straight on if `drawn` continues this direction, else a turn into `drawn`.
    pub fn leave_by(&self, drawn: Cardinal) -> (r: Direction)
        ensures
            r == spec_leave_by(*self, drawn),
    {
        let out = self.out_dir();
        if drawn == out {
            Direction::Straight(drawn)
        } else {
            Direction::Turn(out, drawn)
        }
    }
}

/// Builds the weights of a list of outgoing cardinals.
pub fn turn_weights(possible: &Vec<Cardinal>, straight: Cardinal) -> (weights: Vec<u32>)
    ensures
        weights@ == spec_turn_weights(possible@, straight),
{
    let mut weights: Vec<u32> = Vec::new();
    let mut i: usize = 0;
    while i < possible.len()
        invariant
            i <= possible.len(),
            weights@ == spec_turn_weights(possible@.take(i as int), straight),
        decreases possible.len() - i,
    {
        let w: u32 = if possible[i] == straight { STRAIGHT_WEIGHT } else { TURN_WEIGHT };
        weights.push(w);
        i += 1;
        assert(weights@ =~= spec_turn_weights(possible@.take(i as int), straight));
    }
    assert(possible@.take(i as int) =~= possible@);
    weights
}

proof fn lemma_total_bounds(weights: Seq<u32>)
    requires
        forall|i: int| 0 <= i < weights.len() ==> 1 <= #[trigger] weights[i] <= 3,
    ensures
        weights.len() <= total_weight(weights) <= 3 * weights.len(),
    decreases weights.len(),
{
    if weights.len() > 0 {
        lemma_total_bounds(weights.drop_last());
    }
}

impl TileDirection {
    /// The cardinals by which a vehicle that arrived as `arrival` may leave
    /// an intersection; `None` on a constant tile and for an arrival that
    /// the table lacks.
    pub open spec fn permitted(self, arrival: Direction) -> Option<Seq<Cardinal>> {
        match self {
            TileDirection::Constant(_) => None,
            TileDirection::Intersection(dirs) => if dirs@.contains_key(arrival.spec_code()) {
                Some(dirs@[arrival.spec_code()]@)
            } else {
                None
            },
        }
    }

    /// An arrival that the tile can route.
    pub open spec fn routes(self, arrival: Direction) -> bool {
        match self {
            TileDirection::Constant(_) => true,
            TileDirection::Intersection(_) => match self.permitted(arrival) {
                Some(possible) => 0 < possible.len() <= MAX_CHOICES,
                None => false,
            },
        }
    }

    /// Whether the tile can route a vehicle that arrives as `arrival`; one
    /// asks this of every tile and every arrival that can reach it before a
    /// network is put to use.
    pub fn can_route(&self, arrival: Direction) -> (r: bool)
        ensures
            r == self.routes(arrival),
    {
        broadcast use vstd::std_specs::hash::group_hash_axioms;

        match self {
            TileDirection::Constant(_) => true,
            TileDirection::Intersection(dirs) => {
                let key = arrival.code();
                match dirs.get(&key) {
                    None => false,
                    Some(possible) => 0 < possible.len() && possible.len() <= MAX_CHOICES,
                }
            },
        }
    }

    /// The direction in which a vehicle that arrived as `cur_dir` goes on.
    /// A constant tile gives its own direction. An intersection draws one of
    /// the permitted cardinals, the one that continues straight on with
    /// three times the weight of each other, and fails where its table has
    /// no entry for the arrival, an empty one, or one too long to weigh.
    pub fn as_dir(&self, cur_dir: Direction, rng: &mut StdRng) -> (r: Result<
        Direction,
        RoutingError,
    >)
        ensures
            self.routes(cur_dir) <==> r is Ok,
            r is Err ==> r == Err::<Direction, RoutingError>(RoutingError::MalformedIntersection),
            match *self {
                TileDirection::Constant(dir) => r == Ok::<Direction, RoutingError>(dir),
                TileDirection::Intersection(_) => r is Ok ==> exists|i: int|
                    0 <= i < self.permitted(cur_dir).unwrap().len() && r == Ok::<
                        Direction,
                        RoutingError,
                    >(spec_leave_by(cur_dir, #[trigger] self.permitted(cur_dir).unwrap()[i])),
            },
    {
        broadcast use vstd::std_specs::hash::group_hash_axioms;

        match self {
            TileDirection::Constant(dir) => Ok(*dir),
            TileDirection::Intersection(dirs) => {
                let key = cur_dir.code();
                match dirs.get(&key) {
                    None => Err(RoutingError::MalformedIntersection),
                    Some(possible) => {
                        if possible.len() == 0 || possible.len() > MAX_CHOICES {
                            return Err(RoutingError::MalformedIntersection);
                        }
                        let weights = turn_weights(possible, cur_dir.out_dir());
                        proof {
                            lemma_total_bounds(weights@);
                        }
                        let drawn = sample_weighted(&weights, rng);
                        let next = cur_dir.leave_by(possible[drawn]);
                        proof {
                            let listed = self.permitted(cur_dir).unwrap();
                            assert(listed == possible@);
                            assert(next == spec_leave_by(cur_dir, listed[drawn as int]));
                        }
                        Ok(next)
                    },
                }
            },
        }
    }

    /// Heading of the tile's sprite in whole degrees; an intersection has none.
    pub open spec fn spec_degrees(self) -> int {
        match self {
            TileDirection::Constant(dir) => dir.spec_degrees(),
            TileDirection::Intersection(_) => 0,
        }
    }

    /// Heading of the tile's sprite in whole degrees; an intersection has none.
    pub fn degrees(&self) -> (r: u32)
        ensures
            r == self.spec_degrees(),
    {
        match self {
            TileDirection::Constant(dir) => dir.degrees(),
            TileDirection::Intersection(_) => 0,
        }
    }
}

} // verus!
