//! Compass and vertical directions.

use vstd::prelude::*;

use crate::sorted_map::Ordered;

verus! {

/// A compass/vertical direction, ordered as declared.
#[derive(Debug, Clone, Copy, PartialEq, Eq, PartialOrd, Ord, Hash, Structural)]
pub enum Direction {
    North,
    South,
    East,
    West,
    Up,
    Down,
}

/// The place of a direction in declaration order.
pub open spec fn place(d: Direction) -> int {
    match d {
        Direction::North => 0,
        Direction::South => 1,
        Direction::East => 2,
        Direction::West => 3,
        Direction::Up => 4,
        Direction::Down => 5,
    }
}

/// The direction that leads back.
pub open spec fn opposite_of(d: Direction) -> Direction {
    match d {
        Direction::North => Direction::South,
        Direction::South => Direction::North,
        Direction::East => Direction::West,
        Direction::West => Direction::East,
        Direction::Up => Direction::Down,
        Direction::Down => Direction::Up,
    }
}

/// The way back from the way back is the way there, and never the same way.
pub proof fn lemma_opposite_undoes_itself(d: Direction)
    ensures
        opposite_of(opposite_of(d)) == d,
        opposite_of(d) != d,
{
}

/// Where one step in a direction leads on a grid: east, north and up count
/// forwards.
pub open spec fn step(d: Direction) -> (int, int, int) {
    match d {
        Direction::North => (0, 1, 0),
        Direction::South => (0, -1, 0),
        Direction::East => (1, 0, 0),
        Direction::West => (-1, 0, 0),
        Direction::Up => (0, 0, 1),
        Direction::Down => (0, 0, -1),
    }
}

/// One step in a direction and one in its opposite end where they began.
pub proof fn lemma_there_and_back(d: Direction)
    ensures
        step(d).0 + step(opposite_of(d)).0 == 0,
        step(d).1 + step(opposite_of(d)).1 == 0,
        step(d).2 + step(opposite_of(d)).2 == 0,
{
}

/// All directions, first to last.
pub open spec fn compass() -> Seq<Direction> {
    seq![
        Direction::North,
        Direction::South,
        Direction::East,
        Direction::West,
        Direction::Up,
        Direction::Down,
    ]
}

/// Directions are ordered north, south, east, west, up, down, and there is no
/// other.
pub proof fn lemma_order_of_directions(a: Direction, b: Direction)
    ensures
        compass().contains(a),
        Direction::before(a, b) <==> exists|i: int, j: int|
            #![trigger compass()[i], compass()[j]]
            0 <= i < j < 6 && compass()[i] == a && compass()[j] == b,
{
    assert(compass()[place(a)] == a);
    assert(compass()[place(b)] == b);
    assert forall|i: int| 0 <= i < 6 implies place(#[trigger] compass()[i]) == i by {}
}

impl Direction {
    /// The direction that leads back.
    pub fn opposite(self) -> (r: Direction)
        ensures
            r == opposite_of(self),
    {
        match self {
            Direction::North => Direction::South,
            Direction::South => Direction::North,
            Direction::East => Direction::West,
            Direction::West => Direction::East,
            Direction::Up => Direction::Down,
            Direction::Down => Direction::Up,
        }
    }

    fn index(&self) -> (r: u8)
        ensures
            r == place(*self),
    {
        match self {
            Direction::North => 0,
            Direction::South => 1,
            Direction::East => 2,
            Direction::West => 3,
            Direction::Up => 4,
            Direction::Down => 5,
        }
    }
}

impl View for Direction {
    type V = Direction;

    open spec fn view(&self) -> Direction {
        *self
    }
}

impl Ordered for Direction {
    open spec fn before(a: Direction, b: Direction) -> bool {
        place(a) < place(b)
    }

    proof fn before_irreflexive(a: Direction) {
    }

    proof fn before_transitive(a: Direction, b: Direction, c: Direction) {
    }

    proof fn before_total(a: Direction, b: Direction) {
    }

    fn is_before(&self, other: &Direction) -> (r: bool) {
        self.index() < other.index()
    }

    fn is_same(&self, other: &Direction) -> (r: bool) {
        *self == *other
    }
}

} // verus!
