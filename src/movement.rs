//! Points on a terminal board, the four directions of travel, and moving
//! points that bounce off the board's edges and off obstacles.

use vstd::prelude::*;

verus! {

#[derive(Debug, Copy, Clone, Eq, PartialEq, Structural, Hash)]
pub enum Direction {
    Up,
    Right,
    Down,
    Left,
}

/// A cell of the board.
#[derive(Debug, Clone, Copy, PartialEq, Eq, Structural)]
pub struct Point {
    pub x: u16,
    pub y: u16,
}

/// A point that travels in a direction at some speed.
#[derive(Debug, Clone, Copy, PartialEq, Eq, Structural)]
pub struct MovingPoint {
    pub position: Point,
    pub direction: Direction,
    pub speed: u16,
    pub wait_to_draw: u8,
}

/// The opposite direction.
pub open spec fn opposite(d: Direction) -> Direction {
    match d {
        Direction::Up => Direction::Down,
        Direction::Down => Direction::Up,
        Direction::Right => Direction::Left,
        Direction::Left => Direction::Right,
    }
}

/// The directions, in the order a random pick numbers them.
pub open spec fn direction_at(i: int) -> Direction {
    if i == 0 {
        Direction::Up
    } else if i == 1 {
        Direction::Right
    } else if i == 2 {
        Direction::Down
    } else {
        Direction::Left
    }
}

/// Relies on `rand::Rng::gen_range` over `0..n` with the thread-local
/// generator: a value below `n`.
#[verifier::external_body]
pub(crate) fn random_below(n: usize) -> (r: usize)
    requires
        n > 0,
    ensures
        r < n,
{
    rand::Rng::gen_range(&mut rand::thread_rng(), 0..n)
}

impl Direction {
    /// The opposite direction.
    pub fn reverse(&self) -> (r: Direction)
        ensures
            r == opposite(*self),
    {
        match self {
            Direction::Up => Direction::Down,
            Direction::Down => Direction::Up,
            Direction::Right => Direction::Left,
            Direction::Left => Direction::Right,
        }
    }

    /// One of the four directions, picked at random.
    pub fn random() -> (r: Direction) {
        Direction::from_index(random_below(4))
    }

    /// The direction numbered `i`: up, right, down, left.
    pub fn from_index(i: usize) -> (r: Direction)
        requires
            i < 4,
        ensures
            r == direction_at(i as int),
    {
        if i == 0 {
            Direction::Up
        } else if i == 1 {
            Direction::Right
        } else if i == 2 {
            Direction::Down
        } else {
            Direction::Left
        }
    }
}

/// Whether `point` is one of `points`.
pub fn detect_collision(point: Point, points: Vec<Point>) -> (r: bool)
    ensures
        r == points@.contains(point),
{
    let mut i: usize = 0;
    while i < points.len()
        invariant
            i <= points.len(),
            forall|t: int| 0 <= t < i ==> points@[t] != point,
        decreases points.len() - i,
    {
        if point == points[i] {
            assert(points@[i as int] == point);
            return true;
        }
        i = i + 1;
    }
    false
}

/// Whether some moving point is at `point`.
pub fn detect_moving_collision(point: Point, points: &Vec<MovingPoint>) -> (r: bool)
    ensures
        r == exists|i: int| 0 <= i < points.len() && (#[trigger] points@[i]).position == point,
{
    let mut i: usize = 0;
    while i < points.len()
        invariant
            i <= points.len(),
            forall|t: int| 0 <= t < i ==> (#[trigger] points@[t]).position != point,
        decreases points.len() - i,
    {
        if point == points[i].position {
            return true;
        }
        i = i + 1;
    }
    false
}

/// The point one step of a bounce rule moves to: it moves `speed` cells
/// on (saturating at the board's numeric limits) while the next cell lies
/// inside the board and is free, and turns round otherwise.
pub open spec fn next_state(
    p: MovingPoint,
    board_width: u16,
    board_height: u16,
    wait_to_draw: u8,
    points: Seq<Point>,
) -> MovingPoint {
    let pos = p.position;
    let q = MovingPoint { wait_to_draw, ..p };
    match p.direction {
        Direction::Up => if pos.y > 1 && !points.contains(Point { x: pos.x, y: (pos.y - 1) as u16 }) {
            MovingPoint { position: Point { x: pos.x, y: (if pos.y >= p.speed { pos.y - p.speed } else { 0 }) as u16 }, ..q }
        } else {
            MovingPoint { direction: Direction::Down, ..q }
        },
        Direction::Down => if pos.y < board_height && !points.contains(Point { x: pos.x, y: (pos.y + 1) as u16 }) {
            MovingPoint { position: Point { x: pos.x, y: (if pos.y + p.speed <= u16::MAX { pos.y + p.speed } else { u16::MAX as int }) as u16 }, ..q }
        } else {
            MovingPoint { direction: Direction::Up, ..q }
        },
        Direction::Left => if pos.x > 1 && !points.contains(Point { x: (pos.x - 1) as u16, y: pos.y }) {
            MovingPoint { position: Point { x: (if pos.x >= p.speed { pos.x - p.speed } else { 0 }) as u16, y: pos.y }, ..q }
        } else {
            MovingPoint { direction: Direction::Right, ..q }
        },
        Direction::Right => if pos.x < board_width && !points.contains(Point { x: (pos.x + 1) as u16, y: pos.y }) {
            MovingPoint { position: Point { x: (if pos.x + p.speed <= u16::MAX { pos.x + p.speed } else { u16::MAX as int }) as u16, y: pos.y }, ..q }
        } else {
            MovingPoint { direction: Direction::Left, ..q }
        },
    }
}

impl MovingPoint {
    /// A point at the origin, at rest, facing a random direction.
    pub fn default() -> (r: MovingPoint)
        ensures
            r.position == (Point { x: 0, y: 0 }),
            r.speed == 0,
            r.wait_to_draw == 0,
    {
        MovingPoint {
            position: Point { x: 0, y: 0 },
            direction: Direction::random(),
            speed: 0,
            wait_to_draw: 0,
        }
    }

    /// Moves one step, or turns round at an edge of the board or in front of
    /// one of `points`; records `wait_to_draw`.
    pub fn update_position(
        &mut self,
        board_width: u16,
        board_height: u16,
        wait_to_draw: u8,
        points: Vec<Point>,
    )
        ensures
            *final(self) == next_state(*old(self), board_width, board_height, wait_to_draw, points@),
    {
        self.wait_to_draw = wait_to_draw;
        match self.direction {
            Direction::Up => {
                if self.position.y > 1 && !Self::collision(
                    Point { x: self.position.x, y: self.position.y - 1 },
                    points,
                ) {
                    self.position.y = self.position.y.saturating_sub(self.speed);
                } else {
                    self.direction = Direction::Down;
                }
            },
            Direction::Down => {
                if self.position.y < board_height && !Self::collision(
                    Point { x: self.position.x, y: self.position.y + 1 },
                    points,
                ) {
                    self.position.y = self.position.y.saturating_add(self.speed);
                } else {
                    self.direction = Direction::Up;
                }
            },
            Direction::Left => {
                if self.position.x > 1 && !Self::collision(
                    Point { x: self.position.x - 1, y: self.position.y },
                    points,
                ) {
                    self.position.x = self.position.x.saturating_sub(self.speed);
                } else {
                    self.direction = Direction::Right;
                }
            },
            Direction::Right => {
                if self.position.x < board_width && !Self::collision(
                    Point { x: self.position.x + 1, y: self.position.y },
                    points,
                ) {
                    self.position.x = self.position.x.saturating_add(self.speed);
                } else {
                    self.direction = Direction::Left;
                }
            },
        }
    }

    /// Whether `point` is one of `points`.
    fn collision(point: Point, points: Vec<Point>) -> (r: bool)
        ensures
            r == points@.contains(point),
    {
        detect_collision(point, points)
    }
}

} // verus!
