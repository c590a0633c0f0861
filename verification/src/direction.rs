//! Directions on the grid and mirror orientations.

use vstd::prelude::*;

verus! {

/// A cardinal direction a node can face or a beam can travel: one unit
/// step along a row or a column.
#[derive(Clone, Copy, PartialEq, Eq, Structural, Debug)]
pub enum Direction {
    Up,
    Down,
    Left,
    Right,
}

/// The reflective axis of a mirror. `Forward` is drawn as `/`,
/// `Backward` as `\`.
#[derive(Clone, Copy, PartialEq, Eq, Structural, Debug)]
pub enum MirrorOrientation {
    Forward,
    Backward,
}

impl Direction {
    /// The change in row of one step in this direction.
    pub open spec fn d_row(self) -> int {
        match self {
            Direction::Up => -1,
            Direction::Down => 1,
            Direction::Left => 0,
            Direction::Right => 0,
        }
    }

    /// The change in column of one step in this direction.
    pub open spec fn d_col(self) -> int {
        match self {
            Direction::Up => 0,
            Direction::Down => 0,
            Direction::Left => -1,
            Direction::Right => 1,
        }
    }

    pub open spec fn is_vertical(self) -> bool {
        self == Direction::Up || self == Direction::Down
    }

    /// The direction a beam leaves a mirror in, given the direction it
    /// arrived in. A mirror always swaps the travel axis; the sign of the
    /// outgoing axis depends on the mirror's orientation. A `/` mirror
    /// sends a beam travelling right upward; a `\` mirror sends it
    /// downward.
    pub open spec fn spec_reflect(self, orientation: MirrorOrientation) -> Direction {
        match orientation {
            MirrorOrientation::Forward => match self {
                Direction::Up => Direction::Right,
                Direction::Down => Direction::Left,
                Direction::Left => Direction::Down,
                Direction::Right => Direction::Up,
            },
            MirrorOrientation::Backward => match self {
                Direction::Up => Direction::Left,
                Direction::Down => Direction::Right,
                Direction::Left => Direction::Up,
                Direction::Right => Direction::Down,
            },
        }
    }

    pub fn reflect(self, orientation: MirrorOrientation) -> (r: Direction)
        ensures
            r == self.spec_reflect(orientation),
    {
        match orientation {
            MirrorOrientation::Forward => match self {
                Direction::Up => Direction::Right,
                Direction::Down => Direction::Left,
                Direction::Left => Direction::Down,
                Direction::Right => Direction::Up,
            },
            MirrorOrientation::Backward => match self {
                Direction::Up => Direction::Left,
                Direction::Down => Direction::Right,
                Direction::Left => Direction::Up,
                Direction::Right => Direction::Down,
            },
        }
    }

    /// The character a beam cell is drawn with while travelling in this
    /// direction.
    pub open spec fn spec_beam_char(self) -> char {
        if self.is_vertical() {
            '|'
        } else {
            '-'
        }
    }

    /// The arrow head drawn at the cell a beam is about to enter.
    pub open spec fn spec_arrow_char(self) -> char {
        match self {
            Direction::Up => '^',
            Direction::Down => 'v',
            Direction::Left => '<',
            Direction::Right => '>',
        }
    }

    pub fn beam_char(self) -> (c: char)
        ensures
            c == self.spec_beam_char(),
    {
        match self {
            Direction::Up => '|',
            Direction::Down => '|',
            Direction::Left => '-',
            Direction::Right => '-',
        }
    }

    pub fn arrow_char(self) -> (c: char)
        ensures
            c == self.spec_arrow_char(),
    {
        match self {
            Direction::Up => '^',
            Direction::Down => 'v',
            Direction::Left => '<',
            Direction::Right => '>',
        }
    }
}

/// Law: reflection geometry, enumerated. Each of the four incoming
/// directions against each of the two mirror orientations turns to
/// exactly one outgoing direction; a beam travelling right into a `/`
/// mirror turns upward.
pub proof fn lemma_reflection_cases()
    ensures
        Direction::Right.spec_reflect(MirrorOrientation::Forward) == Direction::Up,
        Direction::Left.spec_reflect(MirrorOrientation::Forward) == Direction::Down,
        Direction::Up.spec_reflect(MirrorOrientation::Forward) == Direction::Right,
        Direction::Down.spec_reflect(MirrorOrientation::Forward) == Direction::Left,
        Direction::Right.spec_reflect(MirrorOrientation::Backward) == Direction::Down,
        Direction::Left.spec_reflect(MirrorOrientation::Backward) == Direction::Up,
        Direction::Up.spec_reflect(MirrorOrientation::Backward) == Direction::Left,
        Direction::Down.spec_reflect(MirrorOrientation::Backward) == Direction::Right,
{
}

/// Law: reflection always swaps the travel axis — a beam moving along
/// rows leaves a mirror moving along columns, and the other way round.
pub proof fn lemma_reflection_swaps_axis(dir: Direction, orientation: MirrorOrientation)
    ensures
        dir.spec_reflect(orientation).is_vertical() <==> !dir.is_vertical(),
{
}

} // verus!
