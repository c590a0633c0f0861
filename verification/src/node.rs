//! The entity model: the node taxonomy, each variant's mutable payload,
//! and the capability predicates and state mutators the engine relies on.

use vstd::prelude::*;

use crate::direction::Direction;
use crate::direction::MirrorOrientation;

verus! {

/// A cell of a laser's beam, as cached for the rendering collaborator:
/// row, column, the character of the beam body and the arrow head drawn
/// where the beam ends.
pub type BeamCell = (u16, u16, char, char);

#[derive(Debug)]
pub struct Player {
    pub dead: bool,
}

#[derive(Debug)]
pub struct Block;

#[derive(Debug)]
pub struct Wall;

#[derive(Debug)]
pub struct Switch {
    pub on: bool,
}

/// A block that is only solid while visible. The engine itself never
/// flips visibility: it changes only through the direct state
/// mutators.
#[derive(Debug)]
pub struct ToggleBlock {
    pub visible: bool,
}

/// A pressure plate. The engine itself never presses it — neither the
/// "use" action nor a beam: the flag changes only through the direct
/// state mutators.
#[derive(Debug)]
pub struct Button {
    pub pressed: bool,
}

#[derive(Debug)]
pub struct Mirror {
    pub dir: MirrorOrientation,
}

#[derive(Debug)]
pub struct Laser {
    pub on: bool,
    pub dir: Direction,
    pub shooting_at: Vec<BeamCell>,
}

#[derive(Debug)]
pub struct Statue {
    pub lit: bool,
    pub reversed: bool,
}

#[derive(Debug)]
pub struct Zapper {
    pub lit: bool,
}

/// The variant tag of a node together with its variant-specific payload.
#[derive(Debug)]
pub enum NodeType {
    Player(Player),
    Block(Block),
    Wall(Wall),
    Switch(Switch),
    ToggleBlock(ToggleBlock),
    Button(Button),
    Mirror(Mirror),
    Laser(Laser),
    Statue(Statue),
    Zapper(Zapper),
}

/// One entity of a level: its variant, its position inside the grid's
/// interior, and whether pushing can move it.
#[derive(Debug)]
pub struct Node {
    pub node_type: NodeType,
    pub row: u16,
    pub col: u16,
    pub moveable: bool,
}

/// The mathematical value of a [`NodeType`]: the same taxonomy with the
/// laser's cached beam as a sequence.
pub enum NodeTypeV {
    Player { dead: bool },
    Block,
    Wall,
    Switch { on: bool },
    ToggleBlock { visible: bool },
    Button { pressed: bool },
    Mirror { orientation: MirrorOrientation },
    Laser { on: bool, dir: Direction, beam: Seq<BeamCell> },
    Statue { lit: bool, reversed: bool },
    Zapper { lit: bool },
}

/// The mathematical value of a [`Node`].
pub struct NodeV {
    pub node_type: NodeTypeV,
    pub row: u16,
    pub col: u16,
    pub moveable: bool,
}

impl View for NodeType {
    type V = NodeTypeV;

    open spec fn view(&self) -> NodeTypeV {
        match self {
            NodeType::Player(p) => NodeTypeV::Player { dead: p.dead },
            NodeType::Block(_) => NodeTypeV::Block,
            NodeType::Wall(_) => NodeTypeV::Wall,
            NodeType::Switch(s) => NodeTypeV::Switch { on: s.on },
            NodeType::ToggleBlock(t) => NodeTypeV::ToggleBlock { visible: t.visible },
            NodeType::Button(b) => NodeTypeV::Button { pressed: b.pressed },
            NodeType::Mirror(m) => NodeTypeV::Mirror { orientation: m.dir },
            NodeType::Laser(l) => NodeTypeV::Laser {
                on: l.on,
                dir: l.dir,
                beam: l.shooting_at@,
            },
            NodeType::Statue(s) => NodeTypeV::Statue { lit: s.lit, reversed: s.reversed },
            NodeType::Zapper(z) => NodeTypeV::Zapper { lit: z.lit },
        }
    }
}

impl View for Node {
    type V = NodeV;

    open spec fn view(&self) -> NodeV {
        NodeV {
            node_type: self.node_type@,
            row: self.row,
            col: self.col,
            moveable: self.moveable,
        }
    }
}

/// Whether the player's adjacent "use" action can change this variant:
/// true only for lasers, mirrors and switches.
pub open spec fn spec_player_toggleable(nt: NodeTypeV) -> bool {
    match nt {
        NodeTypeV::Laser { .. } => true,
        NodeTypeV::Mirror { .. } => true,
        NodeTypeV::Switch { .. } => true,
        _ => false,
    }
}

/// Whether a beam impact can change this variant: true only for the
/// player, lasers, statues and zappers.
pub open spec fn spec_laser_toggleable(nt: NodeTypeV) -> bool {
    match nt {
        NodeTypeV::Player { .. } => true,
        NodeTypeV::Laser { .. } => true,
        NodeTypeV::Statue { .. } => true,
        NodeTypeV::Zapper { .. } => true,
        _ => false,
    }
}

/// The variant's flag forced on: the player dies, a laser fires, a
/// statue or zapper lights, a button presses, a switch closes, a toggle
/// block appears. Mirrors, blocks and walls are unchanged.
pub open spec fn spec_turn_on(nt: NodeTypeV) -> NodeTypeV {
    match nt {
        NodeTypeV::Player { .. } => NodeTypeV::Player { dead: true },
        NodeTypeV::Laser { on, dir, beam } => NodeTypeV::Laser { on: true, dir, beam },
        NodeTypeV::Statue { lit, reversed } => NodeTypeV::Statue { lit: true, reversed },
        NodeTypeV::Zapper { .. } => NodeTypeV::Zapper { lit: true },
        NodeTypeV::Button { .. } => NodeTypeV::Button { pressed: true },
        NodeTypeV::Switch { .. } => NodeTypeV::Switch { on: true },
        NodeTypeV::ToggleBlock { .. } => NodeTypeV::ToggleBlock { visible: true },
        _ => nt,
    }
}

/// The variant's flag forced off; the mirror image of [`spec_turn_on`].
pub open spec fn spec_turn_off(nt: NodeTypeV) -> NodeTypeV {
    match nt {
        NodeTypeV::Player { .. } => NodeTypeV::Player { dead: false },
        NodeTypeV::Laser { on, dir, beam } => NodeTypeV::Laser { on: false, dir, beam },
        NodeTypeV::Statue { lit, reversed } => NodeTypeV::Statue { lit: false, reversed },
        NodeTypeV::Zapper { .. } => NodeTypeV::Zapper { lit: false },
        NodeTypeV::Button { .. } => NodeTypeV::Button { pressed: false },
        NodeTypeV::Switch { .. } => NodeTypeV::Switch { on: false },
        NodeTypeV::ToggleBlock { .. } => NodeTypeV::ToggleBlock { visible: false },
        _ => nt,
    }
}

/// The variant's flag flipped; a mirror flips its orientation.
pub open spec fn spec_toggle(nt: NodeTypeV) -> NodeTypeV {
    match nt {
        NodeTypeV::Player { dead } => NodeTypeV::Player { dead: !dead },
        NodeTypeV::Laser { on, dir, beam } => NodeTypeV::Laser { on: !on, dir, beam },
        NodeTypeV::Statue { lit, reversed } => NodeTypeV::Statue { lit: !lit, reversed },
        NodeTypeV::Zapper { lit } => NodeTypeV::Zapper { lit: !lit },
        NodeTypeV::Mirror { orientation } => NodeTypeV::Mirror {
            orientation: match orientation {
                MirrorOrientation::Forward => MirrorOrientation::Backward,
                MirrorOrientation::Backward => MirrorOrientation::Forward,
            },
        },
        NodeTypeV::Button { pressed } => NodeTypeV::Button { pressed: !pressed },
        NodeTypeV::Switch { on } => NodeTypeV::Switch { on: !on },
        NodeTypeV::ToggleBlock { visible } => NodeTypeV::ToggleBlock { visible: !visible },
        _ => nt,
    }
}

/// The same node with its laser beam cache replaced; not a laser, the
/// same node unchanged.
pub open spec fn spec_with_beam(nt: NodeTypeV, beam: Seq<BeamCell>) -> NodeTypeV {
    match nt {
        NodeTypeV::Laser { on, dir, .. } => NodeTypeV::Laser { on, dir, beam },
        _ => nt,
    }
}

/// The entity the legend assigns to a source character, with its initial
/// payload and whether it is moveable; `None` for a space or a character
/// outside the legend.
pub open spec fn spec_legend(ch: char) -> Option<(NodeTypeV, bool)> {
    if ch == 'X' {
        Some((NodeTypeV::Player { dead: false }, true))
    } else if ch == 'B' {
        Some((NodeTypeV::Block, true))
    } else if ch == 'I' {
        Some((NodeTypeV::Wall, false))
    } else if ch == 's' {
        Some((NodeTypeV::Switch { on: false }, false))
    } else if ch == 'b' {
        Some((NodeTypeV::Button { pressed: false }, false))
    } else if ch == 'T' {
        Some((NodeTypeV::ToggleBlock { visible: true }, false))
    } else if ch == 'S' {
        Some((NodeTypeV::Statue { lit: false, reversed: false }, false))
    } else if ch == 'R' {
        Some((NodeTypeV::Statue { lit: false, reversed: true }, false))
    } else if ch == 'Z' {
        Some((NodeTypeV::Zapper { lit: false }, false))
    } else if ch == '/' {
        Some((NodeTypeV::Mirror { orientation: MirrorOrientation::Forward }, false))
    } else if ch == '\\' {
        Some((NodeTypeV::Mirror { orientation: MirrorOrientation::Backward }, false))
    } else if ch == '?' {
        Some((NodeTypeV::Mirror { orientation: MirrorOrientation::Forward }, true))
    } else if ch == '|' {
        Some((NodeTypeV::Mirror { orientation: MirrorOrientation::Backward }, true))
    } else if ch == '1' {
        Some((spec_new_laser(true, Direction::Up), false))
    } else if ch == '2' {
        Some((spec_new_laser(true, Direction::Down), false))
    } else if ch == '3' {
        Some((spec_new_laser(true, Direction::Left), false))
    } else if ch == '4' {
        Some((spec_new_laser(true, Direction::Right), false))
    } else if ch == '5' {
        Some((spec_new_laser(false, Direction::Up), false))
    } else if ch == '6' {
        Some((spec_new_laser(false, Direction::Down), false))
    } else if ch == '7' {
        Some((spec_new_laser(false, Direction::Left), false))
    } else if ch == '8' {
        Some((spec_new_laser(false, Direction::Right), false))
    } else {
        None
    }
}

pub open spec fn spec_new_laser(on: bool, dir: Direction) -> NodeTypeV {
    NodeTypeV::Laser { on, dir, beam: Seq::empty() }
}

/// The node a source character produces at a given cell: its legend
/// entry, or an immovable wall for a character outside the legend.
pub open spec fn spec_node_new(ch: char, row: u16, col: u16) -> NodeV {
    match spec_legend(ch) {
        Some((nt, moveable)) => NodeV { node_type: nt, row, col, moveable },
        None => NodeV { node_type: NodeTypeV::Wall, row, col, moveable: false },
    }
}

impl NodeType {
    /// The entity the legend assigns to a character, with its initial
    /// payload; `None` for a space or a character outside the legend.
    pub fn from(ch: char) -> (r: Option<NodeType>)
        ensures
            match r {
                Some(nt) => (spec_legend(ch) matches Some(p) && p.0 == nt@),
                None => (spec_legend(ch) is None),
            },
    {
        match ch {
            'X' => Some(NodeType::Player(Player { dead: false })),
            'B' => Some(NodeType::Block(Block)),
            'I' => Some(NodeType::Wall(Wall)),
            's' => Some(NodeType::Switch(Switch { on: false })),
            'b' => Some(NodeType::Button(Button { pressed: false })),
            'T' => Some(NodeType::ToggleBlock(ToggleBlock { visible: true })),
            'S' => Some(NodeType::Statue(Statue { lit: false, reversed: false })),
            'R' => Some(NodeType::Statue(Statue { lit: false, reversed: true })),
            'Z' => Some(NodeType::Zapper(Zapper { lit: false })),
            '/' => Some(NodeType::Mirror(Mirror { dir: MirrorOrientation::Forward })),
            '\\' => Some(NodeType::Mirror(Mirror { dir: MirrorOrientation::Backward })),
            '?' => Some(NodeType::Mirror(Mirror { dir: MirrorOrientation::Forward })),
            '|' => Some(NodeType::Mirror(Mirror { dir: MirrorOrientation::Backward })),
            '1' => Some(NodeType::Laser(Laser { on: true, dir: Direction::Up, shooting_at: Vec::new() })),
            '2' => Some(NodeType::Laser(Laser { on: true, dir: Direction::Down, shooting_at: Vec::new() })),
            '3' => Some(NodeType::Laser(Laser { on: true, dir: Direction::Left, shooting_at: Vec::new() })),
            '4' => Some(NodeType::Laser(Laser { on: true, dir: Direction::Right, shooting_at: Vec::new() })),
            '5' => Some(NodeType::Laser(Laser { on: false, dir: Direction::Up, shooting_at: Vec::new() })),
            '6' => Some(NodeType::Laser(Laser { on: false, dir: Direction::Down, shooting_at: Vec::new() })),
            '7' => Some(NodeType::Laser(Laser { on: false, dir: Direction::Left, shooting_at: Vec::new() })),
            '8' => Some(NodeType::Laser(Laser { on: false, dir: Direction::Right, shooting_at: Vec::new() })),
            _ => None,
        }
    }
}

impl Node {
    /// The node a legend character produces at a given cell, or `None`
    /// for a space or a character outside the legend.
    pub fn parse(ch: char, row: u16, col: u16) -> (r: Option<Node>)
        ensures
            match r {
                Some(n) => (spec_legend(ch) matches Some(p) && n@ == (NodeV {
                    node_type: p.0,
                    row,
                    col,
                    moveable: p.1,
                })),
                None => (spec_legend(ch) is None),
            },
    {
        let moveable: bool = match ch {
            'X' => true,
            'B' => true,
            '?' => true,
            '|' => true,
            _ => false,
        };
        match NodeType::from(ch) {
            Some(node_type) => Some(Node { node_type, row, col, moveable }),
            None => None,
        }
    }

    /// The node a source character produces at a given cell; a character
    /// outside the legend produces an immovable wall.
    pub fn new(ch: char, row: u16, col: u16) -> (n: Node)
        ensures
            n@ == spec_node_new(ch, row, col),
    {
        match Node::parse(ch, row, col) {
            Some(node) => node,
            None => Node { node_type: NodeType::Wall(Wall), row, col, moveable: false },
        }
    }

    pub fn is_moveable(&self) -> (r: bool)
        ensures
            r == self.moveable,
    {
        self.moveable
    }

    pub fn is_player_toggleable(&self) -> (r: bool)
        ensures
            r == spec_player_toggleable(self@.node_type),
    {
        match &self.node_type {
            NodeType::Laser(_) => true,
            NodeType::Mirror(_) => true,
            NodeType::Switch(_) => true,
            _ => false,
        }
    }

    pub fn is_laser_toggleable(&self) -> (r: bool)
        ensures
            r == spec_laser_toggleable(self@.node_type),
    {
        match &self.node_type {
            NodeType::Player(_) => true,
            NodeType::Laser(_) => true,
            NodeType::Statue(_) => true,
            NodeType::Zapper(_) => true,
            _ => false,
        }
    }

    pub fn turn_on(&mut self)
        ensures
            final(self)@ == (NodeV { node_type: spec_turn_on(old(self)@.node_type), ..old(self)@ }),
    {
        match &mut self.node_type {
            NodeType::Player(p) => p.dead = true,
            NodeType::Laser(l) => l.on = true,
            NodeType::Statue(s) => s.lit = true,
            NodeType::Zapper(z) => z.lit = true,
            NodeType::Button(b) => b.pressed = true,
            NodeType::Switch(s) => s.on = true,
            NodeType::ToggleBlock(t) => t.visible = true,
            _ => (),
        }
    }

    pub fn turn_off(&mut self)
        ensures
            final(self)@ == (NodeV { node_type: spec_turn_off(old(self)@.node_type), ..old(self)@ }),
    {
        match &mut self.node_type {
            NodeType::Player(p) => p.dead = false,
            NodeType::Laser(l) => l.on = false,
            NodeType::Statue(s) => s.lit = false,
            NodeType::Zapper(z) => z.lit = false,
            NodeType::Button(b) => b.pressed = false,
            NodeType::Switch(s) => s.on = false,
            NodeType::ToggleBlock(t) => t.visible = false,
            _ => (),
        }
    }

    pub fn toggle(&mut self)
        ensures
            final(self)@ == (NodeV { node_type: spec_toggle(old(self)@.node_type), ..old(self)@ }),
    {
        match &mut self.node_type {
            NodeType::Player(p) => p.dead = !p.dead,
            NodeType::Laser(l) => l.on = !l.on,
            NodeType::Statue(s) => s.lit = !s.lit,
            NodeType::Zapper(z) => z.lit = !z.lit,
            NodeType::Mirror(m) => {
                if matches!(m.dir, MirrorOrientation::Forward) {
                    m.dir = MirrorOrientation::Backward;
                } else {
                    m.dir = MirrorOrientation::Forward;
                }
            },
            NodeType::Button(b) => b.pressed = !b.pressed,
            NodeType::Switch(s) => s.on = !s.on,
            NodeType::ToggleBlock(t) => t.visible = !t.visible,
            _ => (),
        }
    }

    /// Replaces a laser's cached beam; a no-op on every other variant.
    pub fn set_shooting_at(&mut self, shooting_at: Vec<BeamCell>)
        ensures
            final(self)@ == (NodeV {
                node_type: spec_with_beam(old(self)@.node_type, shooting_at@),
                ..old(self)@
            }),
    {
        match &mut self.node_type {
            NodeType::Laser(l) => l.shooting_at = shooting_at,
            _ => (),
        }
    }

    /// The cell this node would step to in the given direction: its own
    /// cell when it is not moveable, and never a cell before row or
    /// column zero.
    pub open spec fn spec_would_move_to(self_v: NodeV, dir: Direction) -> (u16, u16) {
        if !self_v.moveable {
            (self_v.row, self_v.col)
        } else {
            let r = if self_v.row + dir.d_row() >= 0 {
                (self_v.row + dir.d_row()) as u16
            } else {
                self_v.row
            };
            let c = if self_v.col + dir.d_col() >= 0 {
                (self_v.col + dir.d_col()) as u16
            } else {
                self_v.col
            };
            (r, c)
        }
    }

    pub fn would_move_to(&self, dir: Direction) -> (r: (u16, u16))
        requires
            self.row < u16::MAX,
            self.col < u16::MAX,
        ensures
            r == Node::spec_would_move_to(self@, dir),
    {
        if !self.moveable {
            return (self.row, self.col);
        }
        let mut row: u16 = self.row;
        let mut col: u16 = self.col;
        match dir {
            Direction::Up => {
                if row >= 1 {
                    row = row - 1;
                }
            },
            Direction::Down => row = row + 1,
            Direction::Left => {
                if col >= 1 {
                    col = col - 1;
                }
            },
            Direction::Right => col = col + 1,
        }
        (row, col)
    }

    /// Moves a moveable node one step in the given direction, clamped at
    /// the grid's edge; a no-op on a node that is not moveable.
    pub fn move_in_dir(&mut self, dir: Direction)
        requires
            old(self).row < u16::MAX,
            old(self).col < u16::MAX,
        ensures
            final(self)@ == (NodeV {
                row: Node::spec_would_move_to(old(self)@, dir).0,
                col: Node::spec_would_move_to(old(self)@, dir).1,
                ..old(self)@
            }),
    {
        if !self.moveable {
            return;
        }
        match dir {
            Direction::Up => {
                if self.row >= 1 {
                    self.row = self.row - 1;
                }
            },
            Direction::Down => self.row = self.row + 1,
            Direction::Left => {
                if self.col >= 1 {
                    self.col = self.col - 1;
                }
            },
            Direction::Right => self.col = self.col + 1,
        }
    }
}

} // verus!
