//! The level grid and the simulation engine: occupancy, beam tracing,
//! player movement, the per-tick win/loss evaluator and the level-text
//! parser.

use vstd::prelude::*;
use vstd::string::StrSliceExecFns;
use vstd::string::StringExecFns;

use core::cmp::Ordering;

use crate::controls::Control;
use crate::direction::Direction;
use crate::direction::MirrorOrientation;
use crate::node::BeamCell;
use crate::node::Node;
use crate::node::NodeType;
use crate::node::NodeTypeV;
use crate::node::NodeV;
use crate::node::spec_node_new;
use crate::node::spec_player_toggleable;
use crate::node::spec_toggle;
use crate::node::spec_turn_off;
use crate::node::spec_with_beam;
use crate::text::lines_of;
use crate::text::spec_split_lines;
use crate::text::spec_trim;
use crate::text::split_lines;
use crate::text::trim_spaces;

verus! {

/// Why a round ended short of a win.
#[derive(Clone, Copy, PartialEq, Eq, Structural, Debug)]
pub enum LevelLossReason {
    Zapper,
    Quit,
    Death,
}

/// Where a level's text came from.
#[derive(Debug, Clone)]
pub enum LevelSource {
    File(String),
    Url(String),
    Core(usize),
}

/// The mathematical value of a [`LevelSource`].
pub enum LevelSourceV {
    File(Seq<char>),
    Url(Seq<char>),
    Core(int),
}

impl View for LevelSource {
    type V = LevelSourceV;

    open spec fn view(&self) -> LevelSourceV {
        match self {
            LevelSource::File(s) => LevelSourceV::File(s@),
            LevelSource::Url(s) => LevelSourceV::Url(s@),
            LevelSource::Core(n) => LevelSourceV::Core(*n as int),
        }
    }
}

/// A level's header: where it came from and the three lines that
/// precede its grid.
#[derive(Debug)]
pub struct LevelInfo {
    pub source: LevelSource,
    pub name: String,
    pub author: String,
    pub description: String,
}

/// The mathematical value of a [`LevelInfo`].
pub struct LevelInfoV {
    pub source: LevelSourceV,
    pub name: Seq<char>,
    pub author: Seq<char>,
    pub description: Seq<char>,
}

impl View for LevelInfo {
    type V = LevelInfoV;

    open spec fn view(&self) -> LevelInfoV {
        LevelInfoV {
            source: self.source@,
            name: self.name@,
            author: self.author@,
            description: self.description@,
        }
    }
}

/// How a finished round came out.
#[derive(Debug)]
pub struct LevelResult {
    pub has_won: bool,
    pub reason_for_loss: Option<LevelLossReason>,
}

/// The verdict of one tick: whether the round goes on, whether it was
/// won, and the reason it was lost if it was.
#[derive(Debug)]
pub struct PlayState {
    pub is_playing: bool,
    pub has_won: bool,
    pub reason_for_loss: Option<LevelLossReason>,
}

/// A bounded rectangle of `rows x cols` cells whose outer ring is wall,
/// an ordered collection of entities strictly inside that ring, and an
/// optional index of the player entity.
#[derive(Debug)]
pub struct Level {
    pub info: LevelInfo,
    pub nodes: Vec<Node>,
    pub rows: u16,
    pub cols: u16,
    pub player_index: Option<usize>,
}

/// The mathematical value of a [`Level`].
pub struct LevelV {
    pub info: LevelInfoV,
    pub nodes: Seq<NodeV>,
    pub rows: u16,
    pub cols: u16,
    pub player_index: Option<int>,
}

impl View for Level {
    type V = LevelV;

    open spec fn view(&self) -> LevelV {
        LevelV {
            info: self.info@,
            nodes: Seq::new(self.nodes@.len(), |i: int| self.nodes@[i]@),
            rows: self.rows,
            cols: self.cols,
            player_index: match self.player_index {
                Some(i) => Some(i as int),
                None => None,
            },
        }
    }
}

/// Whether a cell lies strictly inside the wall ring of a
/// `rows x cols` grid.
pub open spec fn cell_in_interior(rows: u16, cols: u16, row: int, col: int) -> bool {
    1 <= row < rows - 1 && 1 <= col < cols - 1
}

/// The first entity of `nodes` standing at the given cell, if any.
pub open spec fn node_at(nodes: Seq<NodeV>, row: u16, col: u16) -> Option<int>
    decreases nodes.len(),
{
    if nodes.len() == 0 {
        None
    } else if nodes[0].row == row && nodes[0].col == col {
        Some(0int)
    } else {
        match node_at(nodes.drop_first(), row, col) {
            Some(i) => Some(i + 1),
            None => None,
        }
    }
}

impl LevelV {
    /// The level's structural invariant: a grid of at least `3 x 3`
    /// cells, every entity strictly inside the wall ring, no two
    /// entities on one cell, and the player index — when present —
    /// naming a player entity.
    pub open spec fn wf(self) -> bool {
        &&& 3 <= self.rows
        &&& 3 <= self.cols
        &&& forall|i: int|
            0 <= i < self.nodes.len() ==> cell_in_interior(
                self.rows,
                self.cols,
                (#[trigger] self.nodes[i]).row as int,
                self.nodes[i].col as int,
            )
        &&& forall|i: int, j: int|
            #![trigger self.nodes[i], self.nodes[j]]
            0 <= i < self.nodes.len() && 0 <= j < self.nodes.len() && i != j ==> !(
            self.nodes[i].row == self.nodes[j].row && self.nodes[i].col == self.nodes[j].col)
        &&& match self.player_index {
            Some(p) => 0 <= p < self.nodes.len() && self.nodes[p].node_type is Player,
            None => true,
        }
    }
}

/// What `node_at` returns is the first match, and `None` means no
/// match at all.
pub proof fn lemma_node_at(nodes: Seq<NodeV>, row: u16, col: u16)
    ensures
        match node_at(nodes, row, col) {
            Some(i) => 0 <= i < nodes.len() && nodes[i].row == row && nodes[i].col == col
                && (forall|j: int|
                0 <= j < i ==> !((#[trigger] nodes[j]).row == row && nodes[j].col == col)),
            None => forall|j: int|
                0 <= j < nodes.len() ==> !((#[trigger] nodes[j]).row == row && nodes[j].col
                    == col),
        },
    decreases nodes.len(),
{
    if nodes.len() == 0 {
    } else if nodes[0].row == row && nodes[0].col == col {
    } else {
        lemma_node_at(nodes.drop_first(), row, col);
        assert forall|j: int| 1 <= j < nodes.len() implies #[trigger] nodes[j]
            == nodes.drop_first()[j - 1] by {}
    }
}

/// `node_at` is the only index pattern consistent with a first-match
/// scan: a scan that found `r` really computed `node_at`.
pub proof fn lemma_node_at_is(nodes: Seq<NodeV>, row: u16, col: u16, r: Option<int>)
    requires
        match r {
            Some(i) => 0 <= i < nodes.len() && nodes[i].row == row && nodes[i].col == col && (
            forall|j: int|
                0 <= j < i ==> !((#[trigger] nodes[j]).row == row && nodes[j].col == col)),
            None => forall|j: int|
                0 <= j < nodes.len() ==> !((#[trigger] nodes[j]).row == row && nodes[j].col
                    == col),
        },
    ensures
        node_at(nodes, row, col) == r,
    decreases nodes.len(),
{
    if nodes.len() == 0 {
    } else if nodes[0].row == row && nodes[0].col == col {
        match r {
            Some(i) => {
                if i != 0 {
                    assert(!(nodes[0].row == row && nodes[0].col == col));
                }
            },
            None => {
                assert(!(nodes[0].row == row && nodes[0].col == col));
            },
        }
    } else {
        let rest = nodes.drop_first();
        assert forall|j: int| 1 <= j < nodes.len() implies #[trigger] nodes[j] == rest[j - 1] by {}
        match r {
            Some(i) => {
                assert(nodes[i] == rest[i - 1]);
                lemma_node_at_is(rest, row, col, Some(i - 1));
            },
            None => {
                lemma_node_at_is(rest, row, col, None);
            },
        }
    }
}

impl Level {
    /// Whether a cell lies strictly inside the wall ring.
    pub fn is_valid_pos(&self, pos: (u16, u16)) -> (r: bool)
        requires
            self.rows >= 1,
            self.cols >= 1,
        ensures
            r == cell_in_interior(self@.rows, self@.cols, pos.0 as int, pos.1 as int),
    {
        pos.0 >= 1 && pos.0 < self.rows - 1 && pos.1 >= 1 && pos.1 < self.cols - 1
    }

    /// The index of the entity standing at the given cell, if any; the
    /// first such entity in collection order.
    pub fn node_index_at(&self, pos: (u16, u16)) -> (r: Option<usize>)
        ensures
            node_at(self@.nodes, pos.0, pos.1) == match r {
                Some(i) => Some(i as int),
                None => None::<int>,
            },
            (r matches Some(i) ==> i < self.nodes@.len()),
    {
        let n = self.nodes.len();
        let mut k: usize = 0;
        while k < n
            invariant
                n == self.nodes@.len(),
                k <= n,
                forall|j: int|
                    0 <= j < k ==> !((#[trigger] self@.nodes[j]).row == pos.0
                        && self@.nodes[j].col == pos.1),
            decreases n - k,
        {
            if self.nodes[k].row == pos.0 && self.nodes[k].col == pos.1 {
                proof {
                    lemma_node_at_is(self@.nodes, pos.0, pos.1, Some(k as int));
                }
                return Some(k);
            }
            k = k + 1;
        }
        proof {
            lemma_node_at_is(self@.nodes, pos.0, pos.1, None);
        }
        None
    }
}

/// A statue with its light out; any other entity unchanged.
pub open spec fn spec_reset_statue(n: NodeV) -> NodeV {
    if n.node_type is Statue {
        NodeV { node_type: spec_turn_off(n.node_type), ..n }
    } else {
        n
    }
}

/// Every statue's `lit` flag cleared; beams re-derive them each tick.
pub open spec fn spec_reset_statues(nodes: Seq<NodeV>) -> Seq<NodeV> {
    nodes.map_values(|n: NodeV| spec_reset_statue(n))
}

/// Whether some player entity is dead.
pub open spec fn any_dead_player(nodes: Seq<NodeV>) -> bool {
    exists|i: int|
        0 <= i < nodes.len() && (#[trigger] nodes[i]).node_type matches NodeTypeV::Player {
            dead: true,
        }
}

/// Whether some zapper is lit.
pub open spec fn any_lit_zapper(nodes: Seq<NodeV>) -> bool {
    exists|i: int|
        0 <= i < nodes.len() && (#[trigger] nodes[i]).node_type matches NodeTypeV::Zapper {
            lit: true,
        }
}

/// Whether this entity, if a statue, is in its winning state: lit, or
/// dark if it is reversed.
pub open spec fn statue_satisfied(nt: NodeTypeV) -> bool {
    match nt {
        NodeTypeV::Statue { lit, reversed } => if reversed {
            !lit
        } else {
            lit
        },
        _ => true,
    }
}

/// Whether every statue is in its winning state.
pub open spec fn all_statues_satisfied(nodes: Seq<NodeV>) -> bool {
    forall|i: int| 0 <= i < nodes.len() ==> statue_satisfied((#[trigger] nodes[i]).node_type)
}

impl Level {
    /// Clears every statue's `lit` flag; run before each beam pass so
    /// that statues count only while a beam is on them.
    pub fn reset_statues(&mut self)
        ensures
            final(self)@ == (LevelV { nodes: spec_reset_statues(old(self)@.nodes), ..old(
                self,
            )@ }),
    {
        let n = self.nodes.len();
        let mut i: usize = 0;
        while i < n
            invariant
                n == self.nodes@.len(),
                i <= n,
                self.info == old(self).info,
                self.rows == old(self).rows,
                self.cols == old(self).cols,
                self.player_index == old(self).player_index,
                forall|j: int| 0 <= j < i ==> self@.nodes[j] == spec_reset_statue(old(self)@.nodes[j]),
                forall|j: int| i <= j < n ==> self@.nodes[j] == old(self)@.nodes[j],
            decreases n - i,
        {
            let ghost prev = self@.nodes;
            let is_statue = match &self.nodes[i].node_type {
                NodeType::Statue(_) => true,
                _ => false,
            };
            if is_statue {
                self.nodes[i].turn_off();
            }
            proof {
                assert(forall|j: int|
                    0 <= j < n && j != i ==> #[trigger] self@.nodes[j] == prev[j]);
                assert(self@.nodes[i as int] == spec_reset_statue(old(self)@.nodes[i as int]));
            }
            i = i + 1;
        }
        proof {
            assert(self@.nodes =~= spec_reset_statues(old(self)@.nodes));
        }
    }

    /// The per-tick verdict. A dead player loses the round; otherwise
    /// a lit zapper loses it; otherwise the round is won exactly when
    /// every statue is in its winning state.
    pub fn play_state(&self) -> (r: PlayState)
        ensures
            r.is_playing == (!any_dead_player(self@.nodes) && !any_lit_zapper(self@.nodes)
                && !all_statues_satisfied(self@.nodes)),
            r.has_won == (!any_dead_player(self@.nodes) && !any_lit_zapper(self@.nodes)
                && all_statues_satisfied(self@.nodes)),
            r.reason_for_loss == (if any_dead_player(self@.nodes) {
                Some(LevelLossReason::Death)
            } else if any_lit_zapper(self@.nodes) {
                Some(LevelLossReason::Zapper)
            } else {
                None::<LevelLossReason>
            }),
    {
        let n = self.nodes.len();
        let mut all_statues: bool = true;
        let mut any_zap: bool = false;
        let mut any_dead: bool = false;
        let mut i: usize = 0;
        while i < n
            invariant
                n == self.nodes@.len(),
                i <= n,
                all_statues == (forall|j: int|
                    0 <= j < i ==> statue_satisfied((#[trigger] self@.nodes[j]).node_type)),
                any_zap == (exists|j: int|
                    0 <= j < i && (#[trigger] self@.nodes[j]).node_type
                        matches NodeTypeV::Zapper { lit: true }),
                any_dead == (exists|j: int|
                    0 <= j < i && (#[trigger] self@.nodes[j]).node_type
                        matches NodeTypeV::Player { dead: true }),
            decreases n - i,
        {
            match &self.nodes[i].node_type {
                NodeType::Statue(s) => {
                    let ok = if s.reversed {
                        !s.lit
                    } else {
                        s.lit
                    };
                    proof {
                        assert(statue_satisfied(self@.nodes[i as int].node_type) == ok);
                    }
                    all_statues = all_statues && ok;
                },
                NodeType::Zapper(z) => {
                    proof {
                        assert(self@.nodes[i as int].node_type matches NodeTypeV::Zapper {
                            lit,
                        } && lit == z.lit);
                    }
                    if z.lit {
                        any_zap = true;
                    }
                },
                NodeType::Player(p) => {
                    proof {
                        assert(self@.nodes[i as int].node_type matches NodeTypeV::Player {
                            dead,
                        } && dead == p.dead);
                    }
                    if p.dead {
                        any_dead = true;
                    }
                },
                _ => {
                    proof {
                        assert(statue_satisfied(self@.nodes[i as int].node_type));
                    }
                },
            }
            i = i + 1;
        }
        if any_dead {
            PlayState {
                is_playing: false,
                has_won: false,
                reason_for_loss: Some(LevelLossReason::Death),
            }
        } else if any_zap {
            PlayState {
                is_playing: false,
                has_won: false,
                reason_for_loss: Some(LevelLossReason::Zapper),
            }
        } else if all_statues {
            PlayState { is_playing: false, has_won: true, reason_for_loss: None }
        } else {
            PlayState { is_playing: true, has_won: false, reason_for_loss: None }
        }
    }
}

/// The cells a beam occupies and the entity it stopped on, if any.
pub struct BeamTrace {
    pub cells: Seq<BeamCell>,
    pub hit: Option<int>,
}

/// The step budget of one beam: enough for every distinct
/// cell-and-direction state of the grid, so only a beam that cycles
/// through mirrors forever is cut short.
pub open spec fn beam_fuel(rows: u16, cols: u16) -> nat {
    (4 * rows * cols) as nat
}

/// The side effect of a beam stopping on an entity: the player dies, a
/// laser turns off, a statue or zapper toggles its light; anything
/// else only blocks the beam.
pub open spec fn spec_hit_effect(nt: NodeTypeV) -> NodeTypeV {
    match nt {
        NodeTypeV::Player { .. } => NodeTypeV::Player { dead: true },
        NodeTypeV::Laser { on, dir, beam } => NodeTypeV::Laser { on: false, dir, beam },
        NodeTypeV::Statue { lit, reversed } => NodeTypeV::Statue { lit: !lit, reversed },
        NodeTypeV::Zapper { lit } => NodeTypeV::Zapper { lit: !lit },
        _ => nt,
    }
}

/// One beam, traced from the cell after `(row, col)`: each step enters
/// the next cell in the travel direction, stops silently at the wall
/// ring, records the cell, passes through mirrors with a turn, and
/// stops on the first occupied non-mirror cell, which it reports as
/// the hit.
pub open spec fn beam_trace(
    nodes: Seq<NodeV>,
    rows: u16,
    cols: u16,
    row: int,
    col: int,
    dir: Direction,
    fuel: nat,
) -> BeamTrace
    decreases fuel,
{
    if fuel == 0 {
        BeamTrace { cells: Seq::empty(), hit: None }
    } else {
        let nr = row + dir.d_row();
        let nc = col + dir.d_col();
        if !cell_in_interior(rows, cols, nr, nc) {
            BeamTrace { cells: Seq::empty(), hit: None }
        } else {
            let cell = (nr as u16, nc as u16, dir.spec_beam_char(), dir.spec_arrow_char());
            match node_at(nodes, nr as u16, nc as u16) {
                None => {
                    let rest = beam_trace(nodes, rows, cols, nr, nc, dir, (fuel - 1) as nat);
                    BeamTrace { cells: seq![cell] + rest.cells, hit: rest.hit }
                },
                Some(j) => match nodes[j].node_type {
                    NodeTypeV::Mirror { orientation: m } => {
                        let rest = beam_trace(
                            nodes,
                            rows,
                            cols,
                            nr,
                            nc,
                            dir.spec_reflect(m),
                            (fuel - 1) as nat,
                        );
                        BeamTrace { cells: seq![cell] + rest.cells, hit: rest.hit }
                    },
                    _ => BeamTrace { cells: seq![cell], hit: Some(j) },
                },
            }
        }
    }
}

/// What firing the laser at index `i` does to the collection: an `off`
/// laser clears its beam cache; an `on` laser traces its beam, applies
/// the hit's side effect, and caches the swept cells. Any other entity
/// leaves the collection unchanged.
pub open spec fn spec_fire_laser(nodes: Seq<NodeV>, rows: u16, cols: u16, i: int) -> Seq<
    NodeV,
> {
    if 0 <= i < nodes.len() {
        match nodes[i].node_type {
            NodeTypeV::Laser { on, dir, .. } => {
                if !on {
                    nodes.update(
                        i,
                        NodeV {
                            node_type: spec_with_beam(nodes[i].node_type, Seq::empty()),
                            ..nodes[i]
                        },
                    )
                } else {
                    let tr = beam_trace(
                        nodes,
                        rows,
                        cols,
                        nodes[i].row as int,
                        nodes[i].col as int,
                        dir,
                        beam_fuel(rows, cols),
                    );
                    let nodes1 = match tr.hit {
                        Some(j) => nodes.update(
                            j,
                            NodeV { node_type: spec_hit_effect(nodes[j].node_type), ..nodes[j] },
                        ),
                        None => nodes,
                    };
                    nodes1.update(
                        i,
                        NodeV { node_type: spec_with_beam(nodes1[i].node_type, tr.cells), ..nodes1[i] },
                    )
                }
            },
            _ => nodes,
        }
    } else {
        nodes
    }
}

/// The whole beam pass: every laser fired once, in collection order,
/// each seeing the mutations of those before it.
pub open spec fn spec_fire_lasers_from(nodes: Seq<NodeV>, rows: u16, cols: u16, i: int) -> Seq<
    NodeV,
>
    decreases nodes.len() - i
        when 0 <= i
        via spec_fire_lasers_from_dec
{
    if i >= nodes.len() {
        nodes
    } else {
        spec_fire_lasers_from(spec_fire_laser(nodes, rows, cols, i), rows, cols, i + 1)
    }
}

#[via_fn]
proof fn spec_fire_lasers_from_dec(nodes: Seq<NodeV>, rows: u16, cols: u16, i: int) {
    if 0 <= i < nodes.len() {
        lemma_fire_laser_shape(nodes, rows, cols, i);
    }
}

/// Two node values that agree on everything the grid's geometry cares
/// about: position, moveability and whether they are the player.
pub open spec fn same_shape(a: NodeV, b: NodeV) -> bool {
    &&& a.row == b.row
    &&& a.col == b.col
    &&& a.moveable == b.moveable
    &&& (a.node_type is Player <==> b.node_type is Player)
}

/// A beam's reported hit is an index into the collection.
pub proof fn lemma_beam_hit_range(
    nodes: Seq<NodeV>,
    rows: u16,
    cols: u16,
    row: int,
    col: int,
    dir: Direction,
    fuel: nat,
)
    ensures
        (beam_trace(nodes, rows, cols, row, col, dir, fuel).hit matches Some(j) ==> 0 <= j
            < nodes.len()),
    decreases fuel,
{
    if fuel == 0 {
    } else {
        let nr = row + dir.d_row();
        let nc = col + dir.d_col();
        if cell_in_interior(rows, cols, nr, nc) {
            lemma_node_at(nodes, nr as u16, nc as u16);
            match node_at(nodes, nr as u16, nc as u16) {
                None => {
                    lemma_beam_hit_range(nodes, rows, cols, nr, nc, dir, (fuel - 1) as nat);
                },
                Some(j) => match nodes[j].node_type {
                    NodeTypeV::Mirror { orientation: m } => {
                        lemma_beam_hit_range(
                            nodes,
                            rows,
                            cols,
                            nr,
                            nc,
                            dir.spec_reflect(m),
                            (fuel - 1) as nat,
                        );
                    },
                    _ => {},
                },
            }
        }
    }
}

/// Firing one laser moves nothing: it only rewrites payload flags and
/// beam caches in place.
pub proof fn lemma_fire_laser_shape(nodes: Seq<NodeV>, rows: u16, cols: u16, i: int)
    ensures
        spec_fire_laser(nodes, rows, cols, i).len() == nodes.len(),
        forall|k: int|
            0 <= k < nodes.len() ==> same_shape(
                #[trigger] spec_fire_laser(nodes, rows, cols, i)[k],
                nodes[k],
            ),
{
    let res = spec_fire_laser(nodes, rows, cols, i);
    if 0 <= i < nodes.len() {
        match nodes[i].node_type {
            NodeTypeV::Laser { on, dir, .. } => {
                if on {
                    lemma_beam_hit_range(
                        nodes,
                        rows,
                        cols,
                        nodes[i].row as int,
                        nodes[i].col as int,
                        dir,
                        beam_fuel(rows, cols),
                    );
                }
            },
            _ => {},
        }
    }
    assert(res.len() == nodes.len());
    assert forall|k: int| 0 <= k < nodes.len() implies same_shape(res[k], nodes[k]) by {}
}

/// The whole beam pass moves nothing either.
pub proof fn lemma_fire_lasers_shape(nodes: Seq<NodeV>, rows: u16, cols: u16, i: int)
    requires
        0 <= i,
    ensures
        spec_fire_lasers_from(nodes, rows, cols, i).len() == nodes.len(),
        forall|k: int|
            0 <= k < nodes.len() ==> same_shape(
                #[trigger] spec_fire_lasers_from(nodes, rows, cols, i)[k],
                nodes[k],
            ),
    decreases nodes.len() - i,
{
    if i >= nodes.len() {
    } else {
        lemma_fire_laser_shape(nodes, rows, cols, i);
        lemma_fire_lasers_shape(spec_fire_laser(nodes, rows, cols, i), rows, cols, i + 1);
    }
}

/// A level stays well formed when its nodes change without moving:
/// geometry and the player index only read what `same_shape` keeps.
pub proof fn lemma_wf_same_shape(a: LevelV, b: LevelV)
    requires
        a.wf(),
        a.rows == b.rows,
        a.cols == b.cols,
        a.player_index == b.player_index,
        b.nodes.len() == a.nodes.len(),
        forall|k: int| 0 <= k < a.nodes.len() ==> same_shape(#[trigger] b.nodes[k], a.nodes[k]),
    ensures
        b.wf(),
{
    assert forall|i: int|
        0 <= i < b.nodes.len() implies cell_in_interior(
        b.rows,
        b.cols,
        (#[trigger] b.nodes[i]).row as int,
        b.nodes[i].col as int,
    ) by {
        assert(same_shape(b.nodes[i], a.nodes[i]));
    }
    assert forall|i: int, j: int|
        #![trigger b.nodes[i], b.nodes[j]]
        0 <= i < b.nodes.len() && 0 <= j < b.nodes.len() && i != j implies !(b.nodes[i].row
        == b.nodes[j].row && b.nodes[i].col == b.nodes[j].col) by {
        assert(same_shape(b.nodes[i], a.nodes[i]));
        assert(same_shape(b.nodes[j], a.nodes[j]));
    }
    match b.player_index {
        Some(p) => {
            assert(same_shape(b.nodes[p], a.nodes[p]));
        },
        None => (),
    }
}

impl Level {
    /// Traces one beam from the given cell without touching the level:
    /// the swept cells and the entity the beam stopped on.
    fn trace_beam(&self, row: u16, col: u16, dir: Direction) -> (r: (Vec<BeamCell>, Option<
        usize,
    >))
        requires
            self@.wf(),
            cell_in_interior(self@.rows, self@.cols, row as int, col as int),
        ensures
            ({
                let tr = beam_trace(
                    self@.nodes,
                    self@.rows,
                    self@.cols,
                    row as int,
                    col as int,
                    dir,
                    beam_fuel(self@.rows, self@.cols),
                );
                &&& r.0@ == tr.cells
                &&& tr.hit == match r.1 {
                    Some(j) => Some(j as int),
                    None => None::<int>,
                }
                &&& (r.1 matches Some(j) ==> j < self.nodes@.len())
            }),
    {
        let rows = self.rows;
        let cols = self.cols;
        let ghost nodes = self@.nodes;
        let ghost fuel0 = beam_fuel(rows, cols);
        let mut cells: Vec<BeamCell> = Vec::new();
        let mut cur_row: u16 = row;
        let mut cur_col: u16 = col;
        let mut cur_dir: Direction = dir;
        proof {
            assert(4 * (rows as int) * (cols as int) <= 4 * 65535 * 65535) by (nonlinear_arith)
                requires
                    rows as int <= 65535,
                    cols as int <= 65535,
            ;
        }
        let mut fuel: u64 = 4u64 * (rows as u64) * (cols as u64);
        let mut hit: Option<usize> = None;
        proof {
            assert(fuel as nat == fuel0);
        }
        loop
            invariant_except_break
                self@.wf(),
                rows == self@.rows,
                cols == self@.cols,
                nodes == self@.nodes,
                hit is None,
                cell_in_interior(rows, cols, cur_row as int, cur_col as int),
                fuel as nat <= fuel0,
                beam_trace(nodes, rows, cols, row as int, col as int, dir, fuel0).cells
                    == cells@ + beam_trace(
                    nodes,
                    rows,
                    cols,
                    cur_row as int,
                    cur_col as int,
                    cur_dir,
                    fuel as nat,
                ).cells,
                beam_trace(nodes, rows, cols, row as int, col as int, dir, fuel0).hit
                    == beam_trace(
                    nodes,
                    rows,
                    cols,
                    cur_row as int,
                    cur_col as int,
                    cur_dir,
                    fuel as nat,
                ).hit,
            ensures
                cells@ == beam_trace(nodes, rows, cols, row as int, col as int, dir, fuel0).cells,
                beam_trace(nodes, rows, cols, row as int, col as int, dir, fuel0).hit == match hit {
                    Some(j) => Some(j as int),
                    None => None::<int>,
                },
                (hit matches Some(j) ==> j < self.nodes@.len()),
            decreases fuel,
        {
            if fuel == 0 {
                break;
            }
            let ghost pre_row = cur_row;
            let ghost pre_col = cur_col;
            let ghost pre_dir = cur_dir;
            let ghost pre_fuel = fuel;
            let ghost pre_cells = cells@;
            let (nr, nc): (u16, u16) = match cur_dir {
                Direction::Up => (cur_row - 1, cur_col),
                Direction::Down => (cur_row + 1, cur_col),
                Direction::Left => (cur_row, cur_col - 1),
                Direction::Right => (cur_row, cur_col + 1),
            };
            proof {
                assert(nr as int == pre_row + pre_dir.d_row());
                assert(nc as int == pre_col + pre_dir.d_col());
            }
            if !(nr >= 1 && nr < rows - 1 && nc >= 1 && nc < cols - 1) {
                proof {
                    assert(!cell_in_interior(rows, cols, nr as int, nc as int));
                }
                break;
            }
            let cell = (nr, nc, cur_dir.beam_char(), cur_dir.arrow_char());
            cells.push(cell);
            let idx = self.node_index_at((nr, nc));
            match idx {
                Some(j) => {
                    let mirror: Option<MirrorOrientation> = match &self.nodes[j].node_type {
                        NodeType::Mirror(m) => Some(m.dir),
                        _ => None,
                    };
                    match mirror {
                        Some(mo) => {
                            cur_dir = cur_dir.reflect(mo);
                            cur_row = nr;
                            cur_col = nc;
                            fuel = fuel - 1;
                            proof {
                                let rest = beam_trace(
                                    nodes,
                                    rows,
                                    cols,
                                    cur_row as int,
                                    cur_col as int,
                                    cur_dir,
                                    fuel as nat,
                                );
                                assert(beam_trace(
                                    nodes,
                                    rows,
                                    cols,
                                    pre_row as int,
                                    pre_col as int,
                                    pre_dir,
                                    pre_fuel as nat,
                                ).cells =~= seq![cell] + rest.cells);
                                assert(cells@ =~= pre_cells + seq![cell]);
                                assert(pre_cells + (seq![cell] + rest.cells) =~= (pre_cells + seq![
                                    cell,
                                ]) + rest.cells);
                            }
                        },
                        None => {
                            hit = Some(j);
                            proof {
                                assert(beam_trace(
                                    nodes,
                                    rows,
                                    cols,
                                    pre_row as int,
                                    pre_col as int,
                                    pre_dir,
                                    pre_fuel as nat,
                                ).cells =~= seq![cell]);
                                assert(cells@ =~= pre_cells + seq![cell]);
                            }
                            break;
                        },
                    }
                },
                None => {
                    cur_row = nr;
                    cur_col = nc;
                    fuel = fuel - 1;
                    proof {
                        let rest = beam_trace(
                            nodes,
                            rows,
                            cols,
                            cur_row as int,
                            cur_col as int,
                            cur_dir,
                            fuel as nat,
                        );
                        assert(beam_trace(
                            nodes,
                            rows,
                            cols,
                            pre_row as int,
                            pre_col as int,
                            pre_dir,
                            pre_fuel as nat,
                        ).cells =~= seq![cell] + rest.cells);
                        assert(cells@ =~= pre_cells + seq![cell]);
                        assert(pre_cells + (seq![cell] + rest.cells) =~= (pre_cells + seq![cell])
                            + rest.cells);
                    }
                },
            }
        }
        (cells, hit)
    }

    /// Recomputes every laser's beam, in collection order, applying
    /// each beam's side effect as it stops: this is the whole per-tick
    /// beam pass.
    pub fn set_lasers_shooting_at(&mut self)
        requires
            old(self)@.wf(),
        ensures
            final(self)@ == (LevelV {
                nodes: spec_fire_lasers_from(
                    old(self)@.nodes,
                    old(self)@.rows,
                    old(self)@.cols,
                    0,
                ),
                ..old(self)@
            }),
            final(self)@.wf(),
    {
        let rows = self.rows;
        let cols = self.cols;
        let n = self.nodes.len();
        let mut i: usize = 0;
        while i < n
            invariant
                n == self.nodes@.len(),
                i <= n,
                rows == self.rows,
                cols == self.cols,
                self.info == old(self).info,
                self.player_index == old(self).player_index,
                self@.wf(),
                spec_fire_lasers_from(old(self)@.nodes, rows, cols, 0) == spec_fire_lasers_from(
                    self@.nodes,
                    rows,
                    cols,
                    i as int,
                ),
            decreases n - i,
        {
            let ghost pre = self@.nodes;
            let ghost pre_level = self@;
            let laser: Option<(bool, Direction)> = match &self.nodes[i].node_type {
                NodeType::Laser(l) => Some((l.on, l.dir)),
                _ => None,
            };
            match laser {
                None => {
                    proof {
                        assert(spec_fire_laser(pre, rows, cols, i as int) == pre);
                    }
                },
                Some((on, laser_dir)) => {
                    if !on {
                        self.nodes[i].set_shooting_at(Vec::new());
                        proof {
                            assert(self@.nodes =~= spec_fire_laser(pre, rows, cols, i as int));
                        }
                    } else {
                        let lr = self.nodes[i].row;
                        let lc = self.nodes[i].col;
                        proof {
                            assert(cell_in_interior(rows, cols, self@.nodes[i as int].row as int,
                                self@.nodes[i as int].col as int));
                        }
                        let (path, hitop) = self.trace_beam(lr, lc, laser_dir);
                        let ghost tr = beam_trace(
                            pre,
                            rows,
                            cols,
                            lr as int,
                            lc as int,
                            laser_dir,
                            beam_fuel(rows, cols),
                        );
                        match hitop {
                            Some(j) => {
                                let eff: u8 = match &self.nodes[j].node_type {
                                    NodeType::Player(_) => 1u8,
                                    NodeType::Laser(_) => 2u8,
                                    NodeType::Statue(_) => 3u8,
                                    NodeType::Zapper(_) => 3u8,
                                    _ => 0u8,
                                };
                                if eff == 1 {
                                    self.nodes[j].turn_on();
                                } else if eff == 2 {
                                    self.nodes[j].turn_off();
                                } else if eff == 3 {
                                    self.nodes[j].toggle();
                                }
                                proof {
                                    assert(self@.nodes =~= pre.update(
                                        j as int,
                                        NodeV {
                                            node_type: spec_hit_effect(pre[j as int].node_type),
                                            ..pre[j as int]
                                        },
                                    ));
                                }
                            },
                            None => (),
                        }
                        let ghost nodes1 = match tr.hit {
                            Some(j) => pre.update(
                                j,
                                NodeV { node_type: spec_hit_effect(pre[j].node_type), ..pre[j] },
                            ),
                            None => pre,
                        };
                        proof {
                            assert(self@.nodes =~= nodes1);
                        }
                        self.nodes[i].set_shooting_at(path);
                        proof {
                            assert(self@.nodes =~= nodes1.update(
                                i as int,
                                NodeV {
                                    node_type: spec_with_beam(nodes1[i as int].node_type, tr.cells),
                                    ..nodes1[i as int]
                                },
                            ));
                            assert(self@.nodes =~= spec_fire_laser(pre, rows, cols, i as int));
                        }
                    }
                },
            }
            proof {
                assert(self@.nodes == spec_fire_laser(pre, rows, cols, i as int));
                lemma_fire_laser_shape(pre, rows, cols, i as int);
                lemma_wf_same_shape(
                    pre_level,
                    LevelV { nodes: self@.nodes, ..pre_level },
                );
                assert(self@ == (LevelV { nodes: self@.nodes, ..pre_level }));
            }
            i = i + 1;
        }
        proof {
            assert(spec_fire_lasers_from(self@.nodes, rows, cols, n as int) == self@.nodes);
        }
    }
}


/// Where the player would move: the destination cell, and — when a
/// moveable entity stands there — that entity pushed one cell further.
/// The move is rejected whole if the destination leaves the interior,
/// holds something immovable, or the cell behind the pushed entity is
/// outside the interior or occupied.
pub open spec fn spec_move_player(lv: LevelV, dir: Direction) -> LevelV {
    match lv.player_index {
        None => lv,
        Some(pi) => {
            let dest = Node::spec_would_move_to(lv.nodes[pi], dir);
            if !cell_in_interior(lv.rows, lv.cols, dest.0 as int, dest.1 as int) {
                lv
            } else {
                match node_at(lv.nodes, dest.0, dest.1) {
                    Some(j) => {
                        if !lv.nodes[j].moveable {
                            lv
                        } else {
                            let dest2 = Node::spec_would_move_to(lv.nodes[j], dir);
                            if !cell_in_interior(lv.rows, lv.cols, dest2.0 as int, dest2.1 as int) {
                                lv
                            } else if node_at(lv.nodes, dest2.0, dest2.1) is Some {
                                lv
                            } else {
                                let nodes1 = lv.nodes.update(
                                    j,
                                    NodeV { row: dest2.0, col: dest2.1, ..lv.nodes[j] },
                                );
                                let nodes2 = nodes1.update(
                                    pi,
                                    NodeV { row: dest.0, col: dest.1, ..nodes1[pi] },
                                );
                                LevelV { nodes: nodes2, ..lv }
                            }
                        }
                    },
                    None => LevelV {
                        nodes: lv.nodes.update(
                            pi,
                            NodeV { row: dest.0, col: dest.1, ..lv.nodes[pi] },
                        ),
                        ..lv
                    },
                }
            }
        },
    }
}

/// Whether a node stands in the player's four-neighbourhood.
pub open spec fn spec_adjacent(prow: u16, pcol: u16, n: NodeV) -> bool {
    ||| n.row == prow && (n.col == pcol - 1 || n.col == pcol + 1)
    ||| n.col == pcol && (n.row == prow - 1 || n.row == prow + 1)
}

/// The player's "use" action: every adjacent player-toggleable entity
/// — lasers, mirrors, switches — toggled once. Buttons, statues,
/// zappers and toggle blocks are never touched by the action.
pub open spec fn spec_player_action(lv: LevelV) -> LevelV {
    match lv.player_index {
        None => lv,
        Some(pi) => LevelV {
            nodes: Seq::new(
                lv.nodes.len(),
                |k: int|
                    if spec_adjacent(lv.nodes[pi].row, lv.nodes[pi].col, lv.nodes[k])
                        && spec_player_toggleable(lv.nodes[k].node_type) {
                        NodeV { node_type: spec_toggle(lv.nodes[k].node_type), ..lv.nodes[k] }
                    } else {
                        lv.nodes[k]
                    },
            ),
            ..lv
        },
    }
}

/// One whole tick short of consuming a command: statues reset, every
/// beam recomputed with its side effects.
pub open spec fn spec_tick(lv: LevelV) -> LevelV {
    LevelV {
        nodes: spec_fire_lasers_from(spec_reset_statues(lv.nodes), lv.rows, lv.cols, 0),
        ..lv
    }
}

/// What one command does to the level: the four moves move the
/// player, `Action` is the "use" action, everything else is ignored.
pub open spec fn spec_apply_control(lv: LevelV, control: Control) -> LevelV {
    match control {
        Control::Up => spec_move_player(lv, Direction::Up),
        Control::Down => spec_move_player(lv, Direction::Down),
        Control::Left => spec_move_player(lv, Direction::Left),
        Control::Right => spec_move_player(lv, Direction::Right),
        Control::Action => spec_player_action(lv),
        _ => lv,
    }
}

impl Level {
    /// Moves the player one cell, pushing a single moveable entity
    /// ahead of it when the cell behind that entity is free; any move
    /// that cannot complete changes nothing.
    pub fn move_player(&mut self, dir: Direction)
        requires
            old(self)@.wf(),
        ensures
            final(self)@ == spec_move_player(old(self)@, dir),
            final(self)@.wf(),
    {
        let player_index: usize = match self.player_index {
            Some(i) => i,
            None => {
                return ;
            },
        };
        proof {
            assert(cell_in_interior(
                self@.rows,
                self@.cols,
                self@.nodes[player_index as int].row as int,
                self@.nodes[player_index as int].col as int,
            ));
        }
        let new_pos = self.nodes[player_index].would_move_to(dir);
        if !self.is_valid_pos(new_pos) {
            return ;
        }
        match self.node_index_at(new_pos) {
            Some(i) => {
                proof {
                    lemma_node_at(old(self)@.nodes, new_pos.0, new_pos.1);
                }
                if !self.nodes[i].is_moveable() {
                    return ;
                }
                proof {
                    assert(cell_in_interior(
                        self@.rows,
                        self@.cols,
                        self@.nodes[i as int].row as int,
                        self@.nodes[i as int].col as int,
                    ));
                }
                let new_pos2 = self.nodes[i].would_move_to(dir);
                if !self.is_valid_pos(new_pos2) {
                    return ;
                }
                if self.node_index_at(new_pos2).is_some() {
                    return ;
                }
                proof {
                    lemma_node_at(old(self)@.nodes, new_pos2.0, new_pos2.1);
                    assert(i as int != player_index as int);
                }
                self.nodes[i].move_in_dir(dir);
                self.nodes[player_index].move_in_dir(dir);
                proof {
                    let oldv = old(self)@;
                    let pi = player_index as int;
                    let j = i as int;
                    let dest = Node::spec_would_move_to(oldv.nodes[pi], dir);
                    let dest2 = Node::spec_would_move_to(oldv.nodes[j], dir);
                    let nodes1 = oldv.nodes.update(
                        j,
                        NodeV { row: dest2.0, col: dest2.1, ..oldv.nodes[j] },
                    );
                    let nodes2 = nodes1.update(
                        pi,
                        NodeV { row: dest.0, col: dest.1, ..nodes1[pi] },
                    );
                    assert(self@.nodes =~= nodes2);
                    assert(self@ == spec_move_player(oldv, dir));
                    assert(dest2.0 == oldv.nodes[j].row + dir.d_row() && dest2.1 == oldv.nodes[
                        j].col + dir.d_col());
                    assert(!(dest2.0 == dest.0 && dest2.1 == dest.1));
                    assert forall|k1: int, k2: int|
                        #![trigger nodes2[k1], nodes2[k2]]
                        0 <= k1 < nodes2.len() && 0 <= k2 < nodes2.len() && k1 != k2 implies !(
                    nodes2[k1].row == nodes2[k2].row && nodes2[k1].col == nodes2[k2].col) by {
                        assert(k1 != k2 ==> !(oldv.nodes[k1].row == oldv.nodes[k2].row
                            && oldv.nodes[k1].col == oldv.nodes[k2].col));
                    }
                    assert(final(self)@.wf());
                }
            },
            None => {
                proof {
                    lemma_node_at(old(self)@.nodes, new_pos.0, new_pos.1);
                }
                self.nodes[player_index].move_in_dir(dir);
                proof {
                    let oldv = old(self)@;
                    let pi = player_index as int;
                    let dest = Node::spec_would_move_to(oldv.nodes[pi], dir);
                    let nodes2 = oldv.nodes.update(
                        pi,
                        NodeV { row: dest.0, col: dest.1, ..oldv.nodes[pi] },
                    );
                    assert(self@.nodes =~= nodes2);
                    assert(self@ == spec_move_player(oldv, dir));
                    assert forall|k1: int, k2: int|
                        #![trigger nodes2[k1], nodes2[k2]]
                        0 <= k1 < nodes2.len() && 0 <= k2 < nodes2.len() && k1 != k2 implies !(
                    nodes2[k1].row == nodes2[k2].row && nodes2[k1].col == nodes2[k2].col) by {
                        assert(k1 != k2 ==> !(oldv.nodes[k1].row == oldv.nodes[k2].row
                            && oldv.nodes[k1].col == oldv.nodes[k2].col));
                    }
                    assert(final(self)@.wf());
                }
            },
        }
    }

    /// The player's "use" action: toggles every adjacent laser, mirror
    /// and switch.
    pub fn player_action(&mut self)
        requires
            old(self)@.wf(),
        ensures
            final(self)@ == spec_player_action(old(self)@),
            final(self)@.wf(),
    {
        let player_index: usize = match self.player_index {
            Some(i) => i,
            None => {
                return ;
            },
        };
        proof {
            assert(cell_in_interior(
                self@.rows,
                self@.cols,
                self@.nodes[player_index as int].row as int,
                self@.nodes[player_index as int].col as int,
            ));
        }
        let prow = self.nodes[player_index].row;
        let pcol = self.nodes[player_index].col;
        let n = self.nodes.len();
        let mut i: usize = 0;
        while i < n
            invariant
                n == self.nodes@.len(),
                n == old(self)@.nodes.len(),
                i <= n,
                old(self)@.wf(),
                old(self)@.player_index == Some(player_index as int),
                player_index < n,
                prow == old(self)@.nodes[player_index as int].row,
                pcol == old(self)@.nodes[player_index as int].col,
                cell_in_interior(old(self)@.rows, old(self)@.cols, prow as int, pcol as int),
                self.info == old(self).info,
                self.rows == old(self).rows,
                self.cols == old(self).cols,
                self.player_index == old(self).player_index,
                forall|k: int|
                    0 <= k < i ==> #[trigger] self@.nodes[k] == (if spec_adjacent(
                        prow,
                        pcol,
                        old(self)@.nodes[k],
                    ) && spec_player_toggleable(old(self)@.nodes[k].node_type) {
                        NodeV {
                            node_type: spec_toggle(old(self)@.nodes[k].node_type),
                            ..old(self)@.nodes[k]
                        }
                    } else {
                        old(self)@.nodes[k]
                    }),
                forall|k: int| i <= k < n ==> #[trigger] self@.nodes[k] == old(self)@.nodes[k],
            decreases n - i,
    {
            let ghost prev = self@.nodes;
            proof {
                assert(self@.nodes[i as int] == old(self)@.nodes[i as int]);
                assert(cell_in_interior(
                    old(self)@.rows,
                    old(self)@.cols,
                    old(self)@.nodes[i as int].row as int,
                    old(self)@.nodes[i as int].col as int,
                ));
            }
            let adjacent = (self.nodes[i].row == prow && (self.nodes[i].col + 1 == pcol
                || self.nodes[i].col == pcol + 1)) || (self.nodes[i].col == pcol && (
            self.nodes[i].row + 1 == prow || self.nodes[i].row == prow + 1));
            proof {
                assert(adjacent == spec_adjacent(prow, pcol, self@.nodes[i as int]));
            }
            if adjacent && self.nodes[i].is_player_toggleable() {
                self.nodes[i].toggle();
            }
            proof {
                assert(forall|k: int|
                    0 <= k < n && k != i ==> #[trigger] self@.nodes[k] == prev[k]);
            }
            i = i + 1;
        }
        proof {
            let oldv = old(self)@;
            assert(self@.nodes =~= spec_player_action(oldv).nodes);
            assert(self@ == spec_player_action(oldv));
            lemma_wf_same_shape(oldv, self@);
        }
    }

    /// One tick's simulation work: statues reset, every beam
    /// recomputed with its side effects, then the verdict.
    pub fn tick(&mut self) -> (r: PlayState)
        requires
            old(self)@.wf(),
        ensures
            final(self)@ == spec_tick(old(self)@),
            final(self)@.wf(),
            r.is_playing == (!any_dead_player(final(self)@.nodes) && !any_lit_zapper(
                final(self)@.nodes,
            ) && !all_statues_satisfied(final(self)@.nodes)),
            r.has_won == (!any_dead_player(final(self)@.nodes) && !any_lit_zapper(
                final(self)@.nodes,
            ) && all_statues_satisfied(final(self)@.nodes)),
            r.reason_for_loss == (if any_dead_player(final(self)@.nodes) {
                Some(LevelLossReason::Death)
            } else if any_lit_zapper(final(self)@.nodes) {
                Some(LevelLossReason::Zapper)
            } else {
                None::<LevelLossReason>
            }),
    {
        self.reset_statues();
        proof {
            assert forall|k: int|
                0 <= k < self@.nodes.len() implies same_shape(
                #[trigger] self@.nodes[k],
                old(self)@.nodes[k],
            ) by {}
            lemma_wf_same_shape(old(self)@, self@);
        }
        self.set_lasers_shooting_at();
        self.play_state()
    }

    /// Applies one command: the four moves move the player, `Action`
    /// is the "use" action, anything else changes nothing.
    pub fn apply_control(&mut self, control: Control)
        requires
            old(self)@.wf(),
        ensures
            final(self)@ == spec_apply_control(old(self)@, control),
            final(self)@.wf(),
    {
        match control {
            Control::Up => self.move_player(Direction::Up),
            Control::Down => self.move_player(Direction::Down),
            Control::Left => self.move_player(Direction::Left),
            Control::Right => self.move_player(Direction::Right),
            Control::Action => self.player_action(),
            _ => (),
        }
    }
}


/// Why a level's text was rejected.
#[derive(Clone, Copy, PartialEq, Eq, Structural, Debug)]
pub enum ParseError {
    /// The content holds fewer lines than the three-line header needs.
    Empty,
    /// No line of the grid is left after the header, or too few for a
    /// walled rectangle.
    MissingLines,
    /// The grid is too narrow for a walled interior.
    NarrowGrid,
    /// The grid's rows do not all have the same length.
    Ragged,
    /// A border cell holds something other than the wall character.
    BadBorder,
    /// The grid has more rows or columns than a position can address.
    TooLarge,
}

impl ParseError {
    /// A human-readable reason for the failure.
    pub fn message(&self) -> (r: &'static str)
        ensures
            r@.len() > 0,
    {
        let s: &'static str = match self {
            ParseError::Empty => "Empty level file.",
            ParseError::MissingLines => "Level file must include a line for the `name`, `author`, `description`, and lines representing the level grid.",
            ParseError::NarrowGrid => "Level grid must be made up of at least one grid space and an even wall of `I` characters representing the walls.",
            ParseError::Ragged => "Level grid rows must all have the same length.",
            ParseError::BadBorder => "Level grid must be made up of at least one grid space and an even wall of `I` characters representing the walls.",
            ParseError::TooLarge => "Level grid has too many rows or columns.",
        };
        proof {
            reveal_strlit("Empty level file.");
            reveal_strlit(
                "Level file must include a line for the `name`, `author`, `description`, and lines representing the level grid.",
            );
            reveal_strlit(
                "Level grid must be made up of at least one grid space and an even wall of `I` characters representing the walls.",
            );
            reveal_strlit("Level grid rows must all have the same length.");
            reveal_strlit("Level grid has too many rows or columns.");
        }
        s
    }
}

/// The entities one grid row contributes, scanning its interior cells
/// from column `c` on: spaces contribute nothing, every other
/// character one node.
pub open spec fn row_nodes_from(line: Seq<char>, r: u16, c: int, cols: int) -> Seq<NodeV>
    decreases cols - c,
{
    if c >= cols - 1 {
        Seq::empty()
    } else {
        let rest = row_nodes_from(line, r, c + 1, cols);
        if line[c] == ' ' {
            rest
        } else {
            seq![spec_node_new(line[c], r, c as u16)] + rest
        }
    }
}

/// The entities the grid contributes from row `r` on, in row-major
/// order; the first and last rows are border and contribute nothing.
pub open spec fn grid_nodes_from(lines: Seq<Seq<char>>, r: int, rows: int, cols: int) -> Seq<
    NodeV,
>
    decreases rows - r,
{
    if r >= rows - 1 {
        Seq::empty()
    } else {
        row_nodes_from(lines[r], r as u16, 1, cols) + grid_nodes_from(lines, r + 1, rows, cols)
    }
}

/// Whether every border cell of the grid holds the wall character.
pub open spec fn borders_ok(lines: Seq<Seq<char>>, rows: int, cols: int) -> bool {
    forall|r: int, c: int|
        0 <= r < rows && 0 <= c < cols && (r == 0 || r == rows - 1 || c == 0 || c == cols - 1)
            ==> #[trigger] lines[r][c] == 'I'
}

/// Whether every row of the grid has exactly `cols` characters.
pub open spec fn rectangular(lines: Seq<Seq<char>>, cols: int) -> bool {
    forall|r: int| 0 <= r < lines.len() ==> (#[trigger] lines[r]).len() == cols
}

/// The index of the last player entity, if any: the one the level
/// tracks when a grid names several.
pub open spec fn last_player_index(nodes: Seq<NodeV>) -> Option<int>
    decreases nodes.len(),
{
    if nodes.len() == 0 {
        None
    } else if nodes.last().node_type is Player {
        Some(nodes.len() - 1)
    } else {
        last_player_index(nodes.drop_last())
    }
}

/// What parsing a grid yields: the level, or the first reason the
/// text is rejected — too few lines, too narrow, ragged rows, or a
/// border cell that is not wall.
pub open spec fn spec_parse_grid(lines: Seq<Seq<char>>, info: LevelInfoV) -> Result<
    LevelV,
    ParseError,
> {
    let rows = lines.len() as int;
    if rows < 3 {
        Err(ParseError::MissingLines)
    } else if rows > 0xFFFF {
        Err(ParseError::TooLarge)
    } else {
        let cols = lines[0].len() as int;
        if cols < 3 {
            Err(ParseError::NarrowGrid)
        } else if cols > 0xFFFF {
            Err(ParseError::TooLarge)
        } else if !rectangular(lines, cols) {
            Err(ParseError::Ragged)
        } else if !borders_ok(lines, rows, cols) {
            Err(ParseError::BadBorder)
        } else {
            let nodes = grid_nodes_from(lines, 1, rows, cols);
            Ok(
                LevelV {
                    info,
                    nodes,
                    rows: rows as u16,
                    cols: cols as u16,
                    player_index: last_player_index(nodes),
                },
            )
        }
    }
}

/// What parsing a whole level text yields: the first three lines are
/// the header, the rest the grid.
pub open spec fn spec_parse_full(lines: Seq<Seq<char>>, source: LevelSourceV) -> Result<
    LevelV,
    ParseError,
> {
    if lines.len() < 3 {
        Err(ParseError::Empty)
    } else {
        spec_parse_grid(
            lines.skip(3),
            LevelInfoV { source, name: lines[0], author: lines[1], description: lines[2] },
        )
    }
}

/// One row's entities stand on that row, on strictly increasing
/// interior columns at or past `c`.
pub proof fn lemma_row_nodes_positions(line: Seq<char>, r: u16, c: int, cols: int)
    requires
        1 <= c,
        cols <= 0xFFFF,
    ensures
        forall|k: int|
            0 <= k < row_nodes_from(line, r, c, cols).len() ==> {
                let n = #[trigger] row_nodes_from(line, r, c, cols)[k];
                n.row == r && c <= n.col < cols - 1
            },
        forall|k1: int, k2: int|
            #![trigger row_nodes_from(line, r, c, cols)[k1], row_nodes_from(line, r, c, cols)[k2]]
            0 <= k1 < k2 < row_nodes_from(line, r, c, cols).len() ==> row_nodes_from(
                line,
                r,
                c,
                cols,
            )[k1].col < row_nodes_from(line, r, c, cols)[k2].col,
    decreases cols - c,
{
    if c >= cols - 1 {
    } else {
        lemma_row_nodes_positions(line, r, c + 1, cols);
    }
}

/// The grid's entities stand inside the wall ring, ordered row-major:
/// rows never decrease, and within one row columns strictly increase.
pub proof fn lemma_grid_nodes_positions(lines: Seq<Seq<char>>, r: int, rows: int, cols: int)
    requires
        1 <= r,
        rows <= 0xFFFF,
        cols <= 0xFFFF,
    ensures
        forall|k: int|
            0 <= k < grid_nodes_from(lines, r, rows, cols).len() ==> {
                let n = #[trigger] grid_nodes_from(lines, r, rows, cols)[k];
                r <= n.row < rows - 1 && 1 <= n.col < cols - 1
            },
        forall|k1: int, k2: int|
            #![trigger grid_nodes_from(lines, r, rows, cols)[k1], grid_nodes_from(lines, r, rows, cols)[k2]]
            0 <= k1 < k2 < grid_nodes_from(lines, r, rows, cols).len() ==> {
                let a = grid_nodes_from(lines, r, rows, cols)[k1];
                let b = grid_nodes_from(lines, r, rows, cols)[k2];
                a.row < b.row || (a.row == b.row && a.col < b.col)
            },
    decreases rows - r,
{
    if r >= rows - 1 {
    } else {
        lemma_row_nodes_positions(lines[r], r as u16, 1, cols);
        lemma_grid_nodes_positions(lines, r + 1, rows, cols);
    }
}

/// The last-player index names a player inside the collection, and
/// `None` means the collection holds none.
pub proof fn lemma_last_player_index(nodes: Seq<NodeV>)
    ensures
        match last_player_index(nodes) {
            Some(p) => 0 <= p < nodes.len() && nodes[p].node_type is Player,
            None => forall|k: int|
                0 <= k < nodes.len() ==> !((#[trigger] nodes[k]).node_type is Player),
        },
    decreases nodes.len(),
{
    if nodes.len() == 0 {
    } else if nodes.last().node_type is Player {
    } else {
        lemma_last_player_index(nodes.drop_last());
        assert(forall|k: int|
            0 <= k < nodes.len() - 1 ==> #[trigger] nodes[k] == nodes.drop_last()[k]);
    }
}

/// A parsed level is well formed: its entities stand strictly inside
/// the wall ring, no two share a cell, and the player index names a
/// player.
pub proof fn lemma_parse_grid_wf(lines: Seq<Seq<char>>, info: LevelInfoV)
    ensures
        (spec_parse_grid(lines, info) matches Ok(l) ==> l.wf()),
{
    match spec_parse_grid(lines, info) {
        Ok(l) => {
            let rows = lines.len() as int;
            let cols = lines[0].len() as int;
            lemma_grid_nodes_positions(lines, 1, rows, cols);
            lemma_last_player_index(l.nodes);
            assert forall|i: int|
                0 <= i < l.nodes.len() implies cell_in_interior(
                l.rows,
                l.cols,
                (#[trigger] l.nodes[i]).row as int,
                l.nodes[i].col as int,
            ) by {}
            assert forall|i: int, j: int|
                #![trigger l.nodes[i], l.nodes[j]]
                0 <= i < l.nodes.len() && 0 <= j < l.nodes.len() && i != j implies !(l.nodes[i].row
                == l.nodes[j].row && l.nodes[i].col == l.nodes[j].col) by {
                if i < j {
                    assert(l.nodes[i].row < l.nodes[j].row || (l.nodes[i].row == l.nodes[j].row
                        && l.nodes[i].col < l.nodes[j].col));
                } else {
                    assert(l.nodes[j].row < l.nodes[i].row || (l.nodes[j].row == l.nodes[i].row
                        && l.nodes[j].col < l.nodes[i].col));
                }
            }
        },
        Err(_) => {},
    }
}

impl Level {
    /// The number of levels built into the game.
    pub const NUM_CORE_LEVELS: usize = 4;

    /// Parses the grid lines of a level: checks the walled rectangle
    /// and turns every non-space interior character into one entity,
    /// in row-major order.
    pub fn parse_grid(content: &Vec<String>, info: LevelInfo) -> (r: Result<Level, ParseError>)
        ensures
            match r {
                Ok(l) => spec_parse_grid(lines_of(content@), info@) == Ok::<LevelV, ParseError>(l@) && l@.wf(),
                Err(e) => spec_parse_grid(lines_of(content@), info@) == Err::<LevelV, ParseError>(e),
            },
    {
        let ghost lines = lines_of(content@);
        let rows_us = content.len();
        if rows_us < 3 {
            return Err(ParseError::MissingLines);
        }
        if rows_us > 0xFFFF {
            return Err(ParseError::TooLarge);
        }
        let rows: u16 = rows_us as u16;
        let cols_us = content[0].as_str().unicode_len();
        if cols_us < 3 {
            return Err(ParseError::NarrowGrid);
        }
        if cols_us > 0xFFFF {
            return Err(ParseError::TooLarge);
        }
        let cols: u16 = cols_us as u16;
        // every row must have the width of the first
        let mut r: usize = 0;
        while r < rows_us
            invariant
                rows_us == content@.len(),
                3 <= rows_us <= 0xFFFF,
                3 <= cols_us <= 0xFFFF,
                cols_us == lines_of(content@)[0].len(),
                forall|t: int| 0 <= t < r ==> #[trigger] lines_of(content@)[t].len() == cols_us,
            decreases rows_us - r,
        {
            if content[r].as_str().unicode_len() != cols_us {
                proof {
                    assert(lines_of(content@)[r as int].len() != cols_us as int);
                    assert(!rectangular(lines_of(content@), cols_us as int));
                }
                return Err(ParseError::Ragged);
            }
            r = r + 1;
        }
        assert(rectangular(lines, cols_us as int));
        // top and bottom border rows
        let mut c: usize = 0;
        while c < cols_us
            invariant
                rows_us == content@.len(),
                3 <= rows_us <= 0xFFFF,
                3 <= cols_us <= 0xFFFF,
                cols_us == lines_of(content@)[0].len(),
                c <= cols_us,
                rectangular(lines_of(content@), cols_us as int),
                lines == lines_of(content@),
                forall|t: int| 0 <= t < c ==> #[trigger] lines_of(content@)[0][t] == 'I',
                forall|t: int|
                    0 <= t < c ==> #[trigger] lines_of(content@)[rows_us as int - 1][t] == 'I',
            decreases cols_us - c,
        {
            proof {
                assert(lines[0].len() == cols_us as int);
                assert(lines[rows_us as int - 1].len() == cols_us as int);
            }
            if content[0].as_str().get_char(c) != 'I' {
                proof {
                    assert(lines[0][c as int] != 'I');
                    assert(!borders_ok(lines, rows_us as int, cols_us as int));
                }
                return Err(ParseError::BadBorder);
            }
            if content[rows_us - 1].as_str().get_char(c) != 'I' {
                proof {
                    assert(lines[rows_us as int - 1][c as int] != 'I');
                    assert(!borders_ok(lines, rows_us as int, cols_us as int));
                }
                return Err(ParseError::BadBorder);
            }
            c = c + 1;
        }
        // interior rows: side walls and entities
        let mut nodes: Vec<Node> = Vec::new();
        let mut player_index: Option<usize> = None;
        let mut r: usize = 1;
        while r < rows_us - 1
            invariant
                rows_us == content@.len(),
                3 <= rows_us <= 0xFFFF,
                3 <= cols_us <= 0xFFFF,
                cols_us == lines_of(content@)[0].len(),
                rows == rows_us as u16,
                cols == cols_us as u16,
                1 <= r <= rows_us - 1,
                lines == lines_of(content@),
                rectangular(lines, cols_us as int),
                forall|t: int| 0 <= t < cols_us ==> #[trigger] lines[0][t] == 'I',
                forall|t: int| 0 <= t < cols_us ==> #[trigger] lines[rows_us as int - 1][t] == 'I',
                forall|t: int| 1 <= t < r ==> #[trigger] lines[t][0] == 'I',
                forall|t: int| 1 <= t < r ==> #[trigger] lines[t][cols_us as int - 1] == 'I',
                grid_nodes_from(lines, 1, rows_us as int, cols_us as int) == Seq::new(
                    nodes@.len(),
                    |k: int| nodes@[k]@,
                ) + grid_nodes_from(lines, r as int, rows_us as int, cols_us as int),
                player_index == match last_player_index(
                    Seq::new(nodes@.len(), |k: int| nodes@[k]@),
                ) {
                    Some(p) => Some(p as usize),
                    None => None::<usize>,
                },
                nodes@.len() <= 0xFFFF * r,
            decreases rows_us - r,
        {
            proof {
                assert(lines[r as int].len() == cols_us as int);
            }
            if content[r].as_str().get_char(0) != 'I' {
                proof {
                    assert(lines[r as int][0] != 'I');
                    assert(!borders_ok(lines, rows_us as int, cols_us as int));
                }
                return Err(ParseError::BadBorder);
            }
            if content[r].as_str().get_char(cols_us - 1) != 'I' {
                proof {
                    assert(lines[r as int][cols_us as int - 1] != 'I');
                    assert(!borders_ok(lines, rows_us as int, cols_us as int));
                }
                return Err(ParseError::BadBorder);
            }
            let ghost row_start_nodes = Seq::new(nodes@.len(), |k: int| nodes@[k]@);
            let mut c: usize = 1;
            while c < cols_us - 1
                invariant
                    rows_us == content@.len(),
                    3 <= rows_us <= 0xFFFF,
                    3 <= cols_us <= 0xFFFF,
                    cols_us == lines_of(content@)[0].len(),
                    rows == rows_us as u16,
                    cols == cols_us as u16,
                    1 <= r < rows_us - 1,
                    1 <= c <= cols_us - 1,
                    lines == lines_of(content@),
                    rectangular(lines, cols_us as int),
                    row_nodes_from(lines[r as int], r as u16, 1, cols_us as int)
                        == Seq::new(nodes@.len(), |k: int| nodes@[k]@).skip(
                        row_start_nodes.len() as int,
                    ) + row_nodes_from(lines[r as int], r as u16, c as int, cols_us as int),
                    row_start_nodes =~= Seq::new(nodes@.len(), |k: int| nodes@[k]@).take(
                        row_start_nodes.len() as int,
                    ),
                    row_start_nodes.len() <= nodes@.len(),
                    player_index == match last_player_index(
                        Seq::new(nodes@.len(), |k: int| nodes@[k]@),
                    ) {
                        Some(p) => Some(p as usize),
                        None => None::<usize>,
                    },
                    nodes@.len() <= 0xFFFF * r + c,
                decreases cols_us - c,
            {
                let ch = content[r].as_str().get_char(c);
                let ghost pre_nodes = Seq::new(nodes@.len(), |k: int| nodes@[k]@);
                if ch != ' ' {
                    let node = Node::new(ch, r as u16, c as u16);
                    let is_player = matches!(node.node_type, NodeType::Player(_));
                    if is_player {
                        player_index = Some(nodes.len());
                    }
                    nodes.push(node);
                    proof {
                        let now_nodes = Seq::new(nodes@.len(), |k: int| nodes@[k]@);
                        assert(now_nodes =~= pre_nodes.push(spec_node_new(ch, r as u16, c as u16)));
                        assert(now_nodes.drop_last() =~= pre_nodes);
                        assert(now_nodes.take(row_start_nodes.len() as int) =~= pre_nodes.take(
                            row_start_nodes.len() as int,
                        ));
                        assert(now_nodes.skip(row_start_nodes.len() as int) =~= pre_nodes.skip(
                            row_start_nodes.len() as int,
                        ).push(spec_node_new(ch, r as u16, c as u16)));
                        assert(pre_nodes.skip(row_start_nodes.len() as int) + (seq![
                            spec_node_new(ch, r as u16, c as u16),
                        ] + row_nodes_from(lines[r as int], r as u16, c as int + 1, cols_us as int))
                            =~= now_nodes.skip(row_start_nodes.len() as int) + row_nodes_from(
                            lines[r as int],
                            r as u16,
                            c as int + 1,
                            cols_us as int,
                        ));
                    }
                } else {
                    proof {
                        assert(lines[r as int][c as int] == ' ');
                    }
                }
                c = c + 1;
            }
            proof {
                let now_nodes = Seq::new(nodes@.len(), |k: int| nodes@[k]@);
                assert(row_nodes_from(lines[r as int], r as u16, cols_us as int - 1, cols_us as int)
                    =~= Seq::<NodeV>::empty());
                assert(now_nodes.skip(row_start_nodes.len() as int) + Seq::<NodeV>::empty()
                    =~= now_nodes.skip(row_start_nodes.len() as int));
                assert(row_start_nodes + now_nodes.skip(row_start_nodes.len() as int)
                    =~= now_nodes);
            }
            r = r + 1;
        }
        proof {
            assert(grid_nodes_from(lines, rows_us as int - 1, rows_us as int, cols_us as int)
                =~= Seq::<NodeV>::empty());
            assert(Seq::new(nodes@.len(), |k: int| nodes@[k]@) + Seq::<NodeV>::empty()
                =~= Seq::new(nodes@.len(), |k: int| nodes@[k]@));
            assert(borders_ok(lines, rows_us as int, cols_us as int));
            lemma_parse_grid_wf(lines, info@);
        }
        let level = Level { info, nodes, rows, cols, player_index };
        proof {
            assert(level@.nodes =~= Seq::new(level.nodes@.len(), |k: int| level.nodes@[k]@));
            assert(spec_parse_grid(lines, info@) matches Ok(l) && l == level@);
        }
        Ok(level)
    }

    /// Parses a whole level text: three header lines — name, author,
    /// description — followed by the grid.
    pub fn parse_full(content: &Vec<String>, source: LevelSource) -> (r: Result<
        Level,
        ParseError,
    >)
        ensures
            match r {
                Ok(l) => spec_parse_full(lines_of(content@), source@) == Ok::<LevelV, ParseError>(l@) && l@.wf(),
                Err(e) => spec_parse_full(lines_of(content@), source@) == Err::<LevelV, ParseError>(e),
            },
    {
        if content.len() < 3 {
            return Err(ParseError::Empty);
        }
        let info = LevelInfo {
            source,
            name: content[0].clone(),
            author: content[1].clone(),
            description: content[2].clone(),
        };
        let mut grid: Vec<String> = Vec::new();
        let mut k: usize = 3;
        while k < content.len()
            invariant
                3 <= k <= content@.len(),
                grid@.len() == k - 3,
                forall|t: int| 0 <= t < k - 3 ==> #[trigger] grid@[t]@ == content@[t + 3]@,
            decreases content@.len() - k,
        {
            grid.push(content[k].clone());
            k = k + 1;
        }
        proof {
            assert(lines_of(grid@) =~= lines_of(content@).skip(3));
        }
        Level::parse_grid(&grid, info)
    }


    /// The text of each level built into the game, line by line: the
    /// lines `core_level` hands to the parser.
    pub open spec fn core_level_lines(level: int) -> Seq<Seq<char>> {
        if level == 0 {
            seq![
                "Level 1"@,
                "alex-laycalvert"@,
                "The First Level"@,
                "IIIIIIIIIIIIIIIII"@,
                "I               I"@,
                "I\\           /  I"@,
                "I               I"@,
                "I1     X     S  I"@,
                "I               I"@,
                "IIIIIIIIIIIIIIIII"@,
            ]
        } else if level == 1 {
            seq![
                "Level 2"@,
                "alex-laycalvert"@,
                "Reverse Statues"@,
                "IIIIIIIIIIIIIIIII"@,
                "I               I"@,
                "I           R   I"@,
                "I               I"@,
                "I     X         I"@,
                "I               I"@,
                "I4          /   I"@,
                "IS          \\   I"@,
                "IIIIIIIIIIIIIIIII"@,
            ]
        } else if level == 2 {
            seq![
                "Level 3"@,
                "alex-laycalvert"@,
                "Using Your Surroundings"@,
                "IIIIIIIIIIIIIIIIIII"@,
                "III               I"@,
                "III  R            I"@,
                "III               I"@,
                "III               I"@,
                "I4   /   B    X   I"@,
                "III               I"@,
                "III               I"@,
                "III  R            I"@,
                "III               I"@,
                "IIIIIIIIIIIIIIIIIII"@,
            ]
        } else {
            seq![
                "Level 4"@,
                "alex-laycalvert"@,
                "What's That Special Block Over There?"@,
                "IIIIIIIIIIIIIIIIIIIII"@,
                "I              Z  \\ I"@,
                "I                   I"@,
                "I                   I"@,
                "I    X    4    \\    I"@,
                "I                   I"@,
                "I                   I"@,
                "I         S    \\  \\ I"@,
                "IIIIIIIIIIIIIIIIIIIII"@,
            ]
        }
    }

    /// One of the levels built into the game, parsed from its text:
    /// the result is exactly what parsing that level's lines yields.
    pub fn core_level(level: usize) -> (r: Result<Level, ParseError>)
        requires
            level < 4,
        ensures
            r is Ok,
            (r matches Ok(l) ==> spec_parse_full(
                Level::core_level_lines(level as int),
                LevelSourceV::Core(level as int),
            ) == Ok::<LevelV, ParseError>(l@) && l@.wf() && l@.info.source
                == LevelSourceV::Core(level as int)),
    {
        let mut text: Vec<String> = Vec::new();
        if level == 0 {
            text.push(String::from_str("Level 1"));
            text.push(String::from_str("alex-laycalvert"));
            text.push(String::from_str("The First Level"));
            text.push(String::from_str("IIIIIIIIIIIIIIIII"));
            text.push(String::from_str("I               I"));
            text.push(String::from_str("I\\           /  I"));
            text.push(String::from_str("I               I"));
            text.push(String::from_str("I1     X     S  I"));
            text.push(String::from_str("I               I"));
            text.push(String::from_str("IIIIIIIIIIIIIIIII"));
        } else if level == 1 {
            text.push(String::from_str("Level 2"));
            text.push(String::from_str("alex-laycalvert"));
            text.push(String::from_str("Reverse Statues"));
            text.push(String::from_str("IIIIIIIIIIIIIIIII"));
            text.push(String::from_str("I               I"));
            text.push(String::from_str("I           R   I"));
            text.push(String::from_str("I               I"));
            text.push(String::from_str("I     X         I"));
            text.push(String::from_str("I               I"));
            text.push(String::from_str("I4          /   I"));
            text.push(String::from_str("IS          \\   I"));
            text.push(String::from_str("IIIIIIIIIIIIIIIII"));
        } else if level == 2 {
            text.push(String::from_str("Level 3"));
            text.push(String::from_str("alex-laycalvert"));
            text.push(String::from_str("Using Your Surroundings"));
            text.push(String::from_str("IIIIIIIIIIIIIIIIIII"));
            text.push(String::from_str("III               I"));
            text.push(String::from_str("III  R            I"));
            text.push(String::from_str("III               I"));
            text.push(String::from_str("III               I"));
            text.push(String::from_str("I4   /   B    X   I"));
            text.push(String::from_str("III               I"));
            text.push(String::from_str("III               I"));
            text.push(String::from_str("III  R            I"));
            text.push(String::from_str("III               I"));
            text.push(String::from_str("IIIIIIIIIIIIIIIIIII"));
        } else {
            text.push(String::from_str("Level 4"));
            text.push(String::from_str("alex-laycalvert"));
            text.push(String::from_str("What's That Special Block Over There?"));
            text.push(String::from_str("IIIIIIIIIIIIIIIIIIIII"));
            text.push(String::from_str("I              Z  \\ I"));
            text.push(String::from_str("I                   I"));
            text.push(String::from_str("I                   I"));
            text.push(String::from_str("I    X    4    \\    I"));
            text.push(String::from_str("I                   I"));
            text.push(String::from_str("I                   I"));
            text.push(String::from_str("I         S    \\  \\ I"));
            text.push(String::from_str("IIIIIIIIIIIIIIIIIIIII"));
        }
        proof {
            assert(lines_of(text@) =~= Level::core_level_lines(level as int));
            lemma_core_levels_parse(level as int);
        }
        Level::parse_full(&text, LevelSource::Core(level))
    }
}


/// The number of interior characters of one row, from column `c` on,
/// that are neither space nor the wall character.
pub open spec fn row_char_count(line: Seq<char>, c: int, cols: int) -> int
    decreases cols - c,
{
    if c >= cols - 1 {
        0
    } else {
        (if line[c] == ' ' || line[c] == 'I' {
            0int
        } else {
            1int
        }) + row_char_count(line, c + 1, cols)
    }
}

/// The number of interior characters of the grid, from row `r` on,
/// that are neither space nor the wall character.
pub open spec fn grid_char_count(lines: Seq<Seq<char>>, r: int, rows: int, cols: int) -> int
    decreases rows - r,
{
    if r >= rows - 1 {
        0
    } else {
        row_char_count(lines[r], 1, cols) + grid_char_count(lines, r + 1, rows, cols)
    }
}

proof fn lemma_row_nodes_count(line: Seq<char>, r: u16, c: int, cols: int)
    requires
        forall|t: int| c <= t < cols - 1 ==> #[trigger] line[t] != 'I',
    ensures
        row_nodes_from(line, r, c, cols).len() == row_char_count(line, c, cols),
    decreases cols - c,
{
    if c >= cols - 1 {
    } else {
        lemma_row_nodes_count(line, r, c + 1, cols);
    }
}

proof fn lemma_grid_nodes_count(lines: Seq<Seq<char>>, r: int, rows: int, cols: int)
    requires
        forall|t: int, u: int|
            1 <= t < rows - 1 && 1 <= u < cols - 1 ==> #[trigger] lines[t][u] != 'I',
        1 <= r,
    ensures
        grid_nodes_from(lines, r, rows, cols).len() == grid_char_count(lines, r, rows, cols),
    decreases rows - r,
{
    if r >= rows - 1 {
    } else {
        assert(forall|t: int| 1 <= t < cols - 1 ==> #[trigger] lines[r][t] != 'I');
        lemma_row_nodes_count(lines[r], r as u16, 1, cols);
        lemma_grid_nodes_count(lines, r + 1, rows, cols);
    }
}

/// Law: on a grid whose interior holds no wall character, a successful
/// parse yields exactly one entity per interior character that is
/// neither space nor wall, and every border cell holds the wall
/// character. (An interior wall character would produce a wall entity
/// of its own, which a count over characters alone would miss.)
pub proof fn lemma_parse_entity_count(lines: Seq<Seq<char>>, info: LevelInfoV)
    requires
        spec_parse_grid(lines, info) is Ok,
        forall|t: int, u: int|
            1 <= t < lines.len() - 1 && 1 <= u < lines[0].len() - 1 ==> #[trigger] lines[t][u]
                != 'I',
    ensures
        (spec_parse_grid(lines, info) matches Ok(l) ==> l.nodes.len() == grid_char_count(
            lines,
            1,
            lines.len() as int,
            lines[0].len() as int,
        ) && borders_ok(lines, lines.len() as int, lines[0].len() as int)),
{
    match spec_parse_grid(lines, info) {
        Ok(_) => {
            lemma_grid_nodes_count(lines, 1, lines.len() as int, lines[0].len() as int);
        },
        Err(_) => {},
    }
}

/// Law: a beam records no cell outside the grid's interior.
pub proof fn lemma_beam_cells_in_interior(
    nodes: Seq<NodeV>,
    rows: u16,
    cols: u16,
    row: int,
    col: int,
    dir: Direction,
    fuel: nat,
)
    ensures
        forall|k: int|
            0 <= k < beam_trace(nodes, rows, cols, row, col, dir, fuel).cells.len()
                ==> cell_in_interior(
                rows,
                cols,
                (#[trigger] beam_trace(nodes, rows, cols, row, col, dir, fuel).cells[k]).0 as int,
                beam_trace(nodes, rows, cols, row, col, dir, fuel).cells[k].1 as int,
            ),
    decreases fuel,
{
    if fuel == 0 {
    } else {
        let nr = row + dir.d_row();
        let nc = col + dir.d_col();
        if cell_in_interior(rows, cols, nr, nc) {
            match node_at(nodes, nr as u16, nc as u16) {
                None => {
                    lemma_beam_cells_in_interior(nodes, rows, cols, nr, nc, dir, (fuel - 1) as nat);
                },
                Some(j) => match nodes[j].node_type {
                    NodeTypeV::Mirror { orientation: m } => {
                        lemma_beam_cells_in_interior(
                            nodes,
                            rows,
                            cols,
                            nr,
                            nc,
                            dir.spec_reflect(m),
                            (fuel - 1) as nat,
                        );
                    },
                    _ => {},
                },
            }
        }
    }
}

/// How far a beam can run from a cell before leaving the grid in the
/// given direction.
pub open spec fn beam_reach(rows: u16, cols: u16, row: int, col: int, dir: Direction) -> int {
    match dir {
        Direction::Up => row,
        Direction::Down => rows - row,
        Direction::Left => col,
        Direction::Right => cols - col,
    }
}

/// Law: in a collection without mirrors a beam runs straight, so it
/// records at most the cells between its start and the wall ring — in
/// particular no more than `rows + cols` cells.
pub proof fn lemma_straight_beam_bounded(
    nodes: Seq<NodeV>,
    rows: u16,
    cols: u16,
    row: int,
    col: int,
    dir: Direction,
    fuel: nat,
)
    requires
        forall|i: int| 0 <= i < nodes.len() ==> !((#[trigger] nodes[i]).node_type is Mirror),
        0 <= row <= rows,
        0 <= col <= cols,
    ensures
        beam_trace(nodes, rows, cols, row, col, dir, fuel).cells.len() <= beam_reach(
            rows,
            cols,
            row,
            col,
            dir,
        ),
        beam_trace(nodes, rows, cols, row, col, dir, fuel).cells.len() <= rows + cols,
    decreases fuel,
{
    if fuel == 0 {
    } else {
        let nr = row + dir.d_row();
        let nc = col + dir.d_col();
        if cell_in_interior(rows, cols, nr, nc) {
            lemma_node_at(nodes, nr as u16, nc as u16);
            match node_at(nodes, nr as u16, nc as u16) {
                None => {
                    lemma_straight_beam_bounded(nodes, rows, cols, nr, nc, dir, (fuel - 1) as nat);
                },
                Some(j) => {
                    assert(!(nodes[j].node_type is Mirror));
                },
            }
        }
    }
}

/// Law: the side effect of a beam that stops on an entity — a hit
/// player is dead, a hit laser is off, a hit statue or zapper has its
/// light toggled.
pub proof fn lemma_fire_laser_hit(nodes: Seq<NodeV>, rows: u16, cols: u16, i: int, j: int)
    requires
        0 <= i < nodes.len(),
        (nodes[i].node_type matches NodeTypeV::Laser { on: true, dir, .. } && beam_trace(
            nodes,
            rows,
            cols,
            nodes[i].row as int,
            nodes[i].col as int,
            dir,
            beam_fuel(rows, cols),
        ).hit == Some(j)),
    ensures
        0 <= j < nodes.len(),
        (nodes[j].node_type matches NodeTypeV::Player { .. } ==> spec_fire_laser(
            nodes,
            rows,
            cols,
            i,
        )[j].node_type == (NodeTypeV::Player { dead: true })),
        (nodes[j].node_type matches NodeTypeV::Zapper { lit } ==> spec_fire_laser(
            nodes,
            rows,
            cols,
            i,
        )[j].node_type == (NodeTypeV::Zapper { lit: !lit })),
        (nodes[j].node_type matches NodeTypeV::Statue { lit, reversed } ==> spec_fire_laser(
            nodes,
            rows,
            cols,
            i,
        )[j].node_type == (NodeTypeV::Statue { lit: !lit, reversed })),
        (j != i ==> (nodes[j].node_type matches NodeTypeV::Laser { on, dir, beam }
            ==> spec_fire_laser(nodes, rows, cols, i)[j].node_type == (NodeTypeV::Laser {
            on: false,
            dir,
            beam,
        }))),
{
    let dir = nodes[i].node_type->Laser_dir;
    lemma_beam_hit_range(
        nodes,
        rows,
        cols,
        nodes[i].row as int,
        nodes[i].col as int,
        dir,
        beam_fuel(rows, cols),
    );
}

/// Law: parsing is a pure function of the level text — identical text
/// with an identical source parses to the same level, entity for
/// entity.
pub proof fn lemma_parse_deterministic(
    a: Seq<Seq<char>>,
    b: Seq<Seq<char>>,
    source_a: LevelSourceV,
    source_b: LevelSourceV,
)
    requires
        a == b,
        source_a == source_b,
    ensures
        spec_parse_full(a, source_a) == spec_parse_full(b, source_b),
{
}


/// Whether a character is a decimal digit.
pub open spec fn spec_is_digit(c: char) -> bool {
    '0' <= c <= '9'
}

/// The number of consecutive decimal digits starting at index `i`.
pub open spec fn digit_run_from(s: Seq<char>, i: int) -> nat
    decreases s.len() - i
        when 0 <= i <= s.len()
{
    if i >= s.len() || !spec_is_digit(s[i]) {
        0
    } else {
        1 + digit_run_from(s, i + 1)
    }
}

/// Whether the string holds ten or more consecutive decimal digits:
/// the names on which human_sort's numeric comparison can overflow.
pub open spec fn has_long_digit_run(s: Seq<char>) -> bool {
    exists|i: int| 0 <= i <= s.len() && #[trigger] digit_run_from(s, i) >= 10
}

/// A block of `k` digits starting at `a` makes the run from `a` at
/// least `k` long.
proof fn lemma_digit_run_at_least(s: Seq<char>, a: int, k: int)
    requires
        0 <= a,
        0 <= k,
        a + k <= s.len(),
        forall|j: int| a <= j < a + k ==> spec_is_digit(#[trigger] s[j]),
    ensures
        digit_run_from(s, a) >= k,
    decreases k,
{
    if k > 0 {
        assert(spec_is_digit(s[a]));
        lemma_digit_run_at_least(s, a + 1, k - 1);
    }
}

/// A run of digits that ends at the first non-digit — or at the end
/// of the string — has exactly that distance as its length.
proof fn lemma_digit_run_exact(s: Seq<char>, a: int, b: int)
    requires
        0 <= a <= b <= s.len(),
        forall|j: int| a <= j < b ==> spec_is_digit(#[trigger] s[j]),
        b < s.len() ==> !spec_is_digit(s[b]),
    ensures
        digit_run_from(s, a) == b - a,
    decreases b - a,
{
    if a < b {
        lemma_digit_run_exact(s, a + 1, b);
    }
}

/// Whether the string holds ten or more consecutive decimal digits.
fn has_ten_digit_run(s: &str) -> (r: bool)
    ensures
        r == has_long_digit_run(s@),
{
    let n = s.unicode_len();
    let mut i: usize = 0;
    let mut run: usize = 0;
    while i < n
        invariant
            n == s@.len(),
            i <= n,
            run <= i,
            run < 10,
            forall|j: int| i - run <= j < i ==> spec_is_digit(#[trigger] s@[j]),
            i - run == 0 || !spec_is_digit(s@[i - run - 1]),
            forall|a: int| 0 <= a < i - run ==> #[trigger] digit_run_from(s@, a) < 10,
        decreases n - i,
    {
        let c = s.get_char(i);
        let u = c as u32;
        if u >= 48 && u <= 57 {
            proof {
                assert(spec_is_digit(s@[i as int]));
            }
            run = run + 1;
            if run == 10 {
                proof {
                    lemma_digit_run_at_least(s@, i as int - 9, 10);
                }
                return true;
            }
        } else {
            proof {
                assert(!spec_is_digit(s@[i as int]));
                assert forall|a: int| 0 <= a < i + 1 implies #[trigger] digit_run_from(s@, a)
                    < 10 by {
                    if i - run <= a <= i {
                        lemma_digit_run_exact(s@, a, i as int);
                    }
                }
            }
            run = 0;
        }
        i = i + 1;
    }
    proof {
        assert forall|a: int| 0 <= a <= n implies #[trigger] digit_run_from(s@, a) < 10 by {
            if n - run <= a {
                lemma_digit_run_exact(s@, a, n as int);
            }
        }
    }
    false
}

/// How human_sort::compare orders two names; a pure function of the
/// two strings alone.
pub uninterp spec fn human_cmp(a: Seq<char>, b: Seq<char>) -> Ordering;

/// Relies on human_sort::compare: a pure comparison of two strings in
/// which runs of decimal digits compare by their numeric value. Its
/// character walk treats the two arguments symmetrically — every
/// branch advances or reads both sides alike, and the final fallback
/// is the plain string comparison — so swapping the arguments
/// reverses the verdict. Each digit run is read into a 32-bit value,
/// which ten or more digits can overflow, so such inputs are
/// excluded.
#[verifier::external_body]
fn human_compare(a: &str, b: &str) -> (r: Ordering)
    requires
        !has_long_digit_run(a@),
        !has_long_digit_run(b@),
    ensures
        r == human_cmp(a@, b@),
        human_cmp(b@, a@) == (match r {
            Ordering::Less => Ordering::Greater,
            Ordering::Equal => Ordering::Equal,
            Ordering::Greater => Ordering::Less,
        }),
{
    human_sort::compare(a, b)
}

/// Whether the first name orders strictly after the second.
fn human_greater(a: &str, b: &str) -> (r: bool)
    requires
        !has_long_digit_run(a@),
        !has_long_digit_run(b@),
    ensures
        r == (human_cmp(a@, b@) == Ordering::Greater),
        (r ==> human_cmp(b@, a@) == Ordering::Less),
{
    match human_compare(a, b) {
        Ordering::Greater => true,
        _ => false,
    }
}

/// Taking one name out takes exactly its view out of the multiset of
/// views.
proof fn lemma_views_multiset_remove(s: Seq<String>, k: int)
    requires
        0 <= k < s.len(),
    ensures
        lines_of(s.remove(k)).to_multiset() == lines_of(s).to_multiset().remove(s[k]@),
{
    s.remove_ensures(k);
    assert(lines_of(s.remove(k)) =~= lines_of(s).remove(k));
    lines_of(s).to_multiset_ensures();
}

/// Putting one name in adds exactly its view to the multiset of
/// views.
proof fn lemma_views_multiset_insert(s: Seq<String>, k: int, x: String)
    requires
        0 <= k <= s.len(),
    ensures
        lines_of(s.insert(k, x)).to_multiset() == lines_of(s).to_multiset().insert(x@),
{
    s.insert_ensures(k, x);
    let tv = lines_of(s.insert(k, x));
    let sv = lines_of(s);
    assert(tv.remove(k) =~= sv);
    tv.to_multiset_ensures();
    assert(tv[k] == x@);
    assert(tv.contains(x@));
    assert(sv.to_multiset() == tv.to_multiset().remove(x@));
    assert(tv.to_multiset() =~= sv.to_multiset().insert(x@));
}

/// Insertion sort by human_compare: one comparison per step, so the
/// outside crate is asked nothing but single verdicts and the sort
/// itself — permutation and pairwise order — is proved, not trusted.
#[verifier::rlimit(100)]
fn sort_names(names: Vec<String>) -> (r: Vec<String>)
    requires
        forall|k: int| 0 <= k < names@.len() ==> !has_long_digit_run((#[trigger] names@[k])@),
    ensures
        r@.len() == names@.len(),
        lines_of(r@).to_multiset() == lines_of(names@).to_multiset(),
        forall|i: int|
            0 <= i && i + 1 < r@.len() ==> human_cmp((#[trigger] r@[i])@, r@[i + 1]@)
                != Ordering::Greater,
{
    let mut v = names;
    let ghost orig = v@;
    let n = v.len();
    if n == 0 {
        return v;
    }
    let mut j: usize = 1;
    while j < n
        invariant
            n == v@.len(),
            1 <= j <= n,
            lines_of(v@).to_multiset() == lines_of(orig).to_multiset(),
            forall|k: int| 0 <= k < v@.len() ==> !has_long_digit_run((#[trigger] v@[k])@),
            forall|i: int|
                0 <= i && i + 1 < j ==> human_cmp((#[trigger] v@[i])@, v@[i + 1]@)
                    != Ordering::Greater,
        decreases n - j,
    {
        let ghost before = v@;
        let x = v.remove(j);
        proof {
            lemma_views_multiset_remove(before, j as int);
            before.remove_ensures(j as int);
            assert(lines_of(before).contains(x@)) by {
                assert(lines_of(before)[j as int] == x@);
            }
            lines_of(before).to_multiset_ensures();
        }
        let mut k: usize = j;
        while k > 0 && human_greater(v[k - 1].as_str(), x.as_str())
            invariant
                v@ == before.remove(j as int),
                1 <= j < n,
                n - 1 == v@.len(),
                0 <= k <= j,
                !has_long_digit_run(x@),
                forall|t: int| 0 <= t < v@.len() ==> !has_long_digit_run((#[trigger] v@[t])@),
                (k < j ==> human_cmp(x@, v@[k as int]@) == Ordering::Less),
            decreases k,
        {
            k = k - 1;
        }
        let ghost mid = v@;
        let ghost kk = k as int;
        v.insert(k, x);
        proof {
            lemma_views_multiset_insert(mid, kk, x);
            // the multiset is back to what it was before the removal
            assert(lines_of(v@).to_multiset() =~= lines_of(before).to_multiset());
            // the prefix up to and including the inserted name is
            // ordered pair by pair
            mid.insert_ensures(kk, x);
            before.remove_ensures(j as int);
            assert forall|i: int|
                0 <= i && i + 1 < j + 1 implies human_cmp((#[trigger] v@[i])@, v@[i + 1]@)
                != Ordering::Greater by {
                if i + 1 < kk {
                    assert(v@[i] == before[i] && v@[i + 1] == before[i + 1]);
                } else if i + 1 == kk {
                    assert(v@[i] == mid[i] && v@[i + 1] == x);
                } else if i == kk {
                    assert(v@[i] == x && v@[i + 1] == mid[i]);
                } else {
                    assert(v@[i] == mid[i - 1] && v@[i + 1] == mid[i]);
                    assert(mid[i - 1] == before[i - 1] && mid[i] == before[i]);
                }
            }
        }
        j = j + 1;
    }
    v
}

impl Level {
    /// The level file names in the order the level list shows them:
    /// the same names, as many of each, ordered pair by pair by
    /// human_sort's comparison (runs of digits compare by their
    /// numeric value). A list in which some name holds ten or more
    /// consecutive digits comes back unchanged: such names would
    /// overflow that comparison.
    pub fn sorted_level_names(names: Vec<String>) -> (r: Vec<String>)
        ensures
            r@.len() == names@.len(),
            lines_of(r@).to_multiset() == lines_of(names@).to_multiset(),
            ((forall|k: int|
                0 <= k < names@.len() ==> !has_long_digit_run((#[trigger] names@[k])@))
                ==> forall|i: int|
                0 <= i && i + 1 < r@.len() ==> human_cmp((#[trigger] r@[i])@, r@[i + 1]@)
                    != Ordering::Greater),
            ((exists|k: int|
                0 <= k < names@.len() && has_long_digit_run((#[trigger] names@[k])@)) ==> r
                == names),
    {
        let n = names.len();
        let mut k: usize = 0;
        while k < n
            invariant
                n == names@.len(),
                k <= n,
                forall|t: int| 0 <= t < k ==> !has_long_digit_run((#[trigger] names@[t])@),
            decreases n - k,
        {
            if has_ten_digit_run(names[k].as_str()) {
                return names;
            }
            k = k + 1;
        }
        sort_names(names)
    }
}

impl LevelInfo {
    /// The header a level text starts with — name, author,
    /// description — when it has the three lines for it.
    pub fn from_lines(source: LevelSource, lines: &Vec<String>) -> (r: Option<LevelInfo>)
        ensures
            match r {
                Some(info) => lines@.len() >= 3 && info.source == source && info.name@
                    == lines@[0]@ && info.author@ == lines@[1]@ && info.description@
                    == lines@[2]@,
                None => lines@.len() < 3,
            },
    {
        if lines.len() < 3 {
            return None;
        }
        Some(
            LevelInfo {
                source,
                name: lines[0].clone(),
                author: lines[1].clone(),
                description: lines[2].clone(),
            },
        )
    }
}


impl Level {
    /// Parses a whole level file's contents: the text, trimmed of
    /// surrounding whitespace, split into lines — three header lines
    /// followed by the grid.
    pub fn parse_text(text: &str, source: LevelSource) -> (r: Result<Level, ParseError>)
        ensures
            match r {
                Ok(l) => spec_parse_full(spec_split_lines(spec_trim(text@)), source@) == Ok::<
                    LevelV,
                    ParseError,
                >(l@) && l@.wf(),
                Err(e) => spec_parse_full(spec_split_lines(spec_trim(text@)), source@) == Err::<
                    LevelV,
                    ParseError,
                >(e),
            },
    {
        let trimmed = trim_spaces(text);
        let content = split_lines(trimmed);
        Level::parse_full(&content, source)
    }
}


impl Level {
    /// Decides the structural invariant at run time, so that an
    /// unverified caller can test a level of unknown provenance
    /// before handing it to the engine.
    pub fn check_wf(&self) -> (r: bool)
        ensures
            r == self@.wf(),
    {
        if self.rows < 3 || self.cols < 3 {
            return false;
        }
        match self.player_index {
            Some(p) => {
                if p >= self.nodes.len() {
                    return false;
                }
                if !matches!(self.nodes[p].node_type, NodeType::Player(_)) {
                    return false;
                }
            },
            None => (),
        }
        let n = self.nodes.len();
        let mut i: usize = 0;
        while i < n
            invariant
                n == self.nodes@.len(),
                i <= n,
                self.rows >= 3,
                self.cols >= 3,
                forall|j: int|
                    0 <= j < i ==> cell_in_interior(
                        self@.rows,
                        self@.cols,
                        (#[trigger] self@.nodes[j]).row as int,
                        self@.nodes[j].col as int,
                    ),
            decreases n - i,
        {
            let node = &self.nodes[i];
            if !(node.row >= 1 && node.row < self.rows - 1 && node.col >= 1 && node.col
                < self.cols - 1) {
                proof {
                    assert(!cell_in_interior(
                        self@.rows,
                        self@.cols,
                        self@.nodes[i as int].row as int,
                        self@.nodes[i as int].col as int,
                    ));
                }
                return false;
            }
            i = i + 1;
        }
        let mut i: usize = 0;
        while i < n
            invariant
                n == self.nodes@.len(),
                i <= n,
                forall|j1: int, j2: int|
                    #![trigger self@.nodes[j1], self@.nodes[j2]]
                    0 <= j1 < i && 0 <= j2 < n && j1 != j2 ==> !(self@.nodes[j1].row
                        == self@.nodes[j2].row && self@.nodes[j1].col == self@.nodes[j2].col),
            decreases n - i,
        {
            let mut j: usize = i + 1;
            while j < n
                invariant
                    n == self.nodes@.len(),
                    i < j <= n,
                    i < n,
                    forall|j2: int|
                        i < j2 < j ==> !(self@.nodes[i as int].row == (#[trigger] self@.nodes[
                            j2]).row && self@.nodes[i as int].col == self@.nodes[j2].col),
                decreases n - j,
            {
                if self.nodes[i].row == self.nodes[j].row && self.nodes[i].col
                    == self.nodes[j].col {
                    proof {
                        assert(self@.nodes[i as int].row == self@.nodes[j as int].row
                            && self@.nodes[i as int].col == self@.nodes[j as int].col);
                    }
                    return false;
                }
                j = j + 1;
            }
            i = i + 1;
        }
        true
    }
}


/// Law: pushing — a moveable entity directly ahead of the player with
/// a free interior cell beyond it moves forward exactly one cell, the
/// player takes its old cell, and nothing else moves.
pub proof fn lemma_push_moves_one_cell(lv: LevelV, dir: Direction, pi: int, j: int)
    requires
        lv.wf(),
        lv.player_index == Some(pi),
        cell_in_interior(
            lv.rows,
            lv.cols,
            Node::spec_would_move_to(lv.nodes[pi], dir).0 as int,
            Node::spec_would_move_to(lv.nodes[pi], dir).1 as int,
        ),
        node_at(
            lv.nodes,
            Node::spec_would_move_to(lv.nodes[pi], dir).0,
            Node::spec_would_move_to(lv.nodes[pi], dir).1,
        ) == Some(j),
        lv.nodes[j].moveable,
        cell_in_interior(
            lv.rows,
            lv.cols,
            Node::spec_would_move_to(lv.nodes[j], dir).0 as int,
            Node::spec_would_move_to(lv.nodes[j], dir).1 as int,
        ),
        (node_at(
            lv.nodes,
            Node::spec_would_move_to(lv.nodes[j], dir).0,
            Node::spec_would_move_to(lv.nodes[j], dir).1,
        ) is None),
    ensures
        ({
            let res = spec_move_player(lv, dir);
            let dest = Node::spec_would_move_to(lv.nodes[pi], dir);
            let dest2 = Node::spec_would_move_to(lv.nodes[j], dir);
            &&& res.nodes.len() == lv.nodes.len()
            &&& (res.nodes[j].row, res.nodes[j].col) == dest2
            &&& (res.nodes[pi].row, res.nodes[pi].col) == (lv.nodes[j].row, lv.nodes[j].col)
            &&& res.nodes[j].node_type == lv.nodes[j].node_type
            &&& res.nodes[pi].node_type == lv.nodes[pi].node_type
            &&& forall|k: int|
                0 <= k < lv.nodes.len() && k != pi && k != j ==> #[trigger] res.nodes[k]
                    == lv.nodes[k]
        }),
{
    let dest = Node::spec_would_move_to(lv.nodes[pi], dir);
    lemma_node_at(lv.nodes, dest.0, dest.1);
    assert(lv.nodes[j].row == dest.0 && lv.nodes[j].col == dest.1);
}

/// Law: pushing — when the cell behind the entity ahead of the player
/// is outside the interior or already occupied, nothing moves at all.
pub proof fn lemma_push_blocked(lv: LevelV, dir: Direction, pi: int, j: int)
    requires
        lv.wf(),
        lv.player_index == Some(pi),
        cell_in_interior(
            lv.rows,
            lv.cols,
            Node::spec_would_move_to(lv.nodes[pi], dir).0 as int,
            Node::spec_would_move_to(lv.nodes[pi], dir).1 as int,
        ),
        node_at(
            lv.nodes,
            Node::spec_would_move_to(lv.nodes[pi], dir).0,
            Node::spec_would_move_to(lv.nodes[pi], dir).1,
        ) == Some(j),
        !cell_in_interior(
            lv.rows,
            lv.cols,
            Node::spec_would_move_to(lv.nodes[j], dir).0 as int,
            Node::spec_would_move_to(lv.nodes[j], dir).1 as int,
        ) || node_at(
            lv.nodes,
            Node::spec_would_move_to(lv.nodes[j], dir).0,
            Node::spec_would_move_to(lv.nodes[j], dir).1,
        ) is Some,
    ensures
        spec_move_player(lv, dir) == lv,
{
    let dest = Node::spec_would_move_to(lv.nodes[pi], dir);
    lemma_node_at(lv.nodes, dest.0, dest.1);
}

/// Law: every level built into the game parses successfully.
#[verifier::rlimit(100)]
pub proof fn lemma_core_levels_parse(level: int)
    requires
        0 <= level < 4,
    ensures
        spec_parse_full(Level::core_level_lines(level), LevelSourceV::Core(level)) is Ok,
{
    reveal_strlit("Level 1");
    reveal_strlit("alex-laycalvert");
    reveal_strlit("The First Level");
    reveal_strlit("IIIIIIIIIIIIIIIII");
    reveal_strlit("I               I");
    reveal_strlit("I\\           /  I");
    reveal_strlit("I1     X     S  I");
    reveal_strlit("Level 2");
    reveal_strlit("Reverse Statues");
    reveal_strlit("I           R   I");
    reveal_strlit("I     X         I");
    reveal_strlit("I4          /   I");
    reveal_strlit("IS          \\   I");
    reveal_strlit("Level 3");
    reveal_strlit("Using Your Surroundings");
    reveal_strlit("IIIIIIIIIIIIIIIIIII");
    reveal_strlit("III               I");
    reveal_strlit("III  R            I");
    reveal_strlit("I4   /   B    X   I");
    reveal_strlit("Level 4");
    reveal_strlit("What's That Special Block Over There?");
    reveal_strlit("IIIIIIIIIIIIIIIIIIIII");
    reveal_strlit("I              Z  \\ I");
    reveal_strlit("I                   I");
    reveal_strlit("I    X    4    \\    I");
    reveal_strlit("I         S    \\  \\ I");
    if level == 0 {
        let grid = Level::core_level_lines(0).skip(3);
        assert(grid.len() == 7);
        assert(grid[0].len() == 17);
        assert(rectangular(grid, 17));
        assert(borders_ok(grid, 7, 17));
    } else if level == 1 {
        let grid = Level::core_level_lines(1).skip(3);
        assert(grid.len() == 9);
        assert(grid[0].len() == 17);
        assert(rectangular(grid, 17));
        assert(borders_ok(grid, 9, 17));
    } else if level == 2 {
        let grid = Level::core_level_lines(2).skip(3);
        assert(grid.len() == 11);
        assert(grid[0].len() == 19);
        assert(rectangular(grid, 19));
        assert(borders_ok(grid, 11, 19));
    } else {
        let grid = Level::core_level_lines(3).skip(3);
        assert(grid.len() == 9);
        assert(grid[0].len() == 21);
        assert(rectangular(grid, 21));
        assert(borders_ok(grid, 9, 21));
    }
}


/// One fire never revives the player: a dead player is dead after it.
proof fn lemma_fire_laser_keeps_dead(nodes: Seq<NodeV>, rows: u16, cols: u16, i: int, p: int)
    requires
        0 <= p < nodes.len(),
        nodes[p].node_type == (NodeTypeV::Player { dead: true }),
    ensures
        spec_fire_laser(nodes, rows, cols, i).len() == nodes.len(),
        spec_fire_laser(nodes, rows, cols, i)[p].node_type == (NodeTypeV::Player {
            dead: true,
        }),
{
    lemma_fire_laser_shape(nodes, rows, cols, i);
    if 0 <= i < nodes.len() {
        match nodes[i].node_type {
            NodeTypeV::Laser { on, dir, .. } => {
                if on {
                    lemma_beam_hit_range(
                        nodes,
                        rows,
                        cols,
                        nodes[i].row as int,
                        nodes[i].col as int,
                        dir,
                        beam_fuel(rows, cols),
                    );
                }
            },
            _ => {},
        }
    }
}

/// Law: the beam pass never revives the player — once some fire
/// leaves the player dead, every later fire keeps him dead to the end
/// of the pass.
pub proof fn lemma_pass_keeps_dead(nodes: Seq<NodeV>, rows: u16, cols: u16, i: int, p: int)
    requires
        0 <= i,
        0 <= p < nodes.len(),
        nodes[p].node_type == (NodeTypeV::Player { dead: true }),
    ensures
        spec_fire_lasers_from(nodes, rows, cols, i).len() == nodes.len(),
        spec_fire_lasers_from(nodes, rows, cols, i)[p].node_type == (NodeTypeV::Player {
            dead: true,
        }),
    decreases nodes.len() - i,
{
    if i >= nodes.len() {
    } else {
        lemma_fire_laser_keeps_dead(nodes, rows, cols, i, p);
        lemma_pass_keeps_dead(spec_fire_laser(nodes, rows, cols, i), rows, cols, i + 1, p);
    }
}

/// Law: a beam that strikes the player kills him for the whole pass —
/// the striking fire sets the dead flag, and every fire after it
/// keeps the flag set, so the player is dead when the pass ends and
/// the next evaluation reports the loss.
pub proof fn lemma_pass_beam_kills_player(nodes: Seq<NodeV>, rows: u16, cols: u16, i: int, j: int)
    requires
        0 <= i < nodes.len(),
        nodes[j].node_type matches NodeTypeV::Player { .. },
        (nodes[i].node_type matches NodeTypeV::Laser { on: true, dir, .. } && beam_trace(
            nodes,
            rows,
            cols,
            nodes[i].row as int,
            nodes[i].col as int,
            dir,
            beam_fuel(rows, cols),
        ).hit == Some(j)),
    ensures
        spec_fire_lasers_from(nodes, rows, cols, i).len() == nodes.len(),
        spec_fire_lasers_from(nodes, rows, cols, i)[j].node_type == (NodeTypeV::Player {
            dead: true,
        }),
{
    lemma_fire_laser_hit(nodes, rows, cols, i, j);
    lemma_fire_laser_shape(nodes, rows, cols, i);
    lemma_pass_keeps_dead(spec_fire_laser(nodes, rows, cols, i), rows, cols, i + 1, j);
}

} // verus!
