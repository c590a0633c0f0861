//! The simulation engine: beam tracing and reflection, pushing,
//! the "use" action, and the per-tick verdict.

use l1t::controls::Control;
use l1t::direction::Direction;
use l1t::direction::MirrorOrientation;
use l1t::level::Level;
use l1t::level::LevelLossReason;
use l1t::level::LevelSource;
use l1t::node::Node;
use l1t::node::NodeType;

fn lines(v: &[&str]) -> Vec<String> {
    v.iter().map(|s| s.to_string()).collect()
}

fn parse(v: &[&str]) -> Level {
    Level::parse_full(&lines(v), LevelSource::File("test.l1t".to_string())).unwrap()
}

fn node_at(level: &Level, row: u16, col: u16) -> Option<&Node> {
    level.nodes.iter().find(|n| n.row == row && n.col == col)
}

#[test]
fn reflection_all_eight_cases() {
    let fw = MirrorOrientation::Forward;
    let bw = MirrorOrientation::Backward;
    assert_eq!(Direction::Right.reflect(fw), Direction::Up);
    assert_eq!(Direction::Left.reflect(fw), Direction::Down);
    assert_eq!(Direction::Up.reflect(fw), Direction::Right);
    assert_eq!(Direction::Down.reflect(fw), Direction::Left);
    assert_eq!(Direction::Right.reflect(bw), Direction::Down);
    assert_eq!(Direction::Left.reflect(bw), Direction::Up);
    assert_eq!(Direction::Up.reflect(bw), Direction::Left);
    assert_eq!(Direction::Down.reflect(bw), Direction::Right);
}

#[test]
fn three_by_three_interior_wins_on_first_tick() {
    // a laser facing right across an empty middle cell into a statue
    let mut level = parse(&["n", "a", "d", "IIIII", "I4 SI", "I   I", "I   I", "IIIII"]);
    let state = level.tick();
    assert!(state.has_won);
    assert!(!state.is_playing);
    assert!(state.reason_for_loss.is_none());
    match &node_at(&level, 1, 3).unwrap().node_type {
        NodeType::Statue(s) => assert!(s.lit && !s.reversed),
        other => panic!("expected a statue, got {other:?}"),
    }
}

#[test]
fn beam_is_recorded_inside_the_interior_only() {
    let mut level = parse(&["n", "a", "d", "IIIII", "I4  I", "I   I", "I   I", "IIIII"]);
    level.tick();
    match &node_at(&level, 1, 1).unwrap().node_type {
        NodeType::Laser(l) => {
            assert_eq!(l.shooting_at.len(), 2);
            assert_eq!((l.shooting_at[0].0, l.shooting_at[0].1), (1, 2));
            assert_eq!((l.shooting_at[1].0, l.shooting_at[1].1), (1, 3));
            assert_eq!(l.shooting_at[0].2, '-');
            assert_eq!(l.shooting_at[0].3, '>');
            for cell in &l.shooting_at {
                assert!(cell.0 >= 1 && cell.0 < level.rows - 1);
                assert!(cell.1 >= 1 && cell.1 < level.cols - 1);
            }
            assert!(l.shooting_at.len() <= (level.rows + level.cols) as usize);
        }
        other => panic!("expected a laser, got {other:?}"),
    }
}

#[test]
fn mirror_turns_the_beam() {
    // the beam runs right, meets a `/` mirror and turns up into a statue
    let mut level = parse(&["n", "a", "d", "IIIII", "I  SI", "I4 /I", "I   I", "IIIII"]);
    let state = level.tick();
    assert!(state.has_won);
    match &node_at(&level, 2, 1).unwrap().node_type {
        NodeType::Laser(l) => {
            let cells: Vec<(u16, u16)> = l.shooting_at.iter().map(|c| (c.0, c.1)).collect();
            assert_eq!(cells, vec![(2, 2), (2, 3), (1, 3)]);
            // the beam body switches from horizontal to vertical after the mirror
            assert_eq!(l.shooting_at[1].2, '-');
            assert_eq!(l.shooting_at[2].2, '|');
        }
        other => panic!("expected a laser, got {other:?}"),
    }
}

#[test]
fn beam_striking_player_loses_on_next_evaluation() {
    let mut level = parse(&["n", "a", "d", "IIIII", "I4 XI", "I   I", "I   I", "IIIII"]);
    let state = level.tick();
    assert!(!state.is_playing);
    assert!(!state.has_won);
    assert_eq!(state.reason_for_loss, Some(LevelLossReason::Death));
    match &node_at(&level, 1, 3).unwrap().node_type {
        NodeType::Player(p) => assert!(p.dead),
        other => panic!("expected the player, got {other:?}"),
    }
}

#[test]
fn beam_striking_zapper_loses_same_tick() {
    let mut level = parse(&["n", "a", "d", "IIIII", "I4 ZI", "I  SI", "I   I", "IIIII"]);
    let state = level.tick();
    assert!(!state.is_playing);
    assert!(!state.has_won);
    assert_eq!(state.reason_for_loss, Some(LevelLossReason::Zapper));
}

#[test]
fn beam_turns_another_laser_off() {
    let mut level = parse(&["n", "a", "d", "IIIII", "I4 3I", "I   I", "I   I", "IIIII"]);
    level.tick();
    match &node_at(&level, 1, 3).unwrap().node_type {
        NodeType::Laser(l) => assert!(!l.on),
        other => panic!("expected a laser, got {other:?}"),
    }
}

#[test]
fn reversed_statue_wins_only_without_the_beam() {
    let mut level = parse(&["n", "a", "d", "IIIII", "I4 RI", "I   I", "I   I", "IIIII"]);
    let state = level.tick();
    // the reversed statue is lit, so the round goes on
    assert!(state.is_playing);
    assert!(!state.has_won);
    // with the laser off the statue's light resets and the round is won
    for node in level.nodes.iter_mut() {
        if matches!(node.node_type, NodeType::Laser(_)) {
            node.turn_off();
        }
    }
    let state = level.tick();
    assert!(state.has_won);
}

#[test]
fn off_laser_contributes_no_beam() {
    let mut level = parse(&["n", "a", "d", "IIIII", "I8 SI", "I   I", "I   I", "IIIII"]);
    let state = level.tick();
    assert!(state.is_playing);
    match &node_at(&level, 1, 1).unwrap().node_type {
        NodeType::Laser(l) => assert!(l.shooting_at.is_empty()),
        other => panic!("expected a laser, got {other:?}"),
    }
}

#[test]
fn push_moves_block_exactly_one_cell() {
    let mut level = parse(&["n", "a", "d", "IIIIII", "IXB  I", "I    I", "I    I", "IIIIII"]);
    level.move_player(Direction::Right);
    // the block moved one cell; the player stands in the block's old cell
    assert!(matches!(
        node_at(&level, 1, 3).unwrap().node_type,
        NodeType::Block(_)
    ));
    assert!(matches!(
        node_at(&level, 1, 2).unwrap().node_type,
        NodeType::Player(_)
    ));
    assert!(node_at(&level, 1, 1).is_none());
}

#[test]
fn push_against_wall_moves_nothing() {
    let mut level = parse(&["n", "a", "d", "IIIII", "I XBI", "I   I", "I   I", "IIIII"]);
    level.move_player(Direction::Right);
    assert!(matches!(
        node_at(&level, 1, 2).unwrap().node_type,
        NodeType::Player(_)
    ));
    assert!(matches!(
        node_at(&level, 1, 3).unwrap().node_type,
        NodeType::Block(_)
    ));
}

#[test]
fn push_against_occupied_cell_moves_nothing() {
    let mut level = parse(&["n", "a", "d", "IIIIII", "IXBs I", "I    I", "I    I", "IIIIII"]);
    level.move_player(Direction::Right);
    assert!(matches!(
        node_at(&level, 1, 1).unwrap().node_type,
        NodeType::Player(_)
    ));
    assert!(matches!(
        node_at(&level, 1, 2).unwrap().node_type,
        NodeType::Block(_)
    ));
}

#[test]
fn player_cannot_enter_the_wall_ring() {
    let mut level = parse(&["n", "a", "d", "IIIII", "IX  I", "I   I", "I   I", "IIIII"]);
    level.move_player(Direction::Up);
    assert!(matches!(
        node_at(&level, 1, 1).unwrap().node_type,
        NodeType::Player(_)
    ));
    level.move_player(Direction::Left);
    assert!(matches!(
        node_at(&level, 1, 1).unwrap().node_type,
        NodeType::Player(_)
    ));
}

#[test]
fn player_moves_into_empty_cells() {
    let mut level = parse(&["n", "a", "d", "IIIII", "IX  I", "I   I", "I   I", "IIIII"]);
    level.move_player(Direction::Down);
    level.move_player(Direction::Right);
    assert!(node_at(&level, 1, 1).is_none());
    assert!(matches!(
        node_at(&level, 2, 2).unwrap().node_type,
        NodeType::Player(_)
    ));
}

#[test]
fn immovable_entities_block_the_player() {
    let mut level = parse(&["n", "a", "d", "IIIII", "IXs I", "I   I", "I   I", "IIIII"]);
    level.move_player(Direction::Right);
    assert!(matches!(
        node_at(&level, 1, 1).unwrap().node_type,
        NodeType::Player(_)
    ));
}

#[test]
fn use_action_toggles_adjacent_laser_mirror_switch_only() {
    let mut level = parse(&["n", "a", "d", "IIIII", "I s I", "I4X/I", "I b I", "IIIII"]);
    level.player_action();
    match &node_at(&level, 2, 1).unwrap().node_type {
        NodeType::Laser(l) => assert!(!l.on),
        other => panic!("expected a laser, got {other:?}"),
    }
    match &node_at(&level, 2, 3).unwrap().node_type {
        NodeType::Mirror(m) => assert_eq!(m.dir, MirrorOrientation::Backward),
        other => panic!("expected a mirror, got {other:?}"),
    }
    match &node_at(&level, 1, 2).unwrap().node_type {
        NodeType::Switch(s) => assert!(s.on),
        other => panic!("expected a switch, got {other:?}"),
    }
    // the button below the player is never pressed by the action
    match &node_at(&level, 3, 2).unwrap().node_type {
        NodeType::Button(b) => assert!(!b.pressed),
        other => panic!("expected a button, got {other:?}"),
    }
}

#[test]
fn use_action_ignores_distant_entities() {
    let mut level = parse(&["n", "a", "d", "IIIIII", "IX  sI", "I    I", "I    I", "IIIIII"]);
    level.player_action();
    match &node_at(&level, 1, 4).unwrap().node_type {
        NodeType::Switch(s) => assert!(!s.on),
        other => panic!("expected a switch, got {other:?}"),
    }
}

#[test]
fn controls_map_to_moves_and_action() {
    let mut level = parse(&["n", "a", "d", "IIIII", "IX4 I", "I   I", "I   I", "IIIII"]);
    level.apply_control(Control::Down);
    assert!(matches!(
        node_at(&level, 2, 1).unwrap().node_type,
        NodeType::Player(_)
    ));
    level.apply_control(Control::Up);
    level.apply_control(Control::Action);
    match &node_at(&level, 1, 2).unwrap().node_type {
        NodeType::Laser(l) => assert!(!l.on),
        other => panic!("expected a laser, got {other:?}"),
    }
    // commands outside the engine's set change nothing
    level.apply_control(Control::Help);
    level.apply_control(Control::Quit);
    level.apply_control(Control::Noop);
    assert!(matches!(
        node_at(&level, 1, 1).unwrap().node_type,
        NodeType::Player(_)
    ));
}

#[test]
fn statues_reset_each_tick() {
    let mut level = parse(&["n", "a", "d", "IIIII", "I4 SI", "I   I", "I   I", "IIIII"]);
    level.tick();
    // push the mirror of state forward: turn the laser off by hand and
    // the statue must go dark on the next tick
    for node in level.nodes.iter_mut() {
        if matches!(node.node_type, NodeType::Laser(_)) {
            node.turn_off();
        }
    }
    let state = level.tick();
    match &node_at(&level, 1, 3).unwrap().node_type {
        NodeType::Statue(s) => assert!(!s.lit),
        other => panic!("expected a statue, got {other:?}"),
    }
    assert!(state.is_playing);
}

#[test]
fn first_core_level_starts_playing() {
    let mut level = Level::core_level(0).unwrap();
    let state = level.tick();
    assert!(state.is_playing);
    assert!(!state.has_won);
    assert!(state.reason_for_loss.is_none());
}

#[test]
fn toggle_flips_every_payload() {
    let mut player = Node::new('X', 1, 1);
    player.toggle();
    assert!(matches!(player.node_type, NodeType::Player(ref p) if p.dead));
    let mut mirror = Node::new('/', 1, 1);
    mirror.toggle();
    assert!(matches!(
        mirror.node_type,
        NodeType::Mirror(ref m) if m.dir == MirrorOrientation::Backward
    ));
    mirror.toggle();
    assert!(matches!(
        mirror.node_type,
        NodeType::Mirror(ref m) if m.dir == MirrorOrientation::Forward
    ));
    let mut wall = Node::new('I', 1, 1);
    wall.toggle();
    assert!(matches!(wall.node_type, NodeType::Wall(_)));
}

#[test]
fn capabilities_follow_the_variant() {
    assert!(Node::new('4', 1, 1).is_player_toggleable());
    assert!(Node::new('/', 1, 1).is_player_toggleable());
    assert!(Node::new('s', 1, 1).is_player_toggleable());
    assert!(!Node::new('b', 1, 1).is_player_toggleable());
    assert!(!Node::new('S', 1, 1).is_player_toggleable());
    assert!(Node::new('X', 1, 1).is_laser_toggleable());
    assert!(Node::new('4', 1, 1).is_laser_toggleable());
    assert!(Node::new('S', 1, 1).is_laser_toggleable());
    assert!(Node::new('Z', 1, 1).is_laser_toggleable());
    assert!(!Node::new('B', 1, 1).is_laser_toggleable());
    assert!(!Node::new('T', 1, 1).is_laser_toggleable());
}

#[test]
fn two_beams_on_one_statue_toggle_it_dark() {
    // a beam impact toggles a statue, so a second beam in the same
    // tick puts its light out again and the round goes on
    let mut level = parse(&["n", "a", "d", "IIIIIII", "I4 S 3I", "I     I", "I     I", "IIIIIII"]);
    let state = level.tick();
    assert!(state.is_playing);
    match &node_at(&level, 1, 3).unwrap().node_type {
        NodeType::Statue(s) => assert!(!s.lit),
        other => panic!("expected a statue, got {other:?}"),
    }
}

#[test]
fn moveable_mirror_is_pushed_like_a_block() {
    let mut level = parse(&["n", "a", "d", "IIIIII", "IX?  I", "I    I", "I    I", "IIIIII"]);
    level.move_player(Direction::Right);
    assert!(matches!(
        node_at(&level, 1, 3).unwrap().node_type,
        NodeType::Mirror(_)
    ));
    assert!(matches!(
        node_at(&level, 1, 2).unwrap().node_type,
        NodeType::Player(_)
    ));
}
