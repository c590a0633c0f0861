//! Parsing the level text format: the legend, the walled rectangle,
//! the error cases, and the built-in levels.

use l1t::direction::Direction;
use l1t::direction::MirrorOrientation;
use l1t::level::Level;
use l1t::level::LevelInfo;
use l1t::level::LevelSource;
use l1t::level::ParseError;
use l1t::node::Node;
use l1t::node::NodeType;

fn lines(v: &[&str]) -> Vec<String> {
    v.iter().map(|s| s.to_string()).collect()
}

fn parse(v: &[&str]) -> Result<Level, ParseError> {
    Level::parse_full(&lines(v), LevelSource::File("test.l1t".to_string()))
}

fn node_at(level: &Level, row: u16, col: u16) -> Option<&Node> {
    level.nodes.iter().find(|n| n.row == row && n.col == col)
}

#[test]
fn legend_maps_every_character() {
    assert!(matches!(NodeType::from('X'), Some(NodeType::Player(p)) if !p.dead));
    assert!(matches!(NodeType::from('B'), Some(NodeType::Block(_))));
    assert!(matches!(NodeType::from('I'), Some(NodeType::Wall(_))));
    assert!(matches!(NodeType::from('s'), Some(NodeType::Switch(s)) if !s.on));
    assert!(matches!(NodeType::from('b'), Some(NodeType::Button(b)) if !b.pressed));
    assert!(matches!(NodeType::from('T'), Some(NodeType::ToggleBlock(t)) if t.visible));
    assert!(
        matches!(NodeType::from('S'), Some(NodeType::Statue(s)) if !s.lit && !s.reversed)
    );
    assert!(matches!(NodeType::from('R'), Some(NodeType::Statue(s)) if !s.lit && s.reversed));
    assert!(matches!(NodeType::from('Z'), Some(NodeType::Zapper(z)) if !z.lit));
    assert!(matches!(
        NodeType::from('/'),
        Some(NodeType::Mirror(m)) if m.dir == MirrorOrientation::Forward
    ));
    assert!(matches!(
        NodeType::from('\\'),
        Some(NodeType::Mirror(m)) if m.dir == MirrorOrientation::Backward
    ));
    assert!(matches!(
        NodeType::from('?'),
        Some(NodeType::Mirror(m)) if m.dir == MirrorOrientation::Forward
    ));
    assert!(matches!(
        NodeType::from('|'),
        Some(NodeType::Mirror(m)) if m.dir == MirrorOrientation::Backward
    ));
    let cases = [
        ('1', true, Direction::Up),
        ('2', true, Direction::Down),
        ('3', true, Direction::Left),
        ('4', true, Direction::Right),
        ('5', false, Direction::Up),
        ('6', false, Direction::Down),
        ('7', false, Direction::Left),
        ('8', false, Direction::Right),
    ];
    for (ch, on, dir) in cases {
        match NodeType::from(ch) {
            Some(NodeType::Laser(l)) => {
                assert_eq!(l.on, on);
                assert_eq!(l.dir, dir);
                assert!(l.shooting_at.is_empty());
            }
            other => panic!("laser char {ch} parsed to {other:?}"),
        }
    }
    assert!(NodeType::from(' ').is_none());
    assert!(NodeType::from('q').is_none());
}

#[test]
fn node_new_sets_moveability() {
    assert!(Node::new('X', 1, 1).moveable);
    assert!(Node::new('B', 1, 1).moveable);
    assert!(Node::new('?', 1, 1).moveable);
    assert!(Node::new('|', 1, 1).moveable);
    assert!(!Node::new('/', 1, 1).moveable);
    assert!(!Node::new('\\', 1, 1).moveable);
    assert!(!Node::new('S', 1, 1).moveable);
    assert!(!Node::new('4', 1, 1).moveable);
    // a character outside the legend becomes an immovable wall
    assert!(matches!(Node::new('q', 2, 3).node_type, NodeType::Wall(_)));
    assert!(!Node::new('q', 2, 3).moveable);
}

#[test]
fn parse_builds_entities_in_row_major_order() {
    let level = parse(&[
        "A Level",
        "An Author",
        "A Description",
        "IIIII",
        "I X I",
        "IB 4I",
        "IIIII",
    ])
    .unwrap();
    assert_eq!(level.rows, 4);
    assert_eq!(level.cols, 5);
    assert_eq!(level.nodes.len(), 3);
    assert!(matches!(level.nodes[0].node_type, NodeType::Player(_)));
    assert_eq!((level.nodes[0].row, level.nodes[0].col), (1, 2));
    assert!(matches!(level.nodes[1].node_type, NodeType::Block(_)));
    assert_eq!((level.nodes[1].row, level.nodes[1].col), (2, 1));
    assert!(matches!(level.nodes[2].node_type, NodeType::Laser(_)));
    assert_eq!((level.nodes[2].row, level.nodes[2].col), (2, 3));
    assert_eq!(level.player_index, Some(0));
    assert_eq!(level.info.name, "A Level");
    assert_eq!(level.info.author, "An Author");
    assert_eq!(level.info.description, "A Description");
}

#[test]
fn entity_count_matches_non_space_interior_characters() {
    let grid = ["N", "A", "D", "IIIIII", "IX B I", "I s/ZI", "IIIIII"];
    let level = parse(&grid).unwrap();
    let interior_chars: usize = grid[4..6]
        .iter()
        .map(|row| {
            row[1..row.len() - 1]
                .chars()
                .filter(|c| *c != ' ' && *c != 'I')
                .count()
        })
        .sum();
    assert_eq!(level.nodes.len(), interior_chars);
}

#[test]
fn parse_rejects_too_short_content() {
    assert_eq!(parse(&["name", "author"]).unwrap_err(), ParseError::Empty);
    assert_eq!(parse(&[]).unwrap_err(), ParseError::Empty);
    assert_eq!(
        parse(&["name", "author", "desc"]).unwrap_err(),
        ParseError::MissingLines
    );
    assert_eq!(
        parse(&["name", "author", "desc", "III", "III"]).unwrap_err(),
        ParseError::MissingLines
    );
}

#[test]
fn parse_rejects_narrow_grid() {
    assert_eq!(
        parse(&["name", "author", "desc", "II", "II", "II"]).unwrap_err(),
        ParseError::NarrowGrid
    );
}

#[test]
fn parse_rejects_ragged_rows() {
    assert_eq!(
        parse(&["name", "author", "desc", "IIII", "I  I", "III"]).unwrap_err(),
        ParseError::Ragged
    );
}

#[test]
fn parse_rejects_bad_border() {
    assert_eq!(
        parse(&["name", "author", "desc", "IIII", "I   ", "IIII"]).unwrap_err(),
        ParseError::BadBorder
    );
    assert_eq!(
        parse(&["name", "author", "desc", "IIXI", "I  I", "IIII"]).unwrap_err(),
        ParseError::BadBorder
    );
    assert_eq!(
        parse(&["name", "author", "desc", "IIII", "I  I", "IIQI"]).unwrap_err(),
        ParseError::BadBorder
    );
}

#[test]
fn parse_error_messages_are_readable() {
    assert_eq!(ParseError::Empty.message(), "Empty level file.");
    assert!(ParseError::BadBorder.message().contains("wall"));
    assert!(ParseError::MissingLines.message().contains("name"));
}

#[test]
fn reparsing_identical_text_is_structurally_identical() {
    let grid = [
        "Level",
        "Author",
        "Desc",
        "IIIIII",
        "IX /4I",
        "I SZ I",
        "IIIIII",
    ];
    let a = parse(&grid).unwrap();
    let b = parse(&grid).unwrap();
    assert_eq!(a.rows, b.rows);
    assert_eq!(a.cols, b.cols);
    assert_eq!(a.player_index, b.player_index);
    assert_eq!(a.nodes.len(), b.nodes.len());
    for (na, nb) in a.nodes.iter().zip(b.nodes.iter()) {
        assert_eq!(na.row, nb.row);
        assert_eq!(na.col, nb.col);
        assert_eq!(na.moveable, nb.moveable);
        assert_eq!(format!("{:?}", na.node_type), format!("{:?}", nb.node_type));
    }
}

#[test]
fn core_levels_all_parse() {
    assert_eq!(Level::NUM_CORE_LEVELS, 4);
    for i in 0..Level::NUM_CORE_LEVELS {
        let level = Level::core_level(i).unwrap();
        assert!(matches!(level.info.source, LevelSource::Core(n) if n == i));
        assert!(level.player_index.is_some());
        assert_eq!(level.info.author, "alex-laycalvert");
    }
    let first = Level::core_level(0).unwrap();
    assert_eq!(first.info.name, "Level 1");
    assert_eq!(first.rows, 7);
    assert_eq!(first.cols, 17);
    // exactly a laser, a player, a statue and two mirrors, row-major
    assert_eq!(first.nodes.len(), 5);
    assert_eq!(first.player_index, Some(3));
    assert_eq!((first.nodes[0].row, first.nodes[0].col), (2, 1));
    assert!(matches!(
        first.nodes[0].node_type,
        NodeType::Mirror(ref m) if m.dir == MirrorOrientation::Backward
    ));
    assert_eq!((first.nodes[1].row, first.nodes[1].col), (2, 13));
    assert!(matches!(
        first.nodes[1].node_type,
        NodeType::Mirror(ref m) if m.dir == MirrorOrientation::Forward
    ));
    assert_eq!((first.nodes[2].row, first.nodes[2].col), (4, 1));
    assert!(matches!(
        first.nodes[2].node_type,
        NodeType::Laser(ref l) if l.on && l.dir == Direction::Up
    ));
    assert_eq!((first.nodes[3].row, first.nodes[3].col), (4, 7));
    assert!(matches!(first.nodes[3].node_type, NodeType::Player(ref p) if !p.dead));
    assert_eq!((first.nodes[4].row, first.nodes[4].col), (4, 13));
    assert!(matches!(
        first.nodes[4].node_type,
        NodeType::Statue(ref st) if !st.lit && !st.reversed
    ));
    assert!(node_at(&first, 4, 1).is_some());
    assert!(node_at(&first, 4, 13).is_some());
}

#[test]
fn header_info_reads_three_lines() {
    let v = lines(&["n", "a", "d", "grid"]);
    let info = LevelInfo::from_lines(LevelSource::File("f".to_string()), &v).unwrap();
    assert_eq!(info.name, "n");
    assert_eq!(info.author, "a");
    assert_eq!(info.description, "d");
    let short = lines(&["n", "a"]);
    assert!(LevelInfo::from_lines(LevelSource::File("f".to_string()), &short).is_none());
}

#[test]
fn sorted_level_names_orders_numbers_numerically() {
    let names = lines(&["file10.txt", "file2.txt", "file1.txt"]);
    let sorted = Level::sorted_level_names(names);
    assert_eq!(sorted, lines(&["file1.txt", "file2.txt", "file10.txt"]));
}

#[test]
fn parse_text_trims_and_splits() {
    let text = "\nTiny\nMe\nSmall\nIIIII\nIX 4I\nI   I\nI   I\nIIIII\n\n";
    let level = Level::parse_text(text, LevelSource::File("t.l1t".to_string())).unwrap();
    assert_eq!(level.info.name, "Tiny");
    assert_eq!(level.rows, 5);
    assert_eq!(level.cols, 5);
    assert_eq!(level.nodes.len(), 2);
}

#[test]
fn parse_text_reports_errors_like_parse_full() {
    let text = "Tiny\nMe";
    let err = Level::parse_text(text, LevelSource::File("t.l1t".to_string())).unwrap_err();
    assert_eq!(err, ParseError::Empty);
}

#[test]
fn text_helpers_trim_and_split() {
    assert_eq!(l1t::text::trim_spaces("  a b \t\r\n"), "a b");
    assert_eq!(l1t::text::trim_spaces(""), "");
    assert_eq!(l1t::text::trim_spaces(" \t "), "");
    let pieces = l1t::text::split_lines("one\ntwo\n\nthree");
    assert_eq!(pieces, vec!["one", "two", "", "three"]);
    assert_eq!(l1t::text::split_lines(""), vec![""]);
}

#[test]
fn names_with_ten_digit_runs_come_back_unchanged() {
    // a run of ten or more digits would overflow the human-friendly
    // numeric comparison, so such a list is returned as it came
    let names = lines(&["b4294967296999.l1t", "a0.l1t"]);
    let result = Level::sorted_level_names(names.clone());
    assert_eq!(result, names);
    // nine digits are still sorted numerically
    let names = lines(&["file999999999.l1t", "file2.l1t"]);
    let result = Level::sorted_level_names(names);
    assert_eq!(result, lines(&["file2.l1t", "file999999999.l1t"]));
}

#[test]
fn sorting_a_comparison_cycle_keeps_all_names() {
    // these three names order in a cycle under the human-friendly
    // comparison; the sort must still return them all, in some order
    let names = lines(&["a01b10", "a1b11", "a1c2"]);
    let mut result = Level::sorted_level_names(names.clone());
    assert_eq!(result.len(), 3);
    result.sort();
    let mut expected = names;
    expected.sort();
    assert_eq!(result, expected);
}
