use std::collections::{HashMap, HashSet};

use beam_logic::direction::{Direction, Pos};
use beam_logic::game::achievements::{
    award_campaign_achievements, award_sandbox_playtime_achievements, ADDER_SUBTRACTOR,
    BASIC_OSCILLATOR, BASIC_ROUTING, MULTIPLIER, NOT_GATE, RS_LATCH, SERIAL_BUS, TRIPLE_IT, XOR_GATE,
};
use beam_logic::game::board::{valid_tile, BoardMeta, LevelMeta, SAVE_VERSION};
use beam_logic::game::holding::Holding;
use beam_logic::integrations::RichPresence;
use beam_logic::level::case::{EventType, TestCase};
use beam_logic::level::tree::LevelTree;
use beam_logic::level::{DisplayConfig, ElementLocation, Level, LevelIo, Tests};
use beam_logic::map::TileMap;
use beam_logic::screens::about::Page;
use beam_logic::screens::campaign::{all_solved, is_available};
use beam_logic::screens::debug_overlay::DebugOverlay;
use beam_logic::simulation::acceleration::Acceleration;
use beam_logic::tile::{Tile, TileType};

fn level(id: u128, parents: Vec<u128>) -> Level {
    Level {
        id,
        name: format!("level {id}"),
        description: String::new(),
        parents,
        size: None,
        permanent: vec![],
        labels: vec![],
        disabled: None,
        tiles: TileMap::new(),
        tests: Tests {
            lasers: vec![0, 1],
            detectors: vec![2],
            display: None,
            hidden: HashSet::new(),
            cases: vec![],
        },
    }
}

fn cycle(l: Vec<bool>) -> TestCase {
    TestCase::Cycle { lasers: l, detectors: vec![vec![true]] }
}

#[test]
fn classify_takes_the_first_matching_list() {
    let o = vec![true, false];
    let other = vec![false, false];
    assert_eq!(EventType::classify(&[o.clone()], &[o.clone()], &[], EventType::Fail, &o), EventType::Pass);
    assert_eq!(EventType::classify(&[], &[o.clone()], &[o.clone()], EventType::Pass, &o), EventType::Neutral);
    assert_eq!(EventType::classify(&[other.clone()], &[], &[o.clone()], EventType::Pass, &o), EventType::Fail);
    assert_eq!(EventType::classify(&[other.clone()], &[], &[], EventType::Fail, &o), EventType::Fail);
    assert_eq!(EventType::classify(&[], &[], &[], EventType::default(), &o), EventType::Neutral);
}

#[test]
fn lasers_of_both_case_kinds() {
    assert_eq!(cycle(vec![true, false]).lasers(), &vec![true, false]);
    let e = TestCase::Event {
        lasers: vec![false],
        default: EventType::Pass,
        pass: vec![],
        neutral: vec![],
        fail: vec![],
    };
    assert_eq!(e.lasers(), &vec![false]);
}

#[test]
fn previews_only_single_state_cycles() {
    let l = level(1, vec![]);
    let c = cycle(vec![true, false]);
    let p = c.preview(&l).unwrap();
    assert_eq!(p.elements(), 3);
    assert_eq!(p.laser(), vec![(true, 0), (false, 1)]);
    assert_eq!(p.detector(), vec![(true, 2)]);
    let two = TestCase::Cycle { lasers: vec![true], detectors: vec![vec![true], vec![false]] };
    assert!(two.preview(&l).is_none());
    let e = TestCase::Event { lasers: vec![], default: EventType::Pass, pass: vec![], neutral: vec![], fail: vec![] };
    assert!(e.preview(&l).is_none());
}

#[test]
fn dynamic_ids_are_the_tests_emitters_and_detectors() {
    let l = level(1, vec![]);
    assert!(l.is_dynamic(0));
    assert!(l.is_dynamic(2));
    assert!(!l.is_dynamic(3));
}

#[test]
fn hidden_cases_are_skipped() {
    let mut t = level(1, vec![]).tests;
    t.cases = vec![cycle(vec![true]), cycle(vec![false]), cycle(vec![true, true])];
    t.hidden.insert(1);
    assert_eq!(t.visible_count(), 2);
    assert_eq!(t.get_visible(0).lasers(), &vec![true]);
    assert_eq!(t.get_visible(1).lasers(), &vec![true, true]);
}

#[test]
fn display_breaks_and_spaces() {
    let mut d = DisplayConfig {
        emitter_breaks: HashSet::new(),
        emitter_spaces: HashSet::new(),
        detector_breaks: HashSet::new(),
        detector_spaces: HashSet::new(),
        descriptions: HashMap::new(),
    };
    d.emitter_breaks.insert(2);
    d.detector_spaces.insert(1);
    assert!(d.do_break(LevelIo::Emitter, 2));
    assert!(!d.do_break(LevelIo::Detector, 2));
    assert!(d.do_space(LevelIo::Detector, 1));
    assert!(!d.do_space(LevelIo::Emitter, 1));
}

#[test]
fn static_locations_have_a_position() {
    assert_eq!(ElementLocation::Static(Pos::new(3, -2)).into_pos(), Pos::new(3, -2));
}

#[test]
fn single_line_descriptions_stay_as_they_are() {
    let mut l = level(1, vec![]);
    l.description = String::from("Route the beam.");
    l.unindent_description();
    assert_eq!(l.description, "Route the beam.");
}

#[test]
fn descriptions_lose_their_common_indentation() {
    let mut l = level(1, vec![]);
    l.description = String::from("\n    First line.\n    Second line.");
    l.unindent_description();
    assert_eq!(l.description, "First line.\nSecond line.");
}

#[test]
fn the_tree_knows_roots_parents_and_levels() {
    let levels = vec![level(1, vec![]), level(2, vec![1]), level(3, vec![1, 2]), level(4, vec![])];
    let tree = LevelTree::new(&levels);
    assert_eq!(tree.count(), 4);
    assert_eq!(tree.get(3).unwrap().id, 3);
    assert!(tree.get(9).is_none());
    let mut roots = tree.root();
    roots.sort();
    assert_eq!(roots, vec![1, 4]);
    assert_eq!(tree.parents(3), Some(&vec![1, 2]));
    assert_eq!(tree.parents(1), None);
}

#[test]
fn levels_are_available_once_a_parent_is_solved() {
    let levels = vec![level(1, vec![]), level(2, vec![1]), level(3, vec![1, 2])];
    let tree = LevelTree::new(&levels);
    let mut solved = HashSet::new();
    assert!(is_available(&tree, &solved, 1));
    assert!(!is_available(&tree, &solved, 2));
    solved.insert(1);
    assert!(is_available(&tree, &solved, 2));
    assert!(is_available(&tree, &solved, 3));
    assert!(!all_solved(&levels, &solved));
    solved.insert(2);
    solved.insert(3);
    assert!(all_solved(&levels, &solved));
}

#[test]
fn holding_reports_its_ids_sorted() {
    assert!(Holding::default().is_none());
    assert!(!Holding::Nothing.any_dynamic());
    let t = Holding::Tile(Tile::Detector { id: Some(4) });
    assert!(!t.is_none());
    assert!(t.any_dynamic());
    assert_eq!(t.dynamic(), vec![4]);
    let p = Holding::Paste(vec![
        (Pos::new(0, 0), Tile::Detector { id: Some(9) }),
        (Pos::new(1, 0), Tile::Wall),
        (Pos::new(2, 0), Tile::Emitter { rotation: Direction::Up, active: false, id: Some(3) }),
        (Pos::new(3, 0), Tile::Detector { id: Some(9) }),
    ]);
    assert!(p.any_dynamic());
    assert_eq!(p.dynamic(), vec![3, 9]);
    let plain = Holding::Paste(vec![(Pos::new(0, 0), Tile::Wall)]);
    assert!(!plain.any_dynamic());
    assert!(plain.dynamic().is_empty());
}

#[test]
fn campaign_achievements() {
    let none = HashSet::new();
    assert_eq!(award_campaign_achievements(BASIC_ROUTING, &none, (99999, 99)), vec!["its_beam_time"]);
    assert_eq!(award_campaign_achievements(NOT_GATE, &none, (0, 0)), vec!["turing_complete"]);
    assert_eq!(award_campaign_achievements(XOR_GATE, &none, (2000, 0)), vec!["cheapest_xor"]);
    assert!(award_campaign_achievements(XOR_GATE, &none, (2001, 0)).is_empty());
    assert_eq!(award_campaign_achievements(BASIC_OSCILLATOR, &none, (0, 2)), vec!["low_latency_oscillator"]);
    assert!(award_campaign_achievements(BASIC_OSCILLATOR, &none, (0, 3)).is_empty());
    assert_eq!(award_campaign_achievements(RS_LATCH, &none, (1500, 0)), vec!["compact_memory_cell"]);
    assert_eq!(award_campaign_achievements(SERIAL_BUS, &none, (64000, 0)), vec!["cheep_serial_bus"]);
    assert!(award_campaign_achievements(SERIAL_BUS, &none, (64001, 0)).is_empty());
    let all: HashSet<u128> = [MULTIPLIER, ADDER_SUBTRACTOR, TRIPLE_IT].into_iter().collect();
    assert_eq!(award_campaign_achievements(TRIPLE_IT, &all, (0, 0)), vec!["binary_arithmetic"]);
    assert!(award_campaign_achievements(BASIC_ROUTING, &all, (0, 0)) == vec!["its_beam_time"]);
    let two: HashSet<u128> = [MULTIPLIER, TRIPLE_IT].into_iter().collect();
    assert!(award_campaign_achievements(MULTIPLIER, &two, (0, 0)).is_empty());
}

#[test]
fn sandbox_achievements() {
    assert!(award_sandbox_playtime_achievements(3599).is_empty());
    assert_eq!(award_sandbox_playtime_achievements(3600), vec!["sandbox_1hr"]);
    assert_eq!(award_sandbox_playtime_achievements(86400), vec!["sandbox_1hr", "sandbox_24hr"]);
}

#[test]
fn valid_tiles_respect_fixed_cells_and_size() {
    let mut l = level(1, vec![]);
    l.permanent = vec![Pos::new(1, 1)];
    assert!(valid_tile(Pos::new(0, 0), Some(&l), Some((2, 2))));
    assert!(!valid_tile(Pos::new(1, 1), Some(&l), Some((2, 2))));
    assert!(!valid_tile(Pos::new(2, 0), Some(&l), Some((2, 2))));
    assert!(!valid_tile(Pos::new(-1, 0), None, Some((2, 2))));
    assert!(valid_tile(Pos::new(1000, -1000), None, None));
    assert!(!valid_tile(Pos::new(0, 0), None, Some((0, 5))));
}

#[test]
fn board_meta_bookkeeping() {
    let mut m = BoardMeta::new_sandbox(String::from("World"), 1234);
    assert_eq!(m.version, SAVE_VERSION);
    assert_eq!(m.name, "World");
    assert_eq!(m.playtime, 0);
    assert!(!m.is_solved());
    m.level = Some(LevelMeta { id: 5, solved: true });
    assert!(m.is_solved());
    m.version = 2;
    m.stamp_save(60, 5678);
    assert_eq!((m.version, m.playtime, m.last_played), (SAVE_VERSION, 60, 5678));
}

#[test]
fn rich_presence_tokens() {
    assert_eq!(RichPresence::Nothing.steam_display(), None);
    assert_eq!(RichPresence::Sandbox.steam_display(), Some("#Status_Sandbox"));
    assert_eq!(RichPresence::Campaign(String::from("Adder")).steam_display(), Some("#Status_Campaign"));
}

#[test]
fn about_pages() {
    assert_eq!(Page::all(), [Page::General, Page::Controls]);
    assert_eq!(Page::General.name(), "General");
    assert_eq!(Page::Controls.name(), "Controls");
}

#[test]
fn the_overlay_counts_frames_per_second() {
    let mut o = DebugOverlay::default();
    assert!(!o.frame(false));
    assert!(!o.frame(false));
    assert!(o.frame(true));
    assert_eq!((o.frames, o.last_frames), (0, 3));
    o.frame(false);
    assert_eq!((o.frames, o.last_frames), (1, 3));
}

#[test]
fn acceleration_sorts_components_into_classes() {
    let mut a = Acceleration::new();
    a.track(TileType::Delay, Pos::new(0, 0));
    a.track(TileType::Mirror, Pos::new(1, 0));
    a.track(TileType::Wall, Pos::new(2, 0));
    a.track(TileType::Wall, Pos::new(2, 0));
    assert_eq!(a.delay, vec![Pos::new(0, 0)]);
    assert_eq!(a.beam_modifier, vec![Pos::new(1, 0)]);
    assert_eq!(a.post, vec![Pos::new(2, 0)]);
    assert!(a.beam.is_empty());
}
