use emergence_lib::geometry::{MapGeometry, TilePos};
use emergence_lib::kinds::{Goal, ItemId, SignalType, StructureId};
use emergence_lib::local::LocalSignals;
use emergence_lib::signal_map::SignalMap;
use emergence_lib::signals::Signals;
use emergence_lib::strength::SignalStrength;

const WHOLE: i64 = 1_000_000;

fn tile(x: u32, y: u32) -> TilePos {
    TilePos { x, y }
}

fn strength(hundredths: i64) -> SignalStrength {
    SignalStrength::new(hundredths * WHOLE / 100)
}

fn sorted_entries(map: &SignalMap) -> Vec<(u32, u32, u64)> {
    let mut entries: Vec<(u32, u32, u64)> =
        map.entries().iter().map(|(pos, s)| (pos.x, pos.y, s.value())).collect();
    entries.sort();
    entries
}

#[test]
fn a_signal_map_reads_zero_where_nothing_was_written() {
    let map = SignalMap::new();
    assert_eq!(map.get(tile(0, 0)), SignalStrength::zero());
    assert_eq!(map.get(tile(u32::MAX, u32::MAX)), SignalStrength::zero());
    assert!(map.entries().is_empty());
    assert!(SignalMap::default().entries().is_empty());
}

#[test]
fn a_signal_map_adds_to_what_is_there() {
    let mut map = SignalMap::new();
    map.add_signal(tile(1, 2), strength(150));
    map.add_signal(tile(1, 2), strength(25));
    map.add_signal(tile(2, 1), strength(300));
    assert_eq!(map.get(tile(1, 2)), strength(175));
    assert_eq!(map.get(tile(2, 1)), strength(300));
    assert_eq!(map.get(tile(1, 1)), SignalStrength::zero());
    assert_eq!(sorted_entries(&map), vec![(1, 2, 1_750_000), (2, 1, 3_000_000)]);
}

#[test]
fn a_signal_map_subtracts_down_to_zero() {
    let mut map = SignalMap::new();
    map.add_signal(tile(1, 2), strength(150));
    map.subtract_signal(tile(1, 2), strength(50));
    assert_eq!(map.get(tile(1, 2)), strength(100));
    map.subtract_signal(tile(1, 2), strength(500));
    assert_eq!(map.get(tile(1, 2)), SignalStrength::zero());
}

#[test]
fn subtracting_from_an_absent_tile_leaves_an_entry_at_zero() {
    let mut map = SignalMap::new();
    map.subtract_signal(tile(4, 4), strength(100));
    assert_eq!(map.get(tile(4, 4)), SignalStrength::zero());
    assert_eq!(sorted_entries(&map), vec![(4, 4, 0)]);
}

#[test]
fn a_signal_map_sets_a_strength_in_place_of_the_old() {
    let mut map = SignalMap::new();
    map.add_signal(tile(0, 0), strength(700));
    map.set_signal(tile(0, 0), strength(100));
    map.set_signal(tile(0, 1), strength(200));
    assert_eq!(sorted_entries(&map), vec![(0, 0, 1_000_000), (0, 1, 2_000_000)]);
}

#[test]
fn a_signal_map_stops_at_the_largest_strength() {
    let mut map = SignalMap::new();
    map.add_signal(tile(0, 0), SignalStrength::from_units(u64::MAX - 5));
    map.add_signal(tile(0, 0), SignalStrength::from_units(10));
    assert_eq!(map.get(tile(0, 0)).value(), u64::MAX);
}

#[test]
fn get_on_a_never_written_type_and_position_is_zero() {
    let mut signals = Signals::new();
    let push = SignalType::Push(ItemId(1));
    assert_eq!(signals.get(push, tile(0, 0)), SignalStrength::zero());
    signals.add_signal(push, tile(0, 0), strength(100));
    assert_eq!(signals.get(push, tile(0, 1)), SignalStrength::zero());
    assert_eq!(signals.get(SignalType::Pull(ItemId(1)), tile(0, 0)), SignalStrength::zero());
    assert_eq!(signals.get(SignalType::Push(ItemId(2)), tile(0, 0)), SignalStrength::zero());
    assert_eq!(signals.get(SignalType::Work(StructureId(1)), tile(0, 0)).value(), 0);
    assert_eq!(Signals::default().get(push, tile(0, 0)).value(), 0);
}

#[test]
fn adding_twice_at_one_tile_gives_the_sum() {
    let mut signals = Signals::new();
    let pull = SignalType::Pull(ItemId(3));
    signals.add_signal(pull, tile(2, 2), strength(125));
    signals.add_signal(pull, tile(2, 2), strength(250));
    assert_eq!(signals.get(pull, tile(2, 2)).value(), 3_750_000);
}

#[test]
fn signal_types_with_the_same_subject_are_kept_apart() {
    let mut signals = Signals::new();
    let pos = tile(1, 1);
    signals.add_signal(SignalType::Push(ItemId(5)), pos, strength(100));
    signals.add_signal(SignalType::Pull(ItemId(5)), pos, strength(200));
    signals.add_signal(SignalType::Contains(ItemId(5)), pos, strength(300));
    signals.add_signal(SignalType::Work(StructureId(5)), pos, strength(400));
    signals.add_signal(SignalType::Push(ItemId(6)), pos, strength(500));
    assert_eq!(signals.get(SignalType::Push(ItemId(5)), pos), strength(100));
    assert_eq!(signals.get(SignalType::Pull(ItemId(5)), pos), strength(200));
    assert_eq!(signals.get(SignalType::Contains(ItemId(5)), pos), strength(300));
    assert_eq!(signals.get(SignalType::Work(StructureId(5)), pos), strength(400));
    assert_eq!(signals.get(SignalType::Push(ItemId(6)), pos), strength(500));
}

#[test]
fn all_signals_at_position_lists_every_known_type() {
    let mut signals = Signals::new();
    signals.add_signal(SignalType::Push(ItemId(1)), tile(0, 0), strength(100));
    signals.add_signal(SignalType::Pull(ItemId(2)), tile(5, 5), strength(200));
    let here = signals.all_signals_at_position(tile(0, 0));
    assert_eq!(here.get(SignalType::Push(ItemId(1))), Some(strength(100)));
    assert_eq!(here.get(SignalType::Pull(ItemId(2))), Some(SignalStrength::zero()));
    assert_eq!(here.get(SignalType::Contains(ItemId(1))), None);
    assert_eq!(here.entries().len(), 2);
    let elsewhere = signals.all_signals_at_position(tile(9, 9));
    assert_eq!(elsewhere.entries().len(), 2);
    assert_eq!(elsewhere.get(SignalType::Push(ItemId(1))), Some(SignalStrength::zero()));
}

#[test]
fn all_signals_of_an_empty_registry_are_none() {
    let signals = Signals::new();
    assert!(signals.all_signals_at_position(tile(0, 0)).entries().is_empty());
}

#[test]
fn neighboring_signals_has_seven_entries_inside_the_map() {
    let map = MapGeometry::new(3, 3);
    let mut signals = Signals::new();
    let push = SignalType::Push(ItemId(1));
    signals.add_signal(push, tile(1, 1), strength(100));
    signals.add_signal(push, tile(2, 1), strength(200));
    signals.add_signal(push, tile(2, 2), strength(900));
    let nearby = signals.neighboring_signals(push, tile(1, 1), &map);
    assert_eq!(
        sorted_entries(&nearby),
        vec![
            (0, 1, 0),
            (0, 2, 0),
            (1, 0, 0),
            (1, 1, 1_000_000),
            (1, 2, 0),
            (2, 0, 0),
            (2, 1, 2_000_000)
        ]
    );
}

#[test]
fn neighboring_signals_has_fewer_entries_at_the_edge() {
    let map = MapGeometry::new(3, 3);
    let mut signals = Signals::new();
    let push = SignalType::Push(ItemId(1));
    signals.add_signal(push, tile(0, 1), strength(300));
    let nearby = signals.neighboring_signals(push, tile(0, 0), &map);
    assert_eq!(sorted_entries(&nearby), vec![(0, 0, 0), (0, 1, 3_000_000), (1, 0, 0)]);
    let outside = signals.neighboring_signals(push, tile(7, 7), &map);
    assert_eq!(sorted_entries(&outside), vec![(7, 7, 0)]);
}

#[test]
fn upstream_follows_the_strongest_pull_to_drop_off() {
    let map = MapGeometry::new(3, 3);
    let mut signals = Signals::new();
    let pull = SignalType::Pull(ItemId(1));
    let (a, b, c) = (tile(2, 1), tile(1, 2), tile(0, 2));
    signals.add_signal(pull, a, strength(100));
    signals.add_signal(pull, b, strength(300));
    signals.add_signal(pull, c, strength(0));
    assert_eq!(signals.upstream(tile(1, 1), &Goal::DropOff(ItemId(1)), &map), Some(b));
}

#[test]
fn upstream_is_none_where_every_neighbor_is_at_zero() {
    let map = MapGeometry::new(3, 3);
    let mut signals = Signals::new();
    assert_eq!(signals.upstream(tile(1, 1), &Goal::DropOff(ItemId(1)), &map), None);
    signals.add_signal(SignalType::Pull(ItemId(1)), tile(2, 1), strength(0));
    signals.add_signal(SignalType::Pull(ItemId(1)), tile(1, 1), strength(500));
    signals.add_signal(SignalType::Pull(ItemId(2)), tile(2, 1), strength(500));
    signals.add_signal(SignalType::Push(ItemId(1)), tile(2, 1), strength(500));
    assert_eq!(signals.upstream(tile(1, 1), &Goal::DropOff(ItemId(1)), &map), None);
}

#[test]
fn upstream_is_none_for_a_wanderer() {
    let map = MapGeometry::new(3, 3);
    let mut signals = Signals::new();
    assert_eq!(signals.upstream(tile(1, 1), &Goal::Wander, &map), None);
    signals.add_signal(SignalType::Push(ItemId(1)), tile(2, 1), strength(500));
    signals.add_signal(SignalType::Pull(ItemId(1)), tile(1, 2), strength(500));
    signals.add_signal(SignalType::Contains(ItemId(1)), tile(0, 1), strength(500));
    signals.add_signal(SignalType::Work(StructureId(1)), tile(1, 0), strength(500));
    assert_eq!(signals.upstream(tile(1, 1), &Goal::Wander, &map), None);
}

#[test]
fn upstream_adds_push_and_contains_for_pickup() {
    let map = MapGeometry::new(3, 3);
    let mut signals = Signals::new();
    let (first, second) = (tile(2, 1), tile(1, 2));
    signals.add_signal(SignalType::Push(ItemId(1)), first, strength(250));
    signals.add_signal(SignalType::Push(ItemId(1)), second, strength(200));
    signals.add_signal(SignalType::Contains(ItemId(1)), second, strength(100));
    assert_eq!(signals.upstream(tile(1, 1), &Goal::Pickup(ItemId(1)), &map), Some(second));
}

#[test]
fn upstream_for_pickup_follows_contains_alone_and_push_alone() {
    let map = MapGeometry::new(3, 3);
    let mut signals = Signals::new();
    signals.add_signal(SignalType::Contains(ItemId(1)), tile(0, 1), strength(100));
    assert_eq!(signals.upstream(tile(1, 1), &Goal::Pickup(ItemId(1)), &map), Some(tile(0, 1)));
    let mut signals = Signals::new();
    signals.add_signal(SignalType::Push(ItemId(1)), tile(1, 0), strength(100));
    assert_eq!(signals.upstream(tile(1, 1), &Goal::Pickup(ItemId(1)), &map), Some(tile(1, 0)));
    assert_eq!(signals.upstream(tile(1, 1), &Goal::Pickup(ItemId(2)), &map), None);
}

#[test]
fn upstream_ignores_pull_for_pickup_and_push_for_drop_off() {
    let map = MapGeometry::new(3, 3);
    let mut signals = Signals::new();
    signals.add_signal(SignalType::Pull(ItemId(1)), tile(2, 1), strength(900));
    signals.add_signal(SignalType::Push(ItemId(1)), tile(1, 2), strength(100));
    assert_eq!(signals.upstream(tile(1, 1), &Goal::Pickup(ItemId(1)), &map), Some(tile(1, 2)));
    assert_eq!(signals.upstream(tile(1, 1), &Goal::DropOff(ItemId(1)), &map), Some(tile(2, 1)));
}

#[test]
fn upstream_follows_work_to_the_structure() {
    let map = MapGeometry::new(3, 3);
    let mut signals = Signals::new();
    signals.add_signal(SignalType::Work(StructureId(4)), tile(2, 0), strength(10));
    signals.add_signal(SignalType::Work(StructureId(5)), tile(1, 0), strength(900));
    assert_eq!(
        signals.upstream(tile(1, 1), &Goal::Work(StructureId(4)), &map),
        Some(tile(2, 0))
    );
    assert_eq!(signals.upstream(tile(1, 1), &Goal::Work(StructureId(6)), &map), None);
}

#[test]
fn upstream_keeps_the_first_of_equal_tiles() {
    let map = MapGeometry::new(3, 3);
    let mut signals = Signals::new();
    let pull = SignalType::Pull(ItemId(1));
    signals.add_signal(pull, tile(1, 0), strength(300));
    signals.add_signal(pull, tile(0, 2), strength(300));
    signals.add_signal(pull, tile(2, 0), strength(300));
    assert_eq!(signals.upstream(tile(1, 1), &Goal::DropOff(ItemId(1)), &map), Some(tile(0, 2)));
}

#[test]
fn upstream_passes_over_occupied_tiles() {
    let mut map = MapGeometry::new(3, 3);
    let mut signals = Signals::new();
    let pull = SignalType::Pull(ItemId(1));
    signals.add_signal(pull, tile(2, 1), strength(900));
    signals.add_signal(pull, tile(0, 1), strength(100));
    map.occupy(tile(2, 1));
    assert_eq!(signals.upstream(tile(1, 1), &Goal::DropOff(ItemId(1)), &map), Some(tile(0, 1)));
    map.occupy(tile(0, 1));
    assert_eq!(signals.upstream(tile(1, 1), &Goal::DropOff(ItemId(1)), &map), None);
}

#[test]
fn upstream_does_not_stay_on_its_own_tile() {
    let map = MapGeometry::new(3, 3);
    let mut signals = Signals::new();
    let pull = SignalType::Pull(ItemId(1));
    signals.add_signal(pull, tile(1, 1), strength(900));
    signals.add_signal(pull, tile(1, 2), strength(1));
    assert_eq!(signals.upstream(tile(1, 1), &Goal::DropOff(ItemId(1)), &map), Some(tile(1, 2)));
}

#[test]
fn upstream_off_the_map_is_none() {
    let map = MapGeometry::new(3, 3);
    let mut signals = Signals::new();
    signals.add_signal(SignalType::Pull(ItemId(1)), tile(2, 2), strength(900));
    assert_eq!(signals.upstream(tile(3, 2), &Goal::DropOff(ItemId(1)), &map), None);
}

#[test]
fn goal_relevant_signals_leave_contains_out() {
    let mut local = LocalSignals::new();
    local.insert(SignalType::Contains(ItemId(1)), strength(500));
    local.insert(SignalType::Pull(ItemId(2)), strength(100));
    assert_eq!(local.goal_relevant_signals(), vec![(SignalType::Pull(ItemId(2)), strength(100))]);
}

#[test]
fn goal_relevant_signals_keep_everything_else() {
    let mut local = LocalSignals::new();
    local.insert(SignalType::Push(ItemId(1)), strength(100));
    local.insert(SignalType::Pull(ItemId(1)), strength(200));
    local.insert(SignalType::Contains(ItemId(1)), strength(300));
    local.insert(SignalType::Contains(ItemId(2)), strength(300));
    local.insert(SignalType::Work(StructureId(1)), strength(0));
    let mut relevant = local.goal_relevant_signals();
    relevant.sort();
    assert_eq!(
        relevant,
        vec![
            (SignalType::Push(ItemId(1)), strength(100)),
            (SignalType::Pull(ItemId(1)), strength(200)),
            (SignalType::Work(StructureId(1)), strength(0)),
        ]
    );
    assert!(LocalSignals::new().goal_relevant_signals().is_empty());
}

#[test]
fn a_snapshot_does_not_follow_the_registry() {
    let mut signals = Signals::new();
    let push = SignalType::Push(ItemId(1));
    signals.add_signal(push, tile(0, 0), strength(100));
    let local = signals.all_signals_at_position(tile(0, 0));
    signals.add_signal(push, tile(0, 0), strength(100));
    assert_eq!(local.get(push), Some(strength(100)));
    assert_eq!(signals.get(push, tile(0, 0)), strength(200));
}

#[test]
fn inserting_into_a_snapshot_replaces_the_strength() {
    let mut local = LocalSignals::new();
    local.insert(SignalType::Push(ItemId(1)), strength(100));
    local.insert(SignalType::Push(ItemId(1)), strength(700));
    assert_eq!(local.entries(), vec![(SignalType::Push(ItemId(1)), strength(700))]);
}

#[test]
fn keys_stand_for_signal_types() {
    let kinds = [
        SignalType::Push(ItemId(9)),
        SignalType::Pull(ItemId(9)),
        SignalType::Contains(ItemId(u64::MAX)),
        SignalType::Work(StructureId(0)),
    ];
    for (rank, kind) in kinds.iter().enumerate() {
        assert_eq!(kind.key().0, rank as u64);
        assert_eq!(SignalType::from_key(kind.key()), Some(*kind));
    }
    assert_eq!(SignalType::from_key((4, 0)), None);
    assert!(SignalType::Contains(ItemId(0)).is_contains());
    assert!(!SignalType::Push(ItemId(0)).is_contains());
}

#[test]
fn signal_types_are_ordered_by_variant_and_then_by_subject() {
    assert!(SignalType::Push(ItemId(9)) < SignalType::Pull(ItemId(0)));
    assert!(SignalType::Pull(ItemId(9)) < SignalType::Contains(ItemId(0)));
    assert!(SignalType::Contains(ItemId(9)) < SignalType::Work(StructureId(0)));
    assert!(SignalType::Push(ItemId(1)) < SignalType::Push(ItemId(2)));
}

#[test]
fn signal_types_are_listed_in_the_order_of_their_first_write() {
    let mut signals = Signals::new();
    assert!(signals.signal_types().is_empty());
    let pull = SignalType::Pull(ItemId(2));
    let work = SignalType::Work(StructureId(1));
    let push = SignalType::Push(ItemId(9));
    signals.add_signal(pull, tile(0, 0), strength(100));
    signals.add_signal(work, tile(0, 0), strength(0));
    signals.add_signal(pull, tile(1, 0), strength(100));
    signals.add_signal(push, tile(0, 0), strength(100));
    signals.add_signal(work, tile(3, 0), strength(100));
    assert_eq!(signals.signal_types(), vec![pull, work, push]);
}

#[test]
fn the_entries_of_a_signal_type_are_its_written_tiles() {
    let mut signals = Signals::new();
    let pull = SignalType::Pull(ItemId(2));
    signals.add_signal(pull, tile(2, 0), strength(100));
    signals.add_signal(pull, tile(0, 1), strength(300));
    signals.add_signal(pull, tile(2, 0), strength(100));
    signals.add_signal(SignalType::Push(ItemId(2)), tile(5, 5), strength(100));
    let mut entries: Vec<(u32, u32, u64)> = signals
        .entries(pull)
        .iter()
        .map(|(pos, s)| (pos.x, pos.y, s.value()))
        .collect();
    entries.sort();
    assert_eq!(entries, vec![(0, 1, 3_000_000), (2, 0, 2_000_000)]);
    assert!(signals.entries(SignalType::Contains(ItemId(2))).is_empty());
}
