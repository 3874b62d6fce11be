use emergence_lib::kinds::{ItemId, SignalType, StructureId};
use emergence_lib::local::LocalSignals;
use emergence_lib::signals::Signals;
use emergence_lib::geometry::TilePos;
use emergence_lib::strength::SignalStrength;

fn shown(units: u64) -> String {
    let mut local = LocalSignals::new();
    local.insert(SignalType::Push(ItemId(0)), SignalStrength::from_units(units));
    local.to_string()
}

#[test]
fn a_signal_type_is_written_with_its_subject() {
    assert_eq!(SignalType::Push(ItemId(7)).to_string(), "Push(7)");
    assert_eq!(SignalType::Pull(ItemId(10)).to_string(), "Pull(10)");
    assert_eq!(SignalType::Contains(ItemId(0)).to_string(), "Contains(0)");
    assert_eq!(SignalType::Work(StructureId(1234567890)).to_string(), "Work(1234567890)");
    assert_eq!(
        SignalType::Contains(ItemId(u64::MAX)).to_string(),
        "Contains(18446744073709551615)"
    );
}

#[test]
fn a_strength_is_written_with_two_decimal_places() {
    assert_eq!(shown(0), "Push(0): 0.00\n");
    assert_eq!(shown(1_000_000), "Push(0): 1.00\n");
    assert_eq!(shown(2_500_000), "Push(0): 2.50\n");
    assert_eq!(shown(50_000), "Push(0): 0.05\n");
    assert_eq!(shown(123_456_789), "Push(0): 123.46\n");
    assert_eq!(shown(1_234_999), "Push(0): 1.23\n");
}

#[test]
fn a_strength_is_rounded_to_the_nearest_hundredth() {
    assert_eq!(shown(4_999), "Push(0): 0.00\n");
    assert_eq!(shown(5_001), "Push(0): 0.01\n");
    assert_eq!(shown(1_004_999), "Push(0): 1.00\n");
    assert_eq!(shown(1_005_001), "Push(0): 1.01\n");
    assert_eq!(shown(999_999), "Push(0): 1.00\n");
    assert_eq!(shown(9_995_001), "Push(0): 10.00\n");
}

#[test]
fn a_strength_half_way_is_rounded_to_the_even_hundredth() {
    assert_eq!(shown(5_000), "Push(0): 0.00\n");
    assert_eq!(shown(15_000), "Push(0): 0.02\n");
    assert_eq!(shown(25_000), "Push(0): 0.02\n");
    assert_eq!(shown(125_000), "Push(0): 0.12\n");
    assert_eq!(shown(995_000), "Push(0): 1.00\n");
    assert_eq!(shown(1_005_000), "Push(0): 1.00\n");
}

#[test]
fn the_largest_strength_is_written_in_full() {
    assert_eq!(shown(u64::MAX), "Push(0): 18446744073709.55\n");
}

#[test]
fn an_empty_snapshot_is_written_as_nothing() {
    assert_eq!(LocalSignals::new().to_string(), "");
}

#[test]
fn a_snapshot_is_written_sorted_by_signal_type() {
    let mut local = LocalSignals::new();
    local.insert(SignalType::Work(StructureId(3)), SignalStrength::from_units(10_000));
    local.insert(SignalType::Contains(ItemId(1)), SignalStrength::from_units(5_000_000));
    local.insert(SignalType::Push(ItemId(12)), SignalStrength::from_units(1_500_000));
    local.insert(SignalType::Pull(ItemId(2)), SignalStrength::from_units(1_000_000));
    local.insert(SignalType::Push(ItemId(2)), SignalStrength::from_units(250_000));
    local.insert(SignalType::Pull(ItemId(1)), SignalStrength::zero());
    assert_eq!(
        local.to_string(),
        "Push(2): 0.25\n\
         Push(12): 1.50\n\
         Pull(1): 0.00\n\
         Pull(2): 1.00\n\
         Contains(1): 5.00\n\
         Work(3): 0.01\n"
    );
}

#[test]
fn many_signal_types_are_written_in_ascending_order() {
    let mut local = LocalSignals::new();
    for subject in (0..200u64).rev() {
        local.insert(SignalType::Pull(ItemId(subject * 7919 % 200)), SignalStrength::from_units(subject));
    }
    let text = local.to_string();
    let lines: Vec<&str> = text.lines().collect();
    assert_eq!(lines.len(), 200);
    for (subject, line) in lines.iter().enumerate() {
        assert!(line.starts_with(&format!("Pull({}): ", subject)));
    }
}

#[test]
fn the_snapshot_of_a_tile_is_written_with_every_known_type() {
    let mut signals = Signals::new();
    let here = TilePos { x: 1, y: 1 };
    let there = TilePos { x: 2, y: 2 };
    signals.add_signal(SignalType::Pull(ItemId(4)), there, SignalStrength::from_units(3_000_000));
    signals.add_signal(SignalType::Push(ItemId(4)), here, SignalStrength::from_units(1_230_000));
    assert_eq!(
        signals.all_signals_at_position(here).to_string(),
        "Push(4): 1.23\nPull(4): 0.00\n"
    );
    assert_eq!(
        signals.all_signals_at_position(there).to_string(),
        "Push(4): 0.00\nPull(4): 3.00\n"
    );
}
