use cas_graph::reconcile::{reconcile, NewSlot, OldSlot, Patch, PinAction, DEFAULT_VALUE};

fn names(list: &[&str]) -> Vec<String> {
    list.iter().map(|name| name.to_string()).collect()
}

fn bits(values: &[f64]) -> Vec<u64> {
    values.iter().map(|value| value.to_bits()).collect()
}

#[test]
fn default_value_is_positive_zero() {
    assert_eq!(DEFAULT_VALUE, 0.0f64.to_bits());
    assert_eq!(f64::from_bits(DEFAULT_VALUE), 0.0);
    assert!(f64::from_bits(DEFAULT_VALUE).is_sign_positive());
}

#[test]
fn list_against_itself_keeps_every_slot_in_place() {
    let list = names(&["a", "b", "c"]);
    let values = bits(&[1.0, 2.0, 3.0]);
    let patch = reconcile(&list, &values, &list);
    assert_eq!(
        patch.old_slots,
        vec![
            OldSlot::Keep { new_index: 0, value: 1.0f64.to_bits() },
            OldSlot::Keep { new_index: 1, value: 2.0f64.to_bits() },
            OldSlot::Keep { new_index: 2, value: 3.0f64.to_bits() },
        ]
    );
    assert_eq!(
        patch.new_slots,
        vec![
            NewSlot::Kept { old_index: 0, value: 1.0f64.to_bits() },
            NewSlot::Kept { old_index: 1, value: 2.0f64.to_bits() },
            NewSlot::Kept { old_index: 2, value: 3.0f64.to_bits() },
        ]
    );
    assert_eq!(patch.apply(), values);
    assert_eq!(patch.pin_actions(), vec![]);
}

#[test]
fn rename_keeps_the_place_of_what_stays() {
    let patch = reconcile(&names(&["a", "b"]), &bits(&[1.0, 2.0]), &names(&["a", "c"]));
    assert_eq!(
        patch.old_slots,
        vec![OldSlot::Keep { new_index: 0, value: 1.0f64.to_bits() }, OldSlot::Drop]
    );
    assert_eq!(
        patch.new_slots,
        vec![
            NewSlot::Kept { old_index: 0, value: 1.0f64.to_bits() },
            NewSlot::Insert { value: 0.0f64.to_bits() },
        ]
    );
    assert_eq!(patch.apply(), bits(&[1.0, 0.0]));
    assert_eq!(patch.pin_actions(), vec![PinAction::Sever { pin: 2 }]);
}

#[test]
fn reorder_carries_values_to_their_new_places() {
    let patch = reconcile(&names(&["a", "b"]), &bits(&[1.0, 2.0]), &names(&["b", "a"]));
    assert_eq!(
        patch.old_slots,
        vec![
            OldSlot::Keep { new_index: 1, value: 1.0f64.to_bits() },
            OldSlot::Keep { new_index: 0, value: 2.0f64.to_bits() },
        ]
    );
    assert_eq!(
        patch.new_slots,
        vec![
            NewSlot::Kept { old_index: 1, value: 2.0f64.to_bits() },
            NewSlot::Kept { old_index: 0, value: 1.0f64.to_bits() },
        ]
    );
    assert_eq!(patch.apply(), bits(&[2.0, 1.0]));
    assert_eq!(
        patch.pin_actions(),
        vec![PinAction::Move { from: 1, to: 2 }, PinAction::Move { from: 2, to: 1 }]
    );
}

#[test]
fn no_new_name_drops_every_slot() {
    let patch = reconcile(&names(&["a", "b"]), &bits(&[1.0, 2.0]), &names(&[]));
    assert_eq!(patch.old_slots, vec![OldSlot::Drop, OldSlot::Drop]);
    assert_eq!(patch.new_slots, vec![]);
    assert_eq!(patch.apply(), bits(&[]));
    assert_eq!(
        patch.pin_actions(),
        vec![PinAction::Sever { pin: 1 }, PinAction::Sever { pin: 2 }]
    );
}

#[test]
fn no_old_slot_inserts_every_name() {
    let patch = reconcile(&names(&[]), &bits(&[]), &names(&["x", "y"]));
    assert_eq!(patch.old_slots, vec![]);
    assert_eq!(
        patch.new_slots,
        vec![NewSlot::Insert { value: 0 }, NewSlot::Insert { value: 0 }]
    );
    assert_eq!(patch.apply(), bits(&[0.0, 0.0]));
    assert_eq!(patch.pin_actions(), vec![]);
}

#[test]
fn name_inserted_in_front_shifts_the_others() {
    let patch = reconcile(&names(&["a", "b"]), &bits(&[1.5, -2.5]), &names(&["z", "a", "b"]));
    assert_eq!(
        patch.old_slots,
        vec![
            OldSlot::Keep { new_index: 1, value: 1.5f64.to_bits() },
            OldSlot::Keep { new_index: 2, value: (-2.5f64).to_bits() },
        ]
    );
    assert_eq!(patch.apply(), bits(&[0.0, 1.5, -2.5]));
    assert_eq!(
        patch.pin_actions(),
        vec![PinAction::Move { from: 1, to: 2 }, PinAction::Move { from: 2, to: 3 }]
    );
}

#[test]
fn values_are_carried_bit_for_bit() {
    let nan = f64::NAN.to_bits() | 1;
    let values = vec![nan, (-0.0f64).to_bits(), f64::INFINITY.to_bits()];
    let patch = reconcile(&names(&["n", "z", "i"]), &values, &names(&["i", "n", "z"]));
    assert_eq!(patch.apply(), vec![values[2], values[0], values[1]]);
}

#[test]
fn slot_value_reads_both_variants() {
    assert_eq!(NewSlot::Kept { old_index: 3, value: 17 }.value(), 17);
    assert_eq!(NewSlot::Insert { value: 5 }.value(), 5);
}

#[test]
fn apply_reads_only_the_new_side() {
    let patch = Patch {
        old_slots: vec![OldSlot::Drop],
        new_slots: vec![NewSlot::Insert { value: 9 }, NewSlot::Kept { old_index: 0, value: 4 }],
    };
    assert_eq!(patch.apply(), vec![9, 4]);
}
