use rts_core::supply::{NotEnoughSupplyError, Supply};

#[test]
fn it_starts_empty_capacity() {
    let supply = Supply::default();
    assert_eq!(supply.capacity(), 0);
}

#[test]
fn it_starts_empty_amount() {
    let supply = Supply::default();
    assert_eq!(supply.amount(), 0);
}

#[test]
fn it_can_add_to_capacity() {
    let mut supply = Supply::default();
    supply.add_capacity(10);
    assert_eq!(supply.capacity(), 10);
}

#[test]
fn it_can_remove_to_capacity() {
    let mut supply = Supply::default();
    supply.add_capacity(10);
    supply.remove_capacity(10);
    assert_eq!(supply.capacity(), 0);
}

#[test]
fn it_cant_remove_more_capacity_than_it_has() {
    let mut supply = Supply::default();
    supply.remove_capacity(1);
    assert_eq!(supply.capacity(), 0);
}

#[test]
fn it_can_add_amount_to_supply() {
    let mut supply = Supply::default();
    supply.add_capacity(1);
    let _ = supply.add_amount(1);
    assert_eq!(supply.amount(), 1);
}

#[test]
fn it_cant_add_amount_without_enough_capacity() {
    let mut supply = Supply::default();
    let result = supply.add_amount(1);
    assert_eq!(result.unwrap_err(), NotEnoughSupplyError);
}
