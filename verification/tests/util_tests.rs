use knapsack_dp::util::{best_fuel, substract, Shuttle};

#[test]
fn test_substract() {
    assert_eq!(substract(5, 3), 2);
}

#[test]
fn substract_negative_result() {
    assert_eq!(substract(3, 5), -2);
}

#[test]
fn best_fuel_picks_longer_name() {
    assert_eq!(best_fuel("RP-1", "Liquid Hydrogen"), "Liquid Hydrogen");
    assert_eq!(best_fuel("Liquid Hydrogen", "RP-1"), "Liquid Hydrogen");
}

#[test]
fn best_fuel_tie_picks_second() {
    assert_eq!(best_fuel("abc", "xyz"), "xyz");
}

#[test]
fn shuttle_carries_its_name() {
    let vehicle = Shuttle { name: "Endeavour" };
    assert_eq!(vehicle.name, "Endeavour");
}
