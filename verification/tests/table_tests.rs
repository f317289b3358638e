use riichi_tools_rs::riichi::table::Table;
use riichi_tools_rs::riichi::hand::Hand;

#[test]
fn placing_test() {
    let mut table = Table::from_map(&Vec::new()).unwrap();
    // table.set_my_hand(Hand::from_text("11123m234p456s44z1m", false).unwrap());

    table.my_initial_seat_wind = Some(3);
    assert!(table.get_placing() == 3);
    table.my_points = Some(20000);
    assert!(table.get_placing() == 4);
}

#[test]
fn ankan_test() {
    let mut table = Table::from_map(&Vec::new()).unwrap();
    table.set_my_hand(Hand::from_text("11123m234p456s44z1m", false).unwrap());

    assert!(table.can_ankan() != None);
}

#[test]
fn bad_ankan_riichi_test() {
    let mut table = Table::from_map(&Vec::new()).unwrap();
    table.set_my_hand(Hand::from_text("11123m234p456s44z1m", false).unwrap());
    table.set_my_riichi(true);

    assert!(table.can_ankan() == None);
}

#[test]
fn good_ankan_riichi_test() {
    let mut table = Table::from_map(&Vec::new()).unwrap();
    table.set_my_hand(Hand::from_text("23666m234p456s44z6m", false).unwrap());
    table.set_my_riichi(true);

    assert!(table.can_ankan() != None);
}
