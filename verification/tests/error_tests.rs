use riichi_tools_rs::riichi::hand::Hand;
use riichi_tools_rs::riichi::riichi_error::RiichiError;
use riichi_tools_rs::riichi::table::{parse_u8, Table, TableParam};
use riichi_tools_rs::riichi::tile::Tile;

#[test]
fn tile_text_errors() {
    assert_eq!(Tile::from_text("8z").unwrap_err().code, 103);
    assert_eq!(Tile::from_text("8z").unwrap_err().message, "Wrong number for honors!");
    assert_eq!(Tile::from_text("1x").unwrap_err().code, 104);
    assert_eq!(Tile::from_text("1").unwrap_err().code, 105);
    assert_eq!(Tile::from_text("123").unwrap_err().message, "Tile length must be 2");
    assert_eq!(Tile::from_id(40).unwrap_err().message, "Wrong tile ID 40");
}

#[test]
fn hand_text_errors() {
    // two closed parts
    let e = Hand::from_text("123m(123p0)456s", false).unwrap_err();
    assert_eq!(e.code, 333);
    assert_eq!(e.message, "Closed hand not defined correctly");
    // no closed part at all
    assert_eq!(Hand::from_text("(123p0)", false).unwrap_err().code, 333);
    // five of a tile: not a valid hand unless forced
    let e = Hand::from_text("11111m234p456s77z", false).unwrap_err();
    assert_eq!(e.code, 100);
    assert_eq!(e.message, "Couldn't parse hand representation.");
    assert!(Hand::from_text("11111m234p456s77z", true).is_ok());
    // an honor that does not exist
    assert_eq!(Hand::from_text("123m456p789s11z88z", false).unwrap_err().code, 103);
}

#[test]
fn hand_text_readability() {
    assert!(Hand::text_readable("123m456p789s11z(p1z1)"));
    assert!(Hand::text_readable("123m456p789s11z(k0m1r)"));
    assert!(!Hand::text_readable("123m456p789s11z(p9z1)"));
    assert!(!Hand::text_readable("123m456p789s11z(k1zr)"));
}

#[test]
fn error_text() {
    let e = RiichiError::new(104, "Invalid tile definition");
    assert_eq!(e.to_string(), "104 : Invalid tile definition");
}

#[test]
fn table_parameters() {
    let mut map: Vec<(String, TableParam)> = Vec::new();
    map.push(("my_hand".to_string(), TableParam::Text("123m456p789s11z88z".to_string())));
    assert_eq!(Table::from_map(&map).unwrap_err().code, 103);

    let mut map: Vec<(String, TableParam)> = Vec::new();
    map.push(("prevalent_wind".to_string(), TableParam::Text("2".to_string())));
    map.push(("my_seat_wind".to_string(), TableParam::Number(Some(3))));
    map.push(("my_riichi".to_string(), TableParam::Flag(true)));
    map.push(("something_else".to_string(), TableParam::Other));
    let table = Table::from_map(&map).unwrap();
    assert_eq!(table.get_prevalent_wind(), Some(2));
    assert_eq!(table.get_my_seat_wind(), Some(3));
    assert!(table.did_i_riichi());
    assert!(!table.did_i_tsumo());
    assert!(table.get_my_hand_option().is_none());

    assert_eq!(parse_u8("017"), Some(17));
    assert_eq!(parse_u8("+4"), Some(4));
    assert_eq!(parse_u8("256"), None);
    assert_eq!(parse_u8("x"), None);
    assert_eq!(parse_u8(""), None);
}

#[test]
fn placing_and_furiten() {
    let mut table = Table::from_map(&Vec::new()).unwrap();
    table.my_initial_seat_wind = Some(1);
    assert_eq!(table.get_placing(), 1);
    table.p2_points = Some(30000);
    assert_eq!(table.get_placing(), 2);

    let tile = Tile::from_text("3s").unwrap();
    let other = Tile::from_text("4s").unwrap();
    assert!(table.is_temporary_furiten(&tile, &vec![None, Some(tile)]));
    assert!(!table.is_temporary_furiten(&tile, &vec![Some(other), None]));
}
