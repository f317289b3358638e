use riichi_tools_rs::riichi::tile::{Tile, TileColor, TileType};
use riichi_tools_rs::riichi::shapes::Shape;

#[test]
fn next_number_less_than_9() {
    let tile = Tile::new(TileType::Number(4, TileColor::Manzu));
    let next = tile.next(false);
    assert_eq!(next, Some(Tile::new(TileType::Number(5, TileColor::Manzu))));
}

#[test]
fn next_number_9() {
    let tile = Tile::new(TileType::Number(9, TileColor::Manzu));
    let next = tile.next(false);
    assert!(next == None);
}

#[test]
fn next_number_9_dora() {
    let tile = Tile::new(TileType::Number(9, TileColor::Manzu));
    let next = tile.next(true);
    assert!(next == Some(Tile::new(TileType::Number(1, TileColor::Manzu))));
}

#[test]
fn next_wind_east() {
    let tile = Tile::new(TileType::Wind(1));
    let next = tile.next(false);
    assert!(next == None);
}

#[test]
fn next_id_wind_dora() {
    let tile = Tile::new(TileType::Wind(4));
    let next = tile.next_id(true, 1);

    assert_eq!(next, 28);
}

#[test]
fn next_id_dragon_dora() {
    let tile = Tile::new(TileType::Dragon(7));
    let next = tile.next_id(true, 1);

    assert_eq!(next, 31);
}

#[test]
fn prev_id_wind_dora() {
    let tile = Tile::new(TileType::Wind(1));
    let prev = tile.prev_id(true, 1);

    assert_eq!(prev, 31);
}

#[test]
fn prev_id_dragon_dora() {
    let tile = Tile::new(TileType::Dragon(5));
    let prev = tile.prev_id(true, 1);

    assert_eq!(prev, 34);
}

#[test]
fn next_id_depth_2() {
    let tile = Tile::new(TileType::Number(7, TileColor::Manzu));
    let prev = tile.next_id(true, 2);

    assert_eq!(prev, 9);
}

#[test]
fn prev_id_depth_2() {
    let tile = Tile::new(TileType::Number(9, TileColor::Manzu));
    let prev = tile.prev_id(true, 2);

    assert_eq!(prev, 7);
}

#[test]
fn from_ones() {
    let tile = Tile::from_text("1s").unwrap();
    let shape = Shape::from_tiles(&vec![tile, tile, tile], false, true);

    assert!(match shape {
        Ok(_) => true,
        Err(_) => false,
    });
}

#[test]
fn from_nines() {
    let tile = Tile::from_text("9s").unwrap();
    let shape = Shape::from_tiles(&vec![tile, tile, tile], false, true);

    assert!(match shape {
        Ok(_) => true,
        Err(_) => false,
    });
}

#[test]
fn next_id_stays_in_suit() {
    let tile = Tile::from_text("8m").unwrap();
    assert_eq!(tile.next_id(false, 2), 0);
    assert_eq!(tile.next_id(false, 1), 9);
    assert_eq!(tile.next_id(true, 2), 1);
}

#[test]
fn prev_id_of_9s() {
    let tile = Tile::from_text("9s").unwrap();
    assert_eq!(tile.prev_id(false, 1), 26);
    assert_eq!(tile.prev_id(false, 2), 25);
    let one = Tile::from_text("1s").unwrap();
    assert_eq!(one.prev_id(false, 1), 0);
    assert_eq!(one.prev_id(true, 1), 27);
}
