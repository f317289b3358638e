use riichi_tools_rs::riichi::hand::Hand;
use riichi_tools_rs::riichi::tile::{Tile, TileColor, TileType};
use riichi_tools_rs::riichi::shapes::{OpenShape, OpenKan, ClosedShape, CompleteShape, Shape, ShapeType};

#[test]
fn from_text_hand() {
    let rep = "123m123p12345s22z";
    let hand = Hand::from_text(rep, false).unwrap();

    let rep2 = hand.to_string();
    assert_eq!(rep2, rep);
}

#[test]
fn from_text_hand_add_chi() {
    let rep = "123m123p12345s22z";
    let mut hand = Hand::from_text(rep, false).unwrap();

    let mut called_tile = Tile::from_text("2m").unwrap();
    called_tile.called_from = 3; // always called from 3
    hand.add_open_shape(&OpenShape::Chi([
        Tile::from_text("1m").unwrap(),
        called_tile,
        Tile::from_text("3m").unwrap(),
    ]));

    let mut open_tiles_count = 0u8;
    for rt in hand.get_tiles().iter() {
        match rt {
            None => {}
            Some(tile) => {
                if tile.is_open {
                    open_tiles_count += 1;
                }
            }
        }
    }

    let rep2 = hand.to_string();
    assert_eq!(rep2, "123p12345s22z(123m1)");

    assert_eq!(open_tiles_count, 3);

    assert_eq!(hand.get_open_shapes().len(), 1);
}

#[test]
fn from_text_hand_add_pon() {
    let rep = "444m123p12345s22z";
    let mut hand = Hand::from_text(rep, false).unwrap();

    let mut tile = Tile::from_text("4m").unwrap();
    tile.called_from = 1;
    hand.add_open_shape(&OpenShape::Pon([tile, tile, tile]));

    let mut open_tiles_count = 0u8;
    for rt in hand.get_tiles().iter() {
        match rt {
            None => {}
            Some(tile) => {
                if tile.is_open {
                    open_tiles_count += 1;
                }
            }
        }
    }

    let rep2 = hand.to_string();
    assert_eq!(rep2, "123p12345s22z(p4m1)");

    assert_eq!(open_tiles_count, 3);

    assert_eq!(hand.get_open_shapes().len(), 1);
}

#[test]
fn validation_ok() {
    let rep = "123m123p12345s22z";
    let hand = Hand::from_text(rep, false).unwrap();

    assert!(hand.validate());
}

#[test]
fn validation_bad_5_same_tiles() {
    let rep = "123m123p11111s22z";
    let hand = Hand::from_text(rep, true).unwrap();

    assert!(!hand.validate());
}

#[test]
fn validation_bad_too_many_tiles() {
    let rep = "123456789m123456789p12345s22z";
    let hand = Hand::from_text(rep, true).unwrap();

    assert!(!hand.validate());
}

#[test]
fn validation_bad_not_enough_tiles() {
    let rep = "123456m";
    let hand = Hand::from_text(rep, true).unwrap();

    assert!(!hand.validate());
}

#[test]
fn find_improving_tiles_2_shanten() {
    let hand = Hand::from_text("237m13478s45699p", false).unwrap();

    let tiles = hand.find_shanten_improving_tiles(None);

    assert_eq!(tiles.get(0).unwrap().1.len(), 6);
}

#[test]
fn find_improving_tiles_tenpai_13_open() {
    let mut hand = Hand::from_text("4m23334p1m(789s1)(p2m1)", false).unwrap();

    assert_eq!(hand.shanten(), 1);

    let result = hand.find_shanten_improving_tiles(None);

    assert_eq!(result.len(), 1);
}

#[test]
fn find_improving_tiles_tenpai_14_open() {
    let mut hand = Hand::from_text("44m23334p1m(789s1)(p2m1)", false).unwrap();

    assert_eq!(hand.shanten(), 0);

    let result = hand.find_shanten_improving_tiles(None);

    assert_eq!(result.len(), 1);
}

#[test]
fn find_improving_tiles_2_shanten_14() {
    let hand = Hand::from_text("237m13478s45699p1z", false).unwrap();

    let result = hand.find_shanten_improving_tiles(None);

    assert_eq!(result.len(), 4);

    for row in result.iter() {
        match row.0 {
            Some(tile) => {
                if tile.to_string() == "7m" {
                    println!("tajl: {} count: {}", tile.to_string(), row.2);
                    //                        println!("{:#?}", row.1);
                    assert_eq!(row.1.len(), 6);
                } else if tile.to_string() == "1s" {
                    println!("tajl: {} count: {}", tile.to_string(), row.2);
                    //                        println!("{:#?}", row.1);
                    assert_eq!(row.1.len(), 6);
                } else if tile.to_string() == "1z" {
                    println!("tajl: {} count: {}", tile.to_string(), row.2);
                    //                        println!("{:#?}", row.1);
                    assert_eq!(row.1.len(), 6);
                } else if tile.to_string() == "4s" {
                    println!("tajl: {} count: {}", tile.to_string(), row.2);
                    //                        println!("{:#?}", row.1);
                    assert_eq!(row.1.len(), 5);
                    assert_eq!(row.1[0].1, 4);
                    assert_eq!(row.1[1].1, 4);
                    assert_eq!(row.1[2].1, 4);
                    assert_eq!(row.1[3].1, 4);
                    assert_eq!(row.1[4].1, 4);
                    assert_eq!(row.2, 20);
                } else {
                    panic!("Test failed: wrong tiles found");
                }
            }
            None => (),
        }
    }
}

#[test]
fn find_improving_tiles_2_shanten_14_open() {
    let hand = Hand::from_text("237m13478s99p1z(456p0)", false).unwrap();

    let result = hand.find_shanten_improving_tiles(None);

    assert_eq!(result.len(), 4);

    for row in result.iter() {
        match row.0 {
            Some(tile) => {
                if tile.to_string() == "7m" {
                    println!("tajl: {} count: {}", tile.to_string(), row.2);
                    //                        println!("{:#?}", row.1);
                    assert_eq!(row.1.len(), 6);
                } else if tile.to_string() == "1s" {
                    println!("tajl: {} count: {}", tile.to_string(), row.2);
                    //                        println!("{:#?}", row.1);
                    assert_eq!(row.1.len(), 6);
                } else if tile.to_string() == "1z" {
                    println!("tajl: {} count: {}", tile.to_string(), row.2);
                    //                        println!("{:#?}", row.1);
                    assert_eq!(row.1.len(), 6);
                } else if tile.to_string() == "4s" {
                    println!("tajl: {} count: {}", tile.to_string(), row.2);
                    //                        println!("{:#?}", row.1);
                    assert_eq!(row.1.len(), 5);
                    assert_eq!(row.1[0].0.to_string(), "1m");
                    assert_eq!(row.1[0].1, 4);
                    assert_eq!(row.1[1].0.to_string(), "4m");
                    assert_eq!(row.1[1].1, 4);
                    assert_eq!(row.1[2].1, 4);
                    assert_eq!(row.1[3].1, 4);
                    assert_eq!(row.1[4].1, 4);
                    assert_eq!(row.2, 20);
                } else {
                    panic!("Test failed: wrong tiles found");
                }
            }
            None => (),
        }
    }
}

#[test]
fn find_improving_tiles_13_tenpai() {
    let hand = Hand::from_text("888p333s12345m77z", false).unwrap();
    let map = hand.find_shanten_improving_tiles(None);

    let waiting_tiles = map.get(0).unwrap();

    println!("{:#?}", waiting_tiles);

    assert_eq!(map.len(), 1);
    assert_eq!(waiting_tiles.1.len(), 2);
}

#[test]
fn find_improving_tiles_14_tenpai() {
    let hand = Hand::from_text("123456789p12345m", false).unwrap();
    let map = hand.find_shanten_improving_tiles(None);

    assert_eq!(map.len(), 4);
}

#[test]
fn find_improving_tiles_14_tenpai_daiminkan() {
    let mut hand = Hand::from_text("111m222s333p56z(k4z1)", false).unwrap();
    // let mut hand = Hand::from_text("111m222s333p56z444z", false).unwrap();

    assert_eq!(hand.count_tiles(), 14);
    assert_eq!(hand.shanten(), 0);

    let map = hand.find_shanten_improving_tiles(None);

    let waiting_tiles = map.get(0).unwrap();

    assert_eq!(map.len(), 2);
    assert_eq!(waiting_tiles.1.len(), 1);
}

#[test]
fn find_improving_tiles_14_complete() {
    let hand = Hand::from_text("123456789p12344m", false).unwrap();
    let map = hand.find_shanten_improving_tiles(None);

    assert_eq!(map.len(), 0);
}

#[test]
fn find_improving_tiles_14_kokushi() {
    let hand = Hand::from_text("129m19s19p1234566z", false).unwrap();
    let map = hand.find_shanten_improving_tiles(None);

    println!("{:#?}", map);

    assert_eq!(map.len(), 1);
}

#[test]
fn find_improving_tiles_13_3() {
    let hand = Hand::from_text("1234s123p999m456z", false).unwrap();
    let result = hand.find_shanten_improving_tiles(None);

    println!("{:#?}", result);

    assert_eq!(result.len(), 1);
}

#[test]
fn find_improving_tiles_13_with_some_visible_tiles() {
    let hand = Hand::from_text("1234s123p999m456z", false).unwrap();

    let mut visible_tiles = hand.get_34_array(false);
    visible_tiles[Tile::from_text("1s").unwrap().to_id() as usize - 1] += 2; // 1s is also somewhere else

    let result = hand.find_shanten_improving_tiles(Some(&visible_tiles));

    println!("{:#?}", result);

    assert_eq!(result.len(), 1);

    // count of 1s that can come to my hand is 3
    assert_eq!(result[0].1[0].1, 1);
}

#[test]
fn find_improving_tiles_14_repeating() {
    let hand = Hand::from_text("12356m12333s4499p", false).unwrap();
    let result = hand.find_shanten_improving_tiles(None);

    println!("{:#?}", result);

    assert_eq!(result.len(), 7);
}

#[test]
fn count_hand_normal_13() {
    let hand = Hand::from_text("237m13478s45699p", false).unwrap();

    assert_eq!(hand.count_tiles(), 13);
}

#[test]
fn count_hand_normal_14() {
    let hand = Hand::from_text("1237m13478s45699p", false).unwrap();

    assert_eq!(hand.count_tiles(), 14);
}

#[test]
fn remove_tile() {
    let mut hand = Hand::from_text("1237m13478s45699p", false).unwrap();
    let tile = Tile::from_text("1m").unwrap();
    hand.remove_tile(&tile);

    assert_eq!(hand.count_tiles(), 13);
    assert_eq!(hand.to_string(), "237m4569p13478s9p")
}

#[test]
fn remove_tile_by_id() {
    let mut hand = Hand::from_text("1237m13478s45699p", false).unwrap();
    let tile_id = 1;
    hand.remove_tile_by_id(tile_id);

    assert_eq!(hand.count_tiles(), 13);
    assert_eq!(hand.to_string(), "237m4569p13478s9p")
}

#[test]
fn reset_drawn_tiles() {
    let mut hand = Hand::from_text("1237m13478s4569p1z", false).unwrap();
    let dt = hand.get_drawn_tile().unwrap();

    assert_eq!(dt.is_draw, true);

    hand.reset_drawn_tiles();

    let dt = hand.get_drawn_tile();
    match dt {
        None => {}
        Some(_) => {
            panic!("I should not have found a drawn tile here!");
        }
    }
}

#[test]
fn tile_counting_with_kan() {
    let mut hand = Hand::from_text("23m456s678p22z", true).unwrap();
    let mut tile = Tile::from_id(1).unwrap();

    // 4 kan tiles = 3 tiles
    tile.is_kan = true;
    hand.add_tile(tile);
    hand.add_tile(tile);
    hand.add_tile(tile);
    hand.add_tile(tile);

    assert_eq!(hand.count_tiles(), 13);
}

#[test]
fn tile_counting_with_kan_method() {
    let mut hand = Hand::from_text("111123m456s678p22z", false).unwrap();
    let tile = Tile::from_id(1).unwrap();

    hand.add_closed_kan(ClosedShape::Kantsu([tile, tile, tile, tile]));

    assert_eq!(hand.count_tiles(), 13);
}

#[test]
fn shanten_with_kan_method() {
    let mut hand = Hand::from_text("111123m456s678p22z", false).unwrap();
    let tile = Tile::from_id(1).unwrap();

    hand.add_closed_kan(ClosedShape::Kantsu([tile, tile, tile, tile]));

    println!("{}", hand.to_string());

    assert_eq!(hand.shanten(), 0);
}

#[test]
fn parse_open_hand_two_pons() {
    let mut hand = Hand::from_text("123456m11p(p7s1)(p4p2)", false).unwrap();

    println!("{}", hand.to_string());
    println!("{}", hand.count_tiles());

    assert!(hand.validate());
    assert_eq!(hand.count_tiles(), 14);
    assert_eq!(hand.shanten(), -1);
}

#[test]
fn parse_open_hand_two_chis() {
    let mut hand = Hand::from_text("123456m11p(123s0)(345s1)", false).unwrap();

    println!("{}", hand.to_string());
    println!("{}", hand.count_tiles());

    assert_eq!(hand.to_string(), "123456m11p(123s0)(345s1)");
    assert!(hand.validate());
    assert_eq!(hand.count_tiles(), 14);
    assert_eq!(hand.shanten(), -1);
}

#[test]
fn parse_open_hand_kans() {
    let mut hand = Hand::from_text("123456m11p(k1s)(k2s1)", false).unwrap();

    println!("{}", hand.to_string());
    println!("{}", hand.count_tiles());

    assert_eq!(hand.to_string(), "123456m11p(k1s)(k2s1)");
    assert!(hand.validate());
    assert_eq!(hand.count_tiles(), 14);
    assert_eq!(hand.shanten(), -1);
}

#[test]
fn parse_open_hand_kans_shouminkan() {
    let mut hand = Hand::from_text("123456m11p(s2s1)(789p1)", false).unwrap();

    println!("{}", hand.to_string());
    println!("{}", hand.count_tiles());

    assert_eq!(hand.to_string(), "123456m11p(s2s1)(789p1)");
    assert!(hand.validate());
    assert_eq!(hand.count_tiles(), 14);
    assert_eq!(hand.shanten(), -1);
}

#[test]
fn parse_hand_with_red_5_closed() {
    let hand = Hand::from_text("123406m111p222s33z", false).unwrap();

    assert_eq!(hand.to_string(), "123406m111p222s33z");
}

#[test]
fn parse_hand_with_red_5_chi() {
    let hand = Hand::from_text("123m111p222s33z(406m1)", false).unwrap();

    assert_eq!(hand.to_string(), "123m111p222s33z(406m1)");
}

#[test]
fn parse_hand_with_red_5_pon() {
    let hand = Hand::from_text("123m111p222s33z(p0m1)", false).unwrap();

    assert_eq!(hand.to_string(), "123m111p222s33z(p0m1)");

    let mut reds = 0;
    for tile in hand.get_tiles().iter().filter(|t| match t {
        None => false,
        Some(tile) => tile.get_value() == 5 || tile.get_value() == 0,
    }) {
        match tile {
            None => {}
            Some(t) => {
                if t.is_red {
                    reds += 1;
                }
            }
        }
    }

    assert_eq!(reds, 1);
}

#[test]
fn parse_hand_with_red_5_kan() {
    let hand = Hand::from_text("123m111p222s33z(k0m1)", false).unwrap();

    assert_eq!(hand.to_string(), "123m111p222s33z(k0m1)");

    let mut reds = 0;
    for tile in hand.get_tiles().iter().filter(|t| match t {
        None => false,
        Some(tile) => tile.get_value() == 5 || tile.get_value() == 0,
    }) {
        match tile {
            None => {}
            Some(t) => {
                if t.is_red {
                    reds += 1;
                }
            }
        }
    }

    assert_eq!(reds, 1);
}

#[test]
fn random_complete_hand() {
    let mut hand = Hand::random_complete_hand(true, false);

    println!("{}", hand.to_string());
    println!("{}", hand.count_tiles());

    assert!(hand.validate());
    assert_eq!(hand.count_tiles(), 14);
    assert_eq!(hand.shanten(), -1);
}

#[test]
fn random_hand() {
    let hand = Hand::random_hand(None);

    println!("{}", hand.to_string());
    println!("{}", hand.count_tiles());

    assert!(hand.validate());
    assert_eq!(hand.count_tiles(), 14);
}


#[test]
fn random_hand_from_rolls_first_ids() {
    let rolls = vec![(0u8, 1u8); 14];
    let mut hand = Hand::random_hand_from_rolls(None, &rolls);
    let counts = hand.get_34_array(false);
    assert_eq!(counts[0], 4);
    assert_eq!(counts[1], 4);
    assert_eq!(counts[2], 4);
    assert_eq!(counts[3], 2);
    assert_eq!(hand.count_tiles(), 14);
    assert_eq!(hand.get_drawn_tile().unwrap().to_id(), 1);
    assert!(hand.validate());
    assert_eq!(hand.shanten(), -1);
}

#[test]
fn complete_hand_from_rolls_runs_and_pair() {
    let rolls = vec![(1u8, 0u8, 0u8); 5];
    let mut hand = Hand::complete_hand_from_rolls(&rolls, true, false);
    let counts = hand.get_34_array(false);
    assert_eq!(counts[0], 4);
    assert_eq!(counts[1], 4);
    assert_eq!(counts[2], 4);
    assert_eq!(counts[3], 2);
    assert_eq!(hand.count_tiles(), 14);
    assert_eq!(hand.get_drawn_tile().unwrap().to_id(), 1);
    assert_eq!(hand.shanten(), -1);
}

#[test]
fn complete_hand_from_rolls_triplets_and_quads() {
    // kinds 1 (triplet), 2 (quad), 3 (pair), then runs; picks count round
    let rolls = vec![(1u8, 1u8, 33u8), (1, 2, 0), (1, 3, 1), (1, 0, 0), (1, 0, 0)];
    let hand = Hand::complete_hand_from_rolls(&rolls, true, true);
    let counts = hand.get_34_array(false);
    // triplet of the last id, quad of 1m, pair of 3m, then runs from 2m (1m is used up)
    assert_eq!(counts[33], 3);
    assert_eq!(counts[0], 4);
    assert_eq!(counts[1], 2);
    assert_eq!(counts[2], 4);
    assert_eq!(counts[3], 2);
    assert_eq!(hand.get_tiles().len(), 15);
    assert_eq!(hand.get_drawn_tile().unwrap().to_id(), 34);
}

#[test]
fn complete_hand_from_rolls_open_coin_skips_groups() {
    let rolls = vec![(0u8, 0u8, 0u8); 5];
    let hand = Hand::complete_hand_from_rolls(&rolls, false, false);
    // every group is left out, the last step makes the pair
    assert_eq!(hand.get_tiles().len(), 2);
    assert_eq!(hand.get_34_array(false)[0], 2);
}

#[test]
fn find_improving_tiles_reach_below_9s() {
    let hand = Hand::from_text("123456789m1p9s57z", false).unwrap();
    let result = hand.find_shanten_improving_tiles(None);
    assert_eq!(result.len(), 1);
    let ids: Vec<u8> = result[0].1.iter().map(|(t, _)| t.to_id()).collect();
    assert!(ids.contains(&25));
    assert!(ids.contains(&26));
    assert!(ids.contains(&27));
    assert!(ids.contains(&10));
}

#[test]
fn shape_to_string_writes_tiles() {
    let t = Tile::from_text("1s").unwrap();
    let pon = Shape::new(ShapeType::Complete(CompleteShape::Open(OpenShape::Pon([t, t, t]))), 3, true);
    assert_eq!(pon.to_string(), "1s1s1s");
    let kan = Shape::new(ShapeType::Complete(CompleteShape::Closed(ClosedShape::Kantsu([t, t, t, t]))), 4, false);
    assert_eq!(kan.to_string(), "1s1s1s1s");
}
