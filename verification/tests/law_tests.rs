use riichi_tools_rs::riichi::hand::Hand;
use riichi_tools_rs::riichi::scores::Score;
use riichi_tools_rs::riichi::shapes::OpenShape;
use riichi_tools_rs::riichi::south_4_simulator::South4Simulator;
use riichi_tools_rs::riichi::table::{Table, TableParam};
use riichi_tools_rs::riichi::tile::Tile;

#[test]
fn tile_ids_round_trip() {
    for id in 1..=34u8 {
        let tile = Tile::from_id(id).unwrap();
        assert_eq!(tile.to_id(), id);
        let again = Tile::from_id(tile.to_id()).unwrap();
        assert!(again == tile);
    }
    assert_eq!(Tile::from_id(0).unwrap_err().code, 107);
    assert_eq!(Tile::from_id(35).unwrap_err().code, 107);
}

#[test]
fn tile_notation_round_trip() {
    for id in 1..=34u8 {
        let tile = Tile::from_id(id).unwrap();
        let text = tile.to_string();
        let read = Tile::from_text(&text).unwrap();
        assert_eq!(read.to_id(), id);
        assert!(!read.is_red);
    }
    let red = Tile::from_text("0p").unwrap();
    assert!(red.is_red);
    assert_eq!(red.to_string(), "0p");
    assert_eq!(Tile::from_text(&red.to_string()).unwrap().to_id(), 14);
}

#[test]
fn payments_add_up() {
    for han in 1..=13u8 {
        for fu in [20u8, 25, 30, 40, 50, 60, 70, 80, 90, 100, 110] {
            let ko_tsumo = Score::new(han, fu, false, true);
            assert_eq!(ko_tsumo.total_points(), ko_tsumo.points_from_oya() + 2 * ko_tsumo.points_from_ko());
            let oya_tsumo = Score::new(han, fu, true, true);
            assert_eq!(oya_tsumo.total_points(), 3 * oya_tsumo.points_from_ko());
            let ko_ron = Score::new(han, fu, false, false);
            assert_eq!(ko_ron.total_points(), ko_ron.points_from_ko());
            assert_eq!(ko_ron.total_points(), ko_ron.points_from_oya());
            let oya_ron = Score::new(han, fu, true, false);
            assert_eq!(oya_ron.total_points(), oya_ron.points_from_ko());
        }
    }
    // 1 han 30 fu tsumo: 300 from each non-dealer, 500 from the dealer
    let s = Score::new(1, 30, false, true);
    assert_eq!(s.points_from_ko(), 300);
    assert_eq!(s.points_from_oya(), 500);
    assert_eq!(s.total_points(), 1100);
}

#[test]
fn fu_rounds_up_but_chiitoitsu_keeps_25() {
    assert_eq!(Score::new(1, 22, false, false).fu, 30);
    assert_eq!(Score::new(1, 30, false, false).fu, 30);
    assert_eq!(Score::new(2, 25, false, false).fu, 25);
    assert_eq!(Score::new(2, 25, false, false).total_points(), 1600);
    assert_eq!(Score::new(4, 25, false, true).total_points(), 6400);
}

#[test]
fn from_points_lists_scores_of_one_value() {
    for points in [1000u32, 2000, 3800, 5200, 7600, 8000, 9000, 12000, 13000, 18000, 20000, 24000, 30000, 32000] {
        for oya in [false, true] {
            for tsumo in [false, true] {
                let limit = if oya { 48000 } else { 32000 };
                let found = Score::from_points(points, oya, tsumo, false);
                assert_eq!(found.is_some(), points <= limit);
                if let Some(scores) = found {
                    let first = scores[0].total_points();
                    for s in scores.iter() {
                        assert_eq!(s.total_points(), first);
                    }
                    assert!(first >= points);
                }
            }
        }
    }
    assert!(Score::from_points(32001, false, false, false).is_none());
    assert!(Score::from_points(48000, true, false, false).is_some());
}

#[test]
fn evaluate_answers_are_right() {
    let states = [
        (30000u32, 37900u32, 1u8, 0u8, 0u8),
        (30000, 37900, 2, 1, 1),
        (25000, 41000, 3, 2, 2),
        (33200, 49200, 2, 0, 0),
        (30000, 30100, 1, 0, 0),
    ];
    for (my_score, opponent_score, oya_state, riichi_sticks, tsumibo) in states {
        for hard_mode in [false, true] {
            let simulator = South4Simulator { my_score, opponent_score, oya_state, riichi_sticks, tsumibo };
            let first = simulator.evaluate((1, 30), (1, 30), (1, 30), hard_mode);
            let answers = first.1;
            let again = simulator.evaluate(answers.0, answers.1, answers.2, hard_mode);
            assert_eq!(again.0, (true, true, true));
        }
    }
}

#[test]
fn random_states_use_the_whole_range() {
    let mut oya_states = [false; 4];
    for _ in 0..300 {
        let simulator = South4Simulator::new();
        assert!(simulator.my_score < simulator.opponent_score);
        assert!(simulator.oya_state >= 1 && simulator.oya_state <= 3);
        oya_states[simulator.oya_state as usize] = true;
    }
    assert!(oya_states[1] && oya_states[2] && oya_states[3]);
}

#[test]
fn draw_then_drawn_tile() {
    let mut hand = Hand::from_text("123m456p789s1122z", false).unwrap();
    let tile = Tile::from_text("5z").unwrap();
    hand.draw_tile(&tile);
    let drawn = hand.get_drawn_tile().unwrap();
    assert_eq!(drawn.to_id(), tile.to_id());
    assert!(drawn.is_draw);
    let drawn_count = hand.get_tiles().iter().filter(|t| matches!(t, Some(x) if x.is_draw)).count();
    assert_eq!(drawn_count, 1);

    // a second draw replaces the first
    let other = Tile::from_text("3m").unwrap();
    hand.draw_tile(&other);
    assert_eq!(hand.get_drawn_tile().unwrap().to_id(), other.to_id());
    let drawn_count = hand.get_tiles().iter().filter(|t| matches!(t, Some(x) if x.is_draw)).count();
    assert_eq!(drawn_count, 1);
}

#[test]
fn add_then_remove_gives_counts_back() {
    let mut hand = Hand::from_text("123m456p789s1122z", false).unwrap();
    let before = hand.get_34_array(false);
    let tile = Tile::from_text("2p").unwrap();
    hand.add_tile(tile);
    let added = hand.get_34_array(false);
    assert_eq!(added[10], before[10] + 1);
    hand.remove_tile(&tile);
    assert_eq!(hand.get_34_array(false), before);
}

#[test]
fn call_then_calls() {
    let mut hand = Hand::from_text("123m456p789s11222z", false).unwrap();
    let two_z = Tile::from_text("2z").unwrap();
    let pon = OpenShape::Pon([two_z, two_z, two_z]);
    hand.add_open_shape(&pon);
    let calls = hand.get_open_shapes();
    assert_eq!(calls.len(), 1);
    assert!(matches!(calls[0], OpenShape::Pon(t) if t[0].to_id() == 29));
    assert!(!hand.is_closed());
}

#[test]
fn new_hand_keeps_every_tile() {
    let ids = [27u8, 1, 5, 5, 34, 9, 14, 1];
    let tiles: Vec<Option<Tile>> = ids.iter().map(|id| Some(Tile::from_id(*id).unwrap())).collect();
    let hand = Hand::new(tiles);
    assert_eq!(hand.get_tiles().len(), ids.len());
    let counts = hand.get_34_array(false);
    for id in 1..=34u8 {
        let expected = ids.iter().filter(|x| **x == id).count() as u8;
        assert_eq!(counts[(id - 1) as usize], expected);
    }
    // sorted by type
    let sorted: Vec<u8> = hand.get_tiles().iter().map(|t| t.unwrap().to_id()).collect();
    assert_eq!(sorted, vec![1, 1, 5, 5, 9, 14, 27, 34]);
}

#[test]
fn yakuman_stands_alone() {
    let mut map: Vec<(String, TableParam)> = Vec::new();
    map.push(("my_hand".to_string(), TableParam::Text("119m19p19s1234567z".to_string())));
    let mut table = Table::from_map(&map).unwrap();
    let (yakus, score) = table.yaku().unwrap();
    assert!(!yakus.is_empty());
    for y in yakus.iter() {
        assert!(y.is_yakuman());
    }
    assert_eq!(score.han, 13);
    assert_eq!(score.fu, 0);

    let mut map: Vec<(String, TableParam)> = Vec::new();
    map.push(("my_hand".to_string(), TableParam::Text("23467m234567s88p5m".to_string())));
    map.push(("my_tsumo".to_string(), TableParam::Flag(true)));
    let mut table = Table::from_map(&map).unwrap();
    let (yakus, score) = table.yaku().unwrap();
    let mut han = 0;
    for y in yakus.iter() {
        assert!(!y.is_yakuman());
        han += y.get_han(&table);
    }
    assert_eq!(score.han, han);
}

#[test]
fn random_hand_is_valid() {
    for _ in 0..50 {
        let hand = Hand::random_hand(None);
        assert!(hand.validate());
        assert_eq!(hand.get_tiles().len(), 14);
        let drawn = hand.get_tiles().iter().filter(|t| matches!(t, Some(x) if x.is_draw)).count();
        assert_eq!(drawn, 1);
        assert!(hand.get_tiles().iter().all(|t| matches!(t, Some(x) if !x.is_red && !x.is_open && !x.is_kan)));
        assert!(hand.get_34_array(false).iter().all(|c| *c <= 4));
    }
}

#[test]
fn random_complete_hand_with_kans() {
    for _ in 0..50 {
        let mut hand = Hand::random_complete_hand(true, true);
        assert!(hand.validate());
        assert_eq!(hand.count_tiles(), 14);
        let drawn = hand.get_tiles().iter().filter(|t| matches!(t, Some(x) if x.is_draw && !x.is_kan)).count();
        assert_eq!(drawn, 1);
        let kan_tiles = hand.get_tiles().iter().filter(|t| matches!(t, Some(x) if x.is_kan)).count();
        assert_eq!(kan_tiles % 4, 0);
        assert_eq!(hand.get_tiles().len(), 14 + kan_tiles / 4);
        assert!(hand.get_34_array(false).iter().all(|c| *c <= 4));
        let _ = hand.shanten();
    }
}

#[test]
fn random_open_hand_has_a_pair() {
    for _ in 0..50 {
        let hand = Hand::random_complete_hand(false, false);
        let n = hand.get_tiles().len();
        assert!(n >= 2 && n <= 14);
        assert_eq!((n - 2) % 3, 0);
        assert!(hand.get_34_array(false).iter().any(|c| *c >= 2));
    }
}

#[test]
fn dora_order_cycles() {
    for id in 1..=34u8 {
        let start = Tile::from_id(id).unwrap();
        let steps = if id <= 27 { 9 } else if id <= 31 { 4 } else { 3 };
        let mut tile = start;
        for step in 1..=steps {
            tile = tile.next(true).unwrap();
            if step < steps {
                assert_ne!(tile.to_id(), id);
            }
        }
        assert_eq!(tile.to_id(), id);
    }
    // 9 goes round to 1 as a dora, and has no next otherwise
    let nine = Tile::from_text("9s").unwrap();
    assert_eq!(nine.next(true).unwrap().to_string(), "1s");
    assert!(nine.next(false).is_none());
    assert_eq!(Tile::from_text("7z").unwrap().next(true).unwrap().to_string(), "5z");
    assert_eq!(Tile::from_text("4z").unwrap().next(true).unwrap().to_string(), "1z");
}

#[test]
fn next_then_prev() {
    for id in 1..=27u8 {
        let tile = Tile::from_id(id).unwrap();
        if tile.get_value() <= 8 {
            let back = tile.next(false).unwrap().prev().unwrap();
            assert_eq!(back.to_id(), id);
        }
    }
    assert!(Tile::from_text("1p").unwrap().prev().is_none());
    assert!(Tile::from_text("3z").unwrap().prev().is_none());
}

#[test]
fn random_complete_hand_draws_any_tile() {
    // the tiles are shuffled before one is marked drawn, so the drawn tile is not always the
    // first tile of a group (the lowest of a run, or one of a triplet or pair)
    let mut seen_other = false;
    for _ in 0..300 {
        let hand = Hand::random_complete_hand(true, false);
        let counts = hand.get_34_array(false);
        let drawn = hand.get_drawn_tile().unwrap().to_id() as usize;
        let k = drawn - 1;
        let starts_run = k < 27 && k % 9 <= 6 && counts[k + 1] > 0 && counts[k + 2] > 0;
        if counts[k] == 1 && !starts_run {
            seen_other = true;
            break;
        }
    }
    assert!(seen_other);
}

#[test]
fn total_points_grow_with_han_and_fu() {
    for oya in [false, true] {
        for tsumo in [false, true] {
            let mut last = 0u32;
            for han in 1u8..14 {
                let p = Score::new(han, 30, oya, tsumo).total_points();
                assert!(p >= last);
                last = p;
            }
            let mut last_fu = 0u32;
            for fu in [20u8, 25, 30, 40, 50, 60, 70, 80, 90, 100, 110] {
                let p = Score::new(2, fu, oya, tsumo).total_points();
                assert!(p >= last_fu);
                last_fu = p;
            }
        }
    }
}

#[test]
fn closed_texts_read_back() {
    for text in ["123m123p12345s22z", "11123455678999m", "123406m111p222s33z", "19m19p19s12345677z", "5m"] {
        let hand = Hand::from_text(text, true).unwrap();
        assert_eq!(hand.to_string(), text);
    }
}
