use riichi_tools_rs::riichi::fast_hand_calculator::resources::{prepare_data_from_string, Resources};
use riichi_tools_rs::riichi::fast_hand_calculator::chiitoi_classifier::ChiitoiClassifier;
use riichi_tools_rs::riichi::fast_hand_calculator::kokushi_classifier::KokushiClassifier;
use riichi_tools_rs::riichi::fast_hand_calculator::arrangement_classifier::ArrangementClassifier;
use riichi_tools_rs::riichi::fast_hand_calculator::suit_classifier::SuitClassifier;
use riichi_tools_rs::riichi::fast_hand_calculator::progressive_honor_classifier::ProgressiveHonorClassifier;
use riichi_tools_rs::riichi::fast_hand_calculator::hand_calculator::HandCalculator;
use riichi_tools_rs::riichi::tile::Tile;

fn table_text(n: usize, set: &[(usize, u32)]) -> String {
    let mut lines: Vec<String> = vec!["0".to_string(); n];
    for (i, v) in set {
        lines[*i] = v.to_string();
    }
    lines.join("\n")
}

fn small_resources() -> Resources {
    let second: Vec<String> = vec![
        table_text(4, &[]),
        table_text(100010, &[(99750, 42)]),
        table_text(4, &[]),
        table_text(4, &[]),
        table_text(4, &[]),
    ];
    Resources::from_data(
        "0\n3\n7\n11",
        &second,
        &vec![9u8, 8, 7, 6],
        "2\n0\n1\n3\n5\n7",
        "0\n5\n0\n4\n0\n9\n0\n3",
    )
}

#[test]
fn table_lines_are_read_as_numbers() {
    let t = prepare_data_from_string("5580\n26\n-3\nabc\n+7\n2147483648\n");
    assert_eq!(t, vec![5580, 26, 0, 0, 7, 0, 0]);
    assert_eq!(prepare_data_from_string(""), vec![0]);
    assert_eq!(prepare_data_from_string("2147483647"), vec![2147483647]);
}

#[test]
fn resources_hold_their_tables() {
    let res = small_resources();
    assert_eq!(res.get_suit_first_phase(), &vec![0, 3, 7, 11]);
    assert_eq!(res.get_suit_second_phase(1).unwrap()[99750], 42);
    assert!(res.get_suit_second_phase(5).is_none());
    assert_eq!(res.get_suit_base_5_lookup(), &vec![9, 8, 7, 6]);
    assert_eq!(res.get_arrangement_transitions(), &vec![2, 0, 1, 3, 5, 7]);
    assert_eq!(res.get_honor_state_machine()[5], 9);
}

#[test]
fn chiitoi_pairs_lower_shanten() {
    let mut c = ChiitoiClassifier::new(None);
    assert_eq!(c.get_shanten(), 7);
    c.draw(0);
    assert_eq!(c.get_shanten(), 7);
    c.draw(1);
    assert_eq!(c.get_shanten(), 6);
    c.draw(2);
    assert_eq!(c.get_shanten(), 6);
    c.discard(1);
    assert_eq!(c.get_shanten(), 7);
    assert_eq!(ChiitoiClassifier::new(Some(3)).get_shanten(), 3);
}

#[test]
fn kokushi_counts_terminals_and_one_pair() {
    let mut k = KokushiClassifier::new(None, None);
    assert_eq!(k.get_shanten(), 14);
    k.draw(0, 0);
    assert_eq!(k.get_shanten(), 13);
    k.draw(0, 1);
    assert_eq!(k.get_shanten(), 12);
    k.draw(8, 0);
    assert_eq!(k.get_shanten(), 11);
    k.draw(8, 1);
    assert_eq!(k.get_shanten(), 11);
    k.draw(1, 0);
    assert_eq!(k.get_shanten(), 11);
    k.discard(8, 1);
    assert_eq!(k.get_shanten(), 11);
    k.discard(0, 1);
    assert_eq!(k.get_shanten(), 12);
    k.discard(0, 0);
    assert_eq!(k.get_shanten(), 13);
}

#[test]
fn arrangement_walks_the_transitions() {
    let res = small_resources();
    let c = ArrangementClassifier::new();
    assert_eq!(c.classify(&[0, 1, 0, 2], &res), 7);
}

#[test]
fn suit_values_by_meld_count() {
    let res = small_resources();
    let mut tiles = [0u8; 34];
    let hashes = [2u32, 0, 0];
    let mut s = SuitClassifier::new();
    assert_eq!(s.get_value(&tiles, 0, &hashes, &res), 7);
    // one meld of id 1: first phase 0 -> 3, entry first_phase[3]
    s.set_melds(1, &res);
    tiles[8] = 0;
    assert_eq!(s.get_value(&tiles, 0, &hashes, &res), 42);
}

#[test]
fn honor_states_step_by_action() {
    let res = small_resources();
    let mut h = ProgressiveHonorClassifier::new();
    assert_eq!(h.draw(0, 0, &res), 9);
    assert_eq!(h.draw(1, 0, &res), 4);
}

fn zero_table(n: usize) -> String {
    vec!["0"; n].join("\n")
}

fn zero_resources() -> Resources {
    let second: Vec<String> = (0..5).map(|_| zero_table(160000)).collect();
    Resources::from_data(
        &zero_table(100),
        &second,
        &vec![0u8; 1953125],
        &zero_table(10),
        &zero_table(32),
    )
}

#[test]
fn hand_calculator_reads_a_hand_on_zero_tables() {
    let res = zero_resources();
    let hand = riichi_tools_rs::riichi::hand::Hand::from_text("123456789m23p11s", false).unwrap();
    let mut hc = HandCalculator::new();
    hc.init(&hand, &res);
    // every table entry is 0, so the arrangement shanten is 0 and the hand reads as -1
    assert_eq!(hc.shanten(&res), -1);
    let uke = hc.get_uke_ire_for_13(&res);
    assert_eq!(uke, [-1i32; 34]);
}

#[test]
fn hand_calculator_draws_and_discards_on_zero_tables() {
    let res = zero_resources();
    let hand = riichi_tools_rs::riichi::hand::Hand::from_text("123456789m23p11s", false).unwrap();
    let mut hc = HandCalculator::new();
    hc.init(&hand, &res);
    hc.draw(&Tile::from_text("4p").unwrap(), &res);
    assert_eq!(hc.shanten(&res), -1);
    let mut other = HandCalculator::new();
    other.init(&hand, &res);
    other.discard(&Tile::from_text("1s").unwrap(), &res);
    assert_eq!(other.shanten(&res), -1);
}

#[test]
fn hand_calculator_reads_calls_on_zero_tables() {
    let res = zero_resources();
    let hand = riichi_tools_rs::riichi::hand::Hand::from_text("123456m11p222s(789p1)", false).unwrap();
    let mut hc = HandCalculator::new();
    hc.init(&hand, &res);
    // with a meld the arrangement shanten alone counts: 0, read as -1
    assert_eq!(hc.shanten(&res), -1);
}
