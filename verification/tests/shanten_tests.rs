use riichi_tools_rs::riichi::hand::Hand;
use riichi_tools_rs::riichi::shanten::ShantenFinder;
use riichi_tools_rs::riichi::shapes::OpenShape;
use riichi_tools_rs::riichi::tile::Tile;

#[test]
fn shanten_kokushi_tenpai_13_waits() {
    let hand = Hand::from_text("19m19s19p1234567z", false).unwrap();
    let array34 = hand.get_34_array(true);

    let mut shanten_finder = ShantenFinder::new();
    shanten_finder.hand_count = 13;
    let shanten = shanten_finder.kokushi_shanten(&array34);

    assert_eq!(shanten, 0);
}

#[test]
fn kokushi_complete() {
    let hand = Hand::from_text("19m19s19p11234567z", false).unwrap();
    let array34 = hand.get_34_array(true);

    let mut shanten_finder = ShantenFinder::new();
    shanten_finder.hand_count = 14;
    let shanten = shanten_finder.kokushi_shanten(&array34);

    assert_eq!(shanten, -1);
}

#[test]
fn kokushi_tenpai_1_wait() {
    let hand = Hand::from_text("19m19s19p1234566z", false).unwrap();
    let array34 = hand.get_34_array(true);

    let mut shanten_finder = ShantenFinder::new();
    shanten_finder.hand_count = 13;
    let shanten = shanten_finder.kokushi_shanten(&array34);

    assert_eq!(shanten, 0);
}

#[test]
fn kokushi_iishanten() {
    let hand = Hand::from_text("129m19s19p123456z", false).unwrap();
    let array34 = hand.get_34_array(true);

    let mut shanten_finder = ShantenFinder::new();
    shanten_finder.hand_count = 13;
    let shanten = shanten_finder.kokushi_shanten(&array34);

    assert_eq!(shanten, 1);
}

#[test]
fn shanten_chiitoitsu_tenpai() {
    let hand = Hand::from_text("1133557799p22s3z", false).unwrap();
    let array34 = hand.get_34_array(true);

    let shanten_finder = ShantenFinder::new();
    let shanten = shanten_finder.chiitoitsu_shanten(&array34);

    assert_eq!(shanten, 0);
}

#[test]
fn chiitoitsu_iishanten() {
    let hand = Hand::from_text("113355779p22s34z", false).unwrap();
    let array34 = hand.get_34_array(true);

    let shanten_finder = ShantenFinder::new();
    let shanten = shanten_finder.chiitoitsu_shanten(&array34);

    assert_eq!(shanten, 1);
}

#[test]
fn chiitoitsu_iishanten_with_shanten() {
    let mut hand = Hand::from_text("113355779p22s34z", false).unwrap();
    let shanten = hand.shanten();

    assert_eq!(shanten, 1);
}

#[test]
fn chiitoitsu_6shanten() {
    let hand = Hand::from_text("123456789m123p1s", false).unwrap();
    let array34 = hand.get_34_array(true);

    let shanten_finder = ShantenFinder::new();
    let shanten = shanten_finder.chiitoitsu_shanten(&array34);

    assert_eq!(shanten, 6);
}

#[test]
fn shanten_pinfu_tenpai() {
    let mut hand = Hand::from_text("123456789m23p11s", false).unwrap();
    let shanten = hand.shanten();

    assert_eq!(shanten, 0);
}

#[test]
fn pinfu_2_shanten() {
    let mut hand = Hand::from_text("1235689m23p11s14z", false).unwrap();
    let shanten = hand.shanten();

    assert_eq!(shanten, 2);
}

#[test]
fn chinitsu_tenpai() {
    let mut hand = Hand::from_text("1112344478999m", false).unwrap();
    let shanten = hand.shanten();

    assert_eq!(shanten, 0);
}

#[test]
fn chinitsu_iishanten() {
    let mut hand = Hand::from_text("1112224457889m", false).unwrap();
    let shanten = hand.shanten();

    assert_eq!(shanten, 1);
}

#[test]
fn honors_suuankou_tenpai() {
    let mut hand = Hand::from_text("1112223334445z", false).unwrap();
    let shanten = hand.shanten();

    assert_eq!(shanten, 0);
}

#[test]
fn nonhonors_suuankou_tenpai() {
    let mut hand = Hand::from_text("111m222s333444p5s", false).unwrap();
    let shanten = hand.shanten();

    assert_eq!(shanten, 0);
}

#[test]
fn weird_hand_shanten() {
    let mut hand = Hand::from_text("37m13478s45699p1z", false).unwrap();
    let shanten = hand.shanten();

    assert_eq!(shanten, 3);
}

#[test]
fn with_14_tiles_iishanten() {
    let mut hand = Hand::from_text("237m45699p123478s", false).unwrap();
    let shanten = hand.shanten();

    assert_eq!(shanten, 1);
}

#[test]
fn with_14_tiles_ryanshanten() {
    let mut hand = Hand::from_text("2357m13478s45699p", false).unwrap();
    let shanten = hand.shanten();

    assert_eq!(shanten, 2);
}

#[test]
fn with_14_tiles_ryanshanten_2() {
    let mut hand = Hand::from_text("2377m13478s45699p", false).unwrap();
    let shanten = hand.shanten();

    assert_eq!(shanten, 2);
}

#[test]
fn with_14_tiles_ryanshanten_3() {
    let mut hand = Hand::from_text("1234s123p999m3456z", false).unwrap();
    let shanten = hand.shanten();

    assert_eq!(shanten, 2);
}

#[test]
fn with_14_tiles_tenpai() {
    let mut hand = Hand::from_text("123456789m239p11s", false).unwrap();
    let shanten = hand.shanten();

    assert_eq!(shanten, 0);
}

#[test]
fn with_14_tiles_tenpai_no_pair() {
    let mut hand = Hand::from_text("12345m567s111222z", false).unwrap();
    let shanten = hand.shanten();

    assert_eq!(shanten, 0);
}

#[test]
fn with_14_tiles_tenpai_no_pair_2() {
    let mut hand = Hand::from_text("123456789p12345m", false).unwrap();
    let shanten = hand.shanten();

    assert_eq!(shanten, 0);
}

#[test]
fn with_14_tiles_complete() {
    let mut hand = Hand::from_text("123456789m234p11s", false).unwrap();
    let shanten = hand.shanten();

    assert_eq!(shanten, -1);
}

#[test]
fn honors_shanpon_tenpai() {
    let mut hand = Hand::from_text("1112223334455z", false).unwrap();
    let shanten = hand.shanten();

    assert_eq!(shanten, 0);
}

#[test]
fn with_14_two_pairs_and_stuff() {
    let mut hand = Hand::from_text("23m13478s45699p11z", false).unwrap();
    let shanten = hand.shanten();

    assert_eq!(shanten, 2);
}

#[test]
fn with_14_open_hand_chi_tenpai() {
    let rep = "123m123p12345s222z";
    let mut hand = Hand::from_text(rep, false).unwrap();

    hand.add_open_shape(&OpenShape::Chi([
        Tile::from_text("1m").unwrap(),
        Tile::from_text("2m").unwrap(),
        Tile::from_text("3m").unwrap(),
    ]));

    let shanten = hand.shanten();

    assert_eq!(shanten, 0);
}

#[test]
fn with_14_open_hand_chi_tenpai_parsed() {
    let rep = "123459m11p(123s0)(345s1)";
    let mut hand = Hand::from_text(rep, false).unwrap();
    let shanten = hand.shanten();

    assert_eq!(shanten, 0);
}
