use riichi_tools_rs::riichi::hand::Hand;
use riichi_tools_rs::riichi::shape_finder::ShapeFinder;

#[test]
fn find_singles() {
    let mut hand = Hand::from_text("119m19s19p1234567z", false).unwrap();
    let mut sf = ShapeFinder::new();
    sf.find(&mut hand);

    println!("{:#?}", sf.variants);

    assert_eq!(sf.variants.len(), 1);
}

#[test]
fn find_pairs() {
    let mut hand = Hand::from_text("11m22s33p44556677z", false).unwrap();
    let mut sf = ShapeFinder::new();
    sf.find(&mut hand);

    println!("{:#?}", sf.variants);

    assert_eq!(sf.variants.len(), 1);
}

#[test]
fn find_ankous() {
    let mut hand = Hand::from_text("111m222p333s111z33z", false).unwrap();
    let mut sf = ShapeFinder::new();
    sf.find(&mut hand);

    println!("{:#?}", sf.variants);

    assert_eq!(sf.variants.len(), 1);
}

#[test]
fn find_pinfu() {
    let mut hand = Hand::from_text("123m456p123789s55z", false).unwrap();
    let mut sf = ShapeFinder::new();
    sf.find(&mut hand);

    println!("{:#?}", sf.variants);

    assert_eq!(sf.variants.len(), 1);
}

#[test]
fn shape_finder_find_chuuren() {
    let mut hand = Hand::from_text("1112345678999m1m", false).unwrap();
    let mut sf = ShapeFinder::new();
    sf.find(&mut hand);

    println!("{:#?}", sf.variants);

    assert_eq!(sf.variants.len(), 1);
}

#[test]
fn shape_finder_find_ryanpeikou() {
    let mut hand = Hand::from_text("223344m223344p2s2s", false).unwrap();
    let mut sf = ShapeFinder::new();
    sf.find(&mut hand);

    //        println!("{:#?}", sf.variants);

    assert_eq!(sf.variants.len(), 2);
}
