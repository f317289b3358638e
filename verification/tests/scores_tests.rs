use riichi_tools_rs::riichi::scores::Score;

#[test]
fn score_1_30() {
    let score = Score::new(1, 30, false, false);
    assert_eq!(score.total_points(), 1000);
}

#[test]
fn score_1_30_oya() {
    let score = Score::new(1, 30, true, false);
    assert_eq!(score.total_points(), 1500);
}

#[test]
fn score_1_30_tsumo() {
    let score = Score::new(1, 30, false, true);
    assert_eq!(score.total_points(), 1100);
}

#[test]
fn score_1_30_oya_tsumo() {
    let score = Score::new(1, 30, true, true);
    assert_eq!(score.total_points(), 1500);
}

#[test]
fn score_1_40() {
    let score = Score::new(1, 40, false, false);
    assert_eq!(score.total_points(), 1300);
}

#[test]
fn score_1_40_oya() {
    let score = Score::new(1, 40, true, false);
    assert_eq!(score.total_points(), 2000);
}

#[test]
fn score_1_40_tsumo() {
    let score = Score::new(1, 40, false, true);
    assert_eq!(score.total_points(), 1500);
}

#[test]
fn score_1_40_oya_tsumo() {
    let score = Score::new(1, 40, true, true);
    assert_eq!(score.total_points(), 2100);
}

#[test]
fn score_4_30() {
    let score = Score::new(4, 30, false, false);
    assert_eq!(score.total_points(), 7700);
}

#[test]
fn score_3_50() {
    let score = Score::new(3, 70, false, false);
    assert_eq!(score.total_points(), 8000);
}

#[test]
fn oya_points_1_30() {
    let score = Score::new(1, 30, false, false);
    assert_eq!(score.points_from_oya(), 1000);
}

#[test]
fn oya_points_1_30_tsumo() {
    let score = Score::new(1, 30, false, true);
    assert_eq!(score.points_from_oya(), 500);
}

#[test]
fn ko_points_1_30() {
    let score = Score::new(1, 30, false, false);
    assert_eq!(score.points_from_ko(), 1000);
}

#[test]
fn ko_points_1_30_tsumo() {
    let score = Score::new(1, 30, false, true);
    assert_eq!(score.points_from_ko(), 300);
}

#[test]
fn from_points_2000() {
    let scores = Score::from_points(2000, false, false, false).unwrap();

    assert_eq!(scores.len(), 2);

    assert_eq!(scores[0].han, 1);
    assert_eq!(scores[0].fu, 60);

    assert_eq!(scores[1].han, 2);
    assert_eq!(scores[1].fu, 30);
}

#[test]
fn from_points_3800() {
    let scores = Score::from_points(3800, false, false, false).unwrap();

    assert_eq!(scores.len(), 2);

    assert_eq!(scores[0].han, 2);
    assert_eq!(scores[0].fu, 60);

    assert_eq!(scores[1].han, 3);
    assert_eq!(scores[1].fu, 30);
}

#[test]
fn from_points_3800_oya() {
    let scores = Score::from_points(3800, true, false, false).unwrap();

//        println!("{:#?}", scores);

    assert_eq!(scores.len(), 2);

    assert_eq!(scores[0].han, 1);
    assert_eq!(scores[0].fu, 80);

    assert_eq!(scores[1].han, 2);
    assert_eq!(scores[1].fu, 40);
}

#[test]
fn from_points_3800_oya_tsumo() {
    let scores = Score::from_points(3800, true, true, false).unwrap();

//        println!("{:#?}", scores);

    assert_eq!(scores.len(), 3);

    assert_eq!(scores[0].han, 1);
    assert_eq!(scores[0].fu, 80);

    assert_eq!(scores[1].han, 2);
    assert_eq!(scores[1].fu, 40);

    assert_eq!(scores[2].han, 3);
    assert_eq!(scores[2].fu, 20);
}

#[test]
fn from_points_4000() {
    let scores = Score::from_points(4000, false, false, false).unwrap();

//        println!("{:#?}", scores);

    assert_eq!(scores.len(), 1);

    assert_eq!(scores[0].han, 2);
    assert_eq!(scores[0].fu, 70);
}

#[test]
fn from_points_7600() {
    let scores = Score::from_points(7600, false, false, false).unwrap();

//        println!("{:#?}", scores);

    assert_eq!(scores.len(), 2);

    assert_eq!(scores[0].han, 3);
    assert_eq!(scores[0].fu, 60);

    assert_eq!(scores[1].han, 4);
    assert_eq!(scores[1].fu, 30);
}

#[test]
fn from_points_8000() {
    let scores = Score::from_points(8000, false, false, false).unwrap();

//        println!("{:#?}", scores);

    assert_eq!(scores.len(), 3);

    assert_eq!(scores[0].han, 3);
    assert_eq!(scores[0].fu, 70);

    assert_eq!(scores[1].han, 4);
    assert_eq!(scores[1].fu, 40);

    assert_eq!(scores[2].han, 5);
    assert_eq!(scores[2].fu, 0);
}

#[test]
fn from_points_9000_reaches_haneman() {
    let scores = Score::from_points(9000, false, false, false).unwrap();
    assert_eq!(scores[0].total_points(), 12000);
    assert_eq!(scores[0].han, 6);
}

#[test]
fn from_points_8000_is_mangan() {
    let scores = Score::from_points(8000, false, false, false).unwrap();
    assert_eq!(scores[0].total_points(), 8000);
}
