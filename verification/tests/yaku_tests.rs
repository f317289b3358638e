use riichi_tools_rs::riichi::table::{Table, TableParam};
use riichi_tools_rs::riichi::yaku::Yaku;

#[test]
fn find_1_30_score() {
    let mut map: Vec<(String, TableParam)> = Vec::new();
    map.push(("my_hand".to_string(), TableParam::Text("123m234s456789p11z".to_string()))); // won on east tanki wait
    map.push(("my_tsumo".to_string(), TableParam::Flag(true)));
    map.push(("prevalent_wind".to_string(), TableParam::Number(Some(1)))); // east as prevalent wind = +2 fu

    let mut table = Table::from_map(&map).unwrap();
    let (_yakus, score) = table.yaku().unwrap();

    assert_eq!(score.han, 1);
    assert_eq!(score.fu, 30);
}

#[test]
fn find_1_30_kanchan() {
    let mut map: Vec<(String, TableParam)> = Vec::new();
    map.push(("my_hand".to_string(), TableParam::Text("123m24s456789p22z3s".to_string())));
    map.push(("my_tsumo".to_string(), TableParam::Flag(true)));
    map.push(("prevalent_wind".to_string(), TableParam::Number(Some(1))));

    let mut table = Table::from_map(&map).unwrap();
    let (_yakus, score) = table.yaku().unwrap();

    assert_eq!(score.han, 1);
    assert_eq!(score.fu, 30);
}

#[test]
fn find_mentanpin() {
    let mut map: Vec<(String, TableParam)> = Vec::new();
    map.push(("my_hand".to_string(), TableParam::Text("23467m234567s88p5m".to_string())));
    map.push(("my_tsumo".to_string(), TableParam::Flag(true)));

    let mut table = Table::from_map(&map).unwrap();
    let res = table.yaku().unwrap();
    assert!(match res.0.get(0).unwrap() {
        Yaku::MenzenTsumo => true,
        _ => false,
    });
    assert!(match res.0.get(1).unwrap() {
        Yaku::Pinfu => true,
        _ => false,
    });
    assert!(match res.0.get(2).unwrap() {
        Yaku::Tanyao => true,
        _ => false,
    });
}

#[test]
fn find_yakuhai_south() {
    let mut map: Vec<(String, TableParam)> = Vec::new();
    map.push(("my_hand".to_string(), TableParam::Text("222z123789m444s33p".to_string())));
    map.push(("my_seat_wind".to_string(), TableParam::Number(Some(2))));

    let mut table = Table::from_map(&map).unwrap();
    let res = table.yaku().unwrap();
    assert!(match res.0.get(0).unwrap() {
        Yaku::SouthSeat => true,
        _ => false,
    });
}

#[test]
fn find_tanyao_chiitoi() {
    let mut map: Vec<(String, TableParam)> = Vec::new();
    map.push(("my_hand".to_string(), TableParam::Text("224466m4477s3388p".to_string())));

    let mut table = Table::from_map(&map).unwrap();
    let res = table.yaku().unwrap();
    assert!(match res.0.get(0).unwrap() {
        Yaku::Tanyao => true,
        _ => false,
    });
    assert!(match res.0.get(1).unwrap() {
        Yaku::Chiitoitsu => true,
        _ => false,
    });
}

#[test]
fn find_white_dragons_closed() {
    let mut map: Vec<(String, TableParam)> = Vec::new();
    map.push(("my_hand".to_string(), TableParam::Text("123m234s67888p555z".to_string())));

    let mut table = Table::from_map(&map).unwrap();
    let res = table.yaku().unwrap();
    assert!(match res.0.get(0).unwrap() {
        Yaku::WhiteDragons => true,
        _ => false,
    });
}

#[test]
fn find_white_dragons_open() {
    let mut map: Vec<(String, TableParam)> = Vec::new();
    map.push(("my_hand".to_string(), TableParam::Text("123m234s67888p(p5z1)".to_string())));

    let mut table = Table::from_map(&map).unwrap();
    let res = table.yaku().unwrap();
    assert!(match res.0.get(0).unwrap() {
        Yaku::WhiteDragons => true,
        _ => false,
    });
}

#[test]
fn find_sanshoku_doujun_closed() {
    let mut map: Vec<(String, TableParam)> = Vec::new();
    map.push(("my_hand".to_string(), TableParam::Text("234m234567s23499p".to_string())));

    let mut table = Table::from_map(&map).unwrap();
    let res = table.yaku().unwrap();
    assert!(match res.0.get(0).unwrap() {
        Yaku::SanshokuDoujun => true,
        _ => false,
    });
}

#[test]
fn find_sanshoku_doujun_open() {
    let mut map: Vec<(String, TableParam)> = Vec::new();
    map.push(("my_hand".to_string(), TableParam::Text("234m234567s99p(234p2)".to_string())));

    let mut table = Table::from_map(&map).unwrap();
    let res = table.yaku().unwrap();
    assert!(match res.0.get(0).unwrap() {
        Yaku::SanshokuDoujun => true,
        _ => false,
    });
}

#[test]
fn find_sanshoku_doukou() {
    let mut map: Vec<(String, TableParam)> = Vec::new();
    map.push(("my_hand".to_string(), TableParam::Text("222m222567s99p(p2p1)".to_string())));

    let mut table = Table::from_map(&map).unwrap();
    let res = table.yaku().unwrap();
    assert!(match res.0.get(0).unwrap() {
        Yaku::SanshokuDoukou => true,
        _ => false,
    });
}

#[test]
fn find_ittsu_closed() {
    let mut map: Vec<(String, TableParam)> = Vec::new();
    map.push(("my_hand".to_string(), TableParam::Text("11m123456789s444p".to_string())));

    let mut table = Table::from_map(&map).unwrap();
    let res = table.yaku().unwrap();
    assert!(match res.0.get(0).unwrap() {
        Yaku::Ittsu => true,
        _ => false,
    });
}

#[test]
fn find_ittsu_open() {
    let mut map: Vec<(String, TableParam)> = Vec::new();
    map.push(("my_hand".to_string(), TableParam::Text("11m123456s444p(789s0)".to_string())));

    let mut table = Table::from_map(&map).unwrap();
    let res = table.yaku().unwrap();
    assert!(match res.0.get(0).unwrap() {
        Yaku::Ittsu => true,
        _ => false,
    });
}

#[test]
fn find_toitoi_sanankou() {
    let mut map: Vec<(String, TableParam)> = Vec::new();
    // wins on a shanpon wait
    map.push(("my_hand".to_string(), TableParam::Text("111m22255p777s22z5p".to_string())));

    let mut table = Table::from_map(&map).unwrap();
    let res = table.yaku().unwrap();
    assert!(match res.0.get(0).unwrap() {
        Yaku::Toitoi => true,
        _ => false,
    });
    assert!(match res.0.get(1).unwrap() {
        Yaku::Sanankou => true,
        _ => false,
    });
}

#[test]
fn find_suuankou() {
    let mut map: Vec<(String, TableParam)> = Vec::new();
    // wins on a shanpon wait
    map.push(("my_hand".to_string(), TableParam::Text("111m222555p777s22z".to_string())));

    let mut table = Table::from_map(&map).unwrap();
    let res = table.yaku().unwrap();
    assert!(match res.0.get(0).unwrap() {
        Yaku::Suuankou => true,
        _ => false,
    });
}

#[test]
fn find_toitoi_sanankou_sanshoku() {
    let mut map: Vec<(String, TableParam)> = Vec::new();
    // wins on a shanpon wait
    map.push(("my_hand".to_string(), TableParam::Text("111m11155p111s22z5p".to_string())));

    let mut table = Table::from_map(&map).unwrap();
    let res = table.yaku().unwrap();
    assert!(match res.0.get(0).unwrap() {
        Yaku::Toitoi => true,
        _ => false,
    });
    assert!(match res.0.get(1).unwrap() {
        Yaku::Sanankou => true,
        _ => false,
    });
    assert!(match res.0.get(2).unwrap() {
        Yaku::SanshokuDoukou => true,
        _ => false,
    });
}

#[test]
fn find_toitoi_sanshoku() {
    let mut map: Vec<(String, TableParam)> = Vec::new();
    // wins on a shanpon wait
    map.push(("my_hand".to_string(), TableParam::Text("111m11155p22z5p(p1s3)".to_string())));

    let mut table = Table::from_map(&map).unwrap();
    let res = table.yaku().unwrap();
    assert!(match res.0.get(0).unwrap() {
        Yaku::Toitoi => true,
        _ => false,
    });
    assert!(match res.0.get(1).unwrap() {
        Yaku::SanshokuDoukou => true,
        _ => false,
    });
}

#[test]
fn find_iipeikou() {
    let mut map: Vec<(String, TableParam)> = Vec::new();
    // wins on a shanpon wait
    map.push(("my_hand".to_string(), TableParam::Text("112233789m45677p".to_string())));

    let mut table = Table::from_map(&map).unwrap();
    let res = table.yaku().unwrap();
    assert!(match res.0.get(0).unwrap() {
        Yaku::Iipeikou => true,
        _ => false,
    });
}

#[test]
fn yaku_find_ryanpeikou() {
    let mut map: Vec<(String, TableParam)> = Vec::new();
    // wins on a shanpon wait
    map.push(("my_hand".to_string(), TableParam::Text("112233m45645688p".to_string())));

    let mut table = Table::from_map(&map).unwrap();
    let res = table.yaku().unwrap();
    assert!(match res.0.get(0).unwrap() {
        Yaku::Ryanpeikou => true,
        _ => false,
    });
}

#[test]
fn find_chinitsu() {
    let mut map: Vec<(String, TableParam)> = Vec::new();
    // wins on a shanpon wait
    map.push(("my_hand".to_string(), TableParam::Text("12322244467899p".to_string())));

    let mut table = Table::from_map(&map).unwrap();
    let res = table.yaku().unwrap();
    assert!(match res.0.get(0).unwrap() {
        Yaku::Chinitsu => true,
        _ => false,
    });
}

#[test]
fn find_kokushi() {
    let mut map: Vec<(String, TableParam)> = Vec::new();
    // wins on a shanpon wait
    map.push(("my_hand".to_string(), TableParam::Text("119m19p19s1234567z".to_string())));

    let mut table = Table::from_map(&map).unwrap();
    let res = table.yaku().unwrap();
    assert!(match res.0.get(0).unwrap() {
        Yaku::Kokushi => true,
        _ => false,
    });
}

#[test]
fn find_shousangen() {
    let mut map: Vec<(String, TableParam)> = Vec::new();
    map.push(("my_hand".to_string(), TableParam::Text("234m789s55566677z".to_string())));

    let mut table = Table::from_map(&map).unwrap();
    let res = table.yaku().unwrap();
    assert!(match res.0.get(0).unwrap() {
        Yaku::WhiteDragons => true,
        _ => false,
    });
    assert!(match res.0.get(1).unwrap() {
        Yaku::GreenDragons => true,
        _ => false,
    });
    assert!(match res.0.get(2).unwrap() {
        Yaku::Shousangen => true,
        _ => false,
    });
}

#[test]
fn find_daisangen() {
    let mut map: Vec<(String, TableParam)> = Vec::new();
    map.push(("my_hand".to_string(), TableParam::Text("234m88s555666777z".to_string())));

    let mut table = Table::from_map(&map).unwrap();
    let res = table.yaku().unwrap();
    assert!(match res.0.get(0).unwrap() {
        Yaku::Daisangen => true,
        _ => false,
    });
}

#[test]
fn find_shousuushii() {
    let mut map: Vec<(String, TableParam)> = Vec::new();
    map.push(("my_hand".to_string(), TableParam::Text("11222333444z789p".to_string())));

    let mut table = Table::from_map(&map).unwrap();
    let res = table.yaku().unwrap();
    assert!(match res.0.get(0).unwrap() {
        Yaku::Shousuushii => true,
        _ => false,
    });
}

#[test]
fn find_daisuushii() {
    let mut map: Vec<(String, TableParam)> = Vec::new();
    map.push(("my_hand".to_string(), TableParam::Text("111222333444z77p".to_string())));

    let mut table = Table::from_map(&map).unwrap();
    let res = table.yaku().unwrap();
    assert!(match res.0.get(0).unwrap() {
        Yaku::Suuankou => true,
        _ => false,
    });
    assert!(match res.0.get(1).unwrap() {
        Yaku::Daisuushii => true,
        _ => false,
    });
}

#[test]
fn find_ryuuiisou() {
    let mut map: Vec<(String, TableParam)> = Vec::new();
    map.push(("my_hand".to_string(), TableParam::Text("23433366688s666z".to_string())));

    let mut table = Table::from_map(&map).unwrap();
    let res = table.yaku().unwrap();
    assert!(match res.0.get(0).unwrap() {
        Yaku::Ryuuiisou => true,
        _ => false,
    });
}

#[test]
fn yaku_find_chuuren() {
    let mut map: Vec<(String, TableParam)> = Vec::new();
    map.push(("my_hand".to_string(), TableParam::Text("11123455678999p".to_string())));

    let mut table = Table::from_map(&map).unwrap();
    let res = table.yaku().unwrap();
    assert!(match res.0.get(0).unwrap() {
        Yaku::Chuuren => true,
        _ => false,
    });
}

#[test]
fn find_open_tanyao() {
    let mut map: Vec<(String, TableParam)> = Vec::new();
    map.push(("my_hand".to_string(), TableParam::Text("234s22555p(p2m2)(345m1)".to_string())));

    let mut table = Table::from_map(&map).unwrap();
    let res = table.yaku().unwrap();
    assert!(match res.0.get(0).unwrap() {
        Yaku::Tanyao => true,
        _ => false,
    });
}
