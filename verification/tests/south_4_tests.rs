use riichi_tools_rs::riichi::south_4_simulator::South4Simulator;

#[test]
fn generate() {
    let simulator = South4Simulator::new();

    assert!(simulator.my_score < simulator.opponent_score);
}

#[test]
fn eval_7900_oya() {
    let simulator = South4Simulator {
        my_score: 30000,
        opponent_score: 37900,
        oya_state: 2,
        riichi_sticks: 0,
        tsumibo: 0,
    };

    let result = simulator.evaluate((2, 50), (3, 50), (3, 30), false);

    println!("{:#?}", result);

    assert_eq!({result.0}.0, true);
    assert_eq!({result.0}.1, true);
    assert_eq!({result.0}.2, true);
}

#[test]
fn eval_7900_opponent_oya() {
    let simulator = South4Simulator {
        my_score: 30000,
        opponent_score: 37900,
        oya_state: 3,
        riichi_sticks: 0,
        tsumibo: 0,
    };

    let result = simulator.evaluate((3, 40), (5, 0), (3, 50), false);

    println!("{:#?}", result);

    assert_eq!({result.0}.0, true);
    assert_eq!({result.0}.1, true);
    assert_eq!({result.0}.2, true);

}

#[test]
fn eval_16100_oya() {
    let simulator = South4Simulator {
        my_score: 33200,
        opponent_score: 49200,
        oya_state: 2,
        riichi_sticks: 0,
        tsumibo: 0,
    };

    let result = simulator.evaluate((2, 90), (6, 0), (6, 0), true);

    println!("{:#?}", result);

    assert_eq!({result.0}.0, true);
    assert_eq!({result.0}.1, true);
    assert_eq!({result.0}.2, true);
}

#[test]
fn eval_8900_with_riichi_stick() {
    let simulator = South4Simulator {
        my_score: 30000,
        opponent_score: 38900,
        oya_state: 1,
        riichi_sticks: 1,
        tsumibo: 0,
    };

    let result = simulator.evaluate((2, 70), (5, 0), (4, 25), true);

//        println!("{:#?}", result);

    assert_eq!({result.0}.0, true);
    assert_eq!({result.0}.1, true);
    assert_eq!({result.0}.2, true);
}

#[test]
fn eval_9500_with_riichi_stick_2_tsumibo() {
    let simulator = South4Simulator {
        my_score: 30000,
        opponent_score: 39500,
        oya_state: 1,
        riichi_sticks: 1,
        tsumibo: 2,
    };

    let result = simulator.evaluate((3, 40), (5, 0), (4, 25), false);

//        println!("{:#?}", result);

    assert_eq!({result.0}.0, true);
    assert_eq!({result.0}.1, true);
    assert_eq!({result.0}.2, true);
}

#[test]
fn eval_100() {
    let simulator = South4Simulator {
        my_score: 30000,
        opponent_score: 30100,
        oya_state: 1,
        riichi_sticks: 0,
        tsumibo: 0,
    };

    let result = simulator.evaluate((1, 30), (1, 30), (1, 30), false);

    println!("{:#?}", result);

    assert_eq!({result.0}.0, true);
    assert_eq!({result.0}.1, true);
    assert_eq!({result.0}.2, true);
}

#[test]
fn eval_negative() {
    let simulator = South4Simulator {
        my_score: 30000,
        opponent_score: 32000,
        oya_state: 1,
        riichi_sticks: 2,
        tsumibo: 1,
    };

    let result = simulator.evaluate((1, 30), (1, 30), (1, 30), false);

    println!("{:#?}", result);

    assert_eq!({result.0}.0, true);
    assert_eq!({result.0}.1, true);
    assert_eq!({result.0}.2, true);
}

#[test]
fn eval_tsumo_with_sticks() {
    let simulator = South4Simulator {
        my_score: 30000,
        opponent_score: 40300,
        oya_state: 1,
        riichi_sticks: 0,
        tsumibo: 1,
    };

    let result = simulator.evaluate((3, 40), (6, 0), (5, 0), false);

    println!("{:#?}", result);

    assert_eq!({result.0}.0, true);
    assert_eq!({result.0}.1, true);
    assert_eq!({result.0}.2, true);
}
