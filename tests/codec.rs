use ants_ai_challenge_api::{
    parse_end_lines, parse_orders, parse_turn_0_lines, parse_turn_x_lines, pos,
    serialize_orders, Direction, ErrorKind, GameParameters, Order, Orders, ProtocolError, Score,
    SetupIssue, SetupPolicy, WorldState,
};

fn lines(text: &str) -> Vec<String> {
    text.lines().map(|l| l.trim().to_string()).collect()
}

fn zero_params() -> GameParameters {
    GameParameters {
        loadtime_ms: 0,
        turntime_ms: 0,
        rows: 0,
        cols: 0,
        turns: 0,
        viewradius2: 0,
        attackradius2: 0,
        spawnradius2: 0,
        player_seed: 0,
    }
}

#[test]
fn parse_turn_0_success() {
    let input = lines(
        "loadtime 3000
        turntime 1000
        rows 20
        cols 20
        turns 500
        viewradius2 55
        attackradius2 5
        spawnradius2 1
        player_seed 42
        ready",
    );
    let expected = GameParameters {
        loadtime_ms: 3000,
        turntime_ms: 1000,
        rows: 20,
        cols: 20,
        turns: 500,
        viewradius2: 55,
        attackradius2: 5,
        spawnradius2: 1,
        player_seed: 42,
    };

    let mut notes = Vec::new();
    let (actual, next) = parse_turn_0_lines(&input, 0, SetupPolicy::Strict, &mut notes).unwrap();
    assert_eq!(expected, actual);
    assert_eq!(next, 10);
    assert!(notes.is_empty());
}

#[test]
fn parse_turn_1_success() {
    let input = lines(
        "f 6 5
        w 7 6
        a 7 9 1
        a 10 8 0
        a 10 9 0
        h 7 12 1
        go",
    );

    let expected = WorldState::default()
        .food(pos(6, 5))
        .water(pos(7, 6))
        .live_ant(pos(7, 9), 1)
        .live_ant(pos(10, 8), 0)
        .live_ant(pos(10, 9), 0)
        .hill(pos(7, 12), 1);

    let (actual, next) = parse_turn_x_lines(&input, 0).unwrap();
    assert_eq!(expected, actual);
    assert_eq!(next, 7);
    assert_eq!(actual.foods, vec![pos(6, 5)]);
    assert_eq!(actual.waters, vec![pos(7, 6)]);
    assert_eq!(actual.live_ants_for_player(0), vec![pos(10, 8), pos(10, 9)]);
    assert_eq!(actual.live_ants_for_player(1), vec![pos(7, 9)]);
    assert_eq!(actual.hills_for_player(1), vec![pos(7, 12)]);
    assert!(actual.dead_ants.is_empty());
}

#[test]
fn parse_end_success() {
    let input = lines(
        "players 2
        score 1 0
        f 6 5
        d 7 8 1
        a 9 8 0
        a 9 9 0
        go",
    );

    let expected_world_state = WorldState::default()
        .food(pos(6, 5))
        .dead_ant(pos(7, 8), 1)
        .live_ant(pos(9, 8), 0)
        .live_ant(pos(9, 9), 0);

    let expected_score = Score { per_player: vec![1, 0] };

    let (actual_world_state, actual_score, next) = parse_end_lines(&input, 0).unwrap();

    assert_eq!(expected_world_state, actual_world_state);
    assert_eq!(expected_score, actual_score);
    assert_eq!(next, 7);
}

#[test]
fn serialize_orders_success() {
    let mut orders: Orders = vec![];

    orders.push(pos(10, 8).north());
    orders.push(pos(2, 3).south());
    orders.push(pos(4, 5).east());
    orders.push(pos(6, 7).west());

    let expected = "o 10 8 N\no 2 3 S\no 4 5 E\no 6 7 W\n";

    let actual = serialize_orders(&orders);
    assert_eq!(expected, actual);
}

#[test]
fn serialize_leaves_out_stationary_orders() {
    let orders = vec![pos(1, 2).pause(), pos(65535, 0).west(), pos(3, 3).pause()];
    assert_eq!(serialize_orders(&orders), "o 65535 0 W\n");
    assert_eq!(serialize_orders(&[]), "");
}

#[test]
fn orders_round_trip() {
    let orders = vec![
        pos(0, 0).north(),
        pos(65535, 65535).south(),
        pos(10, 200).east(),
        pos(7, 7).west(),
        pos(0, 0).north(),
    ];
    let text = serialize_orders(&orders);
    assert_eq!(parse_orders(&text), Some(orders));
    assert_eq!(parse_orders(""), Some(vec![]));
}

#[test]
fn parse_orders_rejects_bad_groups() {
    assert_eq!(parse_orders("o 1 2 N\no 1 2\n"), None);
    assert_eq!(parse_orders("o 1 2 X\n"), None);
    assert_eq!(parse_orders("x 1 2 N\n"), None);
    assert_eq!(parse_orders("o 1 65536 N\n"), None);
    assert_eq!(
        parse_orders("o +1 02 S"),
        Some(vec![Order { pos: pos(1, 2), dir: Direction::South }])
    );
}

#[test]
fn setup_lenient_skips_and_reports() {
    let input = lines(
        "rows 20
        colour 7
        cols twenty
        turns
        cols -3
        ready
        turn 1",
    );
    let mut notes = Vec::new();
    let (p, next) = parse_turn_0_lines(&input, 0, SetupPolicy::Lenient, &mut notes).unwrap();
    assert_eq!(p, GameParameters { rows: 20, cols: -3, ..zero_params() });
    assert_eq!(next, 6);
    assert_eq!(
        notes,
        vec![
            ProtocolError { line: 1, kind: ErrorKind::BadSetupLine(SetupIssue::UnknownKey) },
            ProtocolError { line: 2, kind: ErrorKind::BadSetupLine(SetupIssue::BadValue) },
            ProtocolError { line: 3, kind: ErrorKind::BadSetupLine(SetupIssue::Malformed) },
        ]
    );
}

#[test]
fn setup_strict_stops_at_bad_line() {
    let input = lines("rows 20\ncolour 7\nready");
    let mut notes = Vec::new();
    assert_eq!(
        parse_turn_0_lines(&input, 0, SetupPolicy::Strict, &mut notes),
        Err(ProtocolError { line: 1, kind: ErrorKind::BadSetupLine(SetupIssue::UnknownKey) })
    );
    assert!(notes.is_empty());
    let input = lines("rows 20\nplayer_seed 9223372036854775808\nready");
    assert_eq!(
        parse_turn_0_lines(&input, 0, SetupPolicy::Strict, &mut notes),
        Err(ProtocolError { line: 1, kind: ErrorKind::BadSetupLine(SetupIssue::BadValue) })
    );
}

#[test]
fn setup_extreme_values() {
    let input = lines("player_seed -9223372036854775808\nturns 9223372036854775807\nready");
    let mut notes = Vec::new();
    let (p, _) = parse_turn_0_lines(&input, 0, SetupPolicy::Strict, &mut notes).unwrap();
    assert_eq!(p.player_seed, i64::MIN);
    assert_eq!(p.turns, i64::MAX);
}

#[test]
fn setup_without_ready_is_truncated() {
    let input = lines("rows 20\ncols 20");
    let mut notes = Vec::new();
    assert_eq!(
        parse_turn_0_lines(&input, 0, SetupPolicy::Lenient, &mut notes),
        Err(ProtocolError { line: 2, kind: ErrorKind::UnexpectedEnd })
    );
}

#[test]
fn put_reports_and_keeps_value() {
    let mut p = GameParameters::default();
    assert_eq!(p.put("rows", "43"), Ok(()));
    assert_eq!(p.put("rows", "x"), Err(SetupIssue::BadValue));
    assert_eq!(p.put("size", "4"), Err(SetupIssue::UnknownKey));
    assert_eq!(p, GameParameters { rows: 43, ..zero_params() });
}

#[test]
fn world_rejects_bad_records() {
    let bad = [
        "x 1 2",
        "w 1 2 3",
        "a 1 2",
        "a 1 2 256",
        "f 65536 1",
        "h 1 -2 0",
        "d 1 2 0 0",
        "",
    ];
    for (k, line) in bad.iter().enumerate() {
        let input = vec!["f 1 1".to_string(), line.to_string(), "go".to_string()];
        assert_eq!(
            parse_turn_x_lines(&input, 0),
            Err(ProtocolError { line: 1, kind: ErrorKind::BadRecord }),
            "case {}",
            k
        );
    }
}

#[test]
fn world_edge_values_and_truncation() {
    let input = lines("a 65535 0 255\ngo");
    let (w, _) = parse_turn_x_lines(&input, 0).unwrap();
    assert_eq!(w.live_ants_for_player(255), vec![pos(65535, 0)]);
    assert_eq!(w.max_player_count(), 256);
    let input = lines("a 1 1 0");
    assert_eq!(
        parse_turn_x_lines(&input, 0),
        Err(ProtocolError { line: 1, kind: ErrorKind::UnexpectedEnd })
    );
}

#[test]
fn end_block_count_mismatch_is_fatal() {
    for (players, scores) in [(2, "score 1"), (1, "score 1 0"), (0, "score 5"), (3, "score")] {
        let input = vec![format!("players {}", players), scores.to_string(), "go".to_string()];
        let n = scores.split_whitespace().count() - 1;
        assert_eq!(
            parse_end_lines(&input, 0),
            Err(ProtocolError {
                line: 1,
                kind: ErrorKind::ScoreCountMismatch { players, scores: n }
            })
        );
    }
    let input = lines("players 0\nscore\ngo");
    let (_, s, _) = parse_end_lines(&input, 0).unwrap();
    assert!(s.per_player.is_empty());
}

#[test]
fn end_block_header_errors() {
    let input = lines("player 2\nscore 1 0\ngo");
    assert_eq!(
        parse_end_lines(&input, 0),
        Err(ProtocolError { line: 0, kind: ErrorKind::BadPlayersLine })
    );
    let input = lines("players 2\nscores 1 0\ngo");
    assert_eq!(
        parse_end_lines(&input, 0),
        Err(ProtocolError { line: 1, kind: ErrorKind::BadScoreLine })
    );
    let input = lines("players 2\nscore 1 x\ngo");
    assert_eq!(
        parse_end_lines(&input, 0),
        Err(ProtocolError { line: 1, kind: ErrorKind::BadScoreLine })
    );
    let input = lines("players 2");
    assert_eq!(
        parse_end_lines(&input, 0),
        Err(ProtocolError { line: 1, kind: ErrorKind::UnexpectedEnd })
    );
    let input = lines("players 1\nscore 18446744073709551615\ngo");
    let (_, s, _) = parse_end_lines(&input, 0).unwrap();
    assert_eq!(s.per_player, vec![u64::MAX]);
}

#[test]
fn non_ascii_lines_are_read_by_character() {
    let input = vec!["f 1 1".to_string(), "é 1 2".to_string(), "go".to_string()];
    assert_eq!(
        parse_turn_x_lines(&input, 0),
        Err(ProtocolError { line: 1, kind: ErrorKind::BadRecord })
    );
    let input = vec!["rōws 3".to_string(), "cols 4".to_string(), "ready".to_string()];
    let mut notes = Vec::new();
    let (p, next) = parse_turn_0_lines(&input, 0, SetupPolicy::Lenient, &mut notes).unwrap();
    assert_eq!(p, GameParameters { cols: 4, ..zero_params() });
    assert_eq!(next, 3);
    assert_eq!(
        notes,
        vec![ProtocolError { line: 0, kind: ErrorKind::BadSetupLine(SetupIssue::UnknownKey) }]
    );
}

#[test]
fn tabs_and_carriage_returns_separate_tokens() {
    let input = vec!["a\t3  4 \t2\r".to_string(), "  go  ".to_string()];
    let (w, next) = parse_turn_x_lines(&input, 0).unwrap();
    assert_eq!(w.live_ants_for_player(2), vec![pos(3, 4)]);
    assert_eq!(next, 2);
}
