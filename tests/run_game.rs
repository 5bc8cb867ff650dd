use ants_ai_challenge_api::{
    pos, run_game_with_io, Action, Agent, Driver, ErrorKind, GameParameters, Order, Orders,
    Phase, ProtocolError, Score, SetupIssue, SetupPolicy, WorldState, North,
};

fn lines(text: &str) -> Vec<String> {
    text.lines().map(|l| l.trim().to_string()).collect()
}

#[derive(Debug, Default)]
struct TestAgent {
    prep_call_count: u32,
    make_turn_call_count: u32,
    at_end_call_count: u32,
    orders_to_make: Orders,
    expected_game_params: GameParameters,
    expected_world_state: WorldState,
    expected_score: Option<Score>,
}

impl Agent for TestAgent {
    fn prepare(&mut self, params: GameParameters) {
        self.prep_call_count += 1;
        assert_eq!(self.expected_game_params, params, "Expecting left but got right");
    }

    fn make_turn(&mut self, params: GameParameters, world: WorldState, turn_count: u32) -> Orders {
        self.make_turn_call_count += 1;
        assert_eq!(self.make_turn_call_count, turn_count, "Turn count, expecting left but go right");
        assert_eq!(self.expected_game_params, params, "Expecting left but got right");
        assert_eq!(self.expected_world_state, world, "Expecting left but got right");
        self.orders_to_make.clone()
    }

    fn at_end(&mut self, params: &GameParameters, world: &WorldState, score: &Score) {
        self.at_end_call_count += 1;
        assert_eq!(&self.expected_game_params, params);
        assert_eq!(&self.expected_world_state, world);
        if let Some(s) = &self.expected_score {
            assert_eq!(s, score);
        }
    }
}

fn game_parameters() -> GameParameters {
    GameParameters {
        loadtime_ms: 3000,
        turntime_ms: 1000,
        rows: 20,
        cols: 20,
        turns: 500,
        viewradius2: 55,
        attackradius2: 5,
        spawnradius2: 1,
        player_seed: 42,
    }
}

const SETUP: &str = "turn 0
    loadtime 3000
    turntime 1000
    rows 20
    cols 20
    turns 500
    viewradius2 55
    attackradius2 5
    spawnradius2 1
    player_seed 42
    ready
";

#[test]
fn run_game_success() {
    let input = lines(
        "turn 0
        loadtime 3000
        turntime 1000
        rows 20
        cols 20
        turns 500
        viewradius2 55
        attackradius2 5
        spawnradius2 1
        player_seed 42
        ready

        turn 1
        f 6 5
        w 7 6
        d 7 9 1
        a 10 8 0
        h 7 12 1
        go

        turn 2
        f 6 5
        w 7 6
        d 7 9 1
        a 10 8 0
        h 7 12 1
        go

        end
        players 2
        score 1 0
        f 6 5
        w 7 6
        d 7 9 1
        a 10 8 0
        h 7 12 1
        go
        ",
    );
    let mut output = String::from("");
    let mut notes = Vec::new();

    let mut test_agent = TestAgent::default();
    assert_eq!(0, test_agent.prep_call_count, "no prepare calls before use");
    assert_eq!(0, test_agent.make_turn_call_count, "no make_turn calls before use");
    assert_eq!(0, test_agent.at_end_call_count, "no at_end calls before use");

    test_agent.expected_game_params = game_parameters();

    test_agent.expected_world_state = WorldState::default()
        .food(pos(6, 5))
        .water(pos(7, 6))
        .dead_ant(pos(7, 9), 1)
        .live_ant(pos(10, 8), 0)
        .hill(pos(7, 12), 1);

    test_agent.orders_to_make = vec![pos(1, 2).order(North)];
    let expected_score = Score { per_player: vec![1, 0] };
    test_agent.expected_score = Some(expected_score.clone());

    let (world_at_end, score) = run_game_with_io(
        &mut test_agent,
        SetupPolicy::Strict,
        &input,
        &mut output,
        &mut notes,
    )
    .unwrap();

    assert_eq!(1, test_agent.prep_call_count, "one prepare call after use");
    assert_eq!(2, test_agent.make_turn_call_count, "two make_turn calls after use");
    assert_eq!(1, test_agent.at_end_call_count, "one at_end call after use");

    assert_eq!(test_agent.expected_world_state, world_at_end, "WorldState at game end");

    assert_eq!(expected_score, score, "Score at game end");

    assert_eq!(
        "go\no 1 2 N\ngo\no 1 2 N\ngo\n", output,
        "Output of agent, expecting left but got right"
    );
    assert!(notes.is_empty());
}

#[test]
fn setup_block_emits_single_go() {
    let input = lines(SETUP);
    let mut agent = TestAgent { expected_game_params: game_parameters(), ..TestAgent::default() };
    let mut output = String::new();
    let mut notes = Vec::new();
    let r = run_game_with_io(&mut agent, SetupPolicy::Strict, &input, &mut output, &mut notes);
    assert_eq!(output, "go\n");
    assert_eq!(agent.prep_call_count, 1);
    assert_eq!(agent.make_turn_call_count, 0);
    assert_eq!(r, Err(ProtocolError { line: 11, kind: ErrorKind::UnexpectedEnd }));
}

#[test]
fn driver_steps_through_setup() {
    let mut d = Driver::new(SetupPolicy::Strict);
    assert_eq!(d.phase(), Phase::AwaitingSetup);
    let input = lines(SETUP);
    let mut prepared = None;
    for line in input.iter() {
        match d.step(line).unwrap() {
            Action::Nothing => {}
            Action::Prepare(p) => prepared = Some(p),
            other => panic!("unexpected action {:?}", other),
        }
    }
    assert_eq!(prepared, Some(game_parameters()));
    assert_eq!(d.phase(), Phase::BetweenTurns);
    assert_eq!(d.step("turn 0").unwrap_err(), ErrorKind::UnexpectedLine);
}

#[test]
fn stationary_orders_are_not_sent() {
    let input = lines(&format!("{}turn 1\ngo\nend\nplayers 0\nscore\ngo\n", SETUP));
    let mut agent = TestAgent {
        expected_game_params: game_parameters(),
        orders_to_make: vec![pos(3, 4).pause(), pos(5, 6).east()],
        ..TestAgent::default()
    };
    let mut output = String::new();
    let mut notes = Vec::new();
    let (w, s) =
        run_game_with_io(&mut agent, SetupPolicy::Strict, &input, &mut output, &mut notes).unwrap();
    assert_eq!(output, "go\no 5 6 E\ngo\n");
    assert_eq!(w, WorldState::new());
    assert!(s.per_player.is_empty());
    assert_eq!(agent.at_end_call_count, 1);
}

#[test]
fn unexpected_top_level_line_is_fatal() {
    for (text, line) in [
        ("turn 1\n", 0),
        ("hello\n", 0),
        ("turn 0\nready\nturn 0\n", 2),
        ("turn 0\nready\nturn x\n", 2),
        ("turn 0\nready\ngo\n", 2),
    ] {
        let input = lines(text);
        let mut agent = TestAgent::default();
        let mut output = String::new();
        let mut notes = Vec::new();
        let r = run_game_with_io(&mut agent, SetupPolicy::Strict, &input, &mut output, &mut notes);
        assert_eq!(r, Err(ProtocolError { line, kind: ErrorKind::UnexpectedLine }), "{}", text);
        assert_eq!(agent.make_turn_call_count, 0);
    }
}

#[test]
fn bad_turn_record_stops_before_make_turn() {
    let input = lines(&format!("{}turn 1\nf 1 1\nq 2 2\ngo\n", SETUP));
    let mut agent = TestAgent { expected_game_params: game_parameters(), ..TestAgent::default() };
    let mut output = String::new();
    let mut notes = Vec::new();
    let r = run_game_with_io(&mut agent, SetupPolicy::Strict, &input, &mut output, &mut notes);
    assert_eq!(r, Err(ProtocolError { line: 13, kind: ErrorKind::BadRecord }));
    assert_eq!(agent.make_turn_call_count, 0);
    assert_eq!(output, "go\n");
}

#[test]
fn lenient_setup_reports_skipped_lines() {
    let input = lines("turn 0\nrows 5\nmystery 1\nready\nend\nplayers 1\nscore 7\ngo\n");
    let mut agent = TestAgent {
        expected_game_params: GameParameters { rows: 5, ..GameParameters::default() },
        ..TestAgent::default()
    };
    let mut output = String::new();
    let mut notes = Vec::new();
    let (_, s) =
        run_game_with_io(&mut agent, SetupPolicy::Lenient, &input, &mut output, &mut notes).unwrap();
    assert_eq!(s.per_player, vec![7]);
    assert_eq!(
        notes,
        vec![ProtocolError { line: 2, kind: ErrorKind::BadSetupLine(SetupIssue::UnknownKey) }]
    );
    let mut strict_agent = TestAgent::default();
    let r = run_game_with_io(
        &mut strict_agent,
        SetupPolicy::Strict,
        &input,
        &mut String::new(),
        &mut Vec::new(),
    );
    assert_eq!(
        r,
        Err(ProtocolError { line: 2, kind: ErrorKind::BadSetupLine(SetupIssue::UnknownKey) })
    );
    assert_eq!(strict_agent.prep_call_count, 0);
}

#[test]
fn score_mismatch_in_game_is_fatal() {
    let input = lines(&format!("{}end\nplayers 3\nscore 1 2\ngo\n", SETUP));
    let mut agent = TestAgent { expected_game_params: game_parameters(), ..TestAgent::default() };
    let r = run_game_with_io(
        &mut agent,
        SetupPolicy::Strict,
        &input,
        &mut String::new(),
        &mut Vec::new(),
    );
    assert_eq!(
        r,
        Err(ProtocolError {
            line: 13,
            kind: ErrorKind::ScoreCountMismatch { players: 3, scores: 2 }
        })
    );
    assert_eq!(agent.at_end_call_count, 0);
}

#[test]
fn input_after_end_is_not_read() {
    let input = lines("end\nplayers 1\nscore 4\ngo\nthis is never read\n");
    let mut agent = TestAgent::default();
    let (_, s) = run_game_with_io(
        &mut agent,
        SetupPolicy::Strict,
        &input,
        &mut String::new(),
        &mut Vec::new(),
    )
    .unwrap();
    assert_eq!(s.per_player, vec![4]);
    let order: Order = pos(0, 0).order(North);
    assert_eq!(order.dir, North);
}
