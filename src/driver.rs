use vstd::prelude::*;

use crate::game_parameters::{GameParameters, SetupIssue};
use crate::position::Order;
use crate::protocol::{
    apply_setup_tokens, blank_line, end_from, is_only, keyword_line, line_texts, line_tokens,
    orders_text, players_of, players_tokens, record_in, record_of, record_tokens, scores_of,
    scores_tokens, serialize_orders, setup_from, setup_line, turn_of, turn_tokens, world_from,
    ErrorKind, ProtocolError, Score, SetupPolicy,
};
use crate::text::texts;
use crate::world_state::{WorldState, WorldView};

verus! {

/// Where the driver stands in the game.
#[derive(Clone, Copy, Debug, PartialEq, Eq, Structural)]
pub enum Phase {
    /// Before `turn 0`.
    AwaitingSetup,
    /// Inside the setup block, before `ready`.
    Setup,
    /// Between two turns: expecting `turn <n>` or `end`.
    BetweenTurns,
    /// Inside a turn's world snapshot, before `go`.
    Turn,
    /// Right after `end`: expecting `players <N>`.
    EndPlayers,
    /// Expecting `score <v0> ... <vN-1>`.
    EndScore,
    /// Inside the final world snapshot, before `go`.
    EndWorld,
    /// The game is over; no more input is taken.
    Ended,
}

/// What the caller has to do after a line was taken.
#[derive(Debug)]
pub enum Action {
    /// Nothing.
    Nothing,
    /// A setup line was skipped under the lenient policy: report it.
    Skipped(SetupIssue),
    /// Call the agent's `prepare`, then send `go`.
    Prepare(GameParameters),
    /// Call the agent's `make_turn`, then send its orders and `go`.
    MakeTurn(GameParameters, WorldState, u32),
    /// Call the agent's `at_end`; the game is over.
    Finish(GameParameters, WorldState, Score),
}

/// The mathematical content of an [`Action`].
pub enum ActionView {
    Nothing,
    Skipped(SetupIssue),
    Prepare(GameParameters),
    MakeTurn(GameParameters, WorldView, u32),
    Finish(GameParameters, WorldView, Seq<u64>),
}

impl View for Action {
    type V = ActionView;

    open spec fn view(&self) -> ActionView {
        match self {
            Action::Nothing => ActionView::Nothing,
            Action::Skipped(i) => ActionView::Skipped(*i),
            Action::Prepare(p) => ActionView::Prepare(*p),
            Action::MakeTurn(p, w, n) => ActionView::MakeTurn(*p, w@, *n),
            Action::Finish(p, w, s) => ActionView::Finish(*p, w@, s.per_player@),
        }
    }
}

/// The turn loop as a state machine: it takes the engine's lines one at a
/// time and says when to call into the agent.
pub struct Driver {
    phase: Phase,
    policy: SetupPolicy,
    params: GameParameters,
    world: WorldState,
    turn: u32,
    players: u8,
    scores: Vec<u64>,
}

/// The mathematical content of a [`Driver`].
pub struct DriverView {
    pub phase: Phase,
    pub policy: SetupPolicy,
    pub params: GameParameters,
    pub world: WorldView,
    pub turn: u32,
    pub players: u8,
    pub scores: Seq<u64>,
}

impl View for Driver {
    type V = DriverView;

    closed spec fn view(&self) -> DriverView {
        DriverView {
            phase: self.phase,
            policy: self.policy,
            params: self.params,
            world: self.world@,
            turn: self.turn,
            players: self.players,
            scores: self.scores@,
        }
    }
}

impl DriverView {
    /// A driver before any input.
    pub open spec fn initial(policy: SetupPolicy) -> DriverView {
        DriverView {
            phase: Phase::AwaitingSetup,
            policy,
            params: GameParameters::zero(),
            world: WorldView::empty(),
            turn: 0,
            players: 0,
            scores: Seq::empty(),
        }
    }

    /// This driver in phase `ph`.
    pub open spec fn at(self, ph: Phase) -> DriverView {
        DriverView { phase: ph, ..self }
    }
}

/// What taking the line `line` does to a driver in state `d`: the next
/// state and the action, or the error that stops the game (the state is
/// then left as it was).
pub open spec fn step_spec(d: DriverView, line: Seq<char>) -> (DriverView, Result<ActionView, ErrorKind>) {
    match d.phase {
        Phase::AwaitingSetup | Phase::BetweenTurns => {
            if blank_line(line) {
                (d, Ok(ActionView::Nothing))
            } else if keyword_line(line, "end"@) {
                (d.at(Phase::EndPlayers), Ok(ActionView::Nothing))
            } else {
                match turn_of(line) {
                    Some(n) => if n == 0 && d.phase == Phase::AwaitingSetup {
                        (
                            DriverView { params: GameParameters::zero(), ..d.at(Phase::Setup) },
                            Ok(ActionView::Nothing),
                        )
                    } else if n >= 1 && d.phase == Phase::BetweenTurns {
                        if d.turn == u32::MAX {
                            (d, Err(ErrorKind::TurnCountOverflow))
                        } else {
                            (
                                DriverView {
                                    world: WorldView::empty(),
                                    turn: (d.turn + 1) as u32,
                                    ..d.at(Phase::Turn)
                                },
                                Ok(ActionView::Nothing),
                            )
                        }
                    } else {
                        (d, Err(ErrorKind::UnexpectedLine))
                    },
                    None => (d, Err(ErrorKind::UnexpectedLine)),
                }
            }
        },
        Phase::Setup => {
            if keyword_line(line, "ready"@) {
                (d.at(Phase::BetweenTurns), Ok(ActionView::Prepare(d.params)))
            } else {
                match setup_line(d.params, line) {
                    Ok(p) => (DriverView { params: p, ..d }, Ok(ActionView::Nothing)),
                    Err(issue) => if d.policy == SetupPolicy::Strict {
                        (d, Err(ErrorKind::BadSetupLine(issue)))
                    } else {
                        (d, Ok(ActionView::Skipped(issue)))
                    },
                }
            }
        },
        Phase::Turn => {
            if keyword_line(line, "go"@) {
                (
                    DriverView { world: WorldView::empty(), ..d.at(Phase::BetweenTurns) },
                    Ok(ActionView::MakeTurn(d.params, d.world, d.turn)),
                )
            } else {
                match record_of(line) {
                    Some(r) => (DriverView { world: d.world.with(r), ..d }, Ok(ActionView::Nothing)),
                    None => (d, Err(ErrorKind::BadRecord)),
                }
            }
        },
        Phase::EndPlayers => match players_of(line) {
            Some(n) => (DriverView { players: n, ..d.at(Phase::EndScore) }, Ok(ActionView::Nothing)),
            None => (d, Err(ErrorKind::BadPlayersLine)),
        },
        Phase::EndScore => match scores_of(line) {
            Some(s) => if s.len() == d.players {
                (
                    DriverView { scores: s, world: WorldView::empty(), ..d.at(Phase::EndWorld) },
                    Ok(ActionView::Nothing),
                )
            } else {
                (
                    d,
                    Err(
                        ErrorKind::ScoreCountMismatch { players: d.players, scores: s.len() as usize },
                    ),
                )
            },
            None => (d, Err(ErrorKind::BadScoreLine)),
        },
        Phase::EndWorld => {
            if keyword_line(line, "go"@) {
                (
                    DriverView {
                        world: WorldView::empty(),
                        scores: Seq::empty(),
                        ..d.at(Phase::Ended)
                    },
                    Ok(ActionView::Finish(d.params, d.world, d.scores)),
                )
            } else {
                match record_of(line) {
                    Some(r) => (DriverView { world: d.world.with(r), ..d }, Ok(ActionView::Nothing)),
                    None => (d, Err(ErrorKind::BadRecord)),
                }
            }
        },
        Phase::Ended => (d, Err(ErrorKind::UnexpectedLine)),
    }
}

/// The mathematical content of a step's result.
pub open spec fn step_result(r: Result<Action, ErrorKind>) -> Result<ActionView, ErrorKind> {
    match r {
        Ok(a) => Ok(a@),
        Err(k) => Err(k),
    }
}

impl Driver {
    /// A driver before any input, handling bad setup lines by `policy`.
    pub fn new(policy: SetupPolicy) -> (r: Driver)
        ensures
            r@ == DriverView::initial(policy),
    {
        let r = Driver {
            phase: Phase::AwaitingSetup,
            policy,
            params: GameParameters::default(),
            world: WorldState::new(),
            turn: 0,
            players: 0,
            scores: Vec::new(),
        };
        assert(r@.scores =~= Seq::<u64>::empty());
        r
    }

    /// The current phase.
    pub fn phase(&self) -> (r: Phase)
        ensures
            r == self@.phase,
    {
        self.phase
    }

    /// Take the next input line.
    pub fn step(&mut self, line: &str) -> (r: Result<Action, ErrorKind>)
        ensures
            (final(self)@, step_result(r)) == step_spec(old(self)@, line@),
    {
        let t = line_tokens(line);
        match self.phase {
            Phase::AwaitingSetup | Phase::BetweenTurns => {
                if t.len() == 0 {
                    return Ok(Action::Nothing);
                }
                if is_only(&t, "end") {
                    self.phase = Phase::EndPlayers;
                    return Ok(Action::Nothing);
                }
                match turn_tokens(&t) {
                    Some(n) => {
                        if n == 0 && self.phase == Phase::AwaitingSetup {
                            self.phase = Phase::Setup;
                            self.params = GameParameters::default();
                            Ok(Action::Nothing)
                        } else if n >= 1 && self.phase == Phase::BetweenTurns {
                            if self.turn == u32::MAX {
                                Err(ErrorKind::TurnCountOverflow)
                            } else {
                                self.phase = Phase::Turn;
                                self.world = WorldState::new();
                                self.turn = self.turn + 1;
                                Ok(Action::Nothing)
                            }
                        } else {
                            Err(ErrorKind::UnexpectedLine)
                        }
                    },
                    None => Err(ErrorKind::UnexpectedLine),
                }
            },
            Phase::Setup => {
                if is_only(&t, "ready") {
                    self.phase = Phase::BetweenTurns;
                    return Ok(Action::Prepare(self.params));
                }
                match apply_setup_tokens(&mut self.params, &t) {
                    Ok(()) => Ok(Action::Nothing),
                    Err(issue) => match self.policy {
                        SetupPolicy::Strict => Err(ErrorKind::BadSetupLine(issue)),
                        SetupPolicy::Lenient => Ok(Action::Skipped(issue)),
                    },
                }
            },
            Phase::Turn => {
                if is_only(&t, "go") {
                    let mut w = WorldState::new();
                    std::mem::swap(&mut w, &mut self.world);
                    self.phase = Phase::BetweenTurns;
                    return Ok(Action::MakeTurn(self.params, w, self.turn));
                }
                self.take_record(&t)
            },
            Phase::EndPlayers => match players_tokens(&t) {
                Some(n) => {
                    self.players = n;
                    self.phase = Phase::EndScore;
                    Ok(Action::Nothing)
                },
                None => Err(ErrorKind::BadPlayersLine),
            },
            Phase::EndScore => match scores_tokens(&t) {
                Some(s) => {
                    if s.len() == self.players as usize {
                        self.scores = s;
                        self.world = WorldState::new();
                        self.phase = Phase::EndWorld;
                        Ok(Action::Nothing)
                    } else {
                        Err(ErrorKind::ScoreCountMismatch { players: self.players, scores: s.len() })
                    }
                },
                None => Err(ErrorKind::BadScoreLine),
            },
            Phase::EndWorld => {
                if is_only(&t, "go") {
                    let mut w = WorldState::new();
                    std::mem::swap(&mut w, &mut self.world);
                    let mut s: Vec<u64> = Vec::new();
                    std::mem::swap(&mut s, &mut self.scores);
                    self.phase = Phase::Ended;
                    assert(self@.scores =~= Seq::<u64>::empty());
                    return Ok(Action::Finish(self.params, w, Score { per_player: s }));
                }
                self.take_record(&t)
            },
            Phase::Ended => Err(ErrorKind::UnexpectedLine),
        }
    }

    /// Add the record line with tokens `t` to the snapshot being read.
    fn take_record(&mut self, t: &Vec<Vec<char>>) -> (r: Result<Action, ErrorKind>)
        ensures
            match record_in(texts(t@)) {
                Some(rec) => final(self)@ == (DriverView { world: old(self)@.world.with(rec), ..old(self)@ })
                    && r is Ok && r->Ok_0 is Nothing,
                None => final(self)@ == old(self)@ && r == Err::<Action, ErrorKind>(ErrorKind::BadRecord),
            },
    {
        match record_tokens(t) {
            Some(rec) => {
                let mut w = WorldState::new();
                std::mem::swap(&mut w, &mut self.world);
                self.world = w.with_record(rec);
                Ok(Action::Nothing)
            },
            None => Err(ErrorKind::BadRecord),
        }
    }
}

/// The game logic a player plugs into the turn loop.
pub trait Agent {
    /// Called once with the game's parameters, before any turn.
    fn prepare(&mut self, params: GameParameters);

    /// Called once per turn, counting from 1; returns the orders to send.
    fn make_turn(&mut self, params: GameParameters, world: WorldState, turn_count: u32) -> Vec<
        Order,
    >;

    /// Called once after the end block, with the final snapshot and scores.
    fn at_end(&mut self, params: &GameParameters, world: &WorldState, score: &Score);
}

/// A fresh driver fed a prefix of the input: its state, the action taken
/// for each line, and how the game stopped, if it did (finished with the
/// final snapshot and scores, or failed).
pub struct RunView {
    pub driver: DriverView,
    pub actions: Seq<ActionView>,
    pub stop: Option<Result<(WorldView, Seq<u64>), ProtocolError>>,
}

/// Feeding the first `n` lines to a fresh driver; lines after the game
/// stopped are not taken.
pub open spec fn run_prefix(policy: SetupPolicy, lines: Seq<Seq<char>>, n: nat) -> RunView
    decreases n,
{
    if n == 0 {
        RunView { driver: DriverView::initial(policy), actions: Seq::empty(), stop: None }
    } else {
        let prev = run_prefix(policy, lines, (n - 1) as nat);
        if prev.stop is Some {
            prev
        } else {
            let (d, res) = step_spec(prev.driver, lines[n - 1]);
            match res {
                Err(k) => RunView {
                    stop: Some(Err(ProtocolError { line: (n - 1) as usize, kind: k })),
                    ..prev
                },
                Ok(a) => RunView {
                    driver: d,
                    actions: prev.actions.push(a),
                    stop: match a {
                        ActionView::Finish(_, w, sc) => Some(Ok((w, sc))),
                        _ => None,
                    },
                },
            }
        }
    }
}

/// How a whole game read from `lines` ends: the final snapshot and scores,
/// or the first error (running out of input before the end block is one).
pub open spec fn game_result(policy: SetupPolicy, lines: Seq<Seq<char>>) -> Result<
    (WorldView, Seq<u64>),
    ProtocolError,
> {
    match run_prefix(policy, lines, lines.len()).stop {
        Some(r) => r,
        None => Err(ProtocolError { line: lines.len() as usize, kind: ErrorKind::UnexpectedEnd }),
    }
}

/// The acknowledgement line.
pub open spec fn go_line() -> Seq<char> {
    seq!['g', 'o', '\n']
}

/// What is sent after an action, given the orders the agent returned.
pub open spec fn reply_text(a: ActionView, orders: Seq<Order>) -> Seq<char> {
    match a {
        ActionView::Prepare(_) => go_line(),
        ActionView::MakeTurn(_, _, _) => orders_text(orders) + go_line(),
        _ => Seq::empty(),
    }
}

/// Everything sent for `acts`, where `replies[i]` holds the orders returned
/// for `acts[i]`.
pub open spec fn transcript(acts: Seq<ActionView>, replies: Seq<Seq<Order>>) -> Seq<char>
    decreases acts.len(),
{
    if acts.len() == 0 {
        Seq::empty()
    } else {
        transcript(acts.drop_last(), replies.drop_last()) + reply_text(acts.last(), replies.last())
    }
}

/// The setup lines skipped in `acts`, where `acts[i]` was taken for line `i`.
pub open spec fn notes_of(acts: Seq<ActionView>) -> Seq<ProtocolError>
    decreases acts.len(),
{
    if acts.len() == 0 {
        Seq::empty()
    } else {
        notes_of(acts.drop_last()) + match acts.last() {
            ActionView::Skipped(issue) => seq![
                ProtocolError {
                    line: (acts.len() - 1) as usize,
                    kind: ErrorKind::BadSetupLine(issue),
                },
            ],
            _ => Seq::empty(),
        }
    }
}

/// The mathematical content of a game's result.
pub open spec fn outcome_view(r: Result<(WorldState, Score), ProtocolError>) -> Result<
    (WorldView, Seq<u64>),
    ProtocolError,
> {
    match r {
        Ok((w, s)) => Ok((w@, s.per_player@)),
        Err(e) => Err(e),
    }
}

/// Once the game has stopped, later lines change nothing.
proof fn lemma_run_stopped(policy: SetupPolicy, lines: Seq<Seq<char>>, m: nat, n: nat)
    requires
        m <= n,
        run_prefix(policy, lines, m).stop is Some,
    ensures
        run_prefix(policy, lines, n) == run_prefix(policy, lines, m),
    decreases n - m,
{
    if m < n {
        lemma_run_stopped(policy, lines, m, (n - 1) as nat);
    }
}

/// Play a whole game from the engine's lines: `turn 0` and the setup block
/// call `prepare` and send `go`; each `turn <n>` block calls `make_turn`
/// with a turn count starting at 1 and sends the returned orders and `go`;
/// the `end` block calls `at_end` and returns the final snapshot and scores.
/// Blank lines between blocks are skipped. Text sent is appended to `out`,
/// setup lines skipped under the lenient policy to `notes`. Any other line,
/// a malformed block, or input that ends before the end block stops the
/// game with an error.
pub fn run_game_with_io<A: Agent>(
    agent: &mut A,
    policy: SetupPolicy,
    lines: &[String],
    out: &mut String,
    notes: &mut Vec<ProtocolError>,
) -> (r: Result<(WorldState, Score), ProtocolError>)
    ensures
        ({
            let run = run_prefix(policy, line_texts(lines@), lines@.len());
            &&& outcome_view(r) == game_result(policy, line_texts(lines@))
            &&& final(notes)@ == old(notes)@ + notes_of(run.actions)
            &&& exists|replies: Seq<Seq<Order>>|
                replies.len() == run.actions.len() && final(out)@ == old(out)@ + transcript(
                    run.actions,
                    replies,
                )
        }),
{
    let ghost all = line_texts(lines@);
    let ghost mut replies: Seq<Seq<Order>> = Seq::empty();
    let mut d = Driver::new(policy);
    let mut i: usize = 0;
    proof {
        reveal_strlit("go\n");
        assert("go\n"@ =~= go_line());
        assert(old(notes)@ + Seq::<ProtocolError>::empty() =~= old(notes)@);
        assert(old(out)@ + Seq::<char>::empty() =~= old(out)@);
    }
    while i < lines.len()
        invariant
            all == line_texts(lines@),
            i <= lines.len(),
            "go\n"@ == go_line(),
            run_prefix(policy, all, i as nat).stop is None,
            run_prefix(policy, all, i as nat).driver == d@,
            run_prefix(policy, all, i as nat).actions.len() == i,
            replies.len() == i,
            notes@ == old(notes)@ + notes_of(run_prefix(policy, all, i as nat).actions),
            out@ == old(out)@ + transcript(run_prefix(policy, all, i as nat).actions, replies),
        decreases lines.len() - i,
    {
        let ghost prev = run_prefix(policy, all, i as nat);
        let ghost next = run_prefix(policy, all, (i + 1) as nat);
        assert(all[i as int] == lines@[i as int]@);
        let ghost out_before = out@;
        let ghost replies_before = replies;
        match d.step(lines[i].as_str()) {
            Err(k) => {
                proof {
                    lemma_run_stopped(policy, all, (i + 1) as nat, all.len());
                }
                return Err(ProtocolError { line: i, kind: k });
            },
            Ok(a) => {
                let ghost av = a@;
                assert(next.actions == prev.actions.push(av));
                assert(next.actions.drop_last() =~= prev.actions);
                match a {
                    Action::Nothing => {
                        proof {
                            replies = replies.push(Seq::empty());
                        }
                    },
                    Action::Skipped(issue) => {
                        notes.push(ProtocolError { line: i, kind: ErrorKind::BadSetupLine(issue) });
                        proof {
                            replies = replies.push(Seq::empty());
                        }
                    },
                    Action::Prepare(p) => {
                        agent.prepare(p);
                        out.append("go\n");
                        proof {
                            replies = replies.push(Seq::empty());
                        }
                    },
                    Action::MakeTurn(p, w, n) => {
                        let orders = agent.make_turn(p, w, n);
                        let text = serialize_orders(orders.as_slice());
                        out.append(text.as_str());
                        out.append("go\n");
                        proof {
                            replies = replies.push(orders@);
                        }
                    },
                    Action::Finish(p, w, s) => {
                        agent.at_end(&p, &w, &s);
                        proof {
                            replies = replies.push(Seq::empty());
                            assert(replies.drop_last() =~= replies_before);
                            lemma_run_stopped(policy, all, (i + 1) as nat, all.len());
                            assert(out@ =~= old(out)@ + transcript(next.actions, replies));
                            assert(notes@ =~= old(notes)@ + notes_of(next.actions));
                        }
                        return Ok((w, s));
                    },
                }
                proof {
                    assert(replies.drop_last() =~= replies_before);
                    assert(out@ =~= out_before + reply_text(av, replies.last()));
                    assert(out@ =~= old(out)@ + transcript(next.actions, replies));
                    assert(notes@ =~= old(notes)@ + notes_of(next.actions));
                }
            },
        }
        i += 1;
    }
    Err(ProtocolError { line: lines.len(), kind: ErrorKind::UnexpectedEnd })
}

/// Feeding the lines `ls` to a driver in state `d`: the state reached, the
/// actions taken, and the error that stopped it, if one did.
pub open spec fn feed(d: DriverView, ls: Seq<Seq<char>>) -> (DriverView, Seq<ActionView>, Option<
    ErrorKind,
>)
    decreases ls.len(),
{
    if ls.len() == 0 {
        (d, Seq::empty(), None)
    } else {
        let (d2, res) = step_spec(d, ls[0]);
        match res {
            Err(k) => (d, Seq::empty(), Some(k)),
            Ok(a) => {
                let rest = feed(d2, ls.drop_first());
                (rest.0, seq![a] + rest.1, rest.2)
            },
        }
    }
}

/// No action but the last one calls into the agent.
pub open spec fn quiet_until_last(acts: Seq<ActionView>) -> bool {
    forall|j: int|
        0 <= j < acts.len() - 1 ==> (#[trigger] acts[j] is Nothing || acts[j] is Skipped)
}

/// One step that takes a line without calling into the agent, followed by
/// a quiet run, is a quiet run.
proof fn lemma_feed_cons(d: DriverView, ls: Seq<Seq<char>>)
    requires
        ls.len() > 0,
        step_spec(d, ls[0]).1 is Ok,
        step_spec(d, ls[0]).1->Ok_0 is Nothing || step_spec(d, ls[0]).1->Ok_0 is Skipped,
        feed(step_spec(d, ls[0]).0, ls.drop_first()).1.len() > 0,
        quiet_until_last(feed(step_spec(d, ls[0]).0, ls.drop_first()).1),
    ensures
        feed(d, ls).0 == feed(step_spec(d, ls[0]).0, ls.drop_first()).0,
        feed(d, ls).2 == feed(step_spec(d, ls[0]).0, ls.drop_first()).2,
        feed(d, ls).1.last() == feed(step_spec(d, ls[0]).0, ls.drop_first()).1.last(),
        feed(d, ls).1.len() > 0,
        quiet_until_last(feed(d, ls).1),
{
    let a = step_spec(d, ls[0]).1->Ok_0;
    let rest = feed(step_spec(d, ls[0]).0, ls.drop_first()).1;
    let all = feed(d, ls).1;
    assert(all == seq![a] + rest);
    assert forall|j: int| 0 <= j < all.len() - 1 implies (#[trigger] all[j] is Nothing
        || all[j] is Skipped) by {
        if j > 0 {
            assert(all[j] == rest[j - 1]);
        }
    }
}

/// The driver reads a world snapshot as the codec does: when the record
/// lines from `i` on end with `go` and [`world_from`] reads them, a driver
/// inside a turn (or the final snapshot) takes exactly those lines without
/// error or call into the agent until the last, where it hands over the
/// snapshot [`world_from`] gives, with the parameters and turn count (or
/// scores) it holds.
pub proof fn lemma_world_block(d: DriverView, lines: Seq<Seq<char>>, i: int)
    requires
        d.phase == Phase::Turn || d.phase == Phase::EndWorld,
        world_from(lines, i, d.world) is Ok,
    ensures
        ({
            let (w, next) = world_from(lines, i, d.world)->Ok_0;
            let (d2, acts, err) = feed(d, lines.subrange(i, next as int));
            &&& err is None
            &&& acts.len() > 0
            &&& quiet_until_last(acts)
            &&& d2.phase == if d.phase == Phase::Turn {
                Phase::BetweenTurns
            } else {
                Phase::Ended
            }
            &&& acts.last() == if d.phase == Phase::Turn {
                ActionView::MakeTurn(d.params, w, d.turn)
            } else {
                ActionView::Finish(d.params, w, d.scores)
            }
        }),
    decreases lines.len() - i,
{
    lemma_world_from_ends(lines, i, d.world);
    let (w, next) = world_from(lines, i, d.world)->Ok_0;
    assert(0 <= i < lines.len());
    let ls = lines.subrange(i, next as int);
    if keyword_line(lines[i], "go"@) {
        assert(next == i + 1);
        assert(ls =~= seq![lines[i]]);
        assert(ls.drop_first() =~= Seq::<Seq<char>>::empty());
        let d2 = step_spec(d, lines[i]).0;
        assert(feed(d2, Seq::<Seq<char>>::empty()).1 =~= Seq::<ActionView>::empty());
        let acts = feed(d, ls).1;
        assert(acts =~= seq![step_spec(d, lines[i]).1->Ok_0]);
    } else {
        lemma_world_from_ends(lines, i + 1, d.world.with(record_of(lines[i])->0));
        lemma_world_block(step_spec(d, lines[i]).0, lines, i + 1);
        assert(ls[0] == lines[i]);
        assert(ls.drop_first() =~= lines.subrange(i + 1, next as int));
        lemma_feed_cons(d, ls);
    }
}

/// A snapshot read from line `i` ends after line `i`, within the input.
proof fn lemma_world_from_ends(lines: Seq<Seq<char>>, i: int, w: WorldView)
    ensures
        world_from(lines, i, w) is Ok ==> i < world_from(lines, i, w)->Ok_0.1 <= lines.len(),
    decreases lines.len() - i,
{
    if 0 <= i < lines.len() && !keyword_line(lines[i], "go"@) {
        if let Some(r) = record_of(lines[i]) {
            lemma_world_from_ends(lines, i + 1, w.with(r));
        }
    }
}

/// A setup block read from line `i` ends after line `i`, within the input.
proof fn lemma_setup_from_ends(
    lines: Seq<Seq<char>>,
    i: int,
    p: GameParameters,
    policy: SetupPolicy,
)
    ensures
        setup_from(lines, i, p, policy).1 is Ok ==> i < setup_from(lines, i, p, policy).1->Ok_0.1
            <= lines.len(),
    decreases lines.len() - i,
{
    if 0 <= i < lines.len() && !keyword_line(lines[i], "ready"@) {
        match setup_line(p, lines[i]) {
            Ok(q) => lemma_setup_from_ends(lines, i + 1, q, policy),
            Err(_) => lemma_setup_from_ends(lines, i + 1, p, policy),
        }
    }
}

/// The driver reads the setup block as the codec does: when
/// [`setup_from`] reads the lines from `i` on up to `ready`, a driver inside
/// the setup block, holding the parameters assigned so far, takes exactly
/// those lines without error or call into the agent until the last, where
/// it asks to prepare with the parameters [`setup_from`] gives.
pub proof fn lemma_setup_block(d: DriverView, lines: Seq<Seq<char>>, i: int)
    requires
        d.phase == Phase::Setup,
        setup_from(lines, i, d.params, d.policy).1 is Ok,
    ensures
        ({
            let (p, next) = setup_from(lines, i, d.params, d.policy).1->Ok_0;
            let (d2, acts, err) = feed(d, lines.subrange(i, next as int));
            &&& err is None
            &&& acts.len() > 0
            &&& quiet_until_last(acts)
            &&& d2.phase == Phase::BetweenTurns
            &&& d2.params == p
            &&& acts.last() == ActionView::Prepare(p)
        }),
    decreases lines.len() - i,
{
    lemma_setup_from_ends(lines, i, d.params, d.policy);
    let (p, next) = setup_from(lines, i, d.params, d.policy).1->Ok_0;
    assert(0 <= i < lines.len());
    let ls = lines.subrange(i, next as int);
    if keyword_line(lines[i], "ready"@) {
        assert(next == i + 1);
        assert(ls =~= seq![lines[i]]);
        assert(ls.drop_first() =~= Seq::<Seq<char>>::empty());
        let d2 = step_spec(d, lines[i]).0;
        assert(feed(d2, Seq::<Seq<char>>::empty()).1 =~= Seq::<ActionView>::empty());
        let acts = feed(d, ls).1;
        assert(acts =~= seq![step_spec(d, lines[i]).1->Ok_0]);
    } else {
        let d1 = step_spec(d, lines[i]).0;
        match setup_line(d.params, lines[i]) {
            Ok(q) => lemma_setup_from_ends(lines, i + 1, q, d.policy),
            Err(_) => lemma_setup_from_ends(lines, i + 1, d.params, d.policy),
        }
        lemma_setup_block(d1, lines, i + 1);
        assert(ls[0] == lines[i]);
        assert(ls.drop_first() =~= lines.subrange(i + 1, next as int));
        lemma_feed_cons(d, ls);
    }
}

/// The driver reads the end-of-game block as the codec does: when
/// [`end_from`] reads the lines from `i` on, a driver that has just taken
/// `end` takes exactly those lines without error or call into the agent
/// until the last, where it finishes the game with the snapshot and scores
/// [`end_from`] gives.
pub proof fn lemma_end_block(d: DriverView, lines: Seq<Seq<char>>, i: int)
    requires
        d.phase == Phase::EndPlayers,
        end_from(lines, i) is Ok,
    ensures
        ({
            let (w, sc, next) = end_from(lines, i)->Ok_0;
            let (d2, acts, err) = feed(d, lines.subrange(i, next as int));
            &&& err is None
            &&& acts.len() > 0
            &&& quiet_until_last(acts)
            &&& d2.phase == Phase::Ended
            &&& acts.last() == ActionView::Finish(d.params, w, sc)
        }),
{
    let (w, sc, next) = end_from(lines, i)->Ok_0;
    let d1 = step_spec(d, lines[i]).0;
    let d2 = step_spec(d1, lines[i + 1]).0;
    assert(d2.phase == Phase::EndWorld && d2.world == WorldView::empty() && d2.scores == sc);
    lemma_world_from_ends(lines, i + 2, WorldView::empty());
    lemma_world_block(d2, lines, i + 2);
    let ls = lines.subrange(i, next as int);
    let ls1 = ls.drop_first();
    assert(ls1 =~= lines.subrange(i + 1, next as int));
    assert(ls1[0] == lines[i + 1]);
    assert(ls1.drop_first() =~= lines.subrange(i + 2, next as int));
    lemma_feed_cons(d1, ls1);
    assert(ls[0] == lines[i]);
    lemma_feed_cons(d, ls);
}

} // verus!
