use vstd::prelude::*;

use crate::game_parameters::{GameParameters, SetupIssue};
use crate::position::{Direction, Order, Position};
use crate::text::{
    chars_of, decimal, is_space, is_word, lemma_decimal, lemma_decimal_round_trip, lemma_tokens_space,
    lemma_tokens_word, parse_unsigned, push_decimal, same_text, split_tokens, texts, tokens,
    unsigned_at_most,
};
use crate::world_state::{Record, WorldState, WorldView};

verus! {

/// Final scores, one per player index.
#[derive(Clone, Debug, PartialEq, Eq, Hash)]
pub struct Score {
    pub per_player: Vec<u64>,
}

/// What to do with a setup line that cannot be applied.
#[derive(Clone, Copy, Debug, PartialEq, Eq, Structural)]
pub enum SetupPolicy {
    /// Report the line and go on without it.
    Lenient,
    /// Stop with an error.
    Strict,
}

/// What is wrong with the input.
#[derive(Clone, Copy, Debug, PartialEq, Eq, Structural)]
pub enum ErrorKind {
    /// A setup line could not be applied.
    BadSetupLine(SetupIssue),
    /// A line of a world snapshot is not a well-formed record.
    BadRecord,
    /// A top-level line that is none of the expected commands.
    UnexpectedLine,
    /// The line after `end` is not `players <N>`.
    BadPlayersLine,
    /// The second line after `end` is not `score` followed by numbers.
    BadScoreLine,
    /// The score line does not hold one value per declared player.
    ScoreCountMismatch { players: u8, scores: usize },
    /// More turns than the turn counter can count.
    TurnCountOverflow,
    /// The input ended inside a block or before `end`.
    UnexpectedEnd,
}

/// A problem found in the input, with the index of the offending line (the
/// number of lines when the input ended too early).
#[derive(Clone, Copy, Debug, PartialEq, Eq, Structural)]
pub struct ProtocolError {
    pub line: usize,
    pub kind: ErrorKind,
}

/// The lines, as character sequences.
pub open spec fn line_texts(lines: Seq<String>) -> Seq<Seq<char>> {
    lines.map_values(|s: String| s@)
}

/// The line holds the single word `kw`.
pub open spec fn keyword_line(line: Seq<char>, kw: Seq<char>) -> bool {
    tokens(line) == seq![kw]
}

/// The line holds no token at all.
pub open spec fn blank_line(line: Seq<char>) -> bool {
    tokens(line).len() == 0
}

/// The effect on `p` of a setup line with tokens `t`: it must be exactly
/// `<name> <value>`.
pub open spec fn setup_in(p: GameParameters, t: Seq<Seq<char>>) -> Result<
    GameParameters,
    SetupIssue,
> {
    if t.len() != 2 {
        Err(SetupIssue::Malformed)
    } else {
        p.put_spec(t[0], t[1])
    }
}

/// The effect of one setup line on `p`.
pub open spec fn setup_line(p: GameParameters, line: Seq<char>) -> Result<
    GameParameters,
    SetupIssue,
> {
    setup_in(p, tokens(line))
}

/// The position written as a row and a column, each an unsigned 16-bit number.
pub open spec fn position_of(row: Seq<char>, col: Seq<char>) -> Option<Position> {
    match (unsigned_at_most(row, 0xffff), unsigned_at_most(col, 0xffff)) {
        (Some(r), Some(c)) => Some(Position { row: r as u16, col: c as u16 }),
        _ => None,
    }
}

/// The record a world line with tokens `t` stands for: `w` or `f` with a
/// row and a column, or `h`, `a` or `d` with a row, a column and an owner
/// (an unsigned 8-bit number).
pub open spec fn record_in(t: Seq<Seq<char>>) -> Option<Record> {
    if t.len() < 3 {
        None
    } else {
        match position_of(t[1], t[2]) {
            None => None,
            Some(at) => if t.len() == 3 {
                if t[0] == "w"@ {
                    Some(Record::Water { at })
                } else if t[0] == "f"@ {
                    Some(Record::Food { at })
                } else {
                    None
                }
            } else if t.len() == 4 {
                match unsigned_at_most(t[3], 0xff) {
                    None => None,
                    Some(o) => {
                        let owner = o as u8;
                        if t[0] == "h"@ {
                            Some(Record::Hill { at, owner })
                        } else if t[0] == "a"@ {
                            Some(Record::LiveAnt { at, owner })
                        } else if t[0] == "d"@ {
                            Some(Record::DeadAnt { at, owner })
                        } else {
                            None
                        }
                    },
                }
            } else {
                None
            },
        }
    }
}

/// The record a world line stands for.
pub open spec fn record_of(line: Seq<char>) -> Option<Record> {
    record_in(tokens(line))
}

/// The player count declared by a `players <N>` line with tokens `t`.
pub open spec fn players_in(t: Seq<Seq<char>>) -> Option<u8> {
    if t.len() == 2 && t[0] == "players"@ {
        match unsigned_at_most(t[1], 0xff) {
            Some(n) => Some(n as u8),
            None => None,
        }
    } else {
        None
    }
}

/// The player count declared by a `players <N>` line.
pub open spec fn players_of(line: Seq<char>) -> Option<u8> {
    players_in(tokens(line))
}

/// Every token of `t` is an unsigned 64-bit number.
pub open spec fn all_u64(t: Seq<Seq<char>>) -> bool {
    forall|j: int| 0 <= j < t.len() ==> unsigned_at_most(#[trigger] t[j], 0xffff_ffff_ffff_ffff) is Some
}

/// The values of a `score <v0> ... <vN-1>` line with tokens `t`.
pub open spec fn scores_in(t: Seq<Seq<char>>) -> Option<Seq<u64>> {
    if t.len() >= 1 && t[0] == "score"@ && all_u64(t.drop_first()) {
        Some(
            Seq::new(
                (t.len() - 1) as nat,
                |j: int| unsigned_at_most(t[j + 1], 0xffff_ffff_ffff_ffff)->0 as u64,
            ),
        )
    } else {
        None
    }
}

/// The values of a `score <v0> ... <vN-1>` line.
pub open spec fn scores_of(line: Seq<char>) -> Option<Seq<u64>> {
    scores_in(tokens(line))
}

/// The number of a `turn <n>` line with tokens `t`.
pub open spec fn turn_in(t: Seq<Seq<char>>) -> Option<nat> {
    if t.len() == 2 && t[0] == "turn"@ {
        unsigned_at_most(t[1], 0xffff_ffff_ffff_ffff)
    } else {
        None
    }
}

/// The number of a `turn <n>` line.
pub open spec fn turn_of(line: Seq<char>) -> Option<nat> {
    turn_in(tokens(line))
}

/// Reading the setup block from line `i` on, with `p` assigned so far: the
/// setup lines reported and skipped, then the parameters and the index
/// after the `ready` line, or the error that stops the block.
pub open spec fn setup_from(lines: Seq<Seq<char>>, i: int, p: GameParameters, policy: SetupPolicy) -> (
    Seq<ProtocolError>,
    Result<(GameParameters, nat), ProtocolError>,
)
    decreases lines.len() - i,
{
    if i < 0 || i >= lines.len() {
        (Seq::empty(), Err(ProtocolError { line: lines.len() as usize, kind: ErrorKind::UnexpectedEnd }))
    } else if keyword_line(lines[i], "ready"@) {
        (Seq::empty(), Ok((p, (i + 1) as nat)))
    } else {
        match setup_line(p, lines[i]) {
            Ok(q) => setup_from(lines, i + 1, q, policy),
            Err(issue) => {
                let note = ProtocolError { line: i as usize, kind: ErrorKind::BadSetupLine(issue) };
                if policy == SetupPolicy::Strict {
                    (Seq::empty(), Err(note))
                } else {
                    let rest = setup_from(lines, i + 1, p, policy);
                    (seq![note] + rest.0, rest.1)
                }
            },
        }
    }
}

/// Reading a world snapshot from line `i` on, with `w` gathered so far:
/// the snapshot and the index after the `go` line, or the error.
pub open spec fn world_from(lines: Seq<Seq<char>>, i: int, w: WorldView) -> Result<
    (WorldView, nat),
    ProtocolError,
>
    decreases lines.len() - i,
{
    if i < 0 || i >= lines.len() {
        Err(ProtocolError { line: lines.len() as usize, kind: ErrorKind::UnexpectedEnd })
    } else if keyword_line(lines[i], "go"@) {
        Ok((w, (i + 1) as nat))
    } else {
        match record_of(lines[i]) {
            Some(r) => world_from(lines, i + 1, w.with(r)),
            None => Err(ProtocolError { line: i as usize, kind: ErrorKind::BadRecord }),
        }
    }
}

/// Reading the end-of-game block from line `i` on: the `players` line, the
/// `score` line, then a world snapshot.
pub open spec fn end_from(lines: Seq<Seq<char>>, i: int) -> Result<
    (WorldView, Seq<u64>, nat),
    ProtocolError,
> {
    if i < 0 || i >= lines.len() {
        Err(ProtocolError { line: lines.len() as usize, kind: ErrorKind::UnexpectedEnd })
    } else {
        match players_of(lines[i]) {
            None => Err(ProtocolError { line: i as usize, kind: ErrorKind::BadPlayersLine }),
            Some(n) => if i + 1 >= lines.len() {
                Err(ProtocolError { line: lines.len() as usize, kind: ErrorKind::UnexpectedEnd })
            } else {
                match scores_of(lines[i + 1]) {
                    None => Err(
                        ProtocolError { line: (i + 1) as usize, kind: ErrorKind::BadScoreLine },
                    ),
                    Some(s) => if s.len() != n {
                        Err(
                            ProtocolError {
                                line: (i + 1) as usize,
                                kind: ErrorKind::ScoreCountMismatch {
                                    players: n,
                                    scores: s.len() as usize,
                                },
                            },
                        )
                    } else {
                        match world_from(lines, i + 2, WorldView::empty()) {
                            Ok((w, next)) => Ok((w, s, next)),
                            Err(e) => Err(e),
                        }
                    },
                }
            },
        }
    }
}

/// The tokens of a line.
pub fn line_tokens(line: &str) -> (r: Vec<Vec<char>>)
    ensures
        texts(r@) == tokens(line@),
{
    let c = chars_of(line);
    split_tokens(&c)
}

/// Whether the tokens are exactly the single word `kw`.
pub(crate) fn is_only(t: &Vec<Vec<char>>, kw: &str) -> (r: bool)
    ensures
        r == (texts(t@) == seq![kw@]),
{
    if t.len() != 1 {
        assert(texts(t@).len() != 1);
        return false;
    }
    let r = same_text(&t[0], kw);
    proof {
        assert(texts(t@)[0] == t@[0]@);
        if r {
            assert(texts(t@) =~= seq![kw@]);
        } else {
            assert(texts(t@)[0] != seq![kw@][0]);
        }
    }
    r
}

/// Apply the setup line with tokens `t` to `p`.
pub(crate) fn apply_setup_tokens(p: &mut GameParameters, t: &Vec<Vec<char>>) -> (r: Result<(), SetupIssue>)
    ensures
        match setup_in(*old(p), texts(t@)) {
            Ok(q) => r is Ok && *final(p) == q,
            Err(e) => r == Err::<(), SetupIssue>(e) && *final(p) == *old(p),
        },
{
    if t.len() != 2 {
        return Err(SetupIssue::Malformed);
    }
    p.put_chars(&t[0], &t[1])
}

/// The position in tokens `row` and `col`.
fn position_tokens(row: &Vec<char>, col: &Vec<char>) -> (r: Option<Position>)
    ensures
        r == position_of(row@, col@),
{
    match (parse_unsigned(row, 0xffff), parse_unsigned(col, 0xffff)) {
        (Some(r), Some(c)) => Some(Position { row: r as u16, col: c as u16 }),
        _ => None,
    }
}

/// The record that a line with tokens `t` stands for.
pub(crate) fn record_tokens(t: &Vec<Vec<char>>) -> (r: Option<Record>)
    ensures
        r == record_in(texts(t@)),
{
    if t.len() < 3 {
        return None;
    }
    let at = match position_tokens(&t[1], &t[2]) {
        Some(at) => at,
        None => return None,
    };
    if t.len() == 3 {
        if same_text(&t[0], "w") {
            Some(Record::Water { at })
        } else if same_text(&t[0], "f") {
            Some(Record::Food { at })
        } else {
            None
        }
    } else if t.len() == 4 {
        let owner = match parse_unsigned(&t[3], 0xff) {
            Some(o) => o as u8,
            None => return None,
        };
        if same_text(&t[0], "h") {
            Some(Record::Hill { at, owner })
        } else if same_text(&t[0], "a") {
            Some(Record::LiveAnt { at, owner })
        } else if same_text(&t[0], "d") {
            Some(Record::DeadAnt { at, owner })
        } else {
            None
        }
    } else {
        None
    }
}

/// The player count of a `players <N>` line with tokens `t`.
pub(crate) fn players_tokens(t: &Vec<Vec<char>>) -> (r: Option<u8>)
    ensures
        r == players_in(texts(t@)),
{
    if t.len() != 2 || !same_text(&t[0], "players") {
        return None;
    }
    match parse_unsigned(&t[1], 0xff) {
        Some(n) => Some(n as u8),
        None => None,
    }
}

/// The values of a `score ...` line with tokens `t`.
pub(crate) fn scores_tokens(t: &Vec<Vec<char>>) -> (r: Option<Vec<u64>>)
    ensures
        match r {
            Some(v) => scores_in(texts(t@)) == Some(v@),
            None => scores_in(texts(t@)) is None,
        },
{
    if t.len() < 1 || !same_text(&t[0], "score") {
        return None;
    }
    let ghost tt = texts(t@);
    let mut v: Vec<u64> = Vec::new();
    let mut j: usize = 1;
    while j < t.len()
        invariant
            tt == texts(t@),
            1 <= j <= t.len(),
            all_u64(tt.drop_first().take(j - 1)),
            v@ == Seq::new(
                (j - 1) as nat,
                |k: int| unsigned_at_most(tt[k + 1], 0xffff_ffff_ffff_ffff)->0 as u64,
            ),
        decreases t.len() - j,
    {
        match parse_unsigned(&t[j], 0xffff_ffff_ffff_ffff) {
            Some(x) => {
                v.push(x);
            },
            None => {
                assert(tt.drop_first()[j - 1] == tt[j as int]);
                return None;
            },
        }
        j += 1;
        assert(v@ =~= Seq::new(
            (j - 1) as nat,
            |k: int| unsigned_at_most(tt[k + 1], 0xffff_ffff_ffff_ffff)->0 as u64,
        ));
        assert forall|k: int| 0 <= k < j - 1 implies unsigned_at_most(
            #[trigger] tt.drop_first().take(j - 1)[k],
            0xffff_ffff_ffff_ffff,
        ) is Some by {
            if k < j - 2 {
                assert(tt.drop_first().take(j - 2)[k] == tt.drop_first().take(j - 1)[k]);
            }
        }
    }
    assert(tt.drop_first().take(j - 1) =~= tt.drop_first());
    Some(v)
}

/// The number of a `turn <n>` line with tokens `t`.
pub(crate) fn turn_tokens(t: &Vec<Vec<char>>) -> (r: Option<u64>)
    ensures
        match r {
            Some(n) => turn_in(texts(t@)) == Some(n as nat),
            None => turn_in(texts(t@)) is None,
        },
{
    if t.len() != 2 || !same_text(&t[0], "turn") {
        return None;
    }
    parse_unsigned(&t[1], 0xffff_ffff_ffff_ffff)
}

/// A setup outcome with the index as a machine integer.
pub open spec fn setup_result(res: Result<(GameParameters, nat), ProtocolError>) -> Result<
    (GameParameters, usize),
    ProtocolError,
> {
    match res {
        Ok((p, n)) => Ok((p, n as usize)),
        Err(e) => Err(e),
    }
}

/// The mathematical content of a parsed snapshot and the index after it.
pub open spec fn world_result(r: Result<(WorldState, usize), ProtocolError>) -> Result<
    (WorldView, nat),
    ProtocolError,
> {
    match r {
        Ok((w, n)) => Ok((w@, n as nat)),
        Err(e) => Err(e),
    }
}

/// The mathematical content of a parsed end-of-game block.
pub open spec fn end_result(r: Result<(WorldState, Score, usize), ProtocolError>) -> Result<
    (WorldView, Seq<u64>, nat),
    ProtocolError,
> {
    match r {
        Ok((w, s, n)) => Ok((w@, s.per_player@, n as nat)),
        Err(e) => Err(e),
    }
}

/// Parse the setup block that follows `turn 0`: lines `<name> <value>`
/// from index `start` up to a line holding only `ready`. Returns the
/// parameters (zero where not assigned) and the index after `ready`. A line
/// that cannot be applied stops the block under [`SetupPolicy::Strict`];
/// under [`SetupPolicy::Lenient`] it is appended to `notes` and skipped.
pub fn parse_turn_0_lines(
    lines: &[String],
    start: usize,
    policy: SetupPolicy,
    notes: &mut Vec<ProtocolError>,
) -> (r: Result<(GameParameters, usize), ProtocolError>)
    ensures
        ({
            let (ns, res) = setup_from(
                line_texts(lines@),
                start as int,
                GameParameters::zero(),
                policy,
            );
            &&& final(notes)@ == old(notes)@ + ns
            &&& r == setup_result(res)
        }),
{
    let ghost all = line_texts(lines@);
    let ghost first = setup_from(all, start as int, GameParameters::zero(), policy);
    let mut p = GameParameters::default();
    let mut i: usize = start;
    while i < lines.len()
        invariant
            all == line_texts(lines@),
            first == setup_from(all, start as int, GameParameters::zero(), policy),
            start <= i,
            first.1 == setup_from(all, i as int, p, policy).1,
            old(notes)@ + first.0 == notes@ + setup_from(all, i as int, p, policy).0,
        decreases lines.len() - i,
    {
        let t = line_tokens(lines[i].as_str());
        assert(all[i as int] == lines@[i as int]@);
        if is_only(&t, "ready") {
            assert(notes@ + Seq::<ProtocolError>::empty() =~= notes@);
            return Ok((p, i + 1));
        }
        let ghost before = p;
        match apply_setup_tokens(&mut p, &t) {
            Ok(()) => {},
            Err(issue) => {
                let note = ProtocolError { line: i, kind: ErrorKind::BadSetupLine(issue) };
                match policy {
                    SetupPolicy::Strict => {
                        assert(notes@ + Seq::<ProtocolError>::empty() =~= notes@);
                        return Err(note);
                    },
                    SetupPolicy::Lenient => {
                        let ghost rest = setup_from(all, i + 1, p, policy).0;
                        notes.push(note);
                        assert(old(notes)@ + first.0 =~= notes@ + rest);
                    },
                }
            },
        }
        i += 1;
    }
    assert(notes@ + Seq::<ProtocolError>::empty() =~= notes@);
    Err(ProtocolError { line: lines.len(), kind: ErrorKind::UnexpectedEnd })
}

/// Parse a world snapshot: record lines from index `start` up to a line
/// holding only `go`. Returns the snapshot and the index after `go`.
pub fn parse_turn_x_lines(lines: &[String], start: usize) -> (r: Result<
    (WorldState, usize),
    ProtocolError,
>)
    ensures
        world_result(r) == world_from(line_texts(lines@), start as int, WorldView::empty()),
{
    let ghost all = line_texts(lines@);
    let mut w = WorldState::new();
    let mut i: usize = start;
    while i < lines.len()
        invariant
            all == line_texts(lines@),
            start <= i,
            world_from(all, start as int, WorldView::empty()) == world_from(all, i as int, w@),
        decreases lines.len() - i,
    {
        let t = line_tokens(lines[i].as_str());
        assert(all[i as int] == lines@[i as int]@);
        if is_only(&t, "go") {
            return Ok((w, i + 1));
        }
        match record_tokens(&t) {
            Some(rec) => {
                w = w.with_record(rec);
            },
            None => {
                return Err(ProtocolError { line: i, kind: ErrorKind::BadRecord });
            },
        }
        i += 1;
    }
    Err(ProtocolError { line: lines.len(), kind: ErrorKind::UnexpectedEnd })
}

/// Parse the block that follows `end`: `players <N>`, then
/// `score <v0> ... <vN-1>`, then a world snapshot ending with `go`.
/// Returns the final snapshot, the scores and the index after `go`.
pub fn parse_end_lines(lines: &[String], start: usize) -> (r: Result<
    (WorldState, Score, usize),
    ProtocolError,
>)
    ensures
        end_result(r) == end_from(line_texts(lines@), start as int),
{
    let ghost all = line_texts(lines@);
    if start >= lines.len() {
        return Err(ProtocolError { line: lines.len(), kind: ErrorKind::UnexpectedEnd });
    }
    let t = line_tokens(lines[start].as_str());
    assert(all[start as int] == lines@[start as int]@);
    let players = match players_tokens(&t) {
        Some(n) => n,
        None => return Err(ProtocolError { line: start, kind: ErrorKind::BadPlayersLine }),
    };
    if start + 1 >= lines.len() {
        return Err(ProtocolError { line: lines.len(), kind: ErrorKind::UnexpectedEnd });
    }
    let t2 = line_tokens(lines[start + 1].as_str());
    assert(all[start + 1] == lines@[start + 1]@);
    let values = match scores_tokens(&t2) {
        Some(v) => v,
        None => return Err(ProtocolError { line: start + 1, kind: ErrorKind::BadScoreLine }),
    };
    if values.len() != players as usize {
        return Err(
            ProtocolError {
                line: start + 1,
                kind: ErrorKind::ScoreCountMismatch { players, scores: values.len() },
            },
        );
    }
    match parse_turn_x_lines(lines, start + 2) {
        Ok((w, next)) => Ok((w, Score { per_player: values }, next)),
        Err(e) => Err(e),
    }
}

/// The letter that writes a movement on the wire.
pub open spec fn letter(d: Direction) -> char {
    match d {
        Direction::North => 'N',
        Direction::South => 'S',
        Direction::East => 'E',
        Direction::West => 'W',
        Direction::NoDirection => ' ',
    }
}

/// The line `o <row> <col> <dir>` that sends an order; nothing for an order
/// without movement, which is not sent.
pub open spec fn order_line(o: Order) -> Seq<char> {
    if o.dir == Direction::NoDirection {
        Seq::empty()
    } else {
        seq!['o', ' '] + decimal(o.pos.row as nat) + seq![' '] + decimal(o.pos.col as nat) + seq![
            ' ',
            letter(o.dir),
            '\n',
        ]
    }
}

/// The text that sends `os`, one line per order, in the given order.
pub open spec fn orders_text(os: Seq<Order>) -> Seq<char>
    decreases os.len(),
{
    if os.len() == 0 {
        Seq::empty()
    } else {
        orders_text(os.drop_last()) + order_line(os.last())
    }
}

/// The one-letter text of a movement.
fn letter_text(d: Direction) -> (r: &'static str)
    requires
        d != Direction::NoDirection,
    ensures
        r@ == seq![letter(d)],
{
    match d {
        Direction::North => {
            proof {
                reveal_strlit("N");
            }
            "N"
        },
        Direction::South => {
            proof {
                reveal_strlit("S");
            }
            "S"
        },
        Direction::East => {
            proof {
                reveal_strlit("E");
            }
            "E"
        },
        _ => {
            proof {
                reveal_strlit("W");
            }
            "W"
        },
    }
}

/// Write the orders as protocol lines `o <row> <col> <dir>`, in the given
/// order. Orders without movement are left out: no line is sent for them.
pub fn serialize_orders(orders: &[Order]) -> (r: String)
    ensures
        r@ == orders_text(orders@),
{
    let mut out = String::new();
    let mut i: usize = 0;
    proof {
        reveal_strlit("o ");
        reveal_strlit(" ");
        reveal_strlit("\n");
        assert("o "@ =~= seq!['o', ' ']);
        assert(" "@ =~= seq![' ']);
        assert("\n"@ =~= seq!['\n']);
    }
    while i < orders.len()
        invariant
            i <= orders.len(),
            out@ == orders_text(orders@.take(i as int)),
            "o "@ == seq!['o', ' '],
            " "@ == seq![' '],
            "\n"@ == seq!['\n'],
        decreases orders.len() - i,
    {
        let o = orders[i];
        let ghost before = out@;
        if o.dir != Direction::NoDirection {
            out.append("o ");
            push_decimal(&mut out, o.pos.row as u64);
            out.append(" ");
            push_decimal(&mut out, o.pos.col as u64);
            out.append(" ");
            out.append(letter_text(o.dir));
            out.append("\n");
        }
        assert(out@ =~= before + order_line(o));
        assert(orders@.take(i + 1).drop_last() =~= orders@.take(i as int));
        i += 1;
    }
    assert(orders@.take(orders.len() as int) =~= orders@);
    out
}

/// The movement written by a one-letter token.
pub open spec fn direction_in(t: Seq<char>) -> Option<Direction> {
    if t == seq!['N'] {
        Some(Direction::North)
    } else if t == seq!['S'] {
        Some(Direction::South)
    } else if t == seq!['E'] {
        Some(Direction::East)
    } else if t == seq!['W'] {
        Some(Direction::West)
    } else {
        None
    }
}

/// The order written by the four tokens `o <row> <col> <dir>`.
pub open spec fn order_in(t: Seq<Seq<char>>) -> Option<Order> {
    if t.len() == 4 && t[0] == seq!['o'] {
        match (position_of(t[1], t[2]), direction_in(t[3])) {
            (Some(p), Some(d)) => Some(Order { pos: p, dir: d }),
            _ => None,
        }
    } else {
        None
    }
}

/// The orders written by a token sequence made of groups
/// `o <row> <col> <dir>`, if it is one.
pub open spec fn orders_in(t: Seq<Seq<char>>) -> Option<Seq<Order>>
    decreases t.len(),
{
    if t.len() == 0 {
        Some(Seq::empty())
    } else if t.len() < 4 {
        None
    } else {
        match (orders_in(t.take(t.len() - 4)), order_in(t.skip(t.len() - 4))) {
            (Some(a), Some(o)) => Some(a.push(o)),
            _ => None,
        }
    }
}

/// The order written by the tokens `t[k..k + 4]`.
fn order_group(t: &Vec<Vec<char>>, k: usize) -> (r: Option<Order>)
    requires
        k + 4 <= t.len(),
    ensures
        r == order_in(texts(t@).subrange(k as int, k + 4)),
{
    let ghost g = texts(t@).subrange(k as int, k + 4);
    assert(g[0] == t@[k as int]@ && g[1] == t@[k + 1]@ && g[2] == t@[k + 2]@ && g[3] == t@[k
        + 3]@);
    proof {
        reveal_strlit("o");
        reveal_strlit("N");
        reveal_strlit("S");
        reveal_strlit("E");
        reveal_strlit("W");
        assert("o"@ =~= seq!['o']);
        assert("N"@ =~= seq!['N']);
        assert("S"@ =~= seq!['S']);
        assert("E"@ =~= seq!['E']);
        assert("W"@ =~= seq!['W']);
    }
    if !same_text(&t[k], "o") {
        return None;
    }
    let at = match position_tokens(&t[k + 1], &t[k + 2]) {
        Some(p) => p,
        None => return None,
    };
    let d = &t[k + 3];
    let dir = if same_text(d, "N") {
        Direction::North
    } else if same_text(d, "S") {
        Direction::South
    } else if same_text(d, "E") {
        Direction::East
    } else if same_text(d, "W") {
        Direction::West
    } else {
        return None;
    };
    Some(Order { pos: at, dir })
}

/// Only a token sequence whose length is a multiple of four writes orders.
proof fn lemma_orders_in_len(t: Seq<Seq<char>>)
    ensures
        orders_in(t) is Some ==> t.len() % 4 == 0,
    decreases t.len(),
{
    if t.len() >= 4 {
        lemma_orders_in_len(t.take(t.len() - 4));
    }
}

/// If a prefix made of whole groups writes no orders, neither does `t`.
proof fn lemma_orders_in_prefix(t: Seq<Seq<char>>, k: int)
    requires
        0 <= k <= t.len(),
        k % 4 == 0,
        t.len() % 4 == 0,
        orders_in(t.take(k)) is None,
    ensures
        orders_in(t) is None,
    decreases t.len() - k,
{
    if k == t.len() {
        assert(t.take(k) =~= t);
    } else {
        assert(t.take(k + 4).take(k) =~= t.take(k));
        lemma_orders_in_prefix(t, k + 4);
    }
}

/// Read back orders written as `o <row> <col> <dir>` groups, with tokens
/// separated by white space or line breaks, as [`serialize_orders`] writes
/// them.
pub fn parse_orders(text: &str) -> (r: Option<Vec<Order>>)
    ensures
        match r {
            Some(v) => orders_in(tokens(text@)) == Some(v@),
            None => orders_in(tokens(text@)) is None,
        },
{
    let t = line_tokens(text);
    let ghost tt = texts(t@);
    proof {
        lemma_orders_in_len(tt);
    }
    if t.len() % 4 != 0 {
        return None;
    }
    let mut v: Vec<Order> = Vec::new();
    let mut k: usize = 0;
    assert(tt.take(0) =~= Seq::<Seq<char>>::empty());
    while k < t.len()
        invariant
            tt == texts(t@),
            tt == tokens(text@),
            t.len() % 4 == 0,
            k % 4 == 0,
            k <= t.len(),
            orders_in(tt.take(k as int)) == Some(v@),
        decreases t.len() - k,
    {
        let ghost prefix = tt.take(k + 4);
        assert(prefix.take(k as int) =~= tt.take(k as int));
        assert(prefix.skip(k as int) =~= tt.subrange(k as int, k + 4));
        match order_group(&t, k) {
            Some(o) => {
                v.push(o);
            },
            None => {
                proof {
                    lemma_orders_in_prefix(tt, k + 4);
                }
                return None;
            },
        }
        k += 4;
    }
    assert(tt.take(k as int) =~= tt);
    Some(v)
}

/// The four tokens that write a moving order.
pub open spec fn order_tokens(o: Order) -> Seq<Seq<char>> {
    seq![seq!['o'], decimal(o.pos.row as nat), decimal(o.pos.col as nat), seq![letter(o.dir)]]
}

/// The tokens that write the moving orders `os`, in order.
pub open spec fn order_groups(os: Seq<Order>) -> Seq<Seq<char>>
    decreases os.len(),
{
    if os.len() == 0 {
        Seq::empty()
    } else {
        order_groups(os.drop_last()) + order_tokens(os.last())
    }
}

/// Appending an order line adds the order's four tokens and ends with a
/// line break.
proof fn lemma_order_line_tokens(a: Seq<char>, o: Order)
    requires
        a.len() == 0 || is_space(a.last()),
        o.dir != Direction::NoDirection,
    ensures
        tokens(a + order_line(o)) == tokens(a) + order_tokens(o),
        is_space((a + order_line(o)).last()),
{
    let r = decimal(o.pos.row as nat);
    let c = decimal(o.pos.col as nat);
    lemma_decimal(o.pos.row as nat);
    lemma_decimal(o.pos.col as nat);
    let l = seq![letter(o.dir)];
    let w = seq!['o'];
    let a2 = lemma_word_then(a, w, ' ');
    let a3 = lemma_word_then(a2, r, ' ');
    let a4 = lemma_word_then(a3, c, ' ');
    let a5 = lemma_word_then(a4, l, '\n');
    assert(a5 =~= a + order_line(o));
    assert(tokens(a) + order_tokens(o) =~= tokens(a).push(w).push(r).push(c).push(l));
}

/// A word and a space written after a space (or at the start) add the word
/// as one token.
proof fn lemma_word_then(a: Seq<char>, w: Seq<char>, sp: char) -> (b: Seq<char>)
    requires
        a.len() == 0 || is_space(a.last()),
        is_word(w),
        is_space(sp),
    ensures
        b == (a + w).push(sp),
        tokens(b) == tokens(a).push(w),
        is_space(b.last()),
{
    lemma_tokens_word(a, w);
    lemma_tokens_space(a + w, sp);
    (a + w).push(sp)
}

/// The text written for moving orders tokenizes into their groups.
proof fn lemma_orders_text_tokens(os: Seq<Order>)
    requires
        forall|i: int| 0 <= i < os.len() ==> (#[trigger] os[i]).dir != Direction::NoDirection,
    ensures
        tokens(orders_text(os)) == order_groups(os),
        orders_text(os).len() == 0 || is_space(orders_text(os).last()),
    decreases os.len(),
{
    if os.len() > 0 {
        let init = os.drop_last();
        assert(forall|i: int| 0 <= i < init.len() ==> init[i] == os[i]);
        lemma_orders_text_tokens(init);
        assert(os[os.len() - 1] == os.last());
        lemma_order_line_tokens(orders_text(init), os.last());
    }
}

/// The groups of moving orders read back as those orders.
proof fn lemma_order_groups_read(os: Seq<Order>)
    requires
        forall|i: int| 0 <= i < os.len() ==> (#[trigger] os[i]).dir != Direction::NoDirection,
    ensures
        orders_in(order_groups(os)) == Some(os),
    decreases os.len(),
{
    if os.len() > 0 {
        let init = os.drop_last();
        let o = os.last();
        assert(forall|i: int| 0 <= i < init.len() ==> init[i] == os[i]);
        assert(os[os.len() - 1] == o);
        lemma_order_groups_read(init);
        let g = order_groups(os);
        assert(g.take(g.len() - 4) =~= order_groups(init));
        assert(g.skip(g.len() - 4) =~= order_tokens(o));
        lemma_decimal_round_trip(o.pos.row as nat, 0xffff);
        lemma_decimal_round_trip(o.pos.col as nat, 0xffff);
        assert(seq!['N'][0] != seq!['S'][0] && seq!['N'][0] != seq!['E'][0]);
        assert(seq!['S'][0] != seq!['E'][0] && seq!['S'][0] != seq!['W'][0]);
        assert(seq!['E'][0] != seq!['W'][0] && seq!['N'][0] != seq!['W'][0]);
        assert(direction_in(seq![letter(o.dir)]) == Some(o.dir));
        assert(order_in(order_tokens(o)) == Some(o));
        assert(init.push(o) =~= os);
    }
}

/// Serializing orders that all move and reading the text back gives the
/// same orders, positions and directions, in the same order.
pub proof fn lemma_orders_round_trip(os: Seq<Order>)
    requires
        forall|i: int| 0 <= i < os.len() ==> (#[trigger] os[i]).dir != Direction::NoDirection,
    ensures
        orders_in(tokens(orders_text(os))) == Some(os),
{
    lemma_orders_text_tokens(os);
    lemma_order_groups_read(os);
}

/// An end block whose `score` line holds a number of values other than the
/// player count declared on its `players` line is rejected, whatever the
/// two numbers are.
pub proof fn lemma_score_count_mismatch(lines: Seq<Seq<char>>, i: int)
    requires
        0 <= i,
        i + 1 < lines.len(),
        players_of(lines[i]) is Some,
        scores_of(lines[i + 1]) is Some,
        scores_of(lines[i + 1])->0.len() != players_of(lines[i])->0,
    ensures
        end_from(lines, i) == Err::<(WorldView, Seq<u64>, nat), ProtocolError>(
            ProtocolError {
                line: (i + 1) as usize,
                kind: ErrorKind::ScoreCountMismatch {
                    players: players_of(lines[i])->0,
                    scores: scores_of(lines[i + 1])->0.len() as usize,
                },
            },
        ),
{
}

} // verus!
