use vstd::prelude::*;

use crate::position::Position;

verus! {

/// One turn's snapshot of what the player can see.
#[derive(Debug, PartialEq, Eq)]
pub struct WorldState {
    /// Food positions.
    pub foods: Vec<Position>,
    /// Water positions.
    pub waters: Vec<Position>,
    /// Live ant positions for each player (zero indexed).
    pub live_ants: Vec<Vec<Position>>,
    /// Dead ant positions for each player (zero indexed).
    pub dead_ants: Vec<Vec<Position>>,
    /// Hill positions for each player (zero indexed).
    pub hills: Vec<Vec<Position>>,
}

/// The mathematical content of a [`WorldState`].
pub struct WorldView {
    pub foods: Seq<Position>,
    pub waters: Seq<Position>,
    pub live_ants: Seq<Seq<Position>>,
    pub dead_ants: Seq<Seq<Position>>,
    pub hills: Seq<Seq<Position>>,
}

/// The per-player lists of a nested vector, as sequences.
pub open spec fn nested(v: Seq<Vec<Position>>) -> Seq<Seq<Position>> {
    v.map_values(|x: Vec<Position>| x@)
}

impl View for WorldState {
    type V = WorldView;

    open spec fn view(&self) -> WorldView {
        WorldView {
            foods: self.foods@,
            waters: self.waters@,
            live_ants: nested(self.live_ants@),
            dead_ants: nested(self.dead_ants@),
            hills: nested(self.hills@),
        }
    }
}

/// `v` extended with empty lists up to length `n` (unchanged if longer).
pub open spec fn padded(v: Seq<Seq<Position>>, n: nat) -> Seq<Seq<Position>> {
    if v.len() >= n {
        v
    } else {
        v + Seq::new((n - v.len()) as nat, |i: int| Seq::<Position>::empty())
    }
}

/// The list of player `k`, or the empty list where `v` has no entry `k`.
pub open spec fn entry(v: Seq<Seq<Position>>, k: int) -> Seq<Position> {
    if 0 <= k < v.len() {
        v[k]
    } else {
        Seq::empty()
    }
}

/// `v` with `p` appended to the list of player `k`, growing `v` as needed.
pub open spec fn added(v: Seq<Seq<Position>>, k: nat, p: Position) -> Seq<Seq<Position>> {
    let g = padded(v, k + 1);
    g.update(k as int, g[k as int].push(p))
}

/// One classified item of a world snapshot.
#[derive(Clone, Copy, Debug, PartialEq, Eq, Structural)]
pub enum Record {
    Water { at: Position },
    Food { at: Position },
    Hill { at: Position, owner: u8 },
    LiveAnt { at: Position, owner: u8 },
    DeadAnt { at: Position, owner: u8 },
}

/// One more than the player index a record names; zero for food and water.
pub open spec fn player_bound(r: Record) -> nat {
    match r {
        Record::Hill { owner, .. } => owner as nat + 1,
        Record::LiveAnt { owner, .. } => owner as nat + 1,
        Record::DeadAnt { owner, .. } => owner as nat + 1,
        _ => 0,
    }
}

/// One more than the highest player index among `recs`, zero if none names
/// a player.
pub open spec fn player_extent(recs: Seq<Record>) -> nat
    decreases recs.len(),
{
    if recs.len() == 0 {
        0
    } else {
        let before = player_extent(recs.drop_last());
        let last = player_bound(recs.last());
        if before >= last {
            before
        } else {
            last
        }
    }
}

impl WorldView {
    /// The snapshot holding nothing.
    pub open spec fn empty() -> WorldView {
        WorldView {
            foods: Seq::empty(),
            waters: Seq::empty(),
            live_ants: Seq::empty(),
            dead_ants: Seq::empty(),
            hills: Seq::empty(),
        }
    }

    /// The snapshot with one more record.
    pub open spec fn with(self, r: Record) -> WorldView {
        match r {
            Record::Water { at } => WorldView { waters: self.waters.push(at), ..self },
            Record::Food { at } => WorldView { foods: self.foods.push(at), ..self },
            Record::Hill { at, owner } => WorldView {
                hills: added(self.hills, owner as nat, at),
                ..self
            },
            Record::LiveAnt { at, owner } => WorldView {
                live_ants: added(self.live_ants, owner as nat, at),
                ..self
            },
            Record::DeadAnt { at, owner } => WorldView {
                dead_ants: added(self.dead_ants, owner as nat, at),
                ..self
            },
        }
    }

    /// The largest length among the three per-player collections.
    pub open spec fn player_count(self) -> nat {
        let a = self.live_ants.len();
        let b = self.dead_ants.len();
        let c = self.hills.len();
        if a >= b && a >= c {
            a
        } else if b >= c {
            b
        } else {
            c
        }
    }
}

/// The snapshot made of `recs`, added in order to an empty one.
pub open spec fn built(recs: Seq<Record>) -> WorldView
    decreases recs.len(),
{
    if recs.len() == 0 {
        WorldView::empty()
    } else {
        built(recs.drop_last()).with(recs.last())
    }
}

impl Default for WorldState {
    fn default() -> (r: WorldState)
        ensures
            r@ == WorldView::empty(),
    {
        WorldState::new()
    }
}

impl WorldState {
    /// The snapshot holding nothing.
    pub fn new() -> (r: WorldState)
        ensures
            r@ == WorldView::empty(),
    {
        let r = WorldState {
            foods: Vec::new(),
            waters: Vec::new(),
            live_ants: Vec::new(),
            dead_ants: Vec::new(),
            hills: Vec::new(),
        };
        assert(r@.live_ants =~= Seq::empty());
        assert(r@.dead_ants =~= Seq::empty());
        assert(r@.hills =~= Seq::empty());
        r
    }

    /// Add food at the given position.
    pub fn food(self, pos: Position) -> (r: Self)
        ensures
            r@ == self@.with(Record::Food { at: pos }),
    {
        let mut w = self;
        w.foods.push(pos);
        w
    }

    /// Add water at the given position.
    pub fn water(self, pos: Position) -> (r: Self)
        ensures
            r@ == self@.with(Record::Water { at: pos }),
    {
        let mut w = self;
        w.waters.push(pos);
        w
    }

    /// Add a live ant at the given position for a player. The per-player
    /// lists grow to `player + 1` entries if they are shorter; the lists
    /// added on the way are empty.
    pub fn live_ant(self, pos: Position, player: u8) -> (r: Self)
        ensures
            r@ == self@.with(Record::LiveAnt { at: pos, owner: player }),
            self.live_ants.len() <= player ==> r.live_ants.len() == player + 1,
            forall|i: int|
                self.live_ants.len() <= i < player ==> (#[trigger] r@.live_ants[i]).len() == 0,
    {
        let mut w = self;
        add_at(&mut w.live_ants, player, pos);
        w
    }

    /// Add a dead ant at the given position for a player.
    pub fn dead_ant(self, pos: Position, player: u8) -> (r: Self)
        ensures
            r@ == self@.with(Record::DeadAnt { at: pos, owner: player }),
    {
        let mut w = self;
        add_at(&mut w.dead_ants, player, pos);
        w
    }

    /// Add a hill at the given position for a player.
    pub fn hill(self, pos: Position, player: u8) -> (r: Self)
        ensures
            r@ == self@.with(Record::Hill { at: pos, owner: player }),
    {
        let mut w = self;
        add_at(&mut w.hills, player, pos);
        w
    }

    /// Add one classified record.
    pub fn with_record(self, rec: Record) -> (r: Self)
        ensures
            r@ == self@.with(rec),
    {
        match rec {
            Record::Water { at } => self.water(at),
            Record::Food { at } => self.food(at),
            Record::Hill { at, owner } => self.hill(at, owner),
            Record::LiveAnt { at, owner } => self.live_ant(at, owner),
            Record::DeadAnt { at, owner } => self.dead_ant(at, owner),
        }
    }

    /// Number of player slots: the largest length among the live ant, dead
    /// ant and hill collections.
    pub fn max_player_count(&self) -> (r: usize)
        ensures
            r == self@.player_count(),
    {
        let a = self.live_ants.len();
        let b = self.dead_ants.len();
        let c = self.hills.len();
        if a >= b && a >= c {
            a
        } else if b >= c {
            b
        } else {
            c
        }
    }

    /// Live ants of a player; empty for a player never seen.
    pub fn live_ants_for_player(&self, player: u8) -> (r: Vec<Position>)
        ensures
            r@ == entry(self@.live_ants, player as int),
    {
        get_or_empty(&self.live_ants, player)
    }

    /// Dead ants of a player; empty for a player never seen.
    pub fn dead_ants_for_player(&self, player: u8) -> (r: Vec<Position>)
        ensures
            r@ == entry(self@.dead_ants, player as int),
    {
        get_or_empty(&self.dead_ants, player)
    }

    /// Hills of a player; empty for a player never seen.
    pub fn hills_for_player(&self, player: u8) -> (r: Vec<Position>)
        ensures
            r@ == entry(self@.hills, player as int),
    {
        get_or_empty(&self.hills, player)
    }
}

/// Grow `v` with empty lists until it has an entry for `capacity`.
fn ensure_capacity(v: &mut Vec<Vec<Position>>, capacity: u8)
    ensures
        nested(final(v)@) == padded(nested(old(v)@), capacity as nat + 1),
        final(v).len() == if old(v).len() > capacity { old(v).len() as int } else { capacity + 1 },
{
    if v.len() > capacity as usize {
        return;
    }
    while v.len() <= capacity as usize
        invariant
            nested(v@) == padded(nested(old(v)@), v.len() as nat),
            old(v).len() <= v.len() <= capacity as nat + 1,
        decreases capacity as nat + 1 - v.len(),
    {
        let ghost before = nested(v@);
        v.push(Vec::new());
        assert(nested(v@) =~= before.push(Seq::empty()));
        assert(nested(v@) =~= padded(nested(old(v)@), v.len() as nat));
    }
}

/// Append `p` to the list of player `k`, growing `v` as needed.
fn add_at(v: &mut Vec<Vec<Position>>, k: u8, p: Position)
    ensures
        nested(final(v)@) == added(nested(old(v)@), k as nat, p),
        final(v).len() == if old(v).len() > k { old(v).len() as int } else { k + 1 },
{
    ensure_capacity(v, k);
    let ghost grown = nested(v@);
    let mut slot: Vec<Position> = Vec::new();
    std::mem::swap(&mut slot, &mut v[k as usize]);
    slot.push(p);
    std::mem::swap(&mut slot, &mut v[k as usize]);
    assert(nested(v@) =~= grown.update(k as int, grown[k as int].push(p)));
}

/// A copy of entry `index` of `v`, or an empty list if there is none.
fn get_or_empty(v: &Vec<Vec<Position>>, index: u8) -> (r: Vec<Position>)
    ensures
        r@ == entry(nested(v@), index as int),
{
    let mut r: Vec<Position> = Vec::new();
    if (index as usize) < v.len() {
        let src = &v[index as usize];
        let mut i: usize = 0;
        while i < src.len()
            invariant
                i <= src.len(),
                r@ == src@.take(i as int),
            decreases src.len() - i,
        {
            r.push(src[i]);
            i += 1;
            assert(r@ =~= src@.take(i as int));
        }
        assert(r@ =~= src@);
    } else {
        assert(r@ =~= Seq::empty());
    }
    r
}

/// Adding a record grows the player count to at least one more than the
/// player index it names, and changes it in no other way.
proof fn lemma_player_count_with(w: WorldView, r: Record)
    ensures
        w.with(r).player_count() == if w.player_count() >= player_bound(r) {
            w.player_count()
        } else {
            player_bound(r)
        },
{
}

/// After any sequence of additions to an empty snapshot, the player count
/// is one more than the highest player index added, over live ants, dead
/// ants and hills together (zero when no record names a player).
pub proof fn lemma_player_count_built(recs: Seq<Record>)
    ensures
        built(recs).player_count() == player_extent(recs),
    decreases recs.len(),
{
    if recs.len() > 0 {
        lemma_player_count_built(recs.drop_last());
        lemma_player_count_with(built(recs.drop_last()), recs.last());
    }
}

/// Adding to the list of player `j` leaves the list of any other player as
/// it reads through [`entry`].
proof fn lemma_entry_added(v: Seq<Seq<Position>>, j: nat, p: Position, k: int)
    requires
        k != j,
    ensures
        entry(added(v, j, p), k) == entry(v, k),
{
}

/// One of the three per-player collections of a snapshot.
#[derive(Clone, Copy, Debug, PartialEq, Eq, Structural)]
pub enum PerPlayer {
    LiveAnts,
    DeadAnts,
    Hills,
}

/// Whether the record adds to collection `c` of player `k`.
pub open spec fn adds_to(r: Record, c: PerPlayer, k: u8) -> bool {
    match r {
        Record::LiveAnt { owner, .. } => c == PerPlayer::LiveAnts && owner == k,
        Record::DeadAnt { owner, .. } => c == PerPlayer::DeadAnts && owner == k,
        Record::Hill { owner, .. } => c == PerPlayer::Hills && owner == k,
        _ => false,
    }
}

/// Whether some record of `recs` adds to collection `c` of player `k`.
pub open spec fn names_player(recs: Seq<Record>, c: PerPlayer, k: u8) -> bool {
    exists|i: int| 0 <= i < recs.len() && adds_to(#[trigger] recs[i], c, k)
}

/// A per-player list that no record names stays empty: for a player index
/// that no live ant (dead ant, hill) record of `recs` names, the live ant
/// (dead ant, hill) list of the snapshot built from `recs` reads as empty,
/// whether the index lies inside or beyond the grown collection.
pub proof fn lemma_unnamed_player_empty(recs: Seq<Record>, k: u8)
    ensures
        !names_player(recs, PerPlayer::LiveAnts, k) ==> entry(built(recs).live_ants, k as int).len()
            == 0,
        !names_player(recs, PerPlayer::DeadAnts, k) ==> entry(built(recs).dead_ants, k as int).len()
            == 0,
        !names_player(recs, PerPlayer::Hills, k) ==> entry(built(recs).hills, k as int).len() == 0,
    decreases recs.len(),
{
    if recs.len() > 0 {
        let init = recs.drop_last();
        lemma_unnamed_player_empty(init, k);
        let w = built(init);
        let last = recs.last();
        assert forall|c: PerPlayer| names_player(init, c, k) implies names_player(recs, c, k) by {
            let i = choose|i: int| 0 <= i < init.len() && adds_to(#[trigger] init[i], c, k);
            assert(recs[i] == init[i]);
        }
        match last {
            Record::LiveAnt { owner, at } => {
                if owner != k {
                    lemma_entry_added(w.live_ants, owner as nat, at, k as int);
                } else {
                    assert(recs[recs.len() - 1] == last);
                }
            },
            Record::DeadAnt { owner, at } => {
                if owner != k {
                    lemma_entry_added(w.dead_ants, owner as nat, at, k as int);
                } else {
                    assert(recs[recs.len() - 1] == last);
                }
            },
            Record::Hill { owner, at } => {
                if owner != k {
                    lemma_entry_added(w.hills, owner as nat, at, k as int);
                } else {
                    assert(recs[recs.len() - 1] == last);
                }
            },
            _ => {},
        }
    }
}

} // verus!
