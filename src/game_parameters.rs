use vstd::prelude::*;

use crate::text::{chars_of, i64_text, parse_i64, same_text};

verus! {

/// The game's configuration, sent once before the first turn.
#[derive(Clone, Copy, Debug, PartialEq, Eq, Structural, Hash)]
pub struct GameParameters {
    /// In milliseconds, time given for the bot to start up after "ready".
    pub loadtime_ms: i64,
    /// In milliseconds, time given to the bot each turn.
    pub turntime_ms: i64,
    /// Number of rows in the map.
    pub rows: i64,
    /// Number of columns in the map.
    pub cols: i64,
    /// Maximum number of turns in the game.
    pub turns: i64,
    /// View radius squared.
    pub viewradius2: i64,
    /// Battle radius squared.
    pub attackradius2: i64,
    /// Food gathering radius squared (the name is a historical artifact).
    pub spawnradius2: i64,
    /// Seed for the random number generator, to reproduce games.
    pub player_seed: i64,
}

/// The field a setup line assigns.
#[derive(Clone, Copy, Debug, PartialEq, Eq, Structural)]
pub enum ParamKey {
    LoadTime,
    TurnTime,
    Rows,
    Cols,
    Turns,
    ViewRadius2,
    AttackRadius2,
    SpawnRadius2,
    PlayerSeed,
}

/// Why a setup assignment was not applied.
#[derive(Clone, Copy, Debug, PartialEq, Eq, Structural)]
pub enum SetupIssue {
    /// The line is not made of exactly a name and a value.
    Malformed,
    /// The name is none of the known parameters.
    UnknownKey,
    /// The value is not an integer that fits in an `i64`.
    BadValue,
}

/// The parameter a name on the wire stands for.
pub open spec fn param_key(name: Seq<char>) -> Option<ParamKey> {
    if name == "loadtime"@ {
        Some(ParamKey::LoadTime)
    } else if name == "turntime"@ {
        Some(ParamKey::TurnTime)
    } else if name == "rows"@ {
        Some(ParamKey::Rows)
    } else if name == "cols"@ {
        Some(ParamKey::Cols)
    } else if name == "turns"@ {
        Some(ParamKey::Turns)
    } else if name == "viewradius2"@ {
        Some(ParamKey::ViewRadius2)
    } else if name == "attackradius2"@ {
        Some(ParamKey::AttackRadius2)
    } else if name == "spawnradius2"@ {
        Some(ParamKey::SpawnRadius2)
    } else if name == "player_seed"@ {
        Some(ParamKey::PlayerSeed)
    } else {
        None
    }
}

impl GameParameters {
    /// All parameters zero.
    pub open spec fn zero() -> GameParameters {
        GameParameters {
            loadtime_ms: 0,
            turntime_ms: 0,
            rows: 0,
            cols: 0,
            turns: 0,
            viewradius2: 0,
            attackradius2: 0,
            spawnradius2: 0,
            player_seed: 0,
        }
    }

    /// These parameters with field `key` set to `v`.
    pub open spec fn with(self, key: ParamKey, v: i64) -> GameParameters {
        match key {
            ParamKey::LoadTime => GameParameters { loadtime_ms: v, ..self },
            ParamKey::TurnTime => GameParameters { turntime_ms: v, ..self },
            ParamKey::Rows => GameParameters { rows: v, ..self },
            ParamKey::Cols => GameParameters { cols: v, ..self },
            ParamKey::Turns => GameParameters { turns: v, ..self },
            ParamKey::ViewRadius2 => GameParameters { viewradius2: v, ..self },
            ParamKey::AttackRadius2 => GameParameters { attackradius2: v, ..self },
            ParamKey::SpawnRadius2 => GameParameters { spawnradius2: v, ..self },
            ParamKey::PlayerSeed => GameParameters { player_seed: v, ..self },
        }
    }

    /// The effect of assigning the text `value` to the parameter named
    /// `name`: the updated parameters, or why nothing changes. A value that
    /// is not an integer is reported before an unknown name.
    pub open spec fn put_spec(self, name: Seq<char>, value: Seq<char>) -> Result<
        GameParameters,
        SetupIssue,
    > {
        match i64_text(value) {
            None => Err(SetupIssue::BadValue),
            Some(v) => match param_key(name) {
                None => Err(SetupIssue::UnknownKey),
                Some(k) => Ok(self.with(k, v as i64)),
            },
        }
    }

    /// Set one field.
    pub fn set(&mut self, key: ParamKey, v: i64)
        ensures
            *final(self) == old(self).with(key, v),
    {
        match key {
            ParamKey::LoadTime => self.loadtime_ms = v,
            ParamKey::TurnTime => self.turntime_ms = v,
            ParamKey::Rows => self.rows = v,
            ParamKey::Cols => self.cols = v,
            ParamKey::Turns => self.turns = v,
            ParamKey::ViewRadius2 => self.viewradius2 = v,
            ParamKey::AttackRadius2 => self.attackradius2 = v,
            ParamKey::SpawnRadius2 => self.spawnradius2 = v,
            ParamKey::PlayerSeed => self.player_seed = v,
        }
    }

    /// Assign a value given as text to the parameter named `name`. An
    /// unknown name or a value that is not an integer is reported and
    /// changes nothing.
    pub fn put(&mut self, name: &str, value: &str) -> (r: Result<(), SetupIssue>)
        ensures
            match old(self).put_spec(name@, value@) {
                Ok(p) => r is Ok && *final(self) == p,
                Err(e) => r == Err::<(), SetupIssue>(e) && *final(self) == *old(self),
            },
    {
        let n = chars_of(name);
        let v = chars_of(value);
        self.put_chars(&n, &v)
    }

    /// [`GameParameters::put`] on tokens already split into characters.
    pub fn put_chars(&mut self, name: &Vec<char>, value: &Vec<char>) -> (r: Result<(), SetupIssue>)
        ensures
            match old(self).put_spec(name@, value@) {
                Ok(p) => r is Ok && *final(self) == p,
                Err(e) => r == Err::<(), SetupIssue>(e) && *final(self) == *old(self),
            },
    {
        let v = match parse_i64(value) {
            Some(v) => v,
            None => return Err(SetupIssue::BadValue),
        };
        match key_of(name) {
            Some(k) => {
                self.set(k, v);
                Ok(())
            },
            None => Err(SetupIssue::UnknownKey),
        }
    }
}

/// The parameter named by `name`, if any.
fn key_of(name: &Vec<char>) -> (r: Option<ParamKey>)
    ensures
        r == param_key(name@),
{
    if same_text(name, "loadtime") {
        Some(ParamKey::LoadTime)
    } else if same_text(name, "turntime") {
        Some(ParamKey::TurnTime)
    } else if same_text(name, "rows") {
        Some(ParamKey::Rows)
    } else if same_text(name, "cols") {
        Some(ParamKey::Cols)
    } else if same_text(name, "turns") {
        Some(ParamKey::Turns)
    } else if same_text(name, "viewradius2") {
        Some(ParamKey::ViewRadius2)
    } else if same_text(name, "attackradius2") {
        Some(ParamKey::AttackRadius2)
    } else if same_text(name, "spawnradius2") {
        Some(ParamKey::SpawnRadius2)
    } else if same_text(name, "player_seed") {
        Some(ParamKey::PlayerSeed)
    } else {
        None
    }
}

impl Default for GameParameters {
    fn default() -> (r: GameParameters)
        ensures
            r == GameParameters::zero(),
    {
        GameParameters {
            loadtime_ms: 0,
            turntime_ms: 0,
            rows: 0,
            cols: 0,
            turns: 0,
            viewradius2: 0,
            attackradius2: 0,
            spawnradius2: 0,
            player_seed: 0,
        }
    }
}

} // verus!
