use vstd::prelude::*;

use crate::addr::Addr;
use crate::resolve::spec_resolve;

verus! {

/// A move committed by one participant.
#[derive(Clone, Copy, Debug, PartialEq, Eq, Structural)]
pub enum GameMove {
    Rock,
    Paper,
    Scissors,
}

/// The outcome of a fully populated session, produced only by the
/// resolution engine.
#[derive(Clone, Copy, Debug, PartialEq, Eq, Structural)]
pub enum GameResult {
    HostWins,
    OpponentWins,
    Tie,
}

/// The mathematical value of a session: the two principals as byte tokens,
/// the optional committed moves, and the optional derived outcome.
pub ghost struct StateV {
    pub host: Seq<u8>,
    pub opponent: Seq<u8>,
    pub host_move: Option<GameMove>,
    pub opp_move: Option<GameMove>,
    pub result: Option<GameResult>,
}

impl StateV {
    /// A session is well formed when its outcome is present exactly when
    /// both moves are, and then equals what the resolution engine decides.
    pub open spec fn wf(self) -> bool {
        match (self.host_move, self.opp_move) {
            (Some(h), Some(o)) => self.result == Some(spec_resolve(h, o)),
            _ => self.result is None,
        }
    }
}

/// The core session entity. `host_move` and `opp_move` are absent until
/// submitted; a session with a single move present is a valid in-progress
/// state. `result` is taken as given: the registry computes it at
/// initialization, while an indexed record stores whatever the caller
/// submitted.
#[derive(Debug)]
pub struct State {
    pub host: Addr,
    pub opponent: Addr,
    pub host_move: Option<GameMove>,
    pub opp_move: Option<GameMove>,
    pub result: Option<GameResult>,
}

impl View for State {
    type V = StateV;

    open spec fn view(&self) -> StateV {
        StateV {
            host: self.host@,
            opponent: self.opponent@,
            host_move: self.host_move,
            opp_move: self.opp_move,
            result: self.result,
        }
    }
}

impl Clone for State {
    fn clone(&self) -> (r: Self)
        ensures
            r@ == self@,
    {
        State {
            host: self.host.clone(),
            opponent: self.opponent.clone(),
            host_move: self.host_move,
            opp_move: self.opp_move,
            result: self.result,
        }
    }
}

impl PartialEq for State {
    fn eq(&self, other: &State) -> (r: bool) {
        self.host == other.host && self.opponent == other.opponent && option_move_eq(
            self.host_move,
            other.host_move,
        ) && option_move_eq(self.opp_move, other.opp_move) && option_result_eq(
            self.result,
            other.result,
        )
    }
}

impl vstd::std_specs::cmp::PartialEqSpecImpl for State {
    open spec fn obeys_eq_spec() -> bool {
        true
    }

    open spec fn eq_spec(&self, other: &State) -> bool {
        self@ == other@
    }
}

/// Equality of optional moves.
fn option_move_eq(a: Option<GameMove>, b: Option<GameMove>) -> (r: bool)
    ensures
        r == (a == b),
{
    match (a, b) {
        (None, None) => true,
        (Some(x), Some(y)) => x == y,
        _ => false,
    }
}

/// Equality of optional outcomes.
fn option_result_eq(a: Option<GameResult>, b: Option<GameResult>) -> (r: bool)
    ensures
        r == (a == b),
{
    match (a, b) {
        (None, None) => true,
        (Some(x), Some(y)) => x == y,
        _ => false,
    }
}

/// The mathematical value of an indexed session record: the compound
/// `(host, opponent)` key it is stored under, and the stored session.
pub ghost struct RecordV {
    pub key: (Seq<u8>, Seq<u8>),
    pub state: StateV,
}

/// A session record together with the participant pair it is indexed
/// under.
pub struct Rps {
    pub host_and_opp: (Addr, Addr),
    pub state: State,
}

impl View for Rps {
    type V = RecordV;

    open spec fn view(&self) -> RecordV {
        RecordV { key: (self.host_and_opp.0@, self.host_and_opp.1@), state: self.state@ }
    }
}

impl Clone for Rps {
    fn clone(&self) -> (r: Self)
        ensures
            r@ == self@,
    {
        Rps {
            host_and_opp: (self.host_and_opp.0.clone(), self.host_and_opp.1.clone()),
            state: self.state.clone(),
        }
    }
}

/// One hit of an indexed lookup: the record's compound key and its stored
/// session.
pub struct SearchResults {
    pub host_and_opp: (Addr, Addr),
    pub state: State,
}

impl View for SearchResults {
    type V = RecordV;

    open spec fn view(&self) -> RecordV {
        RecordV { key: (self.host_and_opp.0@, self.host_and_opp.1@), state: self.state@ }
    }
}

} // verus!
