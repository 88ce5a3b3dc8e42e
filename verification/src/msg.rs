use vstd::prelude::*;

use crate::addr::Addr;
use crate::state::{GameMove, GameResult, SearchResults, State};

verus! {

/// The bootstrap command: fixes the two participants and optionally
/// pre-populates their moves.
pub struct InstantiateMsg {
    pub host: Addr,
    pub opponent: Addr,
    pub host_move: Option<GameMove>,
    pub opp_move: Option<GameMove>,
}

/// The mutating command surface.
pub enum ExecuteMsg {
    /// Reassign the singleton session's host; authorized by the current
    /// host.
    ChangeHost { new_host: Addr },
    /// Store a session record under a participant-pair key; authorized by
    /// the candidate session's host.
    StartGame { host_and_opp: (Addr, Addr), state: State },
}

/// The read-only command surface.
pub enum QueryMsg {
    GetHost {},
    GetOpponent {},
    GetHostMove {},
    GetOpponentMove {},
    GetResult {},
    QueryGamesByHost { host: Addr },
    QueryGamesByOpp { opp: Addr },
}

pub struct HostResponse {
    pub host: Addr,
}

pub struct OpponentResponse {
    pub opponent: Addr,
}

pub struct HostMoveResponse {
    pub host_move: Option<GameMove>,
}

pub struct OppMoveResponse {
    pub opp_move: Option<GameMove>,
}

pub struct ResultResponse {
    pub result: Option<GameResult>,
}

/// All indexed records whose key's first component is the queried host, in
/// ascending byte order of the opponent identifier. Empty when nothing
/// matches.
pub struct GamesByHostResponse {
    pub games: Vec<SearchResults>,
}

/// All indexed records whose key's second component is the queried
/// opponent, in store order. Empty when nothing matches.
pub struct GamesByOppResponse {
    pub games: Vec<SearchResults>,
}

/// The answer to a [`QueryMsg`], one variant per query.
pub enum QueryAnswer {
    Host(HostResponse),
    Opponent(OpponentResponse),
    HostMove(HostMoveResponse),
    OppMove(OppMoveResponse),
    GameOutcome(ResultResponse),
    GamesByHost(GamesByHostResponse),
    GamesByOpp(GamesByOppResponse),
}

} // verus!
