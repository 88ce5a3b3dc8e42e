use rps::addr::Addr;
use rps::contract::Registry;
use rps::error::ContractError;
use rps::msg::{ExecuteMsg, InstantiateMsg, QueryAnswer, QueryMsg};
use rps::state::{GameMove, GameResult, State};

fn addr(s: &str) -> Addr {
    Addr::new(s.as_bytes().to_vec())
}

fn game_result(host_move: GameMove, opp_move: GameMove) -> Option<GameResult> {
    match (host_move, opp_move) {
        (GameMove::Rock, GameMove::Rock) => Some(GameResult::Tie),
        (GameMove::Rock, GameMove::Paper) => Some(GameResult::OpponentWins),
        (GameMove::Rock, GameMove::Scissors) => Some(GameResult::HostWins),
        (GameMove::Paper, GameMove::Rock) => Some(GameResult::HostWins),
        (GameMove::Paper, GameMove::Paper) => Some(GameResult::Tie),
        (GameMove::Paper, GameMove::Scissors) => Some(GameResult::OpponentWins),
        (GameMove::Scissors, GameMove::Rock) => Some(GameResult::OpponentWins),
        (GameMove::Scissors, GameMove::Paper) => Some(GameResult::HostWins),
        (GameMove::Scissors, GameMove::Scissors) => Some(GameResult::Tie),
    }
}

#[test]
fn change_host() {
    let mut reg = Registry::new();

    let msg = InstantiateMsg {
        host: addr("creator"),
        opponent: addr("opponent123"),
        host_move: Some(GameMove::Rock),
        opp_move: Some(GameMove::Scissors),
    };
    reg.instantiate(msg).unwrap();

    let info = addr("creator");
    let msg = ExecuteMsg::ChangeHost {
        new_host: addr("Host Moe"),
    };
    reg.execute(&info, msg).unwrap();

    // should change name
    let host_response = match reg.query(QueryMsg::GetHost {}).unwrap() {
        QueryAnswer::Host(h) => h,
        _ => panic!("unexpected answer kind"),
    };
    assert_eq!(host_response.host, addr("Host Moe"));
}

#[test]
fn start_game() {
    let mut reg = Registry::new();

    let msg = InstantiateMsg {
        host: addr("host123"),
        opponent: addr("Opponent Carl"),
        host_move: Some(GameMove::Rock),
        opp_move: Some(GameMove::Scissors),
    };
    reg.instantiate(msg).unwrap();

    // execute message
    let info = addr("host123");
    let state = State {
        host: addr("host123"),
        opponent: addr("Opponent Carl"),
        host_move: Some(GameMove::Rock),
        opp_move: Some(GameMove::Scissors),
        result: game_result(GameMove::Rock, GameMove::Scissors),
    };
    let msg = ExecuteMsg::StartGame {
        host_and_opp: (addr("host_lol"), addr("opp_lol")),
        state: state.clone(),
    };
    reg.execute(&info, msg).unwrap();

    // query message
    let opp_response = match reg.query(QueryMsg::GetOpponent {}).unwrap() {
        QueryAnswer::Opponent(o) => o,
        _ => panic!("unexpected answer kind"),
    };
    assert_eq!(opp_response.opponent, addr("Opponent Carl"));

    // result should be Host Wins
    assert_eq!(state.result, Some(GameResult::HostWins));
}

#[test]
fn query_games() {
    let mut reg = Registry::new();

    let msg = InstantiateMsg {
        host: addr("host123"),
        opponent: addr("Opponent Carl"),
        host_move: Some(GameMove::Rock),
        opp_move: Some(GameMove::Scissors),
    };
    reg.instantiate(msg).unwrap();

    let searched_host = addr("host123");
    let query_result = reg.query_games_by_host(&searched_host);
    // initialization touches only the singleton, never the indexed store
    assert!(query_result.games.is_empty());
}

#[test]
fn instantiate_rejects_reinitialization() {
    let mut reg = Registry::new();
    let msg = InstantiateMsg {
        host: addr("creator"),
        opponent: addr("opponent123"),
        host_move: None,
        opp_move: None,
    };
    reg.instantiate(msg).unwrap();

    let again = InstantiateMsg {
        host: addr("someone else"),
        opponent: addr("opponent123"),
        host_move: None,
        opp_move: None,
    };
    assert_eq!(reg.instantiate(again), Err(ContractError::AlreadyInitialized));
    // the first singleton survives
    let host_response = match reg.query(QueryMsg::GetHost {}).unwrap() {
        QueryAnswer::Host(h) => h,
        _ => panic!("unexpected answer kind"),
    };
    assert_eq!(host_response.host, addr("creator"));
}

#[test]
fn instantiate_without_moves_has_no_result() {
    let mut reg = Registry::new();
    let msg = InstantiateMsg {
        host: addr("creator"),
        opponent: addr("opponent123"),
        host_move: Some(GameMove::Paper),
        opp_move: None,
    };
    reg.instantiate(msg).unwrap();

    let result_response = match reg.query(QueryMsg::GetResult {}).unwrap() {
        QueryAnswer::GameOutcome(x) => x,
        _ => panic!("unexpected answer kind"),
    };
    assert_eq!(result_response.result, None);
    let move_response = match reg.query(QueryMsg::GetHostMove {}).unwrap() {
        QueryAnswer::HostMove(m) => m,
        _ => panic!("unexpected answer kind"),
    };
    assert_eq!(move_response.host_move, Some(GameMove::Paper));
    let opp_move_response = match reg.query(QueryMsg::GetOpponentMove {}).unwrap() {
        QueryAnswer::OppMove(m) => m,
        _ => panic!("unexpected answer kind"),
    };
    assert_eq!(opp_move_response.opp_move, None);
}

#[test]
fn queries_before_initialization_are_not_found() {
    let reg = Registry::new();
    assert!(matches!(
        reg.query(QueryMsg::GetHost {}),
        Err(ContractError::NotFound)
    ));
    assert!(matches!(
        reg.query(QueryMsg::GetResult {}),
        Err(ContractError::NotFound)
    ));
}

#[test]
fn change_host_before_initialization_is_not_found() {
    let mut reg = Registry::new();
    let caller = addr("creator");
    let r = reg.try_change_host(&caller, addr("Host Moe"));
    assert!(matches!(r, Err(ContractError::NotFound)));
}

#[test]
fn end_to_end_scenario() {
    let mut reg = Registry::new();

    // initialize with both moves: the outcome is resolved immediately
    let msg = InstantiateMsg {
        host: addr("H1"),
        opponent: addr("O1"),
        host_move: Some(GameMove::Rock),
        opp_move: Some(GameMove::Scissors),
    };
    reg.instantiate(msg).unwrap();
    let result_response = match reg.query(QueryMsg::GetResult {}).unwrap() {
        QueryAnswer::GameOutcome(x) => x,
        _ => panic!("unexpected answer kind"),
    };
    assert_eq!(result_response.result, Some(GameResult::HostWins));

    // the current host hands the session to a new host
    let caller = addr("H1");
    reg.execute(&caller, ExecuteMsg::ChangeHost { new_host: addr("H2") }).unwrap();
    let host_response = match reg.query(QueryMsg::GetHost {}).unwrap() {
        QueryAnswer::Host(h) => h,
        _ => panic!("unexpected answer kind"),
    };
    assert_eq!(host_response.host, addr("H2"));

    // the new host may start a game with a session it hosts
    let caller = addr("H2");
    let good = State {
        host: addr("H2"),
        opponent: addr("O1"),
        host_move: Some(GameMove::Paper),
        opp_move: Some(GameMove::Rock),
        result: Some(GameResult::HostWins),
    };
    reg.try_start_game(&caller, (addr("H2"), addr("O1")), good).unwrap();

    // but not with a session that still names the old host
    let stale = State {
        host: addr("H1"),
        opponent: addr("O1"),
        host_move: None,
        opp_move: None,
        result: None,
    };
    let r = reg.try_start_game(&caller, (addr("H1"), addr("O1")), stale);
    assert_eq!(r, Err(ContractError::Unauthorized));
}
