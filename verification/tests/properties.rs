use rps::addr::Addr;
use rps::contract::Registry;
use rps::error::ContractError;
use rps::msg::{ExecuteMsg, QueryAnswer, QueryMsg};
use rps::resolve::resolve;
use rps::state::{GameMove, GameResult, State};

fn addr(s: &str) -> Addr {
    Addr::new(s.as_bytes().to_vec())
}

fn session(host: &str, opponent: &str) -> State {
    State {
        host: addr(host),
        opponent: addr(opponent),
        host_move: Some(GameMove::Rock),
        opp_move: Some(GameMove::Scissors),
        result: Some(GameResult::HostWins),
    }
}

fn initialized(host: &str, opponent: &str) -> Registry {
    let mut reg = Registry::new();
    reg.instantiate(rps::msg::InstantiateMsg {
        host: addr(host),
        opponent: addr(opponent),
        host_move: Some(GameMove::Rock),
        opp_move: Some(GameMove::Scissors),
    })
    .unwrap();
    reg
}

#[test]
fn resolve_concrete_table() {
    assert_eq!(resolve(GameMove::Rock, GameMove::Scissors), GameResult::HostWins);
    assert_eq!(resolve(GameMove::Rock, GameMove::Paper), GameResult::OpponentWins);
    assert_eq!(resolve(GameMove::Paper, GameMove::Paper), GameResult::Tie);
}

#[test]
fn resolve_total_and_loss_symmetric() {
    let moves = [GameMove::Rock, GameMove::Paper, GameMove::Scissors];
    for a in moves {
        assert_eq!(resolve(a, a), GameResult::Tie);
        for b in moves {
            let forward = resolve(a, b);
            let backward = resolve(b, a);
            assert_eq!(forward == GameResult::HostWins, backward == GameResult::OpponentWins);
            assert_eq!(forward == GameResult::Tie, backward == GameResult::Tie);
        }
    }
}

#[test]
fn change_host_by_stranger_is_unauthorized() {
    let mut reg = initialized("creator", "opponent123");
    let mallory = addr("mallory");
    let r = reg.try_change_host(&mallory, addr("mallory"));
    assert_eq!(r, Err(ContractError::Unauthorized));
    // the singleton session is untouched
    let host_response = match reg.query(QueryMsg::GetHost {}).unwrap() {
        QueryAnswer::Host(h) => h,
        _ => panic!("unexpected answer kind"),
    };
    assert_eq!(host_response.host, addr("creator"));
}

#[test]
fn change_host_touches_only_the_host_field() {
    let mut reg = initialized("creator", "opponent123");
    let caller = addr("creator");
    let updated = reg.try_change_host(&caller, addr("Host Moe")).unwrap();
    assert_eq!(updated.host, addr("Host Moe"));
    assert_eq!(updated.opponent, addr("opponent123"));
    assert_eq!(updated.host_move, Some(GameMove::Rock));
    assert_eq!(updated.opp_move, Some(GameMove::Scissors));
    assert_eq!(updated.result, Some(GameResult::HostWins));
    let opp_response = match reg.query(QueryMsg::GetOpponent {}).unwrap() {
        QueryAnswer::Opponent(o) => o,
        _ => panic!("unexpected answer kind"),
    };
    assert_eq!(opp_response.opponent, addr("opponent123"));
}

#[test]
fn start_game_by_stranger_writes_nothing() {
    let mut reg = initialized("creator", "opponent123");
    let mallory = addr("mallory");
    let r = reg.try_start_game(
        &mallory,
        (addr("creator"), addr("opponent123")),
        session("creator", "opponent123"),
    );
    assert_eq!(r, Err(ContractError::Unauthorized));
    let found = reg.query_games_by_host(&addr("creator"));
    assert!(found.games.is_empty());
}

#[test]
fn index_round_trip_and_overwrite() {
    let mut reg = initialized("creator", "opponent123");
    let caller = addr("h1");

    let first = session("h1", "o1");
    reg.try_start_game(&caller, (addr("h1"), addr("o1")), first.clone()).unwrap();

    let found = reg.query_games_by_host(&addr("h1"));
    assert_eq!(found.games.len(), 1);
    assert_eq!(found.games[0].host_and_opp.0, addr("h1"));
    assert_eq!(found.games[0].host_and_opp.1, addr("o1"));
    assert_eq!(found.games[0].state, first);

    // a second record for the same pair overwrites; it does not duplicate
    let second = State {
        host: addr("h1"),
        opponent: addr("o1"),
        host_move: Some(GameMove::Paper),
        opp_move: Some(GameMove::Rock),
        result: Some(GameResult::HostWins),
    };
    reg.try_start_game(&caller, (addr("h1"), addr("o1")), second.clone()).unwrap();

    let found = reg.query_games_by_host(&addr("h1"));
    assert_eq!(found.games.len(), 1);
    assert_eq!(found.games[0].state, second);
}

#[test]
fn query_by_unknown_host_is_empty() {
    let mut reg = initialized("creator", "opponent123");
    let caller = addr("h1");
    reg.try_start_game(&caller, (addr("h1"), addr("o1")), session("h1", "o1")).unwrap();

    let found = reg.query_games_by_host(&addr("nobody"));
    assert!(found.games.is_empty());
}

#[test]
fn query_by_host_orders_by_opponent_bytes() {
    let mut reg = initialized("creator", "opponent123");
    let caller = addr("h1");
    reg.try_start_game(&caller, (addr("h1"), addr("zeta")), session("h1", "zeta")).unwrap();
    reg.try_start_game(&caller, (addr("h1"), addr("alpha")), session("h1", "alpha")).unwrap();
    reg.try_start_game(&caller, (addr("h1"), addr("mid")), session("h1", "mid")).unwrap();

    let found = reg.query_games_by_host(&addr("h1"));
    assert_eq!(found.games.len(), 3);
    assert_eq!(found.games[0].host_and_opp.1, addr("alpha"));
    assert_eq!(found.games[1].host_and_opp.1, addr("mid"));
    assert_eq!(found.games[2].host_and_opp.1, addr("zeta"));
}

#[test]
fn query_by_opponent_scans_all_hosts() {
    let mut reg = initialized("creator", "opponent123");
    reg.try_start_game(&addr("h1"), (addr("h1"), addr("carl")), session("h1", "carl")).unwrap();
    reg.try_start_game(&addr("h2"), (addr("h2"), addr("carl")), session("h2", "carl")).unwrap();
    reg.try_start_game(&addr("h3"), (addr("h3"), addr("dora")), session("h3", "dora")).unwrap();

    let found = reg.query_games_by_opp(&addr("carl"));
    assert_eq!(found.games.len(), 2);
    assert_eq!(found.games[0].host_and_opp.0, addr("h1"));
    assert_eq!(found.games[1].host_and_opp.0, addr("h2"));

    let none = reg.query_games_by_opp(&addr("nobody"));
    assert!(none.games.is_empty());
}

#[test]
fn start_game_does_not_touch_the_singleton() {
    let mut reg = initialized("creator", "opponent123");
    let caller = addr("h1");
    reg.execute(
        &caller,
        ExecuteMsg::StartGame {
            host_and_opp: (addr("h1"), addr("o1")),
            state: session("h1", "o1"),
        },
    )
    .unwrap();

    let host_response = match reg.query(QueryMsg::GetHost {}).unwrap() {
        QueryAnswer::Host(h) => h,
        _ => panic!("unexpected answer kind"),
    };
    assert_eq!(host_response.host, addr("creator"));
}
