use cosmwasm_std::testing::MockApi;
use cosmwasm_std::Api;
use rps::contract::{
    execute, instantiate, query, query_blacklist, query_games_by_host,
    query_games_by_opponent, try_addtoblacklist, try_endgame, try_removefromblacklist,
    try_startgame, try_updateadmin, State,
};
use rps::error::ContractError;
use rps::moves::{result_label, GameMove, GameResult};
use rps::msg::{ExecuteMsg, InstantiateMsg, QueryMsg, QueryResponse};
use rps::store::GameData;

fn s(x: &str) -> String {
    x.to_string()
}

fn book(admin: &str) -> State {
    instantiate(InstantiateMsg { admin: s(admin) })
}

fn start(st: &mut State, sender: &str, opponent: &str, host_move: GameMove) -> Result<Option<GameResult>, ContractError> {
    execute(st, &s(sender), ExecuteMsg::StartGame { opponent: s(opponent), host_move })
}

fn end(st: &mut State, sender: &str, host: &str, opponent_move: GameMove) -> Result<Option<GameResult>, ContractError> {
    execute(st, &s(sender), ExecuteMsg::EndGame { host: s(host), opponent_move })
}

fn open_game(host: &str, opponent: &str, host_move: GameMove) -> GameData {
    GameData { host: s(host), opponent: s(opponent), host_move, opp_move: None, result: None }
}

#[test]
fn proper_initialization() {
    let st = book("bobby");
    assert_eq!(rps::contract::query_admin(&st), Some(s("bobby")));
    assert_eq!(query_blacklist(&st), Vec::<String>::new());
    assert_eq!(rps::contract::query_games(&st, &s("bobby")).games, vec![]);
}

#[test]
fn start_game() {
    let mut st = book("creator");
    let api = MockApi::default();

    // starting a game against an invalid address fails at validation
    assert!(api.addr_validate("").is_err());

    // starting a game against oneself fails
    let err = start(&mut st, "oneself", "oneself", GameMove::Scissors {}).unwrap_err();
    assert_eq!(err, ContractError::GameAgainstYourself {});

    // starting a game with correct data succeeds
    assert!(api.addr_validate("oprah").is_ok());
    let res = start(&mut st, "anyone", "oprah", GameMove::Scissors {}).unwrap();
    assert_eq!(res, None);
}

#[test]
fn end_game_with_losing_move() {
    let mut st = book("creator");
    assert_eq!(start(&mut st, "host", "opponent", GameMove::Scissors {}).unwrap(), None);

    let res = end(&mut st, "opponent", "host", GameMove::Paper {}).unwrap().unwrap();
    assert_eq!(res, GameResult::HostWins {});
    assert_eq!(result_label(res), "Host won");

    // the game is gone: answering it again fails
    assert_eq!(rps::contract::query_games(&st, &s("host")).games, vec![]);
    let err = end(&mut st, "opponent", "host", GameMove::Paper {}).unwrap_err();
    assert_eq!(err, ContractError::GameNotFound {});
}

#[test]
fn end_game_with_winning_move() {
    let mut st = book("creator");
    assert_eq!(start(&mut st, "host", "opponent", GameMove::Scissors {}).unwrap(), None);

    let res = end(&mut st, "opponent", "host", GameMove::Rock {}).unwrap().unwrap();
    assert_eq!(res, GameResult::OpponentWins {});
    assert_eq!(result_label(res), "Opponent won");
}

#[test]
fn end_game_with_tie_move() {
    let mut st = book("creator");
    assert_eq!(start(&mut st, "host", "opponent", GameMove::Scissors {}).unwrap(), None);

    let res = end(&mut st, "opponent", "host", GameMove::Scissors {}).unwrap().unwrap();
    assert_eq!(res, GameResult::Tie {});
    assert_eq!(result_label(res), "Tie");
}

#[test]
fn add_to_and_remove_from_blacklist() {
    let mut st = book("bobby");

    let res = execute(&mut st, &s("bobby"), ExecuteMsg::AddToBlacklist { addr: s("black") }).unwrap();
    assert_eq!(res, None);
    assert_eq!(query_blacklist(&st), vec![s("black")]);

    let res = execute(&mut st, &s("bobby"), ExecuteMsg::RemoveFromBlacklist { addr: s("black") }).unwrap();
    assert_eq!(res, None);
    assert_eq!(query_blacklist(&st), Vec::<String>::new());
}

#[test]
fn blacklisted_addr_cannot_start_game() {
    let mut st = book("creator");
    execute(&mut st, &s("creator"), ExecuteMsg::AddToBlacklist { addr: s("black") }).unwrap();

    let err = start(&mut st, "black", "anyone", GameMove::Scissors {}).unwrap_err();
    assert_eq!(err, ContractError::Blacklisted { addr: s("black") });
    assert_eq!(rps::contract::query_games(&st, &s("black")).games, vec![]);

    execute(&mut st, &s("creator"), ExecuteMsg::RemoveFromBlacklist { addr: s("black") }).unwrap();

    let res = start(&mut st, "black", "anyone", GameMove::Scissors {}).unwrap();
    assert_eq!(res, None);
    assert_eq!(rps::contract::query_games(&st, &s("black")).games, vec![open_game("black", "anyone", GameMove::Scissors {})]);
}

#[test]
fn cannot_start_game_against_blacklisted() {
    let mut st = book("creator");
    execute(&mut st, &s("creator"), ExecuteMsg::AddToBlacklist { addr: s("black") }).unwrap();

    let err = start(&mut st, "creator", "black", GameMove::Scissors {}).unwrap_err();
    assert_eq!(err, ContractError::Blacklisted { addr: s("black") });

    execute(&mut st, &s("creator"), ExecuteMsg::RemoveFromBlacklist { addr: s("black") }).unwrap();

    let res = start(&mut st, "creator", "black", GameMove::Scissors {}).unwrap();
    assert_eq!(res, None);
}

#[test]
fn blacklisted_cannot_end_game() {
    let mut st = book("creator");
    assert_eq!(start(&mut st, "creator", "black", GameMove::Scissors {}).unwrap(), None);
    execute(&mut st, &s("creator"), ExecuteMsg::AddToBlacklist { addr: s("black") }).unwrap();

    let err = end(&mut st, "black", "creator", GameMove::Scissors {}).unwrap_err();
    assert_eq!(err, ContractError::Blacklisted { addr: s("black") });
    // the game stays open
    assert_eq!(query_games_by_host(&st, &s("creator")).games.len(), 1);
}

#[test]
fn cannot_end_game_against_blacklisted() {
    let mut st = book("admin");
    assert_eq!(start(&mut st, "creator", "opponent", GameMove::Scissors {}).unwrap(), None);
    execute(&mut st, &s("admin"), ExecuteMsg::AddToBlacklist { addr: s("creator") }).unwrap();

    let err = end(&mut st, "opponent", "creator", GameMove::Scissors {}).unwrap_err();
    assert_eq!(err, ContractError::Blacklisted { addr: s("creator") });
}

#[test]
fn update_admin() {
    let mut st = book("bobby");
    let res = execute(&mut st, &s("bobby"), ExecuteMsg::UpdateAdmin { admin: s("adrianne") }).unwrap();
    assert_eq!(res, None);
    assert_eq!(rps::contract::query_admin(&st), Some(s("adrianne")));
}

#[test]
fn query_games() {
    let mut st = book("creator");
    let res = query(&st, QueryMsg::GetGamesByPlayer { player: s("tony") });
    assert_eq!(res, QueryResponse::Games(rps::msg::GamesListResponse { games: vec![] }));

    start(&mut st, "jimmy", "oprah", GameMove::Scissors {}).unwrap();
    start(&mut st, "tony", "oprah", GameMove::Scissors {}).unwrap();

    let res = query(&st, QueryMsg::GetGamesByPlayer { player: s("tony") });
    assert_eq!(
        res,
        QueryResponse::Games(rps::msg::GamesListResponse {
            games: vec![open_game("tony", "oprah", GameMove::Scissors {})]
        })
    );
}

#[test]
fn query_admin() {
    let st = book("bobby");
    let res = query(&st, QueryMsg::GetAdmin {});
    assert_eq!(res, QueryResponse::Admin(Some(s("bobby"))));
}

#[test]
fn self_play_refused_even_when_blacklisted() {
    let mut st = book("admin");
    try_addtoblacklist(&mut st, &s("admin"), s("black")).unwrap();
    for m in [GameMove::Rock {}, GameMove::Paper {}, GameMove::Scissors {}] {
        assert_eq!(try_startgame(&mut st, &s("black"), s("black"), m), Err(ContractError::GameAgainstYourself {}));
        assert_eq!(try_startgame(&mut st, &s("anyone"), s("anyone"), m), Err(ContractError::GameAgainstYourself {}));
    }
    assert_eq!(rps::contract::query_games(&st, &s("black")).games, vec![]);
    assert_eq!(rps::contract::query_games(&st, &s("anyone")).games, vec![]);
}

#[test]
fn duplicate_game_refused_and_kept() {
    let mut st = book("admin");
    try_startgame(&mut st, &s("host"), s("opponent"), GameMove::Rock {}).unwrap();
    let err = try_startgame(&mut st, &s("host"), s("opponent"), GameMove::Paper {}).unwrap_err();
    assert_eq!(err, ContractError::DuplicateGame {});
    assert_eq!(query_games_by_host(&st, &s("host")).games, vec![open_game("host", "opponent", GameMove::Rock {})]);
}

#[test]
fn reverse_pairing_is_a_distinct_game() {
    let mut st = book("admin");
    try_startgame(&mut st, &s("alice"), s("bob"), GameMove::Rock {}).unwrap();
    try_startgame(&mut st, &s("bob"), s("alice"), GameMove::Paper {}).unwrap();
    assert_eq!(
        rps::contract::query_games(&st, &s("alice")).games,
        vec![open_game("alice", "bob", GameMove::Rock {}), open_game("bob", "alice", GameMove::Paper {})]
    );
}

#[test]
fn answering_missing_game_not_found() {
    let mut st = book("admin");
    assert_eq!(try_endgame(&mut st, &s("opponent"), s("host"), GameMove::Rock {}), Err(ContractError::GameNotFound {}));
    // the reverse pairing does not answer the game
    try_startgame(&mut st, &s("host"), s("opponent"), GameMove::Rock {}).unwrap();
    assert_eq!(try_endgame(&mut st, &s("host"), s("opponent"), GameMove::Rock {}), Err(ContractError::GameNotFound {}));
}

#[test]
fn answered_game_leaves_every_listing() {
    let mut st = book("admin");
    try_startgame(&mut st, &s("host"), s("opponent"), GameMove::Paper {}).unwrap();
    try_startgame(&mut st, &s("host"), s("other"), GameMove::Rock {}).unwrap();
    assert_eq!(try_endgame(&mut st, &s("opponent"), s("host"), GameMove::Rock {}), Ok(GameResult::HostWins {}));
    assert_eq!(query_games_by_host(&st, &s("host")).games, vec![open_game("host", "other", GameMove::Rock {})]);
    assert_eq!(query_games_by_opponent(&st, &s("opponent")).games, vec![]);
    assert_eq!(rps::contract::query_games(&st, &s("opponent")).games, vec![]);
}

#[test]
fn blacklist_add_and_remove_are_idempotent() {
    let mut st = book("admin");
    try_addtoblacklist(&mut st, &s("admin"), s("black")).unwrap();
    try_addtoblacklist(&mut st, &s("admin"), s("grey")).unwrap();
    assert_eq!(try_addtoblacklist(&mut st, &s("admin"), s("black")), Ok(()));
    assert_eq!(query_blacklist(&st), vec![s("black"), s("grey")]);
    assert_eq!(try_removefromblacklist(&mut st, &s("admin"), s("white")), Ok(()));
    assert_eq!(query_blacklist(&st), vec![s("black"), s("grey")]);
    assert_eq!(try_removefromblacklist(&mut st, &s("admin"), s("black")), Ok(()));
    assert_eq!(try_removefromblacklist(&mut st, &s("admin"), s("black")), Ok(()));
    assert_eq!(query_blacklist(&st), vec![s("grey")]);
}

#[test]
fn blacklist_changes_need_admin() {
    let mut st = book("admin");
    assert_eq!(try_addtoblacklist(&mut st, &s("mallory"), s("black")), Err(ContractError::Unauthorized {}));
    try_addtoblacklist(&mut st, &s("admin"), s("black")).unwrap();
    assert_eq!(try_removefromblacklist(&mut st, &s("mallory"), s("black")), Err(ContractError::Unauthorized {}));
    assert_eq!(query_blacklist(&st), vec![s("black")]);
}

#[test]
fn only_admin_changes_admin() {
    let mut st = book("bobby");
    assert_eq!(try_updateadmin(&mut st, &s("mallory"), s("mallory")), Err(ContractError::Unauthorized {}));
    assert_eq!(rps::contract::query_admin(&st), Some(s("bobby")));
    try_updateadmin(&mut st, &s("bobby"), s("adrianne")).unwrap();
    // the former admin has lost the role
    assert_eq!(try_updateadmin(&mut st, &s("bobby"), s("bobby")), Err(ContractError::Unauthorized {}));
    assert_eq!(rps::contract::query_admin(&st), Some(s("adrianne")));
}

#[test]
fn listings_by_opponent_ascend_by_host() {
    let mut st = book("admin");
    try_startgame(&mut st, &s("zed"), s("target"), GameMove::Rock {}).unwrap();
    try_startgame(&mut st, &s("amy"), s("target"), GameMove::Paper {}).unwrap();
    try_startgame(&mut st, &s("Max"), s("target"), GameMove::Scissors {}).unwrap();
    try_startgame(&mut st, &s("am"), s("target"), GameMove::Rock {}).unwrap();
    let hosts: Vec<String> = query_games_by_opponent(&st, &s("target")).games.into_iter().map(|g| g.host).collect();
    // byte order: upper case before lower case, a prefix before its extensions
    assert_eq!(hosts, vec![s("Max"), s("am"), s("amy"), s("zed")]);
}

#[test]
fn player_listing_hosts_first_then_opponents() {
    let mut st = book("admin");
    try_startgame(&mut st, &s("bob"), s("pat"), GameMove::Rock {}).unwrap();
    try_startgame(&mut st, &s("pat"), s("zoe"), GameMove::Paper {}).unwrap();
    try_startgame(&mut st, &s("ann"), s("pat"), GameMove::Scissors {}).unwrap();
    try_startgame(&mut st, &s("pat"), s("abe"), GameMove::Rock {}).unwrap();
    let keys: Vec<(String, String)> =
        rps::contract::query_games(&st, &s("pat")).games.into_iter().map(|g| (g.host, g.opponent)).collect();
    assert_eq!(
        keys,
        vec![(s("pat"), s("abe")), (s("pat"), s("zoe")), (s("ann"), s("pat")), (s("bob"), s("pat"))]
    );
}

#[test]
fn query_by_host_and_opponent_dispatch() {
    let mut st = book("admin");
    try_startgame(&mut st, &s("h"), s("o"), GameMove::Rock {}).unwrap();
    let by_host = query(&st, QueryMsg::GetGamesByHost { host: s("h") });
    let by_opp = query(&st, QueryMsg::GetGamesByOpponent { opponent: s("o") });
    let expected = QueryResponse::Games(rps::msg::GamesListResponse { games: vec![open_game("h", "o", GameMove::Rock {})] });
    assert_eq!(by_host, expected);
    assert_eq!(by_opp, expected);
    let none = query(&st, QueryMsg::GetGamesByOpponent { opponent: s("h") });
    assert_eq!(none, QueryResponse::Games(rps::msg::GamesListResponse { games: vec![] }));
}

#[test]
fn host_blacklisted_after_opening_blocks_answer() {
    let mut st = book("admin");
    try_startgame(&mut st, &s("host"), s("opp"), GameMove::Rock {}).unwrap();
    try_addtoblacklist(&mut st, &s("admin"), s("host")).unwrap();
    try_addtoblacklist(&mut st, &s("admin"), s("opp")).unwrap();
    // the host is checked before the sender
    assert_eq!(
        try_endgame(&mut st, &s("opp"), s("host"), GameMove::Paper {}),
        Err(ContractError::Blacklisted { addr: s("host") })
    );
    try_removefromblacklist(&mut st, &s("admin"), s("host")).unwrap();
    try_removefromblacklist(&mut st, &s("admin"), s("opp")).unwrap();
    assert_eq!(try_endgame(&mut st, &s("opp"), s("host"), GameMove::Paper {}), Ok(GameResult::OpponentWins {}));
}

#[test]
fn opponent_blacklist_checked_before_host() {
    let mut st = book("admin");
    try_addtoblacklist(&mut st, &s("admin"), s("host")).unwrap();
    try_addtoblacklist(&mut st, &s("admin"), s("opp")).unwrap();
    assert_eq!(
        try_startgame(&mut st, &s("host"), s("opp"), GameMove::Rock {}),
        Err(ContractError::Blacklisted { addr: s("opp") })
    );
}

#[test]
fn all_games_ascend_by_host_then_opponent() {
    let mut st = book("admin");
    try_startgame(&mut st, &s("b"), s("a"), GameMove::Rock {}).unwrap();
    try_startgame(&mut st, &s("a"), s("c"), GameMove::Paper {}).unwrap();
    try_startgame(&mut st, &s("a"), s("b"), GameMove::Scissors {}).unwrap();
    let keys: Vec<(String, String)> = rps::contract::query_all_games(&st)
        .games
        .into_iter()
        .map(|g| (g.host, g.opponent))
        .collect();
    assert_eq!(keys, vec![(s("a"), s("b")), (s("a"), s("c")), (s("b"), s("a"))]);
}

#[test]
fn admin_check_follows_the_role() {
    let mut st = book("bobby");
    assert!(rps::contract::is_admin(&st, &s("bobby")));
    assert!(!rps::contract::is_admin(&st, &s("adrianne")));
    try_updateadmin(&mut st, &s("bobby"), s("adrianne")).unwrap();
    assert!(rps::contract::is_admin(&st, &s("adrianne")));
    assert!(!rps::contract::is_admin(&st, &s("bobby")));
}
