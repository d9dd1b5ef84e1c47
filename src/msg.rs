use vstd::prelude::*;
use crate::moves::GameMove;
use crate::store::GameData;

verus! {

/// Sets up the game book with its first admin.
#[derive(Clone, Debug, PartialEq)]
pub struct InstantiateMsg {
    pub admin: String,
}

/// The operations that change the game book.
#[derive(Clone, Debug, PartialEq)]
pub enum ExecuteMsg {
    /// The sender opens a game against `opponent` with a first move.
    StartGame { opponent: String, host_move: GameMove },
    /// The sender, as opponent, answers the game that `host` opened.
    EndGame { host: String, opponent_move: GameMove },
    /// The admin hands the role to `admin`.
    UpdateAdmin { admin: String },
    /// The admin bars `addr` from games.
    AddToBlacklist { addr: String },
    /// The admin lifts the bar on `addr`.
    RemoveFromBlacklist { addr: String },
}

/// The read-only lookups.
#[derive(Clone, Debug, PartialEq)]
pub enum QueryMsg {
    GetGamesByHost { host: String },
    GetGamesByOpponent { opponent: String },
    /// The games where `player` is host, then those where it is opponent.
    GetGamesByPlayer { player: String },
    GetAdmin {},
}

/// A list of open games.
#[derive(Clone, Debug, PartialEq)]
pub struct GamesListResponse {
    pub games: Vec<GameData>,
}

/// The answer to a lookup.
#[derive(Clone, Debug, PartialEq)]
pub enum QueryResponse {
    Games(GamesListResponse),
    Admin(Option<String>),
}

} // verus!
