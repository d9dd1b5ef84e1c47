use vstd::prelude::*;
use crate::access::{Blacklist, addr_views};
use crate::error::ContractError;
use crate::moves::{GameMove, GameResult, outcome, resolve};
use crate::msg::{ExecuteMsg, GamesListResponse, InstantiateMsg, QueryMsg, QueryResponse};
use crate::order::{PartyPair, swap};
use crate::store::{
    GameData, GameStore, GameView, delete_game, lists_all, lists_by_host, lists_by_opponent, lists_by_player, save_game,
    update_game, views,
};

verus! {

/// The whole book, as plain mathematical values.
pub ghost struct StateView {
    pub admin: Option<Seq<char>>,
    pub blacklist: Seq<Seq<char>>,
    pub games: Map<PartyPair, GameView>,
}

/// The game book: the admin slot, the blacklist and the open games.
pub struct State {
    admin: Option<String>,
    blacklist: Blacklist,
    games: GameStore,
}

/// The view of an optional identifier.
pub open spec fn opt_view(a: Option<String>) -> Option<Seq<char>> {
    match a {
        Some(s) => Some(s@),
        None => None,
    }
}

impl View for State {
    type V = StateView;

    closed spec fn view(&self) -> StateView {
        StateView { admin: opt_view(self.admin), blacklist: self.blacklist@, games: self.games@ }
    }
}

/// The book holds only open games, none of them against the host itself.
pub open spec fn only_open_games(games: Map<PartyPair, GameView>) -> bool {
    forall|k: PartyPair|
        #[trigger] games.contains_key(k) ==> k.0 != k.1 && games[k].key() == k && games[k].opp_move
            == None::<GameMove> && games[k].result == None::<GameResult>
}

/// The game that `host` opens against `opponent` with `host_move`.
pub open spec fn opened_game(host: Seq<char>, opponent: Seq<char>, host_move: GameMove) -> GameView {
    GameView { host, opponent, host_move, opp_move: None, result: None }
}

/// `r` is the refusal of `who` as blacklisted.
pub open spec fn fails_blacklisted<T>(r: Result<T, ContractError>, who: Seq<char>) -> bool {
    match r {
        Err(ContractError::Blacklisted { addr }) => addr@ == who,
        _ => false,
    }
}

/// Only the games differ between `pre` and `post`.
pub open spec fn same_roles(pre: StateView, post: StateView) -> bool {
    post.admin == pre.admin && post.blacklist == pre.blacklist
}

/// What opening a game does. The checks come in this order and the first
/// that fails decides: self-play, opponent blacklisted, host blacklisted,
/// a game under the same key already open. A refusal changes nothing.
pub open spec fn start_game_post(
    pre: StateView,
    post: StateView,
    sender: Seq<char>,
    opponent: Seq<char>,
    host_move: GameMove,
    r: Result<(), ContractError>,
) -> bool {
    if opponent == sender {
        r == Err::<(), ContractError>(ContractError::GameAgainstYourself {}) && post == pre
    } else if pre.blacklist.contains(opponent) {
        fails_blacklisted(r, opponent) && post == pre
    } else if pre.blacklist.contains(sender) {
        fails_blacklisted(r, sender) && post == pre
    } else if pre.games.contains_key((sender, opponent)) {
        r == Err::<(), ContractError>(ContractError::DuplicateGame {}) && post == pre
    } else {
        r == Ok::<(), ContractError>(()) && same_roles(pre, post) && post.games == pre.games.insert(
            (sender, opponent),
            opened_game(sender, opponent, host_move),
        )
    }
}

/// What answering a game does. The checks come in this order: host
/// blacklisted, sender blacklisted, no game open under (host, sender). On
/// success the outcome is returned and the game leaves the book.
pub open spec fn end_game_post(
    pre: StateView,
    post: StateView,
    sender: Seq<char>,
    host: Seq<char>,
    opponent_move: GameMove,
    r: Result<GameResult, ContractError>,
) -> bool {
    if pre.blacklist.contains(host) {
        fails_blacklisted(r, host) && post == pre
    } else if pre.blacklist.contains(sender) {
        fails_blacklisted(r, sender) && post == pre
    } else if !pre.games.contains_key((host, sender)) {
        r == Err::<GameResult, ContractError>(ContractError::GameNotFound {}) && post == pre
    } else {
        r == Ok::<GameResult, ContractError>(outcome(pre.games[(host, sender)].host_move, opponent_move))
            && same_roles(pre, post) && post.games == pre.games.remove((host, sender))
    }
}

/// What handing over the admin role does: only the current admin may.
pub open spec fn update_admin_post(
    pre: StateView,
    post: StateView,
    sender: Seq<char>,
    admin: Seq<char>,
    r: Result<(), ContractError>,
) -> bool {
    if pre.admin == Some(sender) {
        r == Ok::<(), ContractError>(()) && post == StateView { admin: Some(admin), ..pre }
    } else {
        r == Err::<(), ContractError>(ContractError::Unauthorized {}) && post == pre
    }
}

/// What barring an identifier does: only the admin may; barring it twice
/// changes nothing.
pub open spec fn add_to_blacklist_post(
    pre: StateView,
    post: StateView,
    sender: Seq<char>,
    addr: Seq<char>,
    r: Result<(), ContractError>,
) -> bool {
    if pre.admin == Some(sender) {
        r == Ok::<(), ContractError>(()) && post.admin == pre.admin && post.games == pre.games
            && post.blacklist == (if pre.blacklist.contains(addr) {
            pre.blacklist
        } else {
            pre.blacklist.push(addr)
        })
    } else {
        r == Err::<(), ContractError>(ContractError::Unauthorized {}) && post == pre
    }
}

/// What lifting a bar does: only the admin may; lifting an absent one
/// changes nothing.
pub open spec fn remove_from_blacklist_post(
    pre: StateView,
    post: StateView,
    sender: Seq<char>,
    addr: Seq<char>,
    r: Result<(), ContractError>,
) -> bool {
    if pre.admin == Some(sender) {
        &&& r == Ok::<(), ContractError>(())
        &&& post.admin == pre.admin && post.games == pre.games
        &&& !pre.blacklist.contains(addr) ==> post.blacklist == pre.blacklist
        &&& pre.blacklist.contains(addr) ==> exists|i: int|
            0 <= i < pre.blacklist.len() && pre.blacklist[i] == addr && post.blacklist
                == pre.blacklist.remove(i)
        &&& post.blacklist.to_set() == pre.blacklist.to_set().remove(addr)
    } else {
        r == Err::<(), ContractError>(ContractError::Unauthorized {}) && post == pre
    }
}

impl State {
    /// The parts agree and the book holds only open games.
    pub closed spec fn wf(&self) -> bool {
        &&& self.blacklist.wf()
        &&& self.games.wf()
        &&& only_open_games(self.games@)
    }

    /// The game store inside the book.
    pub closed spec fn book(&self) -> GameStore {
        self.games
    }

    /// What well-formedness promises of the view.
    pub proof fn lemma_wf(&self)
        requires
            self.wf(),
        ensures
            self@.blacklist.no_duplicates(),
            only_open_games(self@.games),
            self.book().wf(),
            self.book()@ == self@.games,
    {
    }
}

/// Sets up an empty book with `msg.admin` as admin.
pub fn instantiate(msg: InstantiateMsg) -> (r: State)
    ensures
        r.wf(),
        r@.admin == Some(msg.admin@),
        r@.blacklist == Seq::<Seq<char>>::empty(),
        r@.games == Map::<PartyPair, GameView>::empty(),
{
    State { admin: Some(msg.admin), blacklist: Blacklist::new(), games: GameStore::new() }
}

/// `sender` opens a game against `opponent`, playing `host_move`.
pub fn try_startgame(state: &mut State, sender: &String, opponent: String, host_move: GameMove) -> (r: Result<(), ContractError>)
    requires
        old(state).wf(),
    ensures
        final(state).wf(),
        start_game_post(old(state)@, final(state)@, sender@, opponent@, host_move, r),
{
    if opponent == *sender {
        return Err(ContractError::GameAgainstYourself {});
    }
    if state.blacklist.contains(&opponent) {
        return Err(ContractError::Blacklisted { addr: opponent });
    }
    if state.blacklist.contains(sender) {
        return Err(ContractError::Blacklisted { addr: sender.clone() });
    }
    let game = GameData {
        host: sender.clone(),
        opponent: opponent,
        host_move: host_move,
        opp_move: None,
        result: None,
    };
    match save_game(&mut state.games, game) {
        Ok(_saved) => Ok(()),
        Err(e) => Err(e),
    }
}

/// `sender`, as opponent, answers the game that `host` opened, playing
/// `opponent_move`. Returns the outcome; the game leaves the book.
pub fn try_endgame(state: &mut State, sender: &String, host: String, opponent_move: GameMove) -> (r: Result<GameResult, ContractError>)
    requires
        old(state).wf(),
    ensures
        final(state).wf(),
        end_game_post(old(state)@, final(state)@, sender@, host@, opponent_move, r),
{
    if state.blacklist.contains(&host) {
        return Err(ContractError::Blacklisted { addr: host });
    }
    if state.blacklist.contains(sender) {
        return Err(ContractError::Blacklisted { addr: sender.clone() });
    }
    let mut game = match state.games.may_load(&host, sender) {
        Some(g) => g,
        None => {
            return Err(ContractError::GameNotFound {});
        },
    };
    let ghost k = (host@, sender@);
    let result = resolve(game.host_move, opponent_move);
    game.opp_move = Some(opponent_move);
    game.result = Some(result);
    proof {
        state.games.lemma_keyed();
        assert(game@.key() == k);
    }
    let updated = match update_game(&mut state.games, game) {
        Ok(g) => g,
        Err(e) => {
            return Err(e);
        },
    };
    delete_game(&mut state.games, &updated);
    proof {
        assert(state.games@ =~= old(state).games@.remove(k));
        assert forall|x: PartyPair| #[trigger] state.games@.contains_key(x) implies x.0 != x.1
            && state.games@[x].key() == x && state.games@[x].opp_move == None::<GameMove>
            && state.games@[x].result == None::<GameResult> by {
            assert(old(state).games@.contains_key(x));
        }
    }
    Ok(result)
}

/// `sender` hands the admin role to `admin`.
pub fn try_updateadmin(state: &mut State, sender: &String, admin: String) -> (r: Result<(), ContractError>)
    requires
        old(state).wf(),
    ensures
        final(state).wf(),
        update_admin_post(old(state)@, final(state)@, sender@, admin@, r),
{
    if !is_admin(state, sender) {
        return Err(ContractError::Unauthorized {});
    }
    state.admin = Some(admin);
    Ok(())
}

/// Whether `sender` holds the admin role.
pub fn is_admin(state: &State, sender: &String) -> (r: bool)
    ensures
        r == (state@.admin == Some(sender@)),
{
    match &state.admin {
        Some(a) => *a == *sender,
        None => false,
    }
}

/// `sender`, as admin, bars `addr` from games.
pub fn try_addtoblacklist(state: &mut State, sender: &String, addr: String) -> (r: Result<(), ContractError>)
    requires
        old(state).wf(),
    ensures
        final(state).wf(),
        add_to_blacklist_post(old(state)@, final(state)@, sender@, addr@, r),
{
    if !is_admin(state, sender) {
        return Err(ContractError::Unauthorized {});
    }
    state.blacklist.add(addr);
    Ok(())
}

/// `sender`, as admin, lifts the bar on `addr`.
pub fn try_removefromblacklist(state: &mut State, sender: &String, addr: String) -> (r: Result<(), ContractError>)
    requires
        old(state).wf(),
    ensures
        final(state).wf(),
        remove_from_blacklist_post(old(state)@, final(state)@, sender@, addr@, r),
{
    if !is_admin(state, sender) {
        return Err(ContractError::Unauthorized {});
    }
    state.blacklist.remove(&addr);
    Ok(())
}

/// The games hosted by `host`, ascending by opponent.
pub fn query_games_by_host(state: &State, host: &String) -> (r: GamesListResponse)
    requires
        state.wf(),
    ensures
        lists_by_host(state@.games, host@, views(r.games@)),
{
    GamesListResponse { games: state.games.games_by_host(host) }
}

/// The games where `opponent` is the opponent, ascending by host.
pub fn query_games_by_opponent(state: &State, opponent: &String) -> (r: GamesListResponse)
    requires
        state.wf(),
    ensures
        lists_by_opponent(state@.games, opponent@, views(r.games@)),
{
    GamesListResponse { games: state.games.games_by_opponent(opponent) }
}

/// The games hosted by `player`, then those where `player` is the opponent.
pub fn query_games(state: &State, player: &String) -> (r: GamesListResponse)
    requires
        state.wf(),
    ensures
        lists_by_player(state@.games, player@, views(r.games@)),
{
    GamesListResponse { games: state.games.games_by_player(player) }
}

/// Every open game, ascending by (host, opponent).
pub fn query_all_games(state: &State) -> (r: GamesListResponse)
    requires
        state.wf(),
    ensures
        lists_all(state@.games, views(r.games@)),
{
    GamesListResponse { games: state.games.all_games() }
}

/// The current admin, if any.
pub fn query_admin(state: &State) -> (r: Option<String>)
    ensures
        opt_view(r) == state@.admin,
{
    match &state.admin {
        Some(a) => Some(a.clone()),
        None => None,
    }
}

/// The blacklisted identifiers, in the order they were added.
pub fn query_blacklist(state: &State) -> (r: Vec<String>)
    ensures
        addr_views(r@) == state@.blacklist,
{
    state.blacklist.addrs()
}

/// The result of an operation that returns nothing, seen as such.
pub open spec fn as_unit(r: Result<Option<GameResult>, ContractError>) -> Result<(), ContractError> {
    match r {
        Ok(_) => Ok(()),
        Err(e) => Err(e),
    }
}

/// The result of answering a game, seen as such.
pub open spec fn as_outcome(r: Result<Option<GameResult>, ContractError>) -> Result<GameResult, ContractError> {
    match r {
        Ok(Some(g)) => Ok(g),
        Ok(None) => Err(ContractError::GameResultNotFound {}),
        Err(e) => Err(e),
    }
}

/// What carrying out `msg` for `sender` does.
pub open spec fn execute_post(
    pre: StateView,
    post: StateView,
    sender: Seq<char>,
    msg: ExecuteMsg,
    r: Result<Option<GameResult>, ContractError>,
) -> bool {
    match msg {
        ExecuteMsg::StartGame { opponent, host_move } => start_game_post(pre, post, sender, opponent@, host_move, as_unit(r))
            && (r.is_ok() ==> r == Ok::<Option<GameResult>, ContractError>(None)),
        ExecuteMsg::EndGame { host, opponent_move } => end_game_post(pre, post, sender, host@, opponent_move, as_outcome(r))
            && r != Ok::<Option<GameResult>, ContractError>(None),
        ExecuteMsg::UpdateAdmin { admin } => update_admin_post(pre, post, sender, admin@, as_unit(r))
            && (r.is_ok() ==> r == Ok::<Option<GameResult>, ContractError>(None)),
        ExecuteMsg::AddToBlacklist { addr } => add_to_blacklist_post(pre, post, sender, addr@, as_unit(r))
            && (r.is_ok() ==> r == Ok::<Option<GameResult>, ContractError>(None)),
        ExecuteMsg::RemoveFromBlacklist { addr } => remove_from_blacklist_post(pre, post, sender, addr@, as_unit(r))
            && (r.is_ok() ==> r == Ok::<Option<GameResult>, ContractError>(None)),
    }
}

/// Carries out `msg` on behalf of `sender`. Answering a game returns its
/// outcome; the other operations return `None` on success.
pub fn execute(state: &mut State, sender: &String, msg: ExecuteMsg) -> (r: Result<Option<GameResult>, ContractError>)
    requires
        old(state).wf(),
    ensures
        final(state).wf(),
        execute_post(old(state)@, final(state)@, sender@, msg, r),
{
    match msg {
        ExecuteMsg::StartGame { opponent, host_move } => match try_startgame(state, sender, opponent, host_move) {
            Ok(()) => Ok(None),
            Err(e) => Err(e),
        },
        ExecuteMsg::EndGame { host, opponent_move } => match try_endgame(state, sender, host, opponent_move) {
            Ok(g) => Ok(Some(g)),
            Err(e) => Err(e),
        },
        ExecuteMsg::UpdateAdmin { admin } => match try_updateadmin(state, sender, admin) {
            Ok(()) => Ok(None),
            Err(e) => Err(e),
        },
        ExecuteMsg::AddToBlacklist { addr } => match try_addtoblacklist(state, sender, addr) {
            Ok(()) => Ok(None),
            Err(e) => Err(e),
        },
        ExecuteMsg::RemoveFromBlacklist { addr } => match try_removefromblacklist(state, sender, addr) {
            Ok(()) => Ok(None),
            Err(e) => Err(e),
        },
    }
}

/// What the answer to `msg` holds.
pub open spec fn query_post(sv: StateView, msg: QueryMsg, r: QueryResponse) -> bool {
    match (msg, r) {
        (QueryMsg::GetGamesByHost { host }, QueryResponse::Games(l)) => lists_by_host(sv.games, host@, views(l.games@)),
        (QueryMsg::GetGamesByOpponent { opponent }, QueryResponse::Games(l)) => lists_by_opponent(
            sv.games,
            opponent@,
            views(l.games@),
        ),
        (QueryMsg::GetGamesByPlayer { player }, QueryResponse::Games(l)) => lists_by_player(sv.games, player@, views(l.games@)),
        (QueryMsg::GetAdmin {}, QueryResponse::Admin(a)) => opt_view(a) == sv.admin,
        _ => false,
    }
}

/// Answers the lookup `msg`.
pub fn query(state: &State, msg: QueryMsg) -> (r: QueryResponse)
    requires
        state.wf(),
    ensures
        query_post(state@, msg, r),
{
    match msg {
        QueryMsg::GetGamesByHost { host } => QueryResponse::Games(query_games_by_host(state, &host)),
        QueryMsg::GetGamesByOpponent { opponent } => QueryResponse::Games(query_games_by_opponent(state, &opponent)),
        QueryMsg::GetGamesByPlayer { player } => QueryResponse::Games(query_games(state, &player)),
        QueryMsg::GetAdmin {} => QueryResponse::Admin(query_admin(state)),
    }
}

/// Opening a game against oneself is refused as self-play and changes
/// nothing, whatever the move and whoever is blacklisted.
pub proof fn lemma_self_play_refused(
    pre: StateView,
    post: StateView,
    sender: Seq<char>,
    host_move: GameMove,
    r: Result<(), ContractError>,
)
    requires
        start_game_post(pre, post, sender, sender, host_move, r),
    ensures
        r == Err::<(), ContractError>(ContractError::GameAgainstYourself {}),
        post == pre,
{
}

/// Opening a game under a key that is already open is refused as a duplicate
/// and leaves the open game as it was, when neither party is blacklisted
/// (a blacklisted party is refused first).
pub proof fn lemma_duplicate_refused(
    pre: StateView,
    post: StateView,
    sender: Seq<char>,
    opponent: Seq<char>,
    host_move: GameMove,
    r: Result<(), ContractError>,
)
    requires
        only_open_games(pre.games),
        pre.games.contains_key((sender, opponent)),
        !pre.blacklist.contains(sender),
        !pre.blacklist.contains(opponent),
        start_game_post(pre, post, sender, opponent, host_move, r),
    ensures
        r == Err::<(), ContractError>(ContractError::DuplicateGame {}),
        post == pre,
        post.games[(sender, opponent)] == pre.games[(sender, opponent)],
{
}

/// Answering a game that is not open fails with `GameNotFound` and changes
/// nothing, when neither party is blacklisted (a blacklisted party is refused
/// first).
pub proof fn lemma_missing_game_not_found(
    pre: StateView,
    post: StateView,
    sender: Seq<char>,
    host: Seq<char>,
    opponent_move: GameMove,
    r: Result<GameResult, ContractError>,
)
    requires
        !pre.games.contains_key((host, sender)),
        !pre.blacklist.contains(host),
        !pre.blacklist.contains(sender),
        end_game_post(pre, post, sender, host, opponent_move, r),
    ensures
        r == Err::<GameResult, ContractError>(ContractError::GameNotFound {}),
        post == pre,
{
}

/// After a game is answered, its key is gone from the book and from both
/// secondary indices.
pub proof fn lemma_answered_game_gone(
    pre: StateView,
    post: &State,
    sender: Seq<char>,
    host: Seq<char>,
    opponent_move: GameMove,
    r: Result<GameResult, ContractError>,
)
    requires
        post.wf(),
        end_game_post(pre, post@, sender, host, opponent_move, r),
        r.is_ok(),
    ensures
        !post@.games.contains_key((host, sender)),
        !post.book().host_index_has((host, sender)),
        !post.book().opponent_index_has((sender, host)),
{
    post.lemma_wf();
    post.book().lemma_indices_agree();
    assert(swap((host, sender)) == (sender, host));
}

/// Barring an identifier that is already barred, or lifting a bar that is
/// not there, succeeds for the admin and changes nothing.
pub proof fn lemma_blacklist_idempotent(
    pre: StateView,
    post: StateView,
    sender: Seq<char>,
    addr: Seq<char>,
    r: Result<(), ContractError>,
)
    requires
        pre.admin == Some(sender),
    ensures
        add_to_blacklist_post(pre, post, sender, addr, r) && pre.blacklist.contains(addr) ==> r
            == Ok::<(), ContractError>(()) && post == pre,
        remove_from_blacklist_post(pre, post, sender, addr, r) && !pre.blacklist.contains(addr) ==> r
            == Ok::<(), ContractError>(()) && post == pre,
{
}

/// A blacklisted identifier can neither open a game nor be named as
/// opponent: the attempt is refused as blacklisted and changes nothing.
pub proof fn lemma_blacklisted_cannot_play(
    pre: StateView,
    post: StateView,
    sender: Seq<char>,
    opponent: Seq<char>,
    host_move: GameMove,
    r: Result<(), ContractError>,
)
    requires
        sender != opponent,
        pre.blacklist.contains(sender) || pre.blacklist.contains(opponent),
        start_game_post(pre, post, sender, opponent, host_move, r),
    ensures
        fails_blacklisted(r, opponent) || fails_blacklisted(r, sender),
        pre.blacklist.contains(opponent) ==> fails_blacklisted(r, opponent),
        post == pre,
{
}

/// Only the current admin can hand over the role: anyone else is refused
/// as unauthorized and the admin stays.
pub proof fn lemma_only_admin_changes_admin(
    pre: StateView,
    post: StateView,
    sender: Seq<char>,
    admin: Seq<char>,
    r: Result<(), ContractError>,
)
    requires
        pre.admin != Some(sender),
        update_admin_post(pre, post, sender, admin, r),
    ensures
        r == Err::<(), ContractError>(ContractError::Unauthorized {}),
        post.admin == pre.admin,
{
}

/// A game opened and then answered by its opponent yields the outcome of the
/// two moves and leaves the book's games as they were before it was opened.
pub proof fn lemma_open_then_answer(
    s0: StateView,
    s1: StateView,
    s2: StateView,
    host: Seq<char>,
    opponent: Seq<char>,
    host_move: GameMove,
    opponent_move: GameMove,
    r: Result<GameResult, ContractError>,
)
    requires
        start_game_post(s0, s1, host, opponent, host_move, Ok(())),
        end_game_post(s1, s2, opponent, host, opponent_move, r),
    ensures
        r == Ok::<GameResult, ContractError>(outcome(host_move, opponent_move)),
        s2 == s0,
{
    assert(s2.games =~= s0.games);
}

} // verus!
