use vstd::prelude::*;
use crate::error::ContractError;
use crate::moves::{GameMove, GameResult};
use crate::order::{PartyPair, pair_lt, party_lt, swap, pair_less, lemma_pair_lt_order, lemma_party_lt_order};

verus! {

/// What a game record holds, as plain mathematical values.
pub ghost struct GameView {
    pub host: Seq<char>,
    pub opponent: Seq<char>,
    pub host_move: GameMove,
    pub opp_move: Option<GameMove>,
    pub result: Option<GameResult>,
}

/// A game between a host, who opened it with a move, and an opponent, who
/// answers it. The answer and the result stay empty while the game is open.
#[derive(Clone, Debug, PartialEq)]
pub struct GameData {
    pub host: String,
    pub opponent: String,
    pub host_move: GameMove,
    pub opp_move: Option<GameMove>,
    pub result: Option<GameResult>,
}

impl View for GameData {
    type V = GameView;

    open spec fn view(&self) -> GameView {
        GameView {
            host: self.host@,
            opponent: self.opponent@,
            host_move: self.host_move,
            opp_move: self.opp_move,
            result: self.result,
        }
    }
}

impl GameView {
    /// The primary key of a game: the ordered pair (host, opponent).
    pub open spec fn key(self) -> PartyPair {
        (self.host, self.opponent)
    }
}

impl GameData {
    /// A field-by-field copy of the record.
    pub fn copy_game(&self) -> (r: GameData)
        ensures
            r@ == self@,
    {
        GameData {
            host: self.host.clone(),
            opponent: self.opponent.clone(),
            host_move: self.host_move,
            opp_move: self.opp_move,
            result: self.result,
        }
    }
}

/// The primary key of a game: the pair (host, opponent).
pub fn generate_key_for_game(game: &GameData) -> (r: (String, String))
    ensures
        (r.0@, r.1@) == game@.key(),
{
    (game.host.clone(), game.opponent.clone())
}

/// The views of a sequence of records.
pub open spec fn views(s: Seq<GameData>) -> Seq<GameView> {
    s.map_values(|g: GameData| g@)
}

/// `s` lists, ascending by opponent, exactly the games of `m` hosted by `party`.
pub open spec fn lists_by_host(m: Map<PartyPair, GameView>, party: Seq<char>, s: Seq<GameView>) -> bool {
    &&& forall|q: int|
        0 <= q < s.len() ==> (#[trigger] s[q]).host == party && m.contains_key(s[q].key()) && m[s[q].key()]
            == s[q]
    &&& forall|k: PartyPair|
        m.contains_key(k) && k.0 == party ==> exists|q: int|
            0 <= q < s.len() && #[trigger] s[q].key() == k
    &&& forall|q1: int, q2: int|
        0 <= q1 < q2 < s.len() ==> party_lt(#[trigger] s[q1].opponent, #[trigger] s[q2].opponent)
}

/// `s` lists, ascending by host, exactly the games of `m` where `party` is the opponent.
pub open spec fn lists_by_opponent(m: Map<PartyPair, GameView>, party: Seq<char>, s: Seq<GameView>) -> bool {
    &&& forall|q: int|
        0 <= q < s.len() ==> (#[trigger] s[q]).opponent == party && m.contains_key(s[q].key())
            && m[s[q].key()] == s[q]
    &&& forall|k: PartyPair|
        m.contains_key(k) && k.1 == party ==> exists|q: int|
            0 <= q < s.len() && #[trigger] s[q].key() == k
    &&& forall|q1: int, q2: int|
        0 <= q1 < q2 < s.len() ==> party_lt(#[trigger] s[q1].host, #[trigger] s[q2].host)
}

/// `s` lists exactly the games of `m`, ascending by key (host, then opponent).
pub open spec fn lists_all(m: Map<PartyPair, GameView>, s: Seq<GameView>) -> bool {
    &&& forall|q: int| 0 <= q < s.len() ==> m.contains_key((#[trigger] s[q]).key()) && m[s[q].key()] == s[q]
    &&& forall|k: PartyPair| m.contains_key(k) ==> exists|q: int| 0 <= q < s.len() && #[trigger] s[q].key() == k
    &&& forall|q1: int, q2: int| 0 <= q1 < q2 < s.len() ==> pair_lt((#[trigger] s[q1]).key(), (#[trigger] s[q2]).key())
}

/// `s` lists the games of `m` hosted by `party`, then those where `party` is
/// the opponent, each part ordered as its own listing.
pub open spec fn lists_by_player(m: Map<PartyPair, GameView>, party: Seq<char>, s: Seq<GameView>) -> bool {
    exists|n: int|
        0 <= n <= s.len() && lists_by_host(m, party, #[trigger] s.subrange(0, n)) && lists_by_opponent(
            m,
            party,
            s.subrange(n, s.len() as int),
        )
}

/// The listing of a host's games is unique: two sequences that both list
/// them are equal.
pub proof fn lemma_host_listing_unique(
    m: Map<PartyPair, GameView>,
    party: Seq<char>,
    s1: Seq<GameView>,
    s2: Seq<GameView>,
)
    requires
        lists_by_host(m, party, s1),
        lists_by_host(m, party, s2),
    ensures
        s1 == s2,
    decreases s1.len(),
{
    if s1.len() == 0 {
        if s2.len() > 0 {
            assert(m.contains_key(s2[0].key()));
        }
        assert(s1 =~= s2);
    } else {
        if s2.len() == 0 {
            assert(m.contains_key(s1[0].key()));
        }
        let k0 = s1[0].key();
        assert(m.contains_key(k0) && k0.0 == party);
        let j = choose|j: int| 0 <= j < s2.len() && #[trigger] s2[j].key() == k0;
        assert(m.contains_key(s2[0].key()) && s2[0].key().0 == party);
        let i = choose|i: int| 0 <= i < s1.len() && #[trigger] s1[i].key() == s2[0].key();
        lemma_party_lt_order(s1[0].opponent, s2[0].opponent, s1[0].opponent);
        if j > 0 {
            assert(party_lt(s2[0].opponent, s2[j].opponent));
            if i > 0 {
                assert(party_lt(s1[0].opponent, s1[i].opponent));
            }
        }
        assert(s1[0] == s2[0]);
        let m2 = m.remove(k0);
        let t1 = s1.drop_first();
        let t2 = s2.drop_first();
        assert forall|q: int| 0 <= q < t1.len() implies (#[trigger] t1[q]).host == party && m2.contains_key(t1[q].key())
            && m2[t1[q].key()] == t1[q] by {
            assert(t1[q] == s1[q + 1]);
            assert(party_lt(s1[0].opponent, s1[q + 1].opponent));
            lemma_party_lt_order(s1[0].opponent, s1[0].opponent, s1[0].opponent);
        }
        assert forall|q: int| 0 <= q < t2.len() implies (#[trigger] t2[q]).host == party && m2.contains_key(t2[q].key())
            && m2[t2[q].key()] == t2[q] by {
            assert(t2[q] == s2[q + 1]);
            assert(party_lt(s2[0].opponent, s2[q + 1].opponent));
            lemma_party_lt_order(s2[0].opponent, s2[0].opponent, s2[0].opponent);
        }
        assert forall|k: PartyPair| m2.contains_key(k) && k.0 == party implies exists|q: int|
            0 <= q < t1.len() && #[trigger] t1[q].key() == k by {
            let q = choose|q: int| 0 <= q < s1.len() && #[trigger] s1[q].key() == k;
            assert(q != 0);
            assert(t1[q - 1] == s1[q]);
        }
        assert forall|k: PartyPair| m2.contains_key(k) && k.0 == party implies exists|q: int|
            0 <= q < t2.len() && #[trigger] t2[q].key() == k by {
            let q = choose|q: int| 0 <= q < s2.len() && #[trigger] s2[q].key() == k;
            assert(q != 0);
            assert(t2[q - 1] == s2[q]);
        }
        assert forall|q1: int, q2: int| 0 <= q1 < q2 < t1.len() implies party_lt(#[trigger] t1[q1].opponent, #[trigger] t1[q2].opponent) by {
            assert(t1[q1] == s1[q1 + 1] && t1[q2] == s1[q2 + 1]);
        }
        assert forall|q1: int, q2: int| 0 <= q1 < q2 < t2.len() implies party_lt(#[trigger] t2[q1].opponent, #[trigger] t2[q2].opponent) by {
            assert(t2[q1] == s2[q1 + 1] && t2[q2] == s2[q2 + 1]);
        }
        lemma_host_listing_unique(m2, party, t1, t2);
        assert(s2.len() > 0);
        assert(t1 == t2);
        assert(t1.len() == s1.len() - 1);
        assert(t2.len() == s2.len() - 1);
        assert(s1.len() == s2.len());
        assert(s1 =~= s2) by {
            assert forall|q: int| 0 <= q < s1.len() implies s1[q] == s2[q] by {
                if q > 0 {
                    assert(s1[q] == t1[q - 1]);
                    assert(s2[q] == t2[q - 1]);
                }
            }
        }
    }
}

/// The listing of the games where a party is the opponent is unique: two
/// sequences that both list them are equal.
pub proof fn lemma_opponent_listing_unique(
    m: Map<PartyPair, GameView>,
    party: Seq<char>,
    s1: Seq<GameView>,
    s2: Seq<GameView>,
)
    requires
        lists_by_opponent(m, party, s1),
        lists_by_opponent(m, party, s2),
    ensures
        s1 == s2,
    decreases s1.len(),
{
    if s1.len() == 0 {
        if s2.len() > 0 {
            assert(m.contains_key(s2[0].key()));
        }
        assert(s1 =~= s2);
    } else {
        if s2.len() == 0 {
            assert(m.contains_key(s1[0].key()));
        }
        let k0 = s1[0].key();
        assert(m.contains_key(k0) && k0.1 == party);
        let j = choose|j: int| 0 <= j < s2.len() && #[trigger] s2[j].key() == k0;
        assert(m.contains_key(s2[0].key()) && s2[0].key().1 == party);
        let i = choose|i: int| 0 <= i < s1.len() && #[trigger] s1[i].key() == s2[0].key();
        lemma_party_lt_order(s1[0].host, s2[0].host, s1[0].host);
        if j > 0 {
            assert(party_lt(s2[0].host, s2[j].host));
            if i > 0 {
                assert(party_lt(s1[0].host, s1[i].host));
            }
        }
        assert(s1[0] == s2[0]);
        let m2 = m.remove(k0);
        let t1 = s1.drop_first();
        let t2 = s2.drop_first();
        assert forall|q: int| 0 <= q < t1.len() implies (#[trigger] t1[q]).opponent == party && m2.contains_key(t1[q].key())
            && m2[t1[q].key()] == t1[q] by {
            assert(t1[q] == s1[q + 1]);
            assert(party_lt(s1[0].host, s1[q + 1].host));
            lemma_party_lt_order(s1[0].host, s1[0].host, s1[0].host);
        }
        assert forall|q: int| 0 <= q < t2.len() implies (#[trigger] t2[q]).opponent == party && m2.contains_key(t2[q].key())
            && m2[t2[q].key()] == t2[q] by {
            assert(t2[q] == s2[q + 1]);
            assert(party_lt(s2[0].host, s2[q + 1].host));
            lemma_party_lt_order(s2[0].host, s2[0].host, s2[0].host);
        }
        assert forall|k: PartyPair| m2.contains_key(k) && k.1 == party implies exists|q: int|
            0 <= q < t1.len() && #[trigger] t1[q].key() == k by {
            let q = choose|q: int| 0 <= q < s1.len() && #[trigger] s1[q].key() == k;
            assert(q != 0);
            assert(t1[q - 1] == s1[q]);
        }
        assert forall|k: PartyPair| m2.contains_key(k) && k.1 == party implies exists|q: int|
            0 <= q < t2.len() && #[trigger] t2[q].key() == k by {
            let q = choose|q: int| 0 <= q < s2.len() && #[trigger] s2[q].key() == k;
            assert(q != 0);
            assert(t2[q - 1] == s2[q]);
        }
        assert forall|q1: int, q2: int| 0 <= q1 < q2 < t1.len() implies party_lt(#[trigger] t1[q1].host, #[trigger] t1[q2].host) by {
            assert(t1[q1] == s1[q1 + 1] && t1[q2] == s1[q2 + 1]);
        }
        assert forall|q1: int, q2: int| 0 <= q1 < q2 < t2.len() implies party_lt(#[trigger] t2[q1].host, #[trigger] t2[q2].host) by {
            assert(t2[q1] == s2[q1 + 1] && t2[q2] == s2[q2 + 1]);
        }
        lemma_opponent_listing_unique(m2, party, t1, t2);
        assert(s2.len() > 0);
        assert(t1 == t2);
        assert(t1.len() == s1.len() - 1);
        assert(t2.len() == s2.len() - 1);
        assert(s1.len() == s2.len());
        assert(s1 =~= s2) by {
            assert forall|q: int| 0 <= q < s1.len() implies s1[q] == s2[q] by {
                if q > 0 {
                    assert(s1[q] == t1[q - 1]);
                    assert(s2[q] == t2[q - 1]);
                }
            }
        }
    }
}

/// The pairs of `s` with their parties exchanged.
pub open spec fn swapped(s: Set<PartyPair>) -> Set<PartyPair> {
    Set::new(|k: PartyPair| s.contains(swap(k)))
}

/// A secondary index: pairs (indexed party, other party), strictly ascending.
struct PartyIndex {
    entries: Vec<(String, String)>,
}

impl View for PartyIndex {
    type V = Seq<PartyPair>;

    closed spec fn view(&self) -> Seq<PartyPair> {
        self.entries@.map_values(|e: (String, String)| (e.0@, e.1@))
    }
}

impl PartyIndex {
    spec fn sorted(&self) -> bool {
        forall|i: int, j: int| 0 <= i < j < self@.len() ==> pair_lt(#[trigger] self@[i], #[trigger] self@[j])
    }

    fn new() -> (r: Self)
        ensures
            r@ == Seq::<PartyPair>::empty(),
            r.sorted(),
    {
        PartyIndex { entries: Vec::new() }
    }

    /// The first position whose entry is not below (a, b).
    fn position(&self, a: &String, b: &String) -> (p: usize)
        requires
            self.sorted(),
        ensures
            p <= self@.len(),
            forall|i: int| 0 <= i < p ==> pair_lt(#[trigger] self@[i], (a@, b@)),
            forall|i: int| p <= i < self@.len() ==> !pair_lt(#[trigger] self@[i], (a@, b@)),
    {
        let mut p: usize = 0;
        while p < self.entries.len() && pair_less(&self.entries[p].0, &self.entries[p].1, a, b)
            invariant
                p <= self@.len(),
                forall|i: int| 0 <= i < p ==> pair_lt(#[trigger] self@[i], (a@, b@)),
            decreases self@.len() - p,
        {
            p = p + 1;
        }
        proof {
            assert forall|i: int| p <= i < self@.len() implies !pair_lt(#[trigger] self@[i], (a@, b@)) by {
                if i > p {
                    assert(pair_lt(self@[p as int], self@[i]));
                    lemma_pair_lt_order(self@[p as int], self@[i], (a@, b@));
                }
            }
        }
        p
    }

    fn insert(&mut self, a: String, b: String)
        requires
            old(self).sorted(),
            !old(self)@.contains((a@, b@)),
        ensures
            final(self).sorted(),
            final(self)@.to_set() == old(self)@.to_set().insert((a@, b@)),
    {
        let ghost k = (a@, b@);
        let p = self.position(&a, &b);
        let ghost before = self@;
        self.entries.insert(p, (a, b));
        proof {
            assert(self@ =~= before.insert(p as int, k));
            assert forall|i: int, j: int| 0 <= i < j < self@.len() implies pair_lt(#[trigger] self@[i], #[trigger] self@[j]) by {
                if j < p {
                } else if j == p {
                } else if i < p {
                    lemma_pair_lt_order(self@[i], k, self@[j]);
                    assert(self@[j] == before[j - 1]);
                    if self@[j] == k {
                        assert(before.contains(k));
                    }
                    lemma_pair_lt_order(before[j - 1], k, k);
                } else if i == p {
                    assert(self@[j] == before[j - 1]);
                    if before[j - 1] == k {
                        assert(before.contains(k));
                    }
                    lemma_pair_lt_order(before[j - 1], k, k);
                } else {
                    assert(self@[i] == before[i - 1]);
                    assert(self@[j] == before[j - 1]);
                }
            }
            assert forall|x: PartyPair| self@.to_set().contains(x) <==> before.to_set().insert(k).contains(x) by {
                if self@.contains(x) {
                    let i = choose|i: int| 0 <= i < self@.len() && self@[i] == x;
                    if i < p {
                        assert(before[i] == x);
                    } else if i > p {
                        assert(before[i - 1] == x);
                    }
                }
                if before.contains(x) {
                    let i = choose|i: int| 0 <= i < before.len() && before[i] == x;
                    if i < p {
                        assert(self@[i] == x);
                    } else {
                        assert(self@[i + 1] == x);
                    }
                }
                if x == k {
                    assert(self@[p as int] == k);
                }
            }
            assert(self@.to_set() =~= before.to_set().insert(k));
        }
    }

    fn remove(&mut self, a: &String, b: &String)
        requires
            old(self).sorted(),
        ensures
            final(self).sorted(),
            final(self)@.to_set() == old(self)@.to_set().remove((a@, b@)),
    {
        let ghost k = (a@, b@);
        let ghost before = self@;
        let p = self.position(a, b);
        if p < self.entries.len() && self.entries[p].0 == *a && self.entries[p].1 == *b {
            self.entries.remove(p);
            proof {
                assert(self@ =~= before.remove(p as int));
                assert forall|i: int, j: int| 0 <= i < j < self@.len() implies pair_lt(#[trigger] self@[i], #[trigger] self@[j]) by {
                    if i < p && j >= p {
                        assert(self@[j] == before[j + 1]);
                    } else if i >= p {
                        assert(self@[i] == before[i + 1]);
                        assert(self@[j] == before[j + 1]);
                    }
                }
                assert forall|x: PartyPair| self@.to_set().contains(x) <==> before.to_set().remove(k).contains(x) by {
                    if self@.contains(x) {
                        let i = choose|i: int| 0 <= i < self@.len() && self@[i] == x;
                        if i < p {
                            assert(before[i] == x);
                            assert(pair_lt(before[i], before[p as int]));
                            lemma_pair_lt_order(x, x, x);
                        } else {
                            assert(before[i + 1] == x);
                            assert(pair_lt(before[p as int], before[i + 1]));
                            lemma_pair_lt_order(x, x, x);
                        }
                    }
                    if before.contains(x) && x != k {
                        let i = choose|i: int| 0 <= i < before.len() && before[i] == x;
                        if i < p {
                            assert(self@[i] == x);
                        } else {
                            assert(self@[i - 1] == x);
                        }
                    }
                }
                assert(self@.to_set() =~= before.to_set().remove(k));
            }
        } else {
            proof {
                assert forall|i: int| 0 <= i < before.len() implies before[i] != k by {
                    lemma_pair_lt_order(k, k, k);
                    if i > p {
                        assert(pair_lt(before[p as int], before[i]));
                    }
                }
                assert(self@.to_set() =~= before.to_set().remove(k));
            }
        }
    }

    /// A copy of the entries, in index order.
    fn pairs(&self) -> (r: Vec<(String, String)>)
        ensures
            r@.len() == self@.len(),
            forall|q: int| 0 <= q < r@.len() ==> (#[trigger] r@[q].0@, r@[q].1@) == self@[q],
    {
        let mut r: Vec<(String, String)> = Vec::new();
        let mut i: usize = 0;
        while i < self.entries.len()
            invariant
                i <= self@.len(),
                r@.len() == i,
                forall|q: int| 0 <= q < i ==> (#[trigger] r@[q].0@, r@[q].1@) == self@[q],
            decreases self@.len() - i,
        {
            r.push((self.entries[i].0.clone(), self.entries[i].1.clone()));
            i = i + 1;
        }
        r
    }

    /// The other parties of the entries indexed under `party`, in index order.
    fn others_of(&self, party: &String) -> (r: Vec<String>)
        requires
            self.sorted(),
        ensures
            forall|q: int| 0 <= q < r@.len() ==> self@.contains((party@, #[trigger] r@[q]@)),
            forall|o: Seq<char>| #[trigger] self@.contains((party@, o)) ==> exists|q: int|
                0 <= q < r@.len() && #[trigger] r@[q]@ == o,
            forall|q1: int, q2: int| 0 <= q1 < q2 < r@.len() ==> party_lt(#[trigger] r@[q1]@, #[trigger] r@[q2]@),
    {
        let mut r: Vec<String> = Vec::new();
        let ghost mut src: Seq<int> = Seq::empty();
        let mut i: usize = 0;
        while i < self.entries.len()
            invariant
                i <= self@.len(),
                self.sorted(),
                r@.len() == src.len(),
                forall|q: int| 0 <= q < src.len() ==> 0 <= #[trigger] src[q] < i && self@[src[q]] == (party@, r@[q]@),
                forall|q1: int, q2: int| 0 <= q1 < q2 < src.len() ==> #[trigger] src[q1] < #[trigger] src[q2],
                forall|p: int| 0 <= p < i && (#[trigger] self@[p]).0 == party@ ==> exists|q: int| 0 <= q < src.len() && src[q] == p,
            decreases self@.len() - i,
        {
            if self.entries[i].0 == *party {
                r.push(self.entries[i].1.clone());
                proof {
                    let old_src = src;
                    src = src.push(i as int);
                    assert forall|p: int| 0 <= p < i + 1 && (#[trigger] self@[p]).0 == party@ implies exists|q: int| 0 <= q < src.len() && src[q] == p by {
                        if p < i {
                            let q = choose|q: int| 0 <= q < old_src.len() && old_src[q] == p;
                            assert(src[q] == p);
                        } else {
                            assert(src[src.len() - 1] == p);
                        }
                    }
                }
            } else {
                proof {
                    assert forall|p: int| 0 <= p < i + 1 && (#[trigger] self@[p]).0 == party@ implies exists|q: int| 0 <= q < src.len() && src[q] == p by {
                        if p < i {
                        } else {
                            assert(self@[p].0 == party@);
                        }
                    }
                }
            }
            i = i + 1;
        }
        proof {
            lemma_party_lt_order(party@, party@, party@);
            assert forall|q: int| 0 <= q < r@.len() implies self@.contains((party@, #[trigger] r@[q]@)) by {
                assert(self@[src[q]] == (party@, r@[q]@));
            }
            assert forall|o: Seq<char>| #[trigger] self@.contains((party@, o)) implies exists|q: int|
                0 <= q < r@.len() && #[trigger] r@[q]@ == o by {
                let p = choose|p: int| 0 <= p < self@.len() && self@[p] == (party@, o);
                assert(self@[p].0 == party@);
                let q = choose|q: int| 0 <= q < src.len() && src[q] == p;
                assert(r@[q]@ == o);
            }
            assert forall|q1: int, q2: int| 0 <= q1 < q2 < r@.len() implies party_lt(#[trigger] r@[q1]@, #[trigger] r@[q2]@) by {
                assert(src[q1] < src[q2]);
                assert(pair_lt(self@[src[q1]], self@[src[q2]]));
            }
        }
        r
    }
}

/// The two secondary indices of the game book: by host, with entries
/// (host, opponent), and by opponent, with entries (opponent, host).
pub struct GameDataIndexes {
    host: PartyIndex,
    opponent: PartyIndex,
}

/// The game book: the open games by their key (host, opponent), with the
/// secondary indices kept in step with them.
pub struct GameStore {
    games: Vec<GameData>,
    idx: GameDataIndexes,
    model: Ghost<Map<PartyPair, GameView>>,
}

impl View for GameStore {
    type V = Map<PartyPair, GameView>;

    closed spec fn view(&self) -> Map<PartyPair, GameView> {
        self.model@
    }
}

impl GameStore {
    /// The records, the model and both indices agree.
    pub closed spec fn wf(&self) -> bool {
        &&& forall|i: int|
            0 <= i < self.games@.len() ==> self.model@.contains_key(#[trigger] self.games@[i]@.key())
                && self.model@[self.games@[i]@.key()] == self.games@[i]@
        &&& forall|k: PartyPair|
            #[trigger] self.model@.contains_key(k) ==> exists|i: int|
                0 <= i < self.games@.len() && #[trigger] self.games@[i]@.key() == k
        &&& forall|i: int, j: int|
            0 <= i < j < self.games@.len() ==> #[trigger] self.games@[i]@.key() != #[trigger] self.games@[j]@.key()
        &&& self.idx.host.sorted()
        &&& self.idx.host@.to_set() == self.model@.dom()
        &&& self.idx.opponent.sorted()
        &&& self.idx.opponent@.to_set() == swapped(self.model@.dom())
    }

    /// The index by host holds the entry (host, opponent) `k`.
    pub closed spec fn host_index_has(&self, k: PartyPair) -> bool {
        self.idx.host@.contains(k)
    }

    /// The index by opponent holds the entry (opponent, host) `k`.
    pub closed spec fn opponent_index_has(&self, k: PartyPair) -> bool {
        self.idx.opponent@.contains(k)
    }

    /// Both indices hold an entry exactly for each stored game.
    pub proof fn lemma_indices_agree(&self)
        requires
            self.wf(),
        ensures
            forall|k: PartyPair| #[trigger] self.host_index_has(k) <==> self@.contains_key(k),
            forall|k: PartyPair| #[trigger] self.opponent_index_has(swap(k)) <==> self@.contains_key(k),
    {
        assert forall|k: PartyPair| #[trigger] self.host_index_has(k) <==> self@.contains_key(k) by {
            assert(self.idx.host@.to_set().contains(k) == self.idx.host@.contains(k));
        }
        assert forall|k: PartyPair| #[trigger] self.opponent_index_has(swap(k)) <==> self@.contains_key(k) by {
            assert(self.idx.opponent@.to_set().contains(swap(k)) == self.idx.opponent@.contains(swap(k)));
            assert(swap(swap(k)) == k);
        }
    }

    /// Every game is stored under its own key.
    pub proof fn lemma_keyed(&self)
        requires
            self.wf(),
        ensures
            forall|k: PartyPair| #[trigger] self@.contains_key(k) ==> self@[k].key() == k,
    {
        assert forall|k: PartyPair| #[trigger] self@.contains_key(k) implies self@[k].key() == k by {
            let i = choose|i: int| 0 <= i < self.games@.len() && #[trigger] self.games@[i]@.key() == k;
        }
    }

    /// An empty game book.
    pub fn new() -> (r: GameStore)
        ensures
            r.wf(),
            r@ == Map::<PartyPair, GameView>::empty(),
    {
        let r = GameStore {
            games: Vec::new(),
            idx: GameDataIndexes { host: PartyIndex::new(), opponent: PartyIndex::new() },
            model: Ghost(Map::empty()),
        };
        assert(r.idx.host@.to_set() =~= r.model@.dom());
        assert(r.idx.opponent@.to_set() =~= swapped(r.model@.dom()));
        r
    }

    /// The position of the record stored under (host, opponent), if any.
    fn find(&self, host: &String, opponent: &String) -> (r: Option<usize>)
        requires
            self.wf(),
        ensures
            match r {
                Some(i) => i < self.games@.len() && self.games@[i as int]@.key() == (host@, opponent@),
                None => !self@.contains_key((host@, opponent@)),
            },
    {
        let mut i: usize = 0;
        while i < self.games.len()
            invariant
                self.wf(),
                i <= self.games@.len(),
                forall|j: int| 0 <= j < i ==> #[trigger] self.games@[j]@.key() != (host@, opponent@),
            decreases self.games@.len() - i,
        {
            if self.games[i].host == *host && self.games[i].opponent == *opponent {
                return Some(i);
            }
            i = i + 1;
        }
        None
    }

    /// A copy of the game stored under (host, opponent), if there is one.
    pub fn may_load(&self, host: &String, opponent: &String) -> (r: Option<GameData>)
        requires
            self.wf(),
        ensures
            match r {
                Some(g) => self@.contains_key((host@, opponent@)) && g@ == self@[(host@, opponent@)],
                None => !self@.contains_key((host@, opponent@)),
            },
    {
        match self.find(host, opponent) {
            Some(i) => Some(self.games[i].copy_game()),
            None => None,
        }
    }

    /// Stores a game under a key that holds none yet.
    fn insert_new(&mut self, game: GameData)
        requires
            old(self).wf(),
            !old(self)@.contains_key(game@.key()),
        ensures
            final(self).wf(),
            final(self)@ == old(self)@.insert(game@.key(), game@),
    {
        let ghost k = game@.key();
        let ghost g = game@;
        let ghost before = self.model@;
        let host_a = game.host.clone();
        let opp_a = game.opponent.clone();
        let host_b = game.host.clone();
        let opp_b = game.opponent.clone();
        proof {
            if self.idx.host@.contains(k) {
                assert(self.idx.host@.to_set().contains(k));
            }
            if self.idx.opponent@.contains(swap(k)) {
                assert(self.idx.opponent@.to_set().contains(swap(k)));
                assert(swapped(before.dom()).contains(swap(k)));
                assert(swap(swap(k)) == k);
            }
        }
        let ghost old_games = self.games@;
        self.games.push(game);
        self.idx.host.insert(host_a, opp_a);
        self.idx.opponent.insert(opp_b, host_b);
        self.model = Ghost(before.insert(k, g));
        proof {
            let n = self.games@.len() - 1;
            assert(self.games@[n]@ == g);
            assert forall|i: int|
                0 <= i < self.games@.len() implies self.model@.contains_key(#[trigger] self.games@[i]@.key())
                    && self.model@[self.games@[i]@.key()] == self.games@[i]@ by {
                if i < n {
                    assert(before.contains_key(self.games@[i]@.key()));
                }
            }
            assert forall|x: PartyPair| #[trigger] self.model@.contains_key(x) implies exists|i: int|
                0 <= i < self.games@.len() && #[trigger] self.games@[i]@.key() == x by {
                if x == k {
                    assert(self.games@[n]@.key() == x);
                } else {
                    assert(before.contains_key(x));
                    let i = choose|i: int| 0 <= i < old_games.len() && #[trigger] old_games[i]@.key() == x;
                    assert(self.games@[i] == old_games[i]);
                }
            }
            assert forall|i: int, j: int|
                0 <= i < j < self.games@.len() implies #[trigger] self.games@[i]@.key() != #[trigger] self.games@[j]@.key() by {
                if j == n {
                    assert(before.contains_key(self.games@[i]@.key()));
                }
            }
            assert(self.idx.host@.to_set() =~= self.model@.dom());
            assert(self.idx.opponent@.to_set() =~= swapped(self.model@.dom()));
        }
    }

    /// Replaces the game stored under the key of `game`, which holds one.
    fn replace(&mut self, i: usize, game: GameData)
        requires
            old(self).wf(),
            i < old(self).games@.len(),
            old(self).games@[i as int]@.key() == game@.key(),
        ensures
            final(self).wf(),
            final(self)@ == old(self)@.insert(game@.key(), game@),
    {
        let ghost k = game@.key();
        let ghost g = game@;
        let ghost before = self.model@;
        self.games[i] = game;
        self.model = Ghost(before.insert(k, g));
        proof {
            assert(before.contains_key(k));
            assert(self.model@.dom() =~= before.dom());
            assert forall|x: PartyPair| #[trigger] self.model@.contains_key(x) implies exists|j: int|
                0 <= j < self.games@.len() && #[trigger] self.games@[j]@.key() == x by {
                let j = choose|j: int| 0 <= j < self.games@.len() && #[trigger] old(self).games@[j]@.key() == x;
                assert(self.games@[j]@.key() == x);
            }
            assert forall|a: int, b: int|
                0 <= a < b < self.games@.len() implies #[trigger] self.games@[a]@.key() != #[trigger] self.games@[b]@.key() by {
                assert(old(self).games@[a]@.key() != old(self).games@[b]@.key());
            }
        }
    }

    /// Removes the game stored under (host, opponent), if any.
    fn remove_key(&mut self, host: &String, opponent: &String)
        requires
            old(self).wf(),
        ensures
            final(self).wf(),
            final(self)@ == old(self)@.remove((host@, opponent@)),
    {
        let ghost k = (host@, opponent@);
        let ghost before = self.model@;
        match self.find(host, opponent) {
            None => {
                assert(before.remove(k) =~= before);
            },
            Some(i) => {
                let ghost old_games = self.games@;
                self.games.remove(i);
                self.idx.host.remove(host, opponent);
                self.idx.opponent.remove(opponent, host);
                self.model = Ghost(before.remove(k));
                proof {
                    assert(self.games@ =~= old_games.remove(i as int));
                    assert forall|j: int|
                        0 <= j < self.games@.len() implies self.model@.contains_key(#[trigger] self.games@[j]@.key())
                            && self.model@[self.games@[j]@.key()] == self.games@[j]@ by {
                        if j < i {
                            assert(self.games@[j] == old_games[j]);
                            assert(old_games[j]@.key() != old_games[i as int]@.key());
                        } else {
                            assert(self.games@[j] == old_games[j + 1]);
                            assert(old_games[i as int]@.key() != old_games[j + 1]@.key());
                        }
                    }
                    assert forall|x: PartyPair| #[trigger] self.model@.contains_key(x) implies exists|j: int|
                        0 <= j < self.games@.len() && #[trigger] self.games@[j]@.key() == x by {
                        let j = choose|j: int| 0 <= j < old_games.len() && #[trigger] old_games[j]@.key() == x;
                        if j < i {
                            assert(self.games@[j]@.key() == x);
                        } else {
                            assert(j != i);
                            assert(self.games@[j - 1]@.key() == x);
                        }
                    }
                    assert forall|a: int, b: int|
                        0 <= a < b < self.games@.len() implies #[trigger] self.games@[a]@.key() != #[trigger] self.games@[b]@.key() by {
                        let a2 = if a < i { a } else { a + 1 };
                        let b2 = if b < i { b } else { b + 1 };
                        assert(self.games@[a] == old_games[a2]);
                        assert(self.games@[b] == old_games[b2]);
                        assert(old_games[a2]@.key() != old_games[b2]@.key());
                    }
                    assert(self.idx.host@.to_set() =~= self.model@.dom());
                    assert(self.idx.opponent@.to_set() =~= swapped(self.model@.dom()));
                }
            },
        }
    }
}

impl GameStore {
    /// The games hosted by `host`, ascending by opponent.
    pub fn games_by_host(&self, host: &String) -> (r: Vec<GameData>)
        requires
            self.wf(),
        ensures
            lists_by_host(self@, host@, views(r@)),
    {
        let others = self.idx.host.others_of(host);
        let mut r: Vec<GameData> = Vec::new();
        let mut q: usize = 0;
        while q < others.len()
            invariant
                self.wf(),
                q <= others@.len(),
                r@.len() == q,
                forall|t: int| 0 <= t < others@.len() ==> self.idx.host@.contains((host@, #[trigger] others@[t]@)),
                forall|t: int|
                    0 <= t < q ==> self@.contains_key((host@, #[trigger] others@[t]@)) && r@[t]@ == self@[(host@, others@[t]@)],
            decreases others@.len() - q,
        {
            proof {
                assert(self.idx.host@.to_set().contains((host@, others@[q as int]@)));
            }
            match self.find(host, &others[q]) {
                Some(i) => {
                    r.push(self.games[i].copy_game());
                },
                None => {},
            }
            q = q + 1;
        }
        proof {
            self.lemma_keyed();
            let s = views(r@);
            assert forall|t: int| 0 <= t < s.len() implies (#[trigger] s[t]).host == host@ && self@.contains_key(s[t].key())
                && self@[s[t].key()] == s[t] by {
                assert(self@.contains_key((host@, others@[t]@)));
            }
            assert forall|k: PartyPair| self@.contains_key(k) && k.0 == host@ implies exists|t: int|
                0 <= t < s.len() && #[trigger] s[t].key() == k by {
                assert(self.idx.host@.to_set().contains(k));
                assert(self.idx.host@.contains((host@, k.1)));
                let t = choose|t: int| 0 <= t < others@.len() && #[trigger] others@[t]@ == k.1;
                assert(self@.contains_key((host@, others@[t]@)));
                assert(s[t].key() == k);
            }
            assert forall|t1: int, t2: int| 0 <= t1 < t2 < s.len() implies party_lt(#[trigger] s[t1].opponent, #[trigger] s[t2].opponent) by {
                assert(self@.contains_key((host@, others@[t1]@)));
                assert(self@.contains_key((host@, others@[t2]@)));
                assert(party_lt(others@[t1]@, others@[t2]@));
            }
        }
        r
    }

    /// The games where `opponent` is the opponent, ascending by host.
    pub fn games_by_opponent(&self, opponent: &String) -> (r: Vec<GameData>)
        requires
            self.wf(),
        ensures
            lists_by_opponent(self@, opponent@, views(r@)),
    {
        let others = self.idx.opponent.others_of(opponent);
        let mut r: Vec<GameData> = Vec::new();
        let mut q: usize = 0;
        while q < others.len()
            invariant
                self.wf(),
                q <= others@.len(),
                r@.len() == q,
                forall|t: int| 0 <= t < others@.len() ==> self.idx.opponent@.contains((opponent@, #[trigger] others@[t]@)),
                forall|t: int|
                    0 <= t < q ==> self@.contains_key((#[trigger] others@[t]@, opponent@)) && r@[t]@ == self@[(others@[t]@, opponent@)],
            decreases others@.len() - q,
        {
            proof {
                assert(self.idx.opponent@.to_set().contains((opponent@, others@[q as int]@)));
                assert(swapped(self.model@.dom()).contains((opponent@, others@[q as int]@)));
            }
            match self.find(&others[q], opponent) {
                Some(i) => {
                    r.push(self.games[i].copy_game());
                },
                None => {},
            }
            q = q + 1;
        }
        proof {
            self.lemma_keyed();
            let s = views(r@);
            assert forall|t: int| 0 <= t < s.len() implies (#[trigger] s[t]).opponent == opponent@ && self@.contains_key(s[t].key())
                && self@[s[t].key()] == s[t] by {
                assert(self@.contains_key((others@[t]@, opponent@)));
            }
            assert forall|k: PartyPair| self@.contains_key(k) && k.1 == opponent@ implies exists|t: int|
                0 <= t < s.len() && #[trigger] s[t].key() == k by {
                assert(swapped(self.model@.dom()).contains(swap(k)));
                assert(self.idx.opponent@.to_set().contains(swap(k)));
                assert(self.idx.opponent@.contains((opponent@, k.0)));
                let t = choose|t: int| 0 <= t < others@.len() && #[trigger] others@[t]@ == k.0;
                assert(self@.contains_key((others@[t]@, opponent@)));
                assert(s[t].key() == k);
            }
            assert forall|t1: int, t2: int| 0 <= t1 < t2 < s.len() implies party_lt(#[trigger] s[t1].host, #[trigger] s[t2].host) by {
                assert(self@.contains_key((others@[t1]@, opponent@)));
                assert(self@.contains_key((others@[t2]@, opponent@)));
                assert(party_lt(others@[t1]@, others@[t2]@));
            }
        }
        r
    }

    /// Every game, ascending by key (host, then opponent).
    pub fn all_games(&self) -> (r: Vec<GameData>)
        requires
            self.wf(),
        ensures
            lists_all(self@, views(r@)),
    {
        let keys = self.idx.host.pairs();
        let mut r: Vec<GameData> = Vec::new();
        let mut q: usize = 0;
        while q < keys.len()
            invariant
                self.wf(),
                q <= keys@.len(),
                r@.len() == q,
                keys@.len() == self.idx.host@.len(),
                forall|t: int| 0 <= t < keys@.len() ==> (#[trigger] keys@[t].0@, keys@[t].1@) == self.idx.host@[t],
                forall|t: int|
                    0 <= t < q ==> self@.contains_key(#[trigger] self.idx.host@[t]) && r@[t]@ == self@[self.idx.host@[t]],
            decreases keys@.len() - q,
        {
            proof {
                assert((keys@[q as int].0@, keys@[q as int].1@) == self.idx.host@[q as int]);
                assert(self.idx.host@.to_set().contains(self.idx.host@[q as int]));
            }
            match self.find(&keys[q].0, &keys[q].1) {
                Some(i) => {
                    r.push(self.games[i].copy_game());
                },
                None => {},
            }
            q = q + 1;
        }
        proof {
            self.lemma_keyed();
            let s = views(r@);
            assert forall|t: int| 0 <= t < s.len() implies self@.contains_key((#[trigger] s[t]).key()) && self@[s[t].key()] == s[t] by {
                assert(self@.contains_key(self.idx.host@[t]));
            }
            assert forall|k: PartyPair| self@.contains_key(k) implies exists|t: int| 0 <= t < s.len() && #[trigger] s[t].key() == k by {
                assert(self.idx.host@.to_set().contains(k));
                let t = choose|t: int| 0 <= t < self.idx.host@.len() && self.idx.host@[t] == k;
                assert(self@.contains_key(self.idx.host@[t]));
                assert(s[t].key() == k);
            }
            assert forall|t1: int, t2: int| 0 <= t1 < t2 < s.len() implies pair_lt((#[trigger] s[t1]).key(), (#[trigger] s[t2]).key()) by {
                assert(self@.contains_key(self.idx.host@[t1]));
                assert(self@.contains_key(self.idx.host@[t2]));
                assert(pair_lt(self.idx.host@[t1], self.idx.host@[t2]));
            }
        }
        r
    }

    /// The games hosted by `player`, then the games where `player` is the
    /// opponent: the two listings one after the other, neither merged nor
    /// deduplicated.
    pub fn games_by_player(&self, player: &String) -> (r: Vec<GameData>)
        requires
            self.wf(),
        ensures
            lists_by_player(self@, player@, views(r@)),
    {
        let mut r = self.games_by_host(player);
        let ghost n = r@.len() as int;
        let ghost first = views(r@);
        let mut second = self.games_by_opponent(player);
        let ghost second_v = views(second@);
        r.append(&mut second);
        proof {
            assert(views(r@).subrange(0, n) =~= first);
            assert(views(r@).subrange(n, r@.len() as int) =~= second_v);
            assert(lists_by_host(self@, player@, views(r@).subrange(0, n)));
        }
        r
    }
}

/// Opens a game: stores it unless a game under the same key (host, opponent)
/// is already open. Only that exact key counts; the reverse pairing does not.
pub fn save_game(store: &mut GameStore, game: GameData) -> (r: Result<GameData, ContractError>)
    requires
        old(store).wf(),
    ensures
        final(store).wf(),
        old(store)@.contains_key(game@.key()) ==> r == Err::<GameData, ContractError>(ContractError::DuplicateGame {})
            && final(store)@ == old(store)@,
        !old(store)@.contains_key(game@.key()) ==> r.is_ok() && r.unwrap()@ == game@
            && final(store)@ == old(store)@.insert(game@.key(), game@),
{
    if store.find(&game.host, &game.opponent).is_some() {
        return Err(ContractError::DuplicateGame {});
    }
    let saved = game.copy_game();
    store.insert_new(game);
    Ok(saved)
}

/// Replaces an open game with `game`, which has the same key.
pub fn update_game(store: &mut GameStore, game: GameData) -> (r: Result<GameData, ContractError>)
    requires
        old(store).wf(),
    ensures
        final(store).wf(),
        !old(store)@.contains_key(game@.key()) ==> r == Err::<GameData, ContractError>(ContractError::GameNotFound {})
            && final(store)@ == old(store)@,
        old(store)@.contains_key(game@.key()) ==> r.is_ok() && r.unwrap()@ == game@
            && final(store)@ == old(store)@.insert(game@.key(), game@),
{
    match store.find(&game.host, &game.opponent) {
        None => Err(ContractError::GameNotFound {}),
        Some(i) => {
            let saved = game.copy_game();
            store.replace(i, game);
            Ok(saved)
        },
    }
}

/// Removes the game stored under the key of `game`. Removing a key that
/// holds no game succeeds and changes nothing.
pub fn delete_game(store: &mut GameStore, game: &GameData)
    requires
        old(store).wf(),
    ensures
        final(store).wf(),
        final(store)@ == old(store)@.remove(game@.key()),
{
    store.remove_key(&game.host, &game.opponent);
}

} // verus!
