use vstd::prelude::*;
use vstd::utf8::*;
use vstd::string::*;

verus! {

/// A pair of identifiers, as the game book sees it: (indexed party, other party).
pub type PartyPair = (Seq<char>, Seq<char>);

/// `i` is the first place where `a` and `b` differ (or where one of them ends).
pub open spec fn first_difference(a: Seq<u8>, b: Seq<u8>, i: int) -> bool {
    0 <= i <= a.len() && i <= b.len() && (forall|j: int| 0 <= j < i ==> a[j] == b[j]) && (i
        == a.len() || i == b.len() || a[i] != b[i])
}

/// Lexicographic strict order on byte strings.
pub open spec fn bytes_lt(a: Seq<u8>, b: Seq<u8>) -> bool {
    exists|i: int|
        #![trigger first_difference(a, b, i)]
        first_difference(a, b, i) && ((i == a.len() && i < b.len()) || (i < a.len() && i < b.len()
            && a[i] < b[i]))
}

/// Identifiers are ordered by the lexicographic order of their UTF-8 bytes.
pub open spec fn party_lt(a: Seq<char>, b: Seq<char>) -> bool {
    bytes_lt(encode_utf8(a), encode_utf8(b))
}

/// Pairs are ordered by their first party, then by their second.
pub open spec fn pair_lt(a: PartyPair, b: PartyPair) -> bool {
    party_lt(a.0, b.0) || (a.0 == b.0 && party_lt(a.1, b.1))
}

/// The pair with its two parties exchanged.
pub open spec fn swap(k: PartyPair) -> PartyPair {
    (k.1, k.0)
}

proof fn lemma_first_difference_unique(a: Seq<u8>, b: Seq<u8>, i: int, j: int)
    requires
        first_difference(a, b, i),
        first_difference(a, b, j),
    ensures
        i == j,
{
    if i < j {
        assert(a[i] == b[i]);
    } else if j < i {
        assert(a[j] == b[j]);
    }
}

proof fn lemma_first_difference_exists(a: Seq<u8>, b: Seq<u8>) -> (i: int)
    ensures
        first_difference(a, b, i),
    decreases a.len(),
{
    if a.len() == 0 || b.len() == 0 || a[0] != b[0] {
        0
    } else {
        let k = lemma_first_difference_exists(a.drop_first(), b.drop_first());
        assert forall|j: int| 0 <= j < k + 1 implies a[j] == b[j] by {
            if j > 0 {
                assert(a.drop_first()[j - 1] == b.drop_first()[j - 1]);
            }
        }
        k + 1
    }
}

/// No byte string is below itself, and two byte strings are never below each other.
pub proof fn lemma_bytes_lt_asymmetric(a: Seq<u8>, b: Seq<u8>)
    ensures
        !(bytes_lt(a, b) && bytes_lt(b, a)),
        !bytes_lt(a, a),
{
    if bytes_lt(a, b) && bytes_lt(b, a) {
        let i = choose|i: int| first_difference(a, b, i) && ((i == a.len() && i < b.len()) || (i < a.len() && i < b.len() && a[i] < b[i]));
        let j = choose|j: int| first_difference(b, a, j) && ((j == b.len() && j < a.len()) || (j < b.len() && j < a.len() && b[j] < a[j]));
        assert(first_difference(a, b, j));
        lemma_first_difference_unique(a, b, i, j);
    }
    if bytes_lt(a, a) {
        let i = choose|i: int| first_difference(a, a, i) && ((i == a.len() && i < a.len()) || (i < a.len() && i < a.len() && a[i] < a[i]));
    }
}

/// Two distinct byte strings are ordered one way or the other.
pub proof fn lemma_bytes_lt_total(a: Seq<u8>, b: Seq<u8>)
    requires
        a != b,
    ensures
        bytes_lt(a, b) || bytes_lt(b, a),
{
    let i = lemma_first_difference_exists(a, b);
    assert(first_difference(b, a, i));
    if i == a.len() && i == b.len() {
        assert(a =~= b);
    }
}

/// The order on byte strings is transitive.
pub proof fn lemma_bytes_lt_transitive(a: Seq<u8>, b: Seq<u8>, c: Seq<u8>)
    requires
        bytes_lt(a, b),
        bytes_lt(b, c),
    ensures
        bytes_lt(a, c),
{
    let i = choose|i: int| first_difference(a, b, i) && ((i == a.len() && i < b.len()) || (i < a.len() && i < b.len() && a[i] < b[i]));
    let j = choose|j: int| first_difference(b, c, j) && ((j == b.len() && j < c.len()) || (j < b.len() && j < c.len() && b[j] < c[j]));
    let k = if i < j { i } else { j };
    assert(first_difference(a, c, k));
}

proof fn lemma_encode_injective(a: Seq<char>, b: Seq<char>)
    requires
        encode_utf8(a) == encode_utf8(b),
    ensures
        a == b,
{
    encode_utf8_decode_utf8(a);
    encode_utf8_decode_utf8(b);
}

/// Identifiers: asymmetry, totality on distinct values, and transitivity.
pub proof fn lemma_party_lt_order(a: Seq<char>, b: Seq<char>, c: Seq<char>)
    ensures
        !(party_lt(a, b) && party_lt(b, a)),
        !party_lt(a, a),
        a != b ==> party_lt(a, b) || party_lt(b, a),
        party_lt(a, b) && party_lt(b, c) ==> party_lt(a, c),
{
    lemma_bytes_lt_asymmetric(encode_utf8(a), encode_utf8(b));
    if a != b {
        if encode_utf8(a) == encode_utf8(b) {
            lemma_encode_injective(a, b);
        }
        lemma_bytes_lt_total(encode_utf8(a), encode_utf8(b));
    }
    if party_lt(a, b) && party_lt(b, c) {
        lemma_bytes_lt_transitive(encode_utf8(a), encode_utf8(b), encode_utf8(c));
    }
}

/// Pairs: asymmetry, totality on distinct values, and transitivity.
pub proof fn lemma_pair_lt_order(a: PartyPair, b: PartyPair, c: PartyPair)
    ensures
        !(pair_lt(a, b) && pair_lt(b, a)),
        !pair_lt(a, a),
        a != b ==> pair_lt(a, b) || pair_lt(b, a),
        pair_lt(a, b) && pair_lt(b, c) ==> pair_lt(a, c),
{
    lemma_party_lt_order(a.0, b.0, c.0);
    lemma_party_lt_order(a.1, b.1, c.1);
    lemma_party_lt_order(a.0, a.0, a.0);
    lemma_party_lt_order(a.1, a.1, a.1);
}

/// Compares two identifiers by the lexicographic order of their bytes.
pub fn party_less(a: &String, b: &String) -> (r: bool)
    ensures
        r == party_lt(a@, b@),
{
    let x = a.as_str().as_bytes();
    let y = b.as_str().as_bytes();
    let mut i: usize = 0;
    while i < x.len() && i < y.len() && x[i] == y[i]
        invariant
            x@ == encode_utf8(a@),
            y@ == encode_utf8(b@),
            0 <= i <= x@.len(),
            i <= y@.len(),
            forall|j: int| 0 <= j < i ==> x@[j] == y@[j],
        decreases x@.len() - i,
    {
        i = i + 1;
    }
    assert(first_difference(x@, y@, i as int));
    let r = if i == x.len() {
        i < y.len()
    } else {
        i < y.len() && x[i] < y[i]
    };
    proof {
        if !r && bytes_lt(x@, y@) {
            let k = choose|k: int| first_difference(x@, y@, k) && ((k == x@.len() && k < y@.len()) || (k < x@.len() && k < y@.len() && x@[k] < y@[k]));
            lemma_first_difference_unique(x@, y@, i as int, k);
        }
    }
    r
}

/// Compares two pairs of identifiers: first parties, then second parties.
pub fn pair_less(a0: &String, a1: &String, b0: &String, b1: &String) -> (r: bool)
    ensures
        r == pair_lt((a0@, a1@), (b0@, b1@)),
{
    if party_less(a0, b0) {
        true
    } else if *a0 == *b0 {
        party_less(a1, b1)
    } else {
        false
    }
}

} // verus!
