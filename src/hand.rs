use crate::card::{cmp_int, rank_value, Card};
use std::cmp::Ordering;
use vstd::prelude::*;
use vstd::multiset::Multiset;
use vstd::relations::{sorted_by, total_ordering};

verus! {

/// The ten categories of a five-card hand, weakest first.
#[derive(Debug, Clone, Copy, PartialEq, Eq, Structural, PartialOrd, Ord, Hash)]
pub enum Kind {
    HighCard,
    Pair,
    TwoPairs,
    ThreeOfAKind,
    Straight,
    Flush,
    FullHouse,
    FourOfAKind,
    StraightFlush,
    RoyalFlush,
}

/// Position of a kind in the ranking, `HighCard` being 0 and `RoyalFlush` 9.
pub open spec fn kind_index(k: Kind) -> int {
    match k {
        Kind::HighCard => 0,
        Kind::Pair => 1,
        Kind::TwoPairs => 2,
        Kind::ThreeOfAKind => 3,
        Kind::Straight => 4,
        Kind::Flush => 5,
        Kind::FullHouse => 6,
        Kind::FourOfAKind => 7,
        Kind::StraightFlush => 8,
        Kind::RoyalFlush => 9,
    }
}

/// The rank strengths (2 to 14) of a sequence of cards.
pub open spec fn values_of(s: Seq<Card>) -> Seq<int> {
    s.map_values(|c: Card| rank_value(c.rank))
}

/// How many cards of `s` have the rank of strength `v`.
pub open spec fn rank_count(s: Seq<Card>, v: int) -> nat {
    values_of(s).to_multiset().count(v)
}

/// All cards share one suit.
pub open spec fn one_suit(s: Seq<Card>) -> bool {
    forall|i: int| 0 <= i < s.len() ==> #[trigger] s[i].suit == s[0].suit
}

/// The five ranks ending at strength `top` occur once each.
pub open spec fn has_run(s: Seq<Card>, top: int) -> bool {
    &&& rank_count(s, top) == 1
    &&& rank_count(s, top - 1) == 1
    &&& rank_count(s, top - 2) == 1
    &&& rank_count(s, top - 3) == 1
    &&& rank_count(s, top - 4) == 1
}

/// Ace, two, three, four and five once each: the straight where the ace plays low.
pub open spec fn is_wheel(s: Seq<Card>) -> bool {
    &&& rank_count(s, 14) == 1
    &&& rank_count(s, 2) == 1
    &&& rank_count(s, 3) == 1
    &&& rank_count(s, 4) == 1
    &&& rank_count(s, 5) == 1
}

/// Five consecutive ranks, or the wheel.
pub open spec fn is_run_of_five(s: Seq<Card>) -> bool {
    is_wheel(s) || exists|top: int| 6 <= top <= 14 && #[trigger] has_run(s, top)
}

/// Some rank occurs exactly `n` times.
pub open spec fn has_count(s: Seq<Card>, n: nat) -> bool {
    exists|v: int| 2 <= v <= 14 && #[trigger] rank_count(s, v) == n
}

/// Some rank occurs four times or more.
pub open spec fn has_quad(s: Seq<Card>) -> bool {
    exists|v: int| 2 <= v <= 14 && #[trigger] rank_count(s, v) >= 4
}

/// Two different ranks occur exactly twice each.
pub open spec fn has_two_pairs(s: Seq<Card>) -> bool {
    exists|v: int, w: int|
        2 <= v <= 14 && 2 <= w <= 14 && v != w && #[trigger] rank_count(s, v) == 2
            && #[trigger] rank_count(s, w) == 2
}

/// The category of a five-card hand, tested from the strongest down.
pub open spec fn kind_of(s: Seq<Card>) -> Kind {
    if one_suit(s) && has_run(s, 14) {
        Kind::RoyalFlush
    } else if one_suit(s) && is_run_of_five(s) {
        Kind::StraightFlush
    } else if has_quad(s) {
        Kind::FourOfAKind
    } else if has_count(s, 3) && has_count(s, 2) {
        Kind::FullHouse
    } else if one_suit(s) {
        Kind::Flush
    } else if is_run_of_five(s) {
        Kind::Straight
    } else if has_count(s, 3) {
        Kind::ThreeOfAKind
    } else if has_two_pairs(s) {
        Kind::TwoPairs
    } else if has_count(s, 2) {
        Kind::Pair
    } else {
        Kind::HighCard
    }
}

/// The strength a rank plays in the hand: the ace plays 1 in the wheel.
pub open spec fn played_value(s: Seq<Card>, v: int) -> int {
    if is_wheel(s) && v == 14 {
        1
    } else {
        v
    }
}

/// Ranks that occur more often come first, then the ones that play higher.
pub open spec fn order_key(s: Seq<Card>, v: int) -> int {
    rank_count(s, v) * 16 + played_value(s, v)
}

/// In the canonical arrangement of `s`, strength `a` may stand before strength `b`.
pub open spec fn stands_before(s: Seq<Card>, a: int, b: int) -> bool {
    order_key(s, a) > order_key(s, b) || (order_key(s, a) == order_key(s, b) && a >= b)
}

/// The order of the canonical arrangement of `s`.
pub open spec fn order_for(s: Seq<Card>) -> spec_fn(int, int) -> bool {
    |a: int, b: int| stands_before(s, a, b)
}

/// The rank strengths of `s` in canonical order: grouped cards first (larger groups
/// first, higher ranks first among equal groups), then the kickers high to low,
/// with the ace last in a wheel.
pub open spec fn canonical_values(s: Seq<Card>) -> Seq<int> {
    values_of(s).sort_by(order_for(s))
}

/// What a five-card hand is worth: its kind, then its canonical rank strengths.
pub open spec fn hand_score(s: Seq<Card>) -> Seq<int> {
    seq![kind_index(kind_of(s))] + canonical_values(s)
}

/// Lexicographic order of two sequences; a proper prefix comes first.
pub open spec fn lex_cmp(a: Seq<int>, b: Seq<int>) -> Ordering
    decreases a.len(),
{
    if a.len() == 0 && b.len() == 0 {
        Ordering::Equal
    } else if a.len() == 0 {
        Ordering::Less
    } else if b.len() == 0 {
        Ordering::Greater
    } else if a[0] < b[0] {
        Ordering::Less
    } else if a[0] > b[0] {
        Ordering::Greater
    } else {
        lex_cmp(a.drop_first(), b.drop_first())
    }
}

/// `counts[v]` is how many cards of `s` have the rank of strength `v`.
pub open spec fn counts_match(counts: Seq<u8>, s: Seq<Card>) -> bool {
    &&& counts.len() == 15
    &&& forall|v: int| 0 <= v < 15 ==> #[trigger] counts[v] == rank_count(s, v)
}

proof fn lemma_values_push(s: Seq<Card>, c: Card)
    ensures
        values_of(s.push(c)) == values_of(s).push(rank_value(c.rank)),
{
    assert(values_of(s.push(c)) =~= values_of(s).push(rank_value(c.rank)));
}

proof fn lemma_rank_count_bounds(s: Seq<Card>, v: int)
    ensures
        rank_count(s, v) <= s.len(),
        (v < 2 || v > 14) ==> rank_count(s, v) == 0,
{
    broadcast use vstd::multiset::group_multiset_axioms;

    let vs = values_of(s);
    vs.to_multiset_ensures();
    if v < 2 || v > 14 {
        if vs.to_multiset().count(v) > 0 {
            let i = choose|i: int| 0 <= i < vs.len() && vs[i] == v;
            assert(vs[i] == rank_value(s[i].rank));
        }
    }
}

/// Counts the cards of each rank strength.
fn count_ranks(cards: &[Card]) -> (counts: Vec<u8>)
    requires
        cards@.len() <= 7,
    ensures
        counts_match(counts@, cards@),
{
    let mut counts: Vec<u8> = vec![0u8; 15];
    let mut i: usize = 0;
    proof {
        broadcast use vstd::multiset::group_multiset_axioms;

        values_of(cards@.take(0)).to_multiset_ensures();
        assert forall|v: int| 0 <= v < 15 implies #[trigger] counts@[v] == rank_count(
            cards@.take(0),
            v,
        ) by {
            assert(values_of(cards@.take(0)).to_multiset().count(v) <= 0);
        }
    }
    while i < cards.len()
        invariant
            i <= cards@.len() <= 7,
            counts_match(counts@, cards@.take(i as int)),
        decreases cards@.len() - i,
    {
        let card = cards[i];
        let v = card.rank.strength() as usize;
        proof {
            let pre = cards@.take(i as int);
            assert(cards@.take(i as int + 1) =~= pre.push(card));
            lemma_values_push(pre, card);
            values_of(pre).to_multiset_ensures();
            lemma_rank_count_bounds(pre, v as int);
        }
        counts.set(v, counts[v] + 1);
        i = i + 1;
    }
    assert(cards@.take(i as int) =~= cards@);
    counts
}

/// Whether all cards share the first card's suit.
fn is_flush(cards: &[Card]) -> (r: bool)
    ensures
        r == one_suit(cards@),
{
    let mut i: usize = 1;
    while i < cards.len()
        invariant
            1 <= i,
            forall|j: int| 0 <= j < i && j < cards@.len() ==> #[trigger] cards@[j].suit
                == cards@[0].suit,
        decreases cards@.len() - i,
    {
        if cards[i].suit != cards[0].suit {
            return false;
        }
        i = i + 1;
    }
    true
}

/// Whether the five ranks ending at strength `top` occur once each.
fn has_run_at(counts: &Vec<u8>, top: usize, Ghost(s): Ghost<Seq<Card>>) -> (r: bool)
    requires
        counts_match(counts@, s),
        4 <= top < 15,
    ensures
        r == has_run(s, top as int),
{
    counts[top] == 1 && counts[top - 1] == 1 && counts[top - 2] == 1 && counts[top - 3] == 1
        && counts[top - 4] == 1
}

/// Whether the hand is the wheel: ace, two, three, four, five.
fn is_lowest_straight(counts: &Vec<u8>, Ghost(s): Ghost<Seq<Card>>) -> (r: bool)
    requires
        counts_match(counts@, s),
    ensures
        r == is_wheel(s),
{
    counts[14] == 1 && counts[2] == 1 && counts[3] == 1 && counts[4] == 1 && counts[5] == 1
}

/// Whether the hand holds five consecutive ranks, the wheel included.
fn is_straight(counts: &Vec<u8>, Ghost(s): Ghost<Seq<Card>>) -> (r: bool)
    requires
        counts_match(counts@, s),
    ensures
        r == is_run_of_five(s),
{
    if is_lowest_straight(counts, Ghost(s)) {
        return true;
    }
    let mut top: usize = 6;
    while top < 15
        invariant
            6 <= top <= 15,
            counts_match(counts@, s),
            !is_wheel(s),
            forall|t: int| 6 <= t < top ==> !#[trigger] has_run(s, t),
        decreases 15 - top,
    {
        if has_run_at(counts, top, Ghost(s)) {
            return true;
        }
        top = top + 1;
    }
    false
}

/// Whether some rank occurs exactly `n` times.
fn has_rank_count(counts: &Vec<u8>, n: u8, Ghost(s): Ghost<Seq<Card>>) -> (r: bool)
    requires
        counts_match(counts@, s),
    ensures
        r == has_count(s, n as nat),
{
    let mut v: usize = 2;
    while v < 15
        invariant
            2 <= v <= 15,
            counts_match(counts@, s),
            forall|u: int| 2 <= u < v ==> #[trigger] rank_count(s, u) != n,
        decreases 15 - v,
    {
        if counts[v] == n {
            assert(rank_count(s, v as int) == n);
            return true;
        }
        v = v + 1;
    }
    false
}

/// Whether some rank occurs twice.
fn is_pair(counts: &Vec<u8>, Ghost(s): Ghost<Seq<Card>>) -> (r: bool)
    requires
        counts_match(counts@, s),
    ensures
        r == has_count(s, 2),
{
    has_rank_count(counts, 2, Ghost(s))
}

/// Whether some rank occurs three times.
fn is_three_of_a_kind(counts: &Vec<u8>, Ghost(s): Ghost<Seq<Card>>) -> (r: bool)
    requires
        counts_match(counts@, s),
    ensures
        r == has_count(s, 3),
{
    has_rank_count(counts, 3, Ghost(s))
}

/// Whether some rank occurs four times or more.
fn is_four_of_a_kind(counts: &Vec<u8>, Ghost(s): Ghost<Seq<Card>>) -> (r: bool)
    requires
        counts_match(counts@, s),
    ensures
        r == has_quad(s),
{
    let mut v: usize = 2;
    while v < 15
        invariant
            2 <= v <= 15,
            counts_match(counts@, s),
            forall|u: int| 2 <= u < v ==> #[trigger] rank_count(s, u) < 4,
        decreases 15 - v,
    {
        if counts[v] >= 4 {
            assert(rank_count(s, v as int) >= 4);
            return true;
        }
        v = v + 1;
    }
    false
}

/// Whether two different ranks occur twice each.
fn is_two_pairs(counts: &Vec<u8>, Ghost(s): Ghost<Seq<Card>>) -> (r: bool)
    requires
        counts_match(counts@, s),
    ensures
        r == has_two_pairs(s),
{
    let mut found = false;
    let mut first: usize = 0;
    let mut v: usize = 2;
    while v < 15
        invariant
            2 <= v <= 15,
            counts_match(counts@, s),
            !found ==> forall|u: int| 2 <= u < v ==> #[trigger] rank_count(s, u) != 2,
            found ==> 2 <= first < v && rank_count(s, first as int) == 2,
            found ==> forall|u: int| 2 <= u < v && u != first ==> #[trigger] rank_count(s, u) != 2,
        decreases 15 - v,
    {
        if counts[v] == 2 {
            if found {
                assert(rank_count(s, first as int) == 2 && rank_count(s, v as int) == 2);
                return true;
            }
            found = true;
            first = v;
        }
        v = v + 1;
    }
    false
}

/// The kind of a five-card hand.
fn calc_kind(cards: &[Card], counts: &Vec<u8>) -> (r: Kind)
    requires
        counts_match(counts@, cards@),
    ensures
        r == kind_of(cards@),
{
    let ghost s = cards@;
    let is_flush = is_flush(cards);
    let is_straight = is_straight(counts, Ghost(s));
    if is_flush && has_run_at(counts, 14, Ghost(s)) {
        return Kind::RoyalFlush;
    } else if is_flush && is_straight {
        return Kind::StraightFlush;
    }
    if is_four_of_a_kind(counts, Ghost(s)) {
        return Kind::FourOfAKind;
    }
    let is_three_of_a_kind = is_three_of_a_kind(counts, Ghost(s));
    let is_pair = is_pair(counts, Ghost(s));
    if is_three_of_a_kind && is_pair {
        Kind::FullHouse
    } else if is_flush {
        Kind::Flush
    } else if is_straight {
        Kind::Straight
    } else if is_three_of_a_kind {
        Kind::ThreeOfAKind
    } else if is_two_pairs(counts, Ghost(s)) {
        Kind::TwoPairs
    } else if is_pair {
        Kind::Pair
    } else {
        Kind::HighCard
    }
}

proof fn lemma_order_total(s: Seq<Card>)
    ensures
        total_ordering(order_for(s)),
{
}

proof fn lemma_swap_multiset<A>(s: Seq<A>, i: int, j: int)
    requires
        0 <= i < s.len(),
        0 <= j < s.len(),
    ensures
        s.update(i, s[j]).update(j, s[i]).to_multiset() == s.to_multiset(),
{
    broadcast use {vstd::multiset::group_multiset_axioms, vstd::seq_lib::group_to_multiset_ensures};

    let t = s.update(i, s[j]);
    assert(t.to_multiset() == s.to_multiset().insert(s[j]).remove(s[i]));
    assert(t.update(j, s[i]).to_multiset() == t.to_multiset().insert(s[i]).remove(t[j]));
    if i == j {
        assert(s.update(i, s[j]).update(j, s[i]) =~= s);
    } else {
        assert(t[j] == s[j]);
        assert(t.update(j, s[i]).to_multiset() =~= s.to_multiset());
    }
}

proof fn lemma_values_update(s: Seq<Card>, i: int, c: Card)
    requires
        0 <= i < s.len(),
    ensures
        values_of(s.update(i, c)) == values_of(s).update(i, rank_value(c.rank)),
{
    assert(values_of(s.update(i, c)) =~= values_of(s).update(i, rank_value(c.rank)));
}

/// The order key of a rank strength, computed from the rank counts.
fn key_of(counts: &Vec<u8>, wheel: bool, v: u8, Ghost(s): Ghost<Seq<Card>>) -> (k: u8)
    requires
        counts_match(counts@, s),
        s.len() == 5,
        wheel == is_wheel(s),
        2 <= v <= 14,
    ensures
        k == order_key(s, v as int),
{
    proof {
        lemma_rank_count_bounds(s, v as int);
    }
    let played = if wheel && v == 14 {
        1
    } else {
        v
    };
    counts[v as usize] * 16 + played
}

/// The cards of a five-card hand in canonical order.
fn normalized(cards: &[Card], counts: &Vec<u8>) -> (out: Vec<Card>)
    requires
        cards@.len() == 5,
        counts_match(counts@, cards@),
    ensures
        out@.to_multiset() == cards@.to_multiset(),
        values_of(out@) == canonical_values(cards@),
{
    let ghost s = cards@;
    let wheel = is_lowest_straight(counts, Ghost(s));
    let mut out: Vec<Card> = Vec::new();
    let mut k: usize = 0;
    while k < 5
        invariant
            k <= 5,
            s == cards@,
            s.len() == 5,
            out@ == s.take(k as int),
        decreases 5 - k,
    {
        out.push(cards[k]);
        k = k + 1;
        assert(out@ =~= s.take(k as int));
    }
    assert(out@ =~= s);
    let mut i: usize = 0;
    while i < 5
        invariant
            i <= 5,
            s.len() == 5,
            out@.len() == 5,
            counts_match(counts@, s),
            wheel == is_wheel(s),
            out@.to_multiset() == s.to_multiset(),
            values_of(out@).to_multiset() == values_of(s).to_multiset(),
            forall|a: int, b: int|
                0 <= a < b < 5 && a < i ==> stands_before(
                    s,
                    #[trigger] values_of(out@)[a],
                    #[trigger] values_of(out@)[b],
                ),
        decreases 5 - i,
    {
        let mut best: usize = i;
        let mut best_value = out[i].rank.strength();
        let mut best_key = key_of(counts, wheel, best_value, Ghost(s));
        let mut j: usize = i + 1;
        while j < 5
            invariant
                i < 5,
                i < j <= 5,
                i <= best < j,
                s.len() == 5,
                out@.len() == 5,
                counts_match(counts@, s),
                wheel == is_wheel(s),
                best_value == values_of(out@)[best as int],
                best_key == order_key(s, best_value as int),
                forall|t: int|
                    i <= t < j ==> stands_before(
                        s,
                        values_of(out@)[best as int],
                        #[trigger] values_of(out@)[t],
                    ),
            decreases 5 - j,
        {
            let value = out[j].rank.strength();
            let key = key_of(counts, wheel, value, Ghost(s));
            if key > best_key || (key == best_key && value > best_value) {
                best = j;
                best_key = key;
                best_value = value;
            }
            j = j + 1;
        }
        let a = out[i];
        let b = out[best];
        let ghost before = out@;
        out.set(i, b);
        out.set(best, a);
        proof {
            lemma_swap_multiset(before, i as int, best as int);
            lemma_swap_multiset(values_of(before), i as int, best as int);
            lemma_values_update(before, i as int, b);
            lemma_values_update(before.update(i as int, b), best as int, a);
            let vb = values_of(before);
            let va = values_of(out@);
            assert(va =~= vb.update(i as int, vb[best as int]).update(best as int, vb[i as int]));
            assert forall|x: int, y: int| 0 <= x < y < 5 && x < i + 1 implies stands_before(
                s,
                #[trigger] va[x],
                #[trigger] va[y],
            ) by {
                if x < i {
                    let yy = if y == i {
                        best as int
                    } else if y == best {
                        i as int
                    } else {
                        y
                    };
                    assert(va[y] == vb[yy]);
                    assert(stands_before(s, vb[x], vb[yy]));
                } else {
                    let yy = if y == best {
                        i as int
                    } else {
                        y
                    };
                    assert(va[y] == vb[yy]);
                    assert(stands_before(s, vb[best as int], vb[yy]));
                }
            }
        }
        i = i + 1;
    }
    proof {
        let leq = order_for(s);
        lemma_order_total(s);
        values_of(s).lemma_sort_by_ensures(leq);
        assert(sorted_by(values_of(out@), leq));
        vstd::seq_lib::lemma_sorted_unique(values_of(out@), canonical_values(s), leq);
    }
    out
}

/// Flipping the arguments flips the order; only equal sequences compare equal.
pub proof fn lemma_lex_cmp_flip(a: Seq<int>, b: Seq<int>)
    ensures
        (lex_cmp(a, b) == Ordering::Equal) == (a == b),
        (lex_cmp(a, b) == Ordering::Less) == (lex_cmp(b, a) == Ordering::Greater),
    decreases a.len(),
{
    if a.len() > 0 && b.len() > 0 && a[0] == b[0] {
        lemma_lex_cmp_flip(a.drop_first(), b.drop_first());
        if a.drop_first() == b.drop_first() {
            assert(a =~= b) by {
                assert forall|k: int| 0 <= k < a.len() implies a[k] == b[k] by {
                    if k > 0 {
                        assert(a[k] == a.drop_first()[k - 1]);
                        assert(b[k] == b.drop_first()[k - 1]);
                    }
                }
            }
        }
        if a == b {
            assert(a.drop_first() == b.drop_first());
        }
    } else if a.len() > 0 && b.len() > 0 {
        assert(a != b);
    } else if a.len() == 0 && b.len() == 0 {
        assert(a =~= b);
    }
}

/// The order is transitive, and strict as soon as one step is strict.
pub proof fn lemma_lex_cmp_trans(a: Seq<int>, b: Seq<int>, c: Seq<int>)
    requires
        lex_cmp(a, b) != Ordering::Greater,
        lex_cmp(b, c) != Ordering::Greater,
    ensures
        lex_cmp(a, c) != Ordering::Greater,
        (lex_cmp(a, b) == Ordering::Less || lex_cmp(b, c) == Ordering::Less) ==> lex_cmp(a, c)
            == Ordering::Less,
    decreases a.len(),
{
    if a.len() > 0 && b.len() > 0 && c.len() > 0 && a[0] == b[0] && b[0] == c[0] {
        lemma_lex_cmp_trans(a.drop_first(), b.drop_first(), c.drop_first());
    }
}

/// `h` is what evaluating the five cards `s` yields.
pub open spec fn evaluates(h: Hand, s: Seq<Card>) -> bool {
    &&& h.kind == kind_of(s)
    &&& h.cards@.to_multiset() == s.to_multiset()
    &&& values_of(h.cards@) == canonical_values(s)
}

/// Index, in a sequence of seven, of the `k`-th card kept when cards `i` and `j` are left out.
pub open spec fn kept_index(i: int, j: int, k: int) -> int {
    if k < i {
        k
    } else if k + 1 < j {
        k + 1
    } else {
        k + 2
    }
}

/// The five cards left when cards `i` and `j` (`i < j`) are taken out of seven.
pub open spec fn five_of(s: Seq<Card>, i: int, j: int) -> Seq<Card> {
    Seq::new(5, |k: int| s[kept_index(i, j, k)])
}

/// `h` is the strongest hand that five of the seven cards `all` make.
pub open spec fn is_best_of(h: Hand, all: Seq<Card>) -> bool {
    &&& exists|i: int, j: int| 0 <= i < j < 7 && #[trigger] evaluates(h, five_of(all, i, j))
    &&& forall|i: int, j: int|
        0 <= i < j < 7 ==> lex_cmp(hand_score(#[trigger] five_of(all, i, j)), h.score())
            != Ordering::Greater
}

/// A five-card hand. Its cards stand in canonical order, so that hands compare by
/// kind first, then card by card by rank.
#[derive(Debug)]
pub struct Hand {
    pub kind: Kind,
    /// The five cards: those that make the kind first, then the kickers high to low.
    pub cards: Vec<Card>,
}

/// Position of a kind in the ranking.
fn kind_rank(k: Kind) -> (r: u8)
    ensures
        r == kind_index(k),
{
    match k {
        Kind::HighCard => 0,
        Kind::Pair => 1,
        Kind::TwoPairs => 2,
        Kind::ThreeOfAKind => 3,
        Kind::Straight => 4,
        Kind::Flush => 5,
        Kind::FullHouse => 6,
        Kind::FourOfAKind => 7,
        Kind::StraightFlush => 8,
        Kind::RoyalFlush => 9,
    }
}

/// The five cards left when cards `i` and `j` are taken out of seven.
fn five_of_seven(all: &Vec<Card>, i: usize, j: usize) -> (sub: Vec<Card>)
    requires
        all@.len() == 7,
        i < j < 7,
    ensures
        sub@ == five_of(all@, i as int, j as int),
{
    let mut sub: Vec<Card> = Vec::new();
    let mut k: usize = 0;
    while k < 5
        invariant
            k <= 5,
            i < j < 7,
            all@.len() == 7,
            sub@ == five_of(all@, i as int, j as int).take(k as int),
        decreases 5 - k,
    {
        let at = if k < i {
            k
        } else if k + 1 < j {
            k + 1
        } else {
            k + 2
        };
        sub.push(all[at]);
        k = k + 1;
        assert(sub@ =~= five_of(all@, i as int, j as int).take(k as int));
    }
    assert(sub@ =~= five_of(all@, i as int, j as int));
    sub
}

impl Hand {
    /// What the hand is worth: its kind, then the strengths of its cards in order.
    pub open spec fn score(&self) -> Seq<int> {
        seq![kind_index(self.kind)] + values_of(self.cards@)
    }

    /// Evaluates five cards: their kind, and the cards in canonical order.
    pub fn new(cards: &[Card]) -> (r: Hand)
        requires
            cards@.len() == 5,
        ensures
            evaluates(r, cards@),
            r.score() == hand_score(cards@),
    {
        let counts = count_ranks(cards);
        let kind = calc_kind(cards, &counts);
        let sorted = normalized(cards, &counts);
        Hand { kind, cards: sorted }
    }

    /// Compares two hands: by kind, then card by card by rank.
    pub fn compare(&self, other: &Hand) -> (r: Ordering)
        ensures
            r == lex_cmp(self.score(), other.score()),
    {
        let a = kind_rank(self.kind);
        let b = kind_rank(other.kind);
        if a < b {
            return Ordering::Less;
        } else if a > b {
            return Ordering::Greater;
        }
        let ghost va = values_of(self.cards@);
        let ghost vb = values_of(other.cards@);
        assert(self.score().drop_first() =~= va);
        assert(other.score().drop_first() =~= vb);
        assert(self.score()[0] == a && other.score()[0] == b);
        assert(va.skip(0) =~= va && vb.skip(0) =~= vb);
        let mut i: usize = 0;
        while i < self.cards.len() && i < other.cards.len()
            invariant
                i <= self.cards@.len(),
                i <= other.cards@.len(),
                va == values_of(self.cards@),
                vb == values_of(other.cards@),
                lex_cmp(self.score(), other.score()) == lex_cmp(va.skip(i as int), vb.skip(i as int)),
            decreases self.cards@.len() - i,
        {
            let x = self.cards[i].rank.strength();
            let y = other.cards[i].rank.strength();
            assert(va.skip(i as int)[0] == x && vb.skip(i as int)[0] == y);
            if x < y {
                return Ordering::Less;
            } else if x > y {
                return Ordering::Greater;
            }
            assert(va.skip(i as int).drop_first() =~= va.skip(i as int + 1));
            assert(vb.skip(i as int).drop_first() =~= vb.skip(i as int + 1));
            i = i + 1;
        }
        if self.cards.len() < other.cards.len() {
            Ordering::Less
        } else if self.cards.len() > other.cards.len() {
            Ordering::Greater
        } else {
            Ordering::Equal
        }
    }

    /// The strongest hand that five of the five community cards and two hole cards make.
    pub fn calc_best_hand(common: &[Card], hand: &[Card]) -> (r: Hand)
        requires
            common@.len() == 5,
            hand@.len() == 2,
        ensures
            is_best_of(r, common@ + hand@),
    {
        let mut all: Vec<Card> = Vec::new();
        let mut k: usize = 0;
        while k < 5
            invariant
                k <= 5,
                common@.len() == 5,
                all@ == common@.take(k as int),
            decreases 5 - k,
        {
            all.push(common[k]);
            k = k + 1;
            assert(all@ =~= common@.take(k as int));
        }
        k = 0;
        while k < 2
            invariant
                k <= 2,
                common@.len() == 5,
                hand@.len() == 2,
                all@ == common@ + hand@.take(k as int),
            decreases 2 - k,
        {
            all.push(hand[k]);
            k = k + 1;
            assert(all@ =~= common@ + hand@.take(k as int));
        }
        assert(all@ =~= common@ + hand@);
        let ghost every = all@;
        let mut best = Hand::new(common);
        let ghost mut bi: int = 5;
        let ghost mut bj: int = 6;
        assert(common@ =~= five_of(every, 5, 6));
        let mut i: usize = 0;
        while i < 7
            invariant
                i <= 7,
                all@ == every,
                every.len() == 7,
                0 <= bi < bj < 7,
                evaluates(best, five_of(every, bi, bj)),
                best.score() == hand_score(five_of(every, bi, bj)),
                forall|x: int, y: int|
                    0 <= x < y < 7 && x < i ==> lex_cmp(
                        hand_score(#[trigger] five_of(every, x, y)),
                        best.score(),
                    ) != Ordering::Greater,
            decreases 7 - i,
        {
            let mut j: usize = i + 1;
            while j < 7
                invariant
                    i < 7,
                    i < j <= 7,
                    all@ == every,
                    every.len() == 7,
                    0 <= bi < bj < 7,
                    evaluates(best, five_of(every, bi, bj)),
                    best.score() == hand_score(five_of(every, bi, bj)),
                    forall|x: int, y: int|
                        0 <= x < y < 7 && (x < i || (x == i && y < j)) ==> lex_cmp(
                            hand_score(#[trigger] five_of(every, x, y)),
                            best.score(),
                        ) != Ordering::Greater,
                decreases 7 - j,
            {
                let sub = five_of_seven(&all, i, j);
                let candidate = Hand::new(sub.as_slice());
                match best.compare(&candidate) {
                    Ordering::Greater => {
                        proof {
                            lemma_lex_cmp_flip(candidate.score(), best.score());
                        }
                    },
                    _ => {
                        proof {
                            lemma_lex_cmp_flip(best.score(), candidate.score());
                            lemma_lex_cmp_flip(candidate.score(), candidate.score());
                            assert forall|x: int, y: int|
                                0 <= x < y < 7 && (x < i || (x == i && y < j + 1)) implies lex_cmp(
                                hand_score(#[trigger] five_of(every, x, y)),
                                candidate.score(),
                            ) != Ordering::Greater by {
                                if x == i && y == j {
                                } else {
                                    lemma_lex_cmp_trans(
                                        hand_score(five_of(every, x, y)),
                                        best.score(),
                                        candidate.score(),
                                    );
                                }
                            }
                        }
                        best = candidate;
                        proof {
                            bi = i as int;
                            bj = j as int;
                        }
                    },
                }
                j = j + 1;
            }
            i = i + 1;
        }
        best
    }
}

/// Running the best-hand search twice on the same seven cards gives hands of equal worth:
/// the strongest five-card hand is unique up to equal rank.
pub proof fn lemma_best_hand_unique(all: Seq<Card>, a: Hand, b: Hand)
    requires
        is_best_of(a, all),
        is_best_of(b, all),
    ensures
        a.score() == b.score(),
{
    let (i, j) = choose|i: int, j: int| 0 <= i < j < 7 && #[trigger] evaluates(a, five_of(all, i, j));
    let (k, l) = choose|k: int, l: int| 0 <= k < l < 7 && #[trigger] evaluates(b, five_of(all, k, l));
    assert(a.score() == hand_score(five_of(all, i, j)));
    assert(b.score() == hand_score(five_of(all, k, l)));
    lemma_lex_cmp_flip(a.score(), b.score());
}

/// Some best hand of the seven cards `all` is worth `sc`.
pub open spec fn best_worth(all: Seq<Card>, sc: Seq<int>) -> bool {
    exists|h: Hand| #[trigger] is_best_of(h, all) && h.score() == sc
}

proof fn lemma_values_same_multiset(s: Seq<Card>, t: Seq<Card>)
    requires
        s.to_multiset() == t.to_multiset(),
    ensures
        values_of(s).to_multiset() == values_of(t).to_multiset(),
    decreases s.len(),
{
    broadcast use {vstd::multiset::group_multiset_axioms, vstd::seq_lib::group_to_multiset_ensures};

    s.to_multiset_ensures();
    t.to_multiset_ensures();
    if s.len() == 0 {
        assert(t.len() == 0);
        assert(values_of(s) =~= values_of(t));
    } else {
        let x = s.last();
        let rest = s.drop_last();
        assert(s =~= rest.push(x));
        rest.to_multiset_ensures();
        assert(t.to_multiset().count(x) > 0);
        assert(t.contains(x));
        let k = choose|k: int| 0 <= k < t.len() && t[k] == x;
        let tr = t.remove(k);
        assert(tr.to_multiset() =~= rest.to_multiset());
        lemma_values_same_multiset(rest, tr);
        let v = rank_value(x.rank);
        lemma_values_push(rest, x);
        values_of(rest).to_multiset_ensures();
        let vt = values_of(t);
        vt.to_multiset_ensures();
        assert(vt.remove(k) =~= values_of(tr));
        assert(vt[k] == v);
        assert(vt.to_multiset().count(v) > 0);
        assert(vt.to_multiset() =~= vt.to_multiset().remove(v).insert(v));
    }
}

proof fn lemma_one_suit_same_multiset(s: Seq<Card>, t: Seq<Card>)
    requires
        s.len() > 0,
        s.to_multiset() == t.to_multiset(),
        one_suit(s),
    ensures
        one_suit(t),
{
    broadcast use {vstd::multiset::group_multiset_axioms, vstd::seq_lib::group_to_multiset_ensures};

    s.to_multiset_ensures();
    t.to_multiset_ensures();
    assert forall|i: int| 0 <= i < t.len() implies #[trigger] t[i].suit == s[0].suit by {
        assert(t.to_multiset().count(t[i]) > 0);
        assert(s.contains(t[i]));
        let k = choose|k: int| 0 <= k < s.len() && s[k] == t[i];
        assert(s[k].suit == s[0].suit);
    }
}

/// Five cards are worth the same in any order.
pub proof fn lemma_hand_score_same_multiset(s: Seq<Card>, t: Seq<Card>)
    requires
        s.len() == 5,
        s.to_multiset() == t.to_multiset(),
    ensures
        hand_score(s) == hand_score(t),
{
    lemma_values_same_multiset(s, t);
    if one_suit(s) {
        lemma_one_suit_same_multiset(s, t);
    }
    if one_suit(t) {
        broadcast use vstd::seq_lib::group_to_multiset_ensures;

        s.to_multiset_ensures();
        t.to_multiset_ensures();
        lemma_one_suit_same_multiset(t, s);
    }
    assert forall|v: int| #[trigger] rank_count(s, v) == rank_count(t, v) by {
    }
    assert forall|top: int| #[trigger] has_run(s, top) == has_run(t, top) by {
    }
    assert(is_wheel(s) == is_wheel(t));
    if exists|top: int| 6 <= top <= 14 && #[trigger] has_run(s, top) {
        let top = choose|top: int| 6 <= top <= 14 && #[trigger] has_run(s, top);
        assert(has_run(t, top));
    }
    if exists|top: int| 6 <= top <= 14 && #[trigger] has_run(t, top) {
        let top = choose|top: int| 6 <= top <= 14 && #[trigger] has_run(t, top);
        assert(has_run(s, top));
    }
    assert(is_run_of_five(s) == is_run_of_five(t));
    assert forall|n: nat| #[trigger] has_count(s, n) == has_count(t, n) by {
        if has_count(s, n) {
            let v = choose|v: int| 2 <= v <= 14 && #[trigger] rank_count(s, v) == n;
            assert(rank_count(t, v) == n);
        }
        if has_count(t, n) {
            let v = choose|v: int| 2 <= v <= 14 && #[trigger] rank_count(t, v) == n;
            assert(rank_count(s, v) == n);
        }
    }
    assert(has_count(s, 2) == has_count(t, 2));
    assert(has_count(s, 3) == has_count(t, 3));
    if has_quad(s) {
        let v = choose|v: int| 2 <= v <= 14 && #[trigger] rank_count(s, v) >= 4;
        assert(rank_count(t, v) >= 4);
    }
    if has_quad(t) {
        let v = choose|v: int| 2 <= v <= 14 && #[trigger] rank_count(t, v) >= 4;
        assert(rank_count(s, v) >= 4);
    }
    assert(has_quad(s) == has_quad(t));
    if has_two_pairs(s) {
        let (v, w) = choose|v: int, w: int|
            2 <= v <= 14 && 2 <= w <= 14 && v != w && #[trigger] rank_count(s, v) == 2
                && #[trigger] rank_count(s, w) == 2;
        assert(rank_count(t, v) == 2 && rank_count(t, w) == 2);
    }
    if has_two_pairs(t) {
        let (v, w) = choose|v: int, w: int|
            2 <= v <= 14 && 2 <= w <= 14 && v != w && #[trigger] rank_count(t, v) == 2
                && #[trigger] rank_count(t, w) == 2;
        assert(rank_count(s, v) == 2 && rank_count(s, w) == 2);
    }
    assert(has_two_pairs(s) == has_two_pairs(t));
    assert(kind_of(s) == kind_of(t));
    let c = canonical_values(s);
    lemma_order_total(s);
    values_of(s).lemma_sort_by_ensures(order_for(s));
    assert forall|x: int, y: int| #[trigger] stands_before(s, x, y) == stands_before(t, x, y) by {
        assert(order_key(s, x) == order_key(t, x));
        assert(order_key(s, y) == order_key(t, y));
    }
    assert forall|i: int, j: int| 0 <= i < j < c.len() implies #[trigger] order_for(t)(
        c[i],
        c[j],
    ) by {
        assert(order_for(s)(c[i], c[j]));
        assert(stands_before(s, c[i], c[j]) == stands_before(t, c[i], c[j]));
    }
    assert(sorted_by(c, order_for(t)));
    lemma_canonical_is(t, c);
}

proof fn lemma_five_of_multiset(a: Seq<Card>, i: int, j: int)
    requires
        a.len() == 7,
        0 <= i < j < 7,
    ensures
        five_of(a, i, j).to_multiset() == a.to_multiset().remove(a[j]).remove(a[i]),
{
    broadcast use {vstd::multiset::group_multiset_axioms, vstd::seq_lib::group_to_multiset_ensures};

    assert(five_of(a, i, j) =~= a.remove(j).remove(i));
    a.to_multiset_ensures();
    a.remove(j).to_multiset_ensures();
    assert(a.remove(j)[i] == a[i]);
}

/// Leaving two cards out of seven: the same can be done to any reordering of the seven.
proof fn lemma_five_of_reorder(a: Seq<Card>, b: Seq<Card>, i: int, j: int) -> (kl: (int, int))
    requires
        a.len() == 7,
        b.len() == 7,
        a.to_multiset() == b.to_multiset(),
        0 <= i < j < 7,
    ensures
        0 <= kl.0 < kl.1 < 7,
        five_of(b, kl.0, kl.1).to_multiset() == five_of(a, i, j).to_multiset(),
{
    broadcast use {vstd::multiset::group_multiset_axioms, vstd::seq_lib::group_to_multiset_ensures};

    let m = a.to_multiset();
    let x = a[i];
    let y = a[j];
    a.to_multiset_ensures();
    b.to_multiset_ensures();
    lemma_five_of_multiset(a, i, j);
    assert(a.remove(j)[i] == x);
    a.remove(j).to_multiset_ensures();
    assert(a.remove(j).contains(x));
    assert(m.remove(y).count(x) > 0);
    assert(b.to_multiset().count(y) > 0);
    assert(b.contains(y));
    let k1 = choose|k: int| 0 <= k < b.len() && b[k] == y;
    let br = b.remove(k1);
    br.to_multiset_ensures();
    assert(br.to_multiset().count(x) > 0);
    assert(br.contains(x));
    let k2r = choose|k: int| 0 <= k < br.len() && br[k] == x;
    let k2 = if k2r < k1 {
        k2r
    } else {
        k2r + 1
    };
    assert(b[k2] == x);
    if k2 < k1 {
        lemma_five_of_multiset(b, k2, k1);
        (k2, k1)
    } else {
        lemma_five_of_multiset(b, k1, k2);
        assert(m.remove(x).remove(y) =~= m.remove(y).remove(x));
        (k1, k2)
    }
}

proof fn lemma_best_dominates(a: Seq<Card>, b: Seq<Card>, ha: Hand, hb: Hand)
    requires
        a.len() == 7,
        b.len() == 7,
        a.to_multiset() == b.to_multiset(),
        is_best_of(ha, a),
        is_best_of(hb, b),
    ensures
        lex_cmp(ha.score(), hb.score()) != Ordering::Greater,
{
    let (i, j) = choose|i: int, j: int| 0 <= i < j < 7 && #[trigger] evaluates(ha, five_of(a, i, j));
    assert(ha.score() == hand_score(five_of(a, i, j)));
    let (k, l) = lemma_five_of_reorder(a, b, i, j);
    lemma_hand_score_same_multiset(five_of(b, k, l), five_of(a, i, j));
    assert(lex_cmp(hand_score(five_of(b, k, l)), hb.score()) != Ordering::Greater);
}

/// The best hand depends only on the seven cards, not on their order nor on which of
/// them are the hole cards: best hands of two arrangements of the same cards are worth
/// the same.
pub proof fn lemma_best_hand_reorder(a: Seq<Card>, b: Seq<Card>, ha: Hand, hb: Hand)
    requires
        a.len() == 7,
        b.len() == 7,
        a.to_multiset() == b.to_multiset(),
        is_best_of(ha, a),
        is_best_of(hb, b),
    ensures
        ha.score() == hb.score(),
{
    lemma_best_dominates(a, b, ha, hb);
    lemma_best_dominates(b, a, hb, ha);
    lemma_lex_cmp_flip(ha.score(), hb.score());
}

/// What the strongest five-card hand among the seven cards `all` is worth.
pub open spec fn best_score(all: Seq<Card>) -> Seq<int> {
    choose|sc: Seq<int>| #[trigger] best_worth(all, sc)
}

/// A best hand is worth `best_score`.
pub proof fn lemma_best_score(all: Seq<Card>, h: Hand)
    requires
        is_best_of(h, all),
    ensures
        h.score() == best_score(all),
{
    assert(best_worth(all, h.score()));
    let sc = best_score(all);
    assert(best_worth(all, sc));
    let g = choose|g: Hand| #[trigger] is_best_of(g, all) && g.score() == sc;
    lemma_best_hand_unique(all, g, h);
}

/// A multiset of the same size that holds at least the elements of `e` holds exactly them.
proof fn lemma_multiset_filled(m: Multiset<int>, e: Seq<int>)
    requires
        m.len() == e.len(),
        forall|v: int| #[trigger] e.to_multiset().count(v) <= m.count(v),
    ensures
        m == e.to_multiset(),
{
    broadcast use {vstd::multiset::group_multiset_axioms, vstd::seq_lib::group_to_multiset_ensures};

    let em = e.to_multiset();
    assert(em.subset_of(m));
    assert(m.sub(em).len() == 0);
    assert forall|v: int| m.count(v) == em.count(v) by {
        assert(m.sub(em).count(v) <= m.sub(em).len());
    }
    assert(m =~= em);
}

/// `e` is the canonical arrangement of `s` as soon as it is sorted the canonical way and
/// holds the same rank strengths.
proof fn lemma_canonical_is(s: Seq<Card>, e: Seq<int>)
    requires
        sorted_by(e, order_for(s)),
        e.to_multiset() == values_of(s).to_multiset(),
    ensures
        canonical_values(s) == e,
{
    lemma_order_total(s);
    values_of(s).lemma_sort_by_ensures(order_for(s));
    vstd::seq_lib::lemma_sorted_unique(e, canonical_values(s), order_for(s));
}

/// Two sequences of equal length that agree before index `n` and differ at `n` compare
/// as their elements at `n` do.
pub proof fn lemma_lex_cmp_first_difference(a: Seq<int>, b: Seq<int>, n: int)
    requires
        a.len() == b.len(),
        0 <= n < a.len(),
        forall|i: int| 0 <= i < n ==> a[i] == b[i],
        a[n] != b[n],
    ensures
        lex_cmp(a, b) == (if a[n] < b[n] {
            Ordering::Less
        } else {
            Ordering::Greater
        }),
    decreases n,
{
    if n > 0 {
        lemma_lex_cmp_first_difference(a.drop_first(), b.drop_first(), n - 1);
    }
}

/// The hand order is a strict total order: a hand never ranks below itself, exactly one
/// of less, equal and greater holds, and the order is transitive.
pub proof fn lemma_hand_order_total(a: Hand, b: Hand, c: Hand)
    ensures
        lex_cmp(a.score(), a.score()) == Ordering::Equal,
        (lex_cmp(a.score(), b.score()) == Ordering::Less) == (lex_cmp(b.score(), a.score())
            == Ordering::Greater),
        (lex_cmp(a.score(), b.score()) == Ordering::Equal) == (a.score() == b.score()),
        lex_cmp(a.score(), b.score()) == Ordering::Less && lex_cmp(b.score(), c.score())
            == Ordering::Less ==> lex_cmp(a.score(), c.score()) == Ordering::Less,
{
    lemma_lex_cmp_flip(a.score(), a.score());
    lemma_lex_cmp_flip(a.score(), b.score());
    if lex_cmp(a.score(), b.score()) == Ordering::Less && lex_cmp(b.score(), c.score())
        == Ordering::Less {
        lemma_lex_cmp_trans(a.score(), b.score(), c.score());
    }
}

/// A hand of a higher kind outranks a hand of a lower kind, whatever their ranks.
pub proof fn lemma_higher_kind_wins(a: Hand, b: Hand)
    requires
        kind_index(a.kind) > kind_index(b.kind),
    ensures
        lex_cmp(a.score(), b.score()) == Ordering::Greater,
{
}

/// Two Two-Pairs hands compare by their higher pairs, then by their lower pairs, then
/// by their kickers; with the same pairs the kickers decide.
pub proof fn lemma_two_pairs_order(
    s1: Seq<Card>,
    s2: Seq<Card>,
    high1: int,
    low1: int,
    k1: int,
    high2: int,
    low2: int,
    k2: int,
)
    requires
        s1.len() == 5,
        s2.len() == 5,
        kind_of(s1) == Kind::TwoPairs,
        kind_of(s2) == Kind::TwoPairs,
        2 <= low1 < high1 <= 14,
        2 <= low2 < high2 <= 14,
        rank_count(s1, high1) == 2,
        rank_count(s1, low1) == 2,
        rank_count(s1, k1) == 1,
        rank_count(s2, high2) == 2,
        rank_count(s2, low2) == 2,
        rank_count(s2, k2) == 1,
    ensures
        lex_cmp(hand_score(s1), hand_score(s2)) == if high1 != high2 {
            cmp_int(high1, high2)
        } else if low1 != low2 {
            cmp_int(low1, low2)
        } else {
            cmp_int(k1, k2)
        },
        high1 == high2 && low1 == low2 ==> lex_cmp(hand_score(s1), hand_score(s2)) == cmp_int(
            k1,
            k2,
        ),
{
    lemma_two_pairs_shape(s1, high1, low1, k1);
    lemma_two_pairs_shape(s2, high2, low2, k2);
    let a = hand_score(s1);
    let b = hand_score(s2);
    if high1 != high2 {
        lemma_lex_cmp_first_difference(a, b, 1);
    } else if low1 != low2 {
        lemma_lex_cmp_first_difference(a, b, 3);
    } else if k1 != k2 {
        lemma_lex_cmp_first_difference(a, b, 5);
    } else {
        assert(a =~= b);
        lemma_lex_cmp_flip(a, b);
    }
}

proof fn lemma_two_pairs_shape(s: Seq<Card>, high: int, low: int, k: int)
    requires
        s.len() == 5,
        2 <= low < high <= 14,
        rank_count(s, high) == 2,
        rank_count(s, low) == 2,
        rank_count(s, k) == 1,
    ensures
        canonical_values(s) == seq![high, high, low, low, k],
{
    broadcast use {vstd::multiset::group_multiset_axioms, vstd::seq_lib::group_to_multiset_ensures};

    let e = seq![high, high, low, low, k];
    lemma_rank_count_bounds(s, k);
    values_of(s).to_multiset_ensures();
    assert(e.to_multiset() =~= Multiset::empty().insert(high).insert(high).insert(low).insert(
        low,
    ).insert(k)) by {
        assert(e =~= seq![high, high, low, low].push(k));
        assert(seq![high, high, low, low] =~= seq![high, high, low].push(low));
        assert(seq![high, high, low] =~= seq![high, high].push(low));
        assert(seq![high, high] =~= seq![high].push(high));
        assert(seq![high] =~= Seq::<int>::empty().push(high));
    }
    lemma_multiset_filled(values_of(s).to_multiset(), e);
    assert(!is_wheel(s));
    lemma_canonical_is(s, e);
}

/// Two Full Houses compare by their triplets first, then by their pairs, whichever of a
/// hand's triplet and pair ranks higher; equal triplets and pairs compare equal.
pub proof fn lemma_full_house_order(s1: Seq<Card>, s2: Seq<Card>, trips1: int, pair1: int, trips2: int, pair2: int)
    requires
        s1.len() == 5,
        s2.len() == 5,
        kind_of(s1) == Kind::FullHouse,
        kind_of(s2) == Kind::FullHouse,
        rank_count(s1, trips1) == 3,
        rank_count(s1, pair1) == 2,
        rank_count(s2, trips2) == 3,
        rank_count(s2, pair2) == 2,
    ensures
        lex_cmp(hand_score(s1), hand_score(s2)) == if trips1 != trips2 {
            cmp_int(trips1, trips2)
        } else {
            cmp_int(pair1, pair2)
        },
{
    lemma_full_house_shape(s1, trips1, pair1);
    lemma_full_house_shape(s2, trips2, pair2);
    let a = hand_score(s1);
    let b = hand_score(s2);
    if trips1 != trips2 {
        lemma_lex_cmp_first_difference(a, b, 1);
    } else if pair1 != pair2 {
        lemma_lex_cmp_first_difference(a, b, 4);
    } else {
        assert(a =~= b);
        lemma_lex_cmp_flip(a, b);
    }
}

proof fn lemma_full_house_shape(s: Seq<Card>, t: int, p: int)
    requires
        s.len() == 5,
        rank_count(s, t) == 3,
        rank_count(s, p) == 2,
    ensures
        canonical_values(s) == seq![t, t, t, p, p],
{
    broadcast use {vstd::multiset::group_multiset_axioms, vstd::seq_lib::group_to_multiset_ensures};

    let e = seq![t, t, t, p, p];
    lemma_rank_count_bounds(s, t);
    lemma_rank_count_bounds(s, p);
    values_of(s).to_multiset_ensures();
    assert(e.to_multiset() =~= Multiset::empty().insert(t).insert(t).insert(t).insert(p).insert(
        p,
    )) by {
        assert(e =~= seq![t, t, t, p].push(p));
        assert(seq![t, t, t, p] =~= seq![t, t, t].push(p));
        assert(seq![t, t, t] =~= seq![t, t].push(t));
        assert(seq![t, t] =~= seq![t].push(t));
        assert(seq![t] =~= Seq::<int>::empty().push(t));
    }
    lemma_multiset_filled(values_of(s).to_multiset(), e);
    assert(!is_wheel(s));
    lemma_canonical_is(s, e);
}

/// The wheel (ace, two, three, four, five) is arranged five, four, three, two, ace; it
/// ranks below every other straight, and above every hand of a kind below Straight.
pub proof fn lemma_wheel_order(wheel: Seq<Card>, straight: Seq<Card>, top: int, other: Seq<Card>)
    requires
        wheel.len() == 5,
        straight.len() == 5,
        is_wheel(wheel),
        6 <= top <= 14,
        has_run(straight, top),
        kind_of(wheel) == Kind::Straight,
        kind_of(straight) == Kind::Straight,
        kind_index(kind_of(other)) < kind_index(Kind::Straight),
    ensures
        canonical_values(wheel) == seq![5int, 4, 3, 2, 14],
        lex_cmp(hand_score(wheel), hand_score(straight)) == Ordering::Less,
        lex_cmp(hand_score(wheel), hand_score(other)) == Ordering::Greater,
{
    lemma_wheel_shape(wheel);
    lemma_straight_shape(straight, top);
    lemma_lex_cmp_first_difference(hand_score(wheel), hand_score(straight), 1);
}

proof fn lemma_wheel_shape(wheel: Seq<Card>)
    requires
        wheel.len() == 5,
        is_wheel(wheel),
    ensures
        canonical_values(wheel) == seq![5int, 4, 3, 2, 14],
{
    broadcast use {vstd::multiset::group_multiset_axioms, vstd::seq_lib::group_to_multiset_ensures};

    let e = seq![5int, 4, 3, 2, 14];
    values_of(wheel).to_multiset_ensures();
    assert(e.to_multiset() =~= Multiset::empty().insert(5int).insert(4int).insert(3int).insert(
        2int,
    ).insert(14int)) by {
        assert(e =~= seq![5int, 4, 3, 2].push(14int));
        assert(seq![5int, 4, 3, 2] =~= seq![5int, 4, 3].push(2int));
        assert(seq![5int, 4, 3] =~= seq![5int, 4].push(3int));
        assert(seq![5int, 4] =~= seq![5int].push(4int));
        assert(seq![5int] =~= Seq::<int>::empty().push(5int));
    }
    lemma_multiset_filled(values_of(wheel).to_multiset(), e);
    lemma_canonical_is(wheel, e);
}

proof fn lemma_straight_shape(straight: Seq<Card>, top: int)
    requires
        straight.len() == 5,
        6 <= top <= 14,
        has_run(straight, top),
    ensures
        canonical_values(straight) == seq![top, top - 1, top - 2, top - 3, top - 4],
{
    broadcast use {vstd::multiset::group_multiset_axioms, vstd::seq_lib::group_to_multiset_ensures};

    let f = seq![top, top - 1, top - 2, top - 3, top - 4];
    values_of(straight).to_multiset_ensures();
    let m = Multiset::empty().insert(top).insert(top - 1).insert(top - 2).insert(top - 3).insert(
        top - 4,
    );
    assert(f.to_multiset() =~= m) by {
        assert(f =~= seq![top, top - 1, top - 2, top - 3].push(top - 4));
        assert(seq![top, top - 1, top - 2, top - 3] =~= seq![top, top - 1, top - 2].push(top - 3));
        assert(seq![top, top - 1, top - 2] =~= seq![top, top - 1].push(top - 2));
        assert(seq![top, top - 1] =~= seq![top].push(top - 1));
        assert(seq![top] =~= Seq::<int>::empty().push(top));
    }
    lemma_multiset_filled(values_of(straight).to_multiset(), f);
    if top == 6 {
        assert(m.count(14) == 0);
        assert(rank_count(straight, 14) == 0);
    } else {
        assert(m.count(2) == 0);
        assert(rank_count(straight, 2) == 0);
    }
    assert(!is_wheel(straight));
    lemma_canonical_is(straight, f);
}

impl PartialEq for Hand {
    fn eq(&self, other: &Hand) -> (r: bool) {
        proof {
            lemma_lex_cmp_flip(self.score(), other.score());
        }
        match self.compare(other) {
            Ordering::Equal => true,
            _ => false,
        }
    }
}

impl vstd::std_specs::cmp::PartialEqSpecImpl for Hand {
    open spec fn obeys_eq_spec() -> bool {
        true
    }

    open spec fn eq_spec(&self, other: &Hand) -> bool {
        self.score() == other.score()
    }
}

impl Eq for Hand {

}

impl PartialOrd for Hand {
    fn partial_cmp(&self, other: &Hand) -> (r: Option<Ordering>) {
        Some(self.compare(other))
    }
}

impl vstd::std_specs::cmp::PartialOrdSpecImpl for Hand {
    open spec fn obeys_partial_cmp_spec() -> bool {
        true
    }

    open spec fn partial_cmp_spec(&self, other: &Hand) -> Option<Ordering> {
        Some(lex_cmp(self.score(), other.score()))
    }
}

} // verus!
