//! The game itself: the players, the table, and the five validated actions
//! (draw, flip, trade, buy, leap) with the end-of-turn eligibility check.

use vstd::prelude::*;
use vstd::multiset::Multiset;

use crate::card::{deck_all_value, prev_of, succ_of, tier_of, Card, Color, Value, ValueOrMonad};
use crate::player::{spec_can_take_bonus, spec_trade_value, Player, PlayerView};
use crate::table::{lemma_draw_spec, lemma_return_spec, Table, TableView};

verus! {

/// The supported table sizes.
#[derive(Clone, Copy, PartialEq, Eq, Structural, Debug)]
pub enum NumPlayers {
    Two,
    Three,
    Four,
}

impl NumPlayers {
    pub open spec fn spec_count(self) -> usize {
        match self {
            NumPlayers::Two => 2,
            NumPlayers::Three => 3,
            NumPlayers::Four => 4,
        }
    }

    /// The number of seats as an integer.
    #[verifier::when_used_as_spec(spec_count)]
    pub fn count(self) -> (n: usize)
        ensures
            n == self.spec_count(),
    {
        match self {
            NumPlayers::Two => 2,
            NumPlayers::Three => 3,
            NumPlayers::Four => 4,
        }
    }

    /// The table size for a given player count; only 2, 3 and 4 are playable.
    pub fn try_from_count(n: usize) -> (r: Option<NumPlayers>)
        ensures
            r matches Some(np) ==> np.spec_count() == n,
            r is None <==> !(2 <= n <= 4),
    {
        match n {
            2 => Some(NumPlayers::Two),
            3 => Some(NumPlayers::Three),
            4 => Some(NumPlayers::Four),
            _ => None,
        }
    }
}

/// Why the discard pile could not be flipped back into the common deck.
#[derive(Clone, Copy, PartialEq, Eq, Structural, Debug)]
pub enum FlipError {
    /// There is nothing to reclaim.
    EmptyDiscardPile,
    /// Flipping is only meaningful once the common supply is exhausted.
    NonEmptyCommonDeck,
}

/// Why a leap was rejected.
#[derive(Clone, Copy, PartialEq, Eq, Structural, Debug)]
pub enum LeapError {
    /// A leap trades in 4, 5 or 6 cards; this many were selected.
    NumOfCards(usize),
    /// Every card traded in must be a Common.
    NotAllCommons,
    /// The target tier's deck is empty.
    OutOfCards(Value),
}

/// What a trade yielded.
#[derive(Clone, Copy, PartialEq, Eq, Structural, Debug)]
pub enum TradeOutcome {
    /// This many cards were drawn (the primary draw plus any bonus cards).
    Cards(usize),
    /// The primary award was a Monad token.
    Monad,
}

/// Why a trade was rejected.
#[derive(Clone, Copy, PartialEq, Eq, Structural, Debug)]
pub enum TradeError {
    /// The tier to be drawn from is out of cards.
    OutOfCards(Value),
    /// Both cards are warm or both are cold.
    SameTemperature,
    /// The cards neither share a value nor does one match the identity color.
    NotSameValueOrIdentity,
}

/// Why a buy was rejected.
#[derive(Clone, Copy, PartialEq, Eq, Structural, Debug)]
pub enum BuyError {
    /// A single paying card is worth as much as, or more than, the target.
    SameValue,
    /// The paying cards together fall short of the target's cost.
    NotEnoughPoints,
    /// The target deck, or the Monad pool, is out of cards.
    OutOfCards(crate::card::ValueOrMonad),
}

/// Mathematical view of a whole game: the player views in turn order and
/// the table view.
#[verifier::ext_equal]
pub struct GameView {
    pub players: Seq<PlayerView>,
    pub table: TableView,
}

/// The game owns the players (in turn order) and the table.
pub struct Game {
    pub players: Vec<Player>,
    pub table: Table,
}

impl View for Game {
    type V = GameView;

    open spec fn view(&self) -> GameView {
        GameView { players: self.players@.map_values(|p: Player| p@), table: self.table@ }
    }
}

/// The multiset of all cards held in the given hands.
pub open spec fn hands_cards(ps: Seq<PlayerView>) -> Multiset<Card>
    decreases ps.len(),
{
    if ps.len() == 0 {
        Multiset::<Card>::empty()
    } else {
        hands_cards(ps.drop_last()).add(ps.last().hand.to_multiset())
    }
}

/// The total number of Monads the given players have collected.
pub open spec fn monads_sum(ps: Seq<PlayerView>) -> nat
    decreases ps.len(),
{
    if ps.len() == 0 {
        0
    } else {
        monads_sum(ps.drop_last()) + ps.last().monads
    }
}

/// The multiset of all cards in the game, on the table and in every hand.
/// No action creates or destroys a card, so this is an invariant of play.
pub open spec fn cards_ms(g: GameView) -> Multiset<Card> {
    g.table.cards().add(hands_cards(g.players))
}

/// The table's Monad pool plus every Monad already awarded to a player.
/// Awarded Monads are never returned, so this too is an invariant of play.
pub open spec fn monad_total(g: GameView) -> nat {
    g.table.monads + monads_sum(g.players)
}

/// Replacing one player's view changes the totals by exactly the difference
/// between the old and the new view.
pub proof fn lemma_hands_update(ps: Seq<PlayerView>, i: int, p: PlayerView)
    requires
        0 <= i < ps.len(),
    ensures
        hands_cards(ps.update(i, p)).add(ps[i].hand.to_multiset()) == hands_cards(ps).add(
            p.hand.to_multiset(),
        ),
        monads_sum(ps.update(i, p)) + ps[i].monads == monads_sum(ps) + p.monads,
    decreases ps.len(),
{
    let ups = ps.update(i, p);
    if i == ps.len() - 1 {
        assert(ups.drop_last() =~= ps.drop_last());
        assert(hands_cards(ups).add(ps[i].hand.to_multiset()) =~= hands_cards(ps).add(
            p.hand.to_multiset(),
        ));
    } else {
        assert(ups.drop_last() =~= ps.drop_last().update(i, p));
        lemma_hands_update(ps.drop_last(), i, p);
        assert(ups.last() == ps.last());
        assert(ps.drop_last()[i] == ps[i]);
        assert forall|x: Card|
            hands_cards(ups).add(ps[i].hand.to_multiset()).count(x) == hands_cards(ps).add(
                p.hand.to_multiset(),
            ).count(x) by {
            assert(hands_cards(ups.drop_last()).add(ps.drop_last()[i].hand.to_multiset()).count(x)
                == hands_cards(ps.drop_last()).add(p.hand.to_multiset()).count(x));
        }
        assert(hands_cards(ups).add(ps[i].hand.to_multiset()) =~= hands_cards(ps).add(
            p.hand.to_multiset(),
        ));
    }
}

/// If one action leaves every other player alone and only moves cards and
/// Monads between the table and the acting player, the game-wide totals are
/// unchanged.
pub proof fn lemma_lift_conservation(g0: GameView, g1: GameView, i: int)
    requires
        0 <= i < g0.players.len(),
        g1.players.len() == g0.players.len(),
        g1.players == g0.players.update(i, g1.players[i]),
        g1.table.cards().add(g1.players[i].hand.to_multiset()) == g0.table.cards().add(
            g0.players[i].hand.to_multiset(),
        ),
        g1.table.monads + g1.players[i].monads == g0.table.monads + g0.players[i].monads,
    ensures
        cards_ms(g1) == cards_ms(g0),
        monad_total(g1) == monad_total(g0),
{
    broadcast use vstd::multiset::group_multiset_axioms;

    lemma_hands_update(g0.players, i, g1.players[i]);
    assert(hands_cards(g1.players) == hands_cards(g0.players.update(i, g1.players[i])));
    let a = hands_cards(g1.players);
    let b = hands_cards(g0.players);
    let h1 = g1.players[i].hand.to_multiset();
    let h0 = g0.players[i].hand.to_multiset();
    let tc1 = g1.table.cards();
    let tc0 = g0.table.cards();
    assert(a.add(h0) == b.add(h1));
    assert(tc1.add(h1) == tc0.add(h0));
    assert forall|x: Card| cards_ms(g1).count(x) == cards_ms(g0).count(x) by {
        assert(a.add(h0).count(x) == a.count(x) + h0.count(x));
        assert(b.add(h1).count(x) == b.count(x) + h1.count(x));
        assert(tc1.add(h1).count(x) == tc1.count(x) + h1.count(x));
        assert(tc0.add(h0).count(x) == tc0.count(x) + h0.count(x));
        assert(cards_ms(g1).count(x) == tc1.add(a).count(x));
        assert(cards_ms(g0).count(x) == tc0.add(b).count(x));
        assert(tc1.add(a).count(x) == tc1.count(x) + a.count(x));
        assert(tc0.add(b).count(x) == tc0.count(x) + b.count(x));
    }
    assert(cards_ms(g1) =~= cards_ms(g0));
}

/// The tier count of an optional tier, for termination of the bonus walk.
pub open spec fn opt_tier(v: Option<Value>) -> int {
    match v {
        None => 0,
        Some(x) => tier_of(x) + 1,
    }
}

/// One best-effort bonus draw per tier, walking the chain downward from the
/// given tier: each non-empty deck yields its top card into the hand, each
/// empty deck is silently skipped. Yields the new player, the new table,
/// and how many cards were drawn.
pub open spec fn bonus_spec(p: PlayerView, t: TableView, v: Option<Value>) -> (
    PlayerView,
    TableView,
    nat,
)
    decreases opt_tier(v),
{
    match v {
        None => (p, t, 0 as nat),
        Some(x) => {
            let (p1, t1, got): (PlayerView, TableView, nat) = match t.draw_spec(x) {
                None => (p, t, 0 as nat),
                Some((t2, c)) => (PlayerView { hand: p.hand.push(c), ..p }, t2, 1 as nat),
            };
            let (p2, t2b, rest) = bonus_spec(p1, t1, prev_of(x));
            (p2, t2b, (got + rest) as nat)
        },
    }
}

/// The bonus walk only moves cards from the table into the hand: the joint
/// multiset, the Monad counts, and everything else about the player are
/// unchanged, and the count it reports is bounded by the chain's length.
pub proof fn lemma_bonus_spec(p: PlayerView, t: TableView, v: Option<Value>)
    ensures
        ({
            let (p1, t1, n) = bonus_spec(p, t, v);
            &&& t1.cards().add(p1.hand.to_multiset()) == t.cards().add(p.hand.to_multiset())
            &&& t1.monads == t.monads
            &&& p1.monads == p.monads
            &&& p1.identity == p.identity
            &&& p1.took_bonus == p.took_bonus
            &&& p1.hand.len() == p.hand.len() + n
            &&& n <= opt_tier(v)
            &&& (t.wf() ==> t1.wf())
        }),
    decreases opt_tier(v),
{
    broadcast use vstd::seq_lib::group_to_multiset_ensures, vstd::multiset::group_multiset_axioms;

    match v {
        None => {},
        Some(x) => {
            lemma_draw_spec(t, x);
            match t.draw_spec(x) {
                None => {
                    lemma_bonus_spec(p, t, prev_of(x));
                },
                Some((t2, c)) => {
                    let p1 = PlayerView { hand: p.hand.push(c), ..p };
                    assert(t2.cards().add(p1.hand.to_multiset()) =~= t.cards().add(
                        p.hand.to_multiset(),
                    ));
                    lemma_bonus_spec(p1, t2, prev_of(x));
                },
            }
        },
    }
}

/// Removing the selected hand positions, highest first, and returning each
/// card to the table. The positions must be strictly ascending and in range.
pub open spec fn remove_return_spec(p: PlayerView, t: TableView, idxs: Seq<usize>) -> (
    PlayerView,
    TableView,
)
    decreases idxs.len(),
{
    if idxs.len() == 0 {
        (p, t)
    } else {
        let i = idxs.last() as int;
        let c = p.hand[i];
        remove_return_spec(
            PlayerView { hand: p.hand.remove(i), ..p },
            t.return_spec(c),
            idxs.drop_last(),
        )
    }
}

/// Strictly ascending positions, all below the given bound.
pub open spec fn idxs_valid(idxs: Seq<usize>, len: nat) -> bool {
    &&& forall|k: int| 0 <= k < idxs.len() ==> #[trigger] idxs[k] < len
    &&& forall|k1: int, k2: int| 0 <= k1 < k2 < idxs.len() ==> idxs[k1] < idxs[k2]
}

/// Returning the selected cards moves them from the hand to the table: the
/// joint multiset, the Monad counts, and everything else about the player
/// are unchanged, and the hand shrinks by exactly the selection.
pub proof fn lemma_remove_return_spec(p: PlayerView, t: TableView, idxs: Seq<usize>)
    requires
        idxs_valid(idxs, p.hand.len()),
    ensures
        ({
            let (p1, t1) = remove_return_spec(p, t, idxs);
            &&& t1.cards().add(p1.hand.to_multiset()) == t.cards().add(p.hand.to_multiset())
            &&& t1.monads == t.monads
            &&& p1.monads == p.monads
            &&& p1.identity == p.identity
            &&& p1.took_bonus == p.took_bonus
            &&& p1.hand.len() == p.hand.len() - idxs.len()
            &&& (t.wf() ==> t1.wf())
        }),
    decreases idxs.len(),
{
    broadcast use vstd::seq_lib::group_to_multiset_ensures, vstd::multiset::group_multiset_axioms;

    if idxs.len() > 0 {
        let i = idxs.last() as int;
        let c = p.hand[i];
        let pm = PlayerView { hand: p.hand.remove(i), ..p };
        let tm = t.return_spec(c);
        lemma_return_spec(t, c);
        assert(idxs_valid(idxs.drop_last(), pm.hand.len())) by {
            assert(forall|k: int|
                0 <= k < idxs.len() - 1 ==> #[trigger] idxs[k] < idxs[idxs.len() - 1]);
        }
        lemma_remove_return_spec(pm, tm, idxs.drop_last());
        assert(tm.cards().add(pm.hand.to_multiset()) =~= t.cards().add(p.hand.to_multiset()));
    }
}

/// The whole trade action on one player and the table. On a compatible pair
/// the successor tier's top card is drawn (or, above Quint, a Monad is taken
/// from the pool); a requested and deserved bonus walks the predecessor
/// chain best-effort and sets the bonus flag; finally the two traded cards
/// leave the hand, highest position first, and return to the table.
pub open spec fn trade_spec(
    p: PlayerView,
    t: TableView,
    card1: usize,
    card2: usize,
    bonus: bool,
) -> Result<(PlayerView, TableView, nat, bool), TradeError> {
    match spec_trade_value(p.identity, p.hand[card1 as int], p.hand[card2 as int]) {
        Err(e) => Err(e),
        Ok(v) => {
            let canb = bonus && spec_can_take_bonus(
                p,
                p.hand[card1 as int],
                p.hand[card2 as int],
            );
            let lo = if card1 < card2 { card1 } else { card2 };
            let hi = if card1 < card2 { card2 } else { card1 };
            match succ_of(v) {
                Some(sv) => match t.draw_spec(sv) {
                    None => Err(TradeError::OutOfCards(sv)),
                    Some((t1, c)) => {
                        let p1 = PlayerView { hand: p.hand.push(c), ..p };
                        let (p2, t2, nb): (PlayerView, TableView, nat) = if canb {
                            let (pb, tb, n) = bonus_spec(p1, t1, prev_of(v));
                            (PlayerView { took_bonus: true, ..pb }, tb, n)
                        } else {
                            (p1, t1, 0 as nat)
                        };
                        let (p3, t3) = remove_return_spec(p2, t2, seq![lo, hi]);
                        Ok((p3, t3, (1 + nb) as nat, false))
                    },
                },
                None => {
                    let t1 = TableView {
                        monads: if t.monads > 0 {
                            (t.monads - 1) as nat
                        } else {
                            0
                        },
                        ..t
                    };
                    let p1 = PlayerView { monads: p.monads + 1, ..p };
                    let (p2, t2, nb): (PlayerView, TableView, nat) = if canb {
                        let (pb, tb, n) = bonus_spec(p1, t1, prev_of(v));
                        (PlayerView { took_bonus: true, ..pb }, tb, n)
                    } else {
                        (p1, t1, 0 as nat)
                    };
                    let (p3, t3) = remove_return_spec(p2, t2, seq![lo, hi]);
                    Ok((p3, t3, nb, true))
                },
            }
        },
    }
}

/// A successful trade conserves cards and Monads between the table and the
/// acting player, keeps the table well-formed, and sets the bonus flag
/// exactly when a deserved bonus was requested.
pub proof fn lemma_trade_spec(p: PlayerView, t: TableView, card1: usize, card2: usize, bonus: bool)
    requires
        card1 < p.hand.len(),
        card2 < p.hand.len(),
        (spec_trade_value(p.identity, p.hand[card1 as int], p.hand[card2 as int]) matches Ok(v)
            && succ_of(v) is None) ==> t.monads > 0,
    ensures
        trade_spec(p, t, card1, card2, bonus) matches Ok((p1, t1, n, m)) ==> {
            &&& t1.cards().add(p1.hand.to_multiset()) == t.cards().add(p.hand.to_multiset())
            &&& t1.monads + p1.monads == t.monads + p.monads
            &&& (t.wf() ==> t1.wf())
            &&& p1.identity == p.identity
            &&& p1.took_bonus == (p.took_bonus || (bonus && spec_can_take_bonus(
                p,
                p.hand[card1 as int],
                p.hand[card2 as int],
            )))
            &&& n <= 5
        },
{
    broadcast use vstd::seq_lib::group_to_multiset_ensures, vstd::multiset::group_multiset_axioms;

    let tv = spec_trade_value(p.identity, p.hand[card1 as int], p.hand[card2 as int]);
    if tv is Ok {
        let v = tv->Ok_0;
        let canb = bonus && spec_can_take_bonus(p, p.hand[card1 as int], p.hand[card2 as int]);
        let lo = if card1 < card2 { card1 } else { card2 };
        let hi = if card1 < card2 { card2 } else { card1 };
        // A compatible pair never shares a position: the same card would
        // share its own temperature.
        assert(card1 != card2);
        match succ_of(v) {
            Some(sv) => {
                lemma_draw_spec(t, sv);
                match t.draw_spec(sv) {
                    None => {},
                    Some((t1, c)) => {
                        let p1 = PlayerView { hand: p.hand.push(c), ..p };
                        assert(t1.cards().add(p1.hand.to_multiset()) =~= t.cards().add(
                            p.hand.to_multiset(),
                        ));
                        let (p2, t2, nb): (PlayerView, TableView, nat) = if canb {
                            let (pb, tb, n) = bonus_spec(p1, t1, prev_of(v));
                            (PlayerView { took_bonus: true, ..pb }, tb, n)
                        } else {
                            (p1, t1, 0 as nat)
                        };
                        lemma_bonus_spec(p1, t1, prev_of(v));
                        assert(idxs_valid(seq![lo, hi], p2.hand.len()));
                        lemma_remove_return_spec(p2, t2, seq![lo, hi]);
                    },
                }
            },
            None => {
                let t1 = TableView {
                    monads: if t.monads > 0 {
                        (t.monads - 1) as nat
                    } else {
                        0
                    },
                    ..t
                };
                let p1 = PlayerView { monads: p.monads + 1, ..p };
                assert(t1.cards() =~= t.cards());
                let (p2, t2, nb): (PlayerView, TableView, nat) = if canb {
                    let (pb, tb, n) = bonus_spec(p1, t1, prev_of(v));
                    (PlayerView { took_bonus: true, ..pb }, tb, n)
                } else {
                    (p1, t1, 0 as nat)
                };
                lemma_bonus_spec(p1, t1, prev_of(v));
                assert(idxs_valid(seq![lo, hi], p2.hand.len()));
                lemma_remove_return_spec(p2, t2, seq![lo, hi]);
            },
        }
    }
}

/// One best-effort draw per tier, walking the chain downward; the verified
/// twin of `bonus_spec`.
fn bonus_step(p: &mut Player, t: &mut Table, v: Option<Value>) -> (n: usize)
    ensures
        final(p)@ == bonus_spec(old(p)@, old(t)@, v).0,
        final(t)@ == bonus_spec(old(p)@, old(t)@, v).1,
        n as nat == bonus_spec(old(p)@, old(t)@, v).2,
        n <= opt_tier(v),
    decreases opt_tier(v),
{
    match v {
        None => 0,
        Some(x) => {
            let got: usize = match p.draw_card(x, t) {
                Some(_) => 1,
                None => 0,
            };
            let rest = bonus_step(p, t, x.prev());
            got + rest
        },
    }
}

/// The selected positions in ascending order.
pub open spec fn sorted_asc(s: Seq<usize>) -> Seq<usize> {
    s.sort_by(|x: usize, y: usize| x <= y)
}

/// Sorting positions keeps exactly the given positions and orders them.
pub proof fn lemma_sorted_asc(s: Seq<usize>)
    ensures
        sorted_asc(s).to_multiset() == s.to_multiset(),
        sorted_asc(s).len() == s.len(),
        vstd::relations::sorted_by(sorted_asc(s), |x: usize, y: usize| x <= y),
{
    broadcast use vstd::seq_lib::group_to_multiset_ensures;

    assert(vstd::relations::total_ordering(|x: usize, y: usize| x <= y));
    s.lemma_sort_by_ensures(|x: usize, y: usize| x <= y);
    assert(sorted_asc(s).to_multiset().len() == s.to_multiset().len());
}

/// Sorting a duplicate-free, in-range selection yields a strictly ascending,
/// in-range selection of exactly the same positions.
pub proof fn lemma_sorted_asc_valid(s: Seq<usize>, len: nat)
    requires
        s.no_duplicates(),
        forall|k: int| 0 <= k < s.len() ==> #[trigger] s[k] < len,
    ensures
        idxs_valid(sorted_asc(s), len),
        sorted_asc(s).to_multiset() == s.to_multiset(),
        sorted_asc(s).len() == s.len(),
{
    broadcast use vstd::seq_lib::group_to_multiset_ensures;

    lemma_sorted_asc(s);
    let srt = sorted_asc(s);
    crate::card::lemma_permutation_keeps_no_duplicates(s, srt);
    assert forall|k: int| 0 <= k < srt.len() implies #[trigger] srt[k] < len by {
        assert(srt.contains(srt[k]));
        assert(srt.to_multiset().count(srt[k]) > 0);
        assert(s.contains(srt[k]));
    }
    assert forall|k1: int, k2: int| 0 <= k1 < k2 < srt.len() implies srt[k1] < srt[k2] by {
        assert((|x: usize, y: usize| x <= y)(srt[k1], srt[k2]));
    }
}

/// Any sorted arrangement of the same positions is the ascending one.
pub proof fn lemma_sorted_is_sorted_asc(a: Seq<usize>, s: Seq<usize>)
    requires
        a.to_multiset() == s.to_multiset(),
        vstd::relations::sorted_by(a, |x: usize, y: usize| x <= y),
    ensures
        a == sorted_asc(s),
{
    lemma_sorted_asc(s);
    assert(vstd::relations::total_ordering(|x: usize, y: usize| x <= y));
    vstd::seq_lib::lemma_sorted_unique(a, sorted_asc(s), |x: usize, y: usize| x <= y);
}

/// Combined point value of the selected hand positions.
pub open spec fn points_sum(hand: Seq<Card>, idxs: Seq<usize>) -> int
    decreases idxs.len(),
{
    if idxs.len() == 0 {
        0
    } else {
        points_sum(hand, idxs.drop_last()) + crate::card::points_of(
            hand[idxs.last() as int].value,
        )
    }
}

/// Largest single point value among the selected hand positions (0 when
/// nothing is selected).
pub open spec fn points_max(hand: Seq<Card>, idxs: Seq<usize>) -> int
    decreases idxs.len(),
{
    if idxs.len() == 0 {
        0
    } else {
        let m = points_max(hand, idxs.drop_last());
        let x = crate::card::points_of(hand[idxs.last() as int].value);
        if x > m {
            x
        } else {
            m
        }
    }
}

/// The whole buy action on one player and the table, over the selection in
/// ascending position order. No single paying card may be worth the target's
/// cost, the cards together must cover it; then the target's top card is
/// drawn (or a Monad taken from the pool) and the paying cards leave the
/// hand, highest position first, returning to the table.
pub open spec fn buy_spec(
    p: PlayerView,
    t: TableView,
    idxs: Seq<usize>,
    target: ValueOrMonad,
) -> Result<(PlayerView, TableView, bool), BuyError> {
    let cost = crate::card::vm_points_of(target);
    if points_max(p.hand, idxs) >= cost {
        Err(BuyError::SameValue)
    } else if points_sum(p.hand, idxs) < cost {
        Err(BuyError::NotEnoughPoints)
    } else {
        match target {
            ValueOrMonad::Value(v) => match t.draw_spec(v) {
                None => Err(BuyError::OutOfCards(target)),
                Some((t1, c)) => {
                    let p1 = PlayerView { hand: p.hand.push(c), ..p };
                    let (p2, t2) = remove_return_spec(p1, t1, idxs);
                    Ok((p2, t2, true))
                },
            },
            ValueOrMonad::Monad => {
                if t.monads == 0 {
                    Err(BuyError::OutOfCards(target))
                } else {
                    let p1 = PlayerView { monads: p.monads + 1, ..p };
                    let t1 = TableView { monads: (t.monads - 1) as nat, ..t };
                    let (p2, t2) = remove_return_spec(p1, t1, idxs);
                    Ok((p2, t2, false))
                }
            },
        }
    }
}

/// A successful buy conserves cards, moves at most one Monad from the pool
/// to the player, and keeps the table well-formed.
pub proof fn lemma_buy_spec(p: PlayerView, t: TableView, idxs: Seq<usize>, target: ValueOrMonad)
    requires
        idxs_valid(idxs, p.hand.len()),
    ensures
        buy_spec(p, t, idxs, target) matches Ok((p1, t1, drew)) ==> {
            &&& t1.cards().add(p1.hand.to_multiset()) == t.cards().add(p.hand.to_multiset())
            &&& t1.monads + p1.monads == t.monads + p.monads
            &&& (t.wf() ==> t1.wf())
            &&& p1.identity == p.identity
            &&& p1.took_bonus == p.took_bonus
        },
{
    broadcast use vstd::seq_lib::group_to_multiset_ensures, vstd::multiset::group_multiset_axioms;

    let cost = crate::card::vm_points_of(target);
    if points_max(p.hand, idxs) < cost && points_sum(p.hand, idxs) >= cost {
        match target {
            ValueOrMonad::Value(v) => {
                lemma_draw_spec(t, v);
                match t.draw_spec(v) {
                    None => {},
                    Some((t1, c)) => {
                        let p1 = PlayerView { hand: p.hand.push(c), ..p };
                        assert(t1.cards().add(p1.hand.to_multiset()) =~= t.cards().add(
                            p.hand.to_multiset(),
                        ));
                        lemma_remove_return_spec(p1, t1, idxs);
                    },
                }
            },
            ValueOrMonad::Monad => {
                if t.monads > 0 {
                    let p1 = PlayerView { monads: p.monads + 1, ..p };
                    let t1 = TableView { monads: (t.monads - 1) as nat, ..t };
                    assert(t1.cards() =~= t.cards());
                    lemma_remove_return_spec(p1, t1, idxs);
                }
            },
        }
    }
}

/// The whole leap action on one player and the table, over the selection in
/// ascending position order: 4 to 6 selected Common cards trade directly for
/// the top card of the mapped tier (4 to Tri, 5 to Quad, 6 to Quint); the
/// selected Commons return to the discard pile.
pub open spec fn leap_spec(p: PlayerView, t: TableView, idxs: Seq<usize>) -> Result<
    (PlayerView, TableView),
    LeapError,
> {
    if idxs.len() < 4 || idxs.len() > 6 {
        Err(LeapError::NumOfCards(idxs.len() as usize))
    } else if exists|k: int|
        0 <= k < idxs.len() && p.hand[#[trigger] idxs[k] as int].value != Value::Common {
        Err(LeapError::NotAllCommons)
    } else {
        let target = if idxs.len() == 4 {
            Value::Tri
        } else if idxs.len() == 5 {
            Value::Quad
        } else {
            Value::Quint
        };
        match t.draw_spec(target) {
            None => Err(LeapError::OutOfCards(target)),
            Some((t1, c)) => {
                let p1 = PlayerView { hand: p.hand.push(c), ..p };
                Ok(remove_return_spec(p1, t1, idxs))
            },
        }
    }
}

/// A successful leap conserves cards, touches no Monads, and keeps the
/// table well-formed.
pub proof fn lemma_leap_spec(p: PlayerView, t: TableView, idxs: Seq<usize>)
    requires
        idxs_valid(idxs, p.hand.len()),
    ensures
        leap_spec(p, t, idxs) matches Ok((p1, t1)) ==> {
            &&& t1.cards().add(p1.hand.to_multiset()) == t.cards().add(p.hand.to_multiset())
            &&& t1.monads + p1.monads == t.monads + p.monads
            &&& (t.wf() ==> t1.wf())
            &&& p1.identity == p.identity
            &&& p1.took_bonus == p.took_bonus
        },
{
    broadcast use vstd::seq_lib::group_to_multiset_ensures, vstd::multiset::group_multiset_axioms;

    if 4 <= idxs.len() <= 6 {
        let target = if idxs.len() == 4 {
            Value::Tri
        } else if idxs.len() == 5 {
            Value::Quad
        } else {
            Value::Quint
        };
        lemma_draw_spec(t, target);
        match t.draw_spec(target) {
            None => {},
            Some((t1, c)) => {
                let p1 = PlayerView { hand: p.hand.push(c), ..p };
                assert(t1.cards().add(p1.hand.to_multiset()) =~= t.cards().add(
                    p.hand.to_multiset(),
                ));
                lemma_remove_return_spec(p1, t1, idxs);
            },
        }
    }
}

/// Removes the selected hand positions, highest first, returning each card
/// to the table; the verified twin of `remove_return_spec`.
fn remove_return_all(p: &mut Player, t: &mut Table, idxs: &Vec<usize>)
    requires
        idxs_valid(idxs@, old(p)@.hand.len()),
    ensures
        final(p)@ == remove_return_spec(old(p)@, old(t)@, idxs@).0,
        final(t)@ == remove_return_spec(old(p)@, old(t)@, idxs@).1,
{
    let ghost p0 = p@;
    let ghost t0 = t@;
    let mut k = idxs.len();
    proof {
        assert(idxs@.take(k as int) =~= idxs@);
    }
    while k > 0
        invariant
            k <= idxs@.len(),
            idxs_valid(idxs@.take(k as int), p@.hand.len()),
            remove_return_spec(p0, t0, idxs@) == remove_return_spec(p@, t@, idxs@.take(k as int)),
        decreases k,
    {
        let ghost pk = p@;
        let ghost tk = t@;
        k = k - 1;
        let i = idxs[k];
        proof {
            assert(idxs@.take(k + 1)[k as int] == i);
        }
        let c = p.hand.remove(i);
        t.return_card(c);
        proof {
            assert(idxs@.take(k + 1).last() == i);
            assert(idxs@.take(k + 1).drop_last() =~= idxs@.take(k as int));
            assert(p@ =~= (PlayerView { hand: pk.hand.remove(i as int), ..pk }));
            assert(remove_return_spec(pk, tk, idxs@.take(k + 1)) == remove_return_spec(
                p@,
                t@,
                idxs@.take(k as int),
            ));
            assert forall|m: int| 0 <= m < k implies #[trigger] idxs@.take(k as int)[m]
                < p@.hand.len() by {
                assert(idxs@.take(k + 1)[m] < idxs@.take(k + 1)[k as int]);
            }
        }
    }
    proof {
        assert(idxs@.take(0) =~= Seq::<usize>::empty());
        assert(remove_return_spec(p@, t@, Seq::<usize>::empty()) == (p@, t@));
    }
}

/// Whether the hand cards individually cheaper than `cost` cover `cost`
/// together; the running sum is capped at 200, above every cost, so it
/// never overflows.
fn affordable_at_least(hand: &crate::card::Deck, cost: usize) -> (r: bool)
    requires
        cost <= 200,
    ensures
        r <==> affordable_sum(hand@, cost as int) >= cost,
{
    let n = hand.len();
    let mut sum: usize = 0;
    let mut k: usize = 0;
    while k < n
        invariant
            k <= n,
            n == hand@.len(),
            affordable_sum(hand@.take(k as int), cost as int) >= 0,
            sum as int == (if affordable_sum(hand@.take(k as int), cost as int) > 200 {
                200int
            } else {
                affordable_sum(hand@.take(k as int), cost as int)
            }),
        decreases n - k,
    {
        let pts = hand.get(k).num();
        proof {
            assert(hand@.take(k + 1).last() == hand@[k as int]);
            assert(hand@.take(k + 1).drop_last() =~= hand@.take(k as int));
        }
        if pts < cost {
            let s2 = sum + pts;
            sum = if s2 > 200 {
                200
            } else {
                s2
            };
        }
        k = k + 1;
    }
    proof {
        assert(hand@.take(n as int) =~= hand@);
    }
    sum >= cost
}

/// How many Common cards the hand holds.
fn count_commons(hand: &crate::card::Deck) -> (n: usize)
    ensures
        n as int == commons_count(hand@),
{
    let hn = hand.len();
    let mut n: usize = 0;
    let mut k: usize = 0;
    while k < hn
        invariant
            k <= hn,
            hn == hand@.len(),
            n <= k,
            n as int == commons_count(hand@.take(k as int)),
        decreases hn - k,
    {
        proof {
            assert(hand@.take(k + 1).last() == hand@[k as int]);
            assert(hand@.take(k + 1).drop_last() =~= hand@.take(k as int));
        }
        if hand.get(k).is_common() {
            n = n + 1;
        }
        k = k + 1;
    }
    proof {
        assert(hand@.take(hn as int) =~= hand@);
    }
    n
}

/// Sorts the positions ascending, in place (insertion sort).
fn sort_indices(v: &mut Vec<usize>)
    ensures
        final(v)@.to_multiset() == old(v)@.to_multiset(),
        vstd::relations::sorted_by(final(v)@, |x: usize, y: usize| x <= y),
{
    let n = v.len();
    let mut i: usize = 1;
    while i < n
        invariant
            1 <= i,
            n == v@.len(),
            v@.to_multiset() == old(v)@.to_multiset(),
            forall|a: int, b: int| 0 <= a < b < i ==> v@[a] <= v@[b],
        decreases n - i,
    {
        let mut j: usize = i;
        while j > 0 && v[j - 1] > v[j]
            invariant
                j <= i < n,
                n == v@.len(),
                v@.to_multiset() == old(v)@.to_multiset(),
                forall|a: int, b: int| 0 <= a < b <= i && b != j ==> v@[a] <= v@[b],
            decreases j,
        {
            let ghost before = v@;
            let tmp = v[j];
            let prev = v[j - 1];
            v.set(j, prev);
            v.set(j - 1, tmp);
            proof {
                broadcast use vstd::seq_lib::group_to_multiset_ensures, vstd::multiset::group_multiset_axioms;

                assert(v@.to_multiset() =~= before.to_multiset());
            }
            j = j - 1;
        }
        i = i + 1;
    }
}

/// Which identity colors a table of the given size may hand out: with two
/// players any 2 of the 6 colors (chosen at random), with three the three
/// cold colors, with four every color but Yellow and Green.
pub open spec fn allowed_identity(np: NumPlayers, c: Color) -> bool {
    match np {
        NumPlayers::Two => true,
        NumPlayers::Three => c == Color::Purple || c == Color::Blue || c == Color::Green,
        NumPlayers::Four => c != Color::Yellow && c != Color::Green,
    }
}

/// A draw is legal while the common deck has cards.
pub open spec fn draw_legal(g: GameView) -> bool {
    g.table.common.len() > 0
}

/// A flip is legal once the common deck is empty and the discard pile is not.
pub open spec fn flip_legal(g: GameView) -> bool {
    g.table.discard.len() > 0 && g.table.common.len() == 0
}

/// Trading the hand cards at positions `i` and `j` would succeed: they are
/// compatible, and the award (the successor tier's deck, or the Monad pool
/// above Quint) is in stock.
pub open spec fn trade_pair_legal(p: PlayerView, t: TableView, i: int, j: int) -> bool {
    match spec_trade_value(p.identity, p.hand[i], p.hand[j]) {
        Ok(v) => match succ_of(v) {
            Some(sv) => t.deck_of(sv).len() > 0,
            None => t.monads > 0,
        },
        Err(_) => false,
    }
}

/// Some pair of hand cards can be traded right now.
pub open spec fn trade_legal(p: PlayerView, t: TableView) -> bool {
    exists|i: int, j: int| 0 <= i < j < p.hand.len() && trade_pair_legal(p, t, i, j)
}

/// A pair the advisory check calls legal really does trade: the trade on
/// those two positions succeeds.
pub proof fn lemma_trade_pair_legal_trades(
    p: PlayerView,
    t: TableView,
    i: usize,
    j: usize,
    bonus: bool,
)
    requires
        i < j < p.hand.len(),
        trade_pair_legal(p, t, i as int, j as int),
    ensures
        trade_spec(p, t, i, j, bonus) is Ok,
{
}

/// Combined point value of the hand cards individually cheaper than `cost`.
/// Exactly these cards form the best legal payment toward a target of that
/// cost: a legal payment may only use cards below the cost, and adding every
/// such card only raises the total.
pub open spec fn affordable_sum(hand: Seq<Card>, cost: int) -> int
    decreases hand.len(),
{
    if hand.len() == 0 {
        0
    } else {
        affordable_sum(hand.drop_last(), cost) + (if crate::card::points_of(hand.last().value)
            < cost {
            crate::card::points_of(hand.last().value)
        } else {
            0
        })
    }
}

/// The target's deck, or the Monad pool, has something left to give.
pub open spec fn target_available(t: TableView, vm: ValueOrMonad) -> bool {
    match vm {
        ValueOrMonad::Value(v) => t.deck_of(v).len() > 0,
        ValueOrMonad::Monad => t.monads > 0,
    }
}

/// Some selection of hand cards can buy this target right now: the target is
/// in stock and the cards cheaper than its cost cover the cost together.
pub open spec fn buy_target_legal(p: PlayerView, t: TableView, vm: ValueOrMonad) -> bool {
    target_available(t, vm) && affordable_sum(p.hand, crate::card::vm_points_of(vm))
        >= crate::card::vm_points_of(vm)
}

/// The positions of every hand card cheaper than `cost`, in ascending order:
/// the best legal payment toward a target of that cost.
pub open spec fn cheap_indices(hand: Seq<Card>, cost: int) -> Seq<usize>
    decreases hand.len(),
{
    if hand.len() == 0 {
        Seq::<usize>::empty()
    } else if crate::card::points_of(hand.last().value) < cost {
        cheap_indices(hand.drop_last(), cost).push((hand.len() - 1) as usize)
    } else {
        cheap_indices(hand.drop_last(), cost)
    }
}

/// Point totals over positions that avoid the last card ignore the last card.
proof fn lemma_points_prefix(hand: Seq<Card>, idxs: Seq<usize>)
    requires
        hand.len() > 0,
        forall|k: int| 0 <= k < idxs.len() ==> #[trigger] idxs[k] < hand.len() - 1,
    ensures
        points_sum(hand, idxs) == points_sum(hand.drop_last(), idxs),
        points_max(hand, idxs) == points_max(hand.drop_last(), idxs),
    decreases idxs.len(),
{
    if idxs.len() > 0 {
        lemma_points_prefix(hand, idxs.drop_last());
        assert(hand[idxs.last() as int] == hand.drop_last()[idxs.last() as int]);
    }
}

/// The cheap positions are a valid selection paying exactly the affordable
/// total, with every single card under the cost.
pub proof fn lemma_cheap_indices(hand: Seq<Card>, cost: int)
    requires
        cost >= 1,
        hand.len() <= usize::MAX,
    ensures
        idxs_valid(cheap_indices(hand, cost), hand.len()),
        points_sum(hand, cheap_indices(hand, cost)) == affordable_sum(hand, cost),
        points_max(hand, cheap_indices(hand, cost)) < cost,
    decreases hand.len(),
{
    if hand.len() > 0 {
        lemma_cheap_indices(hand.drop_last(), cost);
        let rest = cheap_indices(hand.drop_last(), cost);
        lemma_points_prefix(hand, rest);
        if crate::card::points_of(hand.last().value) < cost {
            let idxs = cheap_indices(hand, cost);
            assert(idxs == rest.push((hand.len() - 1) as usize));
            assert(idxs.drop_last() =~= rest);
            assert(idxs.last() == (hand.len() - 1) as usize);
            assert(hand[idxs.last() as int] == hand.last());
            assert(points_sum(hand, idxs) == points_sum(hand, rest) + crate::card::points_of(
                hand.last().value,
            ));
            assert forall|k1: int, k2: int|
                0 <= k1 < k2 < idxs.len() implies idxs[k1] < idxs[k2] by {
                assert(idxs[k1] == rest[k1]);
                assert(rest[k1] < hand.len() - 1);
                if k2 < idxs.len() - 1 {
                    assert(idxs[k2] == rest[k2]);
                }
            }
            assert(idxs_valid(idxs, hand.len()));
        }
    }
}

/// Whenever the advisory check calls a buy target legal, buying it with
/// exactly the hand's cards cheaper than its cost succeeds.
pub proof fn lemma_buy_target_legal_buys(p: PlayerView, t: TableView, vm: ValueOrMonad)
    requires
        buy_target_legal(p, t, vm),
        p.hand.len() <= usize::MAX,
    ensures
        buy_spec(p, t, cheap_indices(p.hand, crate::card::vm_points_of(vm)), vm) is Ok,
{
    lemma_cheap_indices(p.hand, crate::card::vm_points_of(vm));
}

/// Some target can be bought right now.
pub open spec fn buy_legal(p: PlayerView, t: TableView) -> bool {
    ||| buy_target_legal(p, t, ValueOrMonad::Value(Value::Common))
    ||| buy_target_legal(p, t, ValueOrMonad::Value(Value::Bi))
    ||| buy_target_legal(p, t, ValueOrMonad::Value(Value::Tri))
    ||| buy_target_legal(p, t, ValueOrMonad::Value(Value::Quad))
    ||| buy_target_legal(p, t, ValueOrMonad::Value(Value::Quint))
    ||| buy_target_legal(p, t, ValueOrMonad::Monad)
}

/// How many Common cards the hand holds.
pub open spec fn commons_count(hand: Seq<Card>) -> int
    decreases hand.len(),
{
    if hand.len() == 0 {
        0
    } else {
        commons_count(hand.drop_last()) + (if hand.last().value == Value::Common {
            1int
        } else {
            0
        })
    }
}

/// The positions of every Common card in the hand, in ascending order.
pub open spec fn common_indices(hand: Seq<Card>) -> Seq<usize>
    decreases hand.len(),
{
    if hand.len() == 0 {
        Seq::<usize>::empty()
    } else if hand.last().value == Value::Common {
        common_indices(hand.drop_last()).push((hand.len() - 1) as usize)
    } else {
        common_indices(hand.drop_last())
    }
}

/// The Common positions are a valid selection of exactly the hand's Commons.
pub proof fn lemma_common_indices(hand: Seq<Card>)
    requires
        hand.len() <= usize::MAX,
    ensures
        idxs_valid(common_indices(hand), hand.len()),
        common_indices(hand).len() == commons_count(hand),
        forall|k: int|
            0 <= k < common_indices(hand).len() ==> hand[#[trigger] common_indices(
                hand,
            )[k] as int].value == Value::Common,
    decreases hand.len(),
{
    if hand.len() > 0 {
        lemma_common_indices(hand.drop_last());
        let rest = common_indices(hand.drop_last());
        if hand.last().value == Value::Common {
            let idxs = common_indices(hand);
            assert(idxs == rest.push((hand.len() - 1) as usize));
            assert forall|k1: int, k2: int|
                0 <= k1 < k2 < idxs.len() implies idxs[k1] < idxs[k2] by {
                assert(idxs[k1] == rest[k1]);
                assert(rest[k1] < hand.len() - 1);
                if k2 < idxs.len() - 1 {
                    assert(idxs[k2] == rest[k2]);
                }
            }
            assert(idxs_valid(idxs, hand.len()));
        }
    }
}

/// Whenever the advisory check calls a leap of `k` Commons legal, leaping
/// with the hand's first `k` Common positions succeeds.
pub proof fn lemma_leap_legal_leaps(p: PlayerView, t: TableView, k: int)
    requires
        p.hand.len() <= usize::MAX,
        4 <= k <= 6,
        commons_count(p.hand) >= k,
        t.deck_of(
            if k == 4 {
                Value::Tri
            } else if k == 5 {
                Value::Quad
            } else {
                Value::Quint
            },
        ).len() > 0,
    ensures
        leap_spec(p, t, common_indices(p.hand).take(k)) is Ok,
{
    lemma_common_indices(p.hand);
    let all = common_indices(p.hand);
    let sel = all.take(k);
    assert forall|m: int| 0 <= m < sel.len() implies p.hand[#[trigger] sel[m] as int].value
        == Value::Common by {
        assert(sel[m] == all[m]);
    }
}

/// Some leap is legal right now: the hand holds enough Commons for a count
/// whose target deck is in stock.
pub open spec fn leap_legal(p: PlayerView, t: TableView) -> bool {
    ||| commons_count(p.hand) >= 4 && t.tri.len() > 0
    ||| commons_count(p.hand) >= 5 && t.quad.len() > 0
    ||| commons_count(p.hand) >= 6 && t.quint.len() > 0
}

/// Some action is open to the given player right now.
pub open spec fn any_action_legal(g: GameView, i: int) -> bool {
    ||| draw_legal(g)
    ||| flip_legal(g)
    ||| trade_legal(g.players[i], g.table)
    ||| buy_legal(g.players[i], g.table)
    ||| leap_legal(g.players[i], g.table)
}

/// Every card dealt at setup for `n` players: the Common stock plus one
/// card per color in each of the four higher tiers.
pub open spec fn initial_stock(n: nat) -> Multiset<Card> {
    crate::table::common_stock(n).to_multiset().add(
        crate::table::tier_stock(Value::Bi).to_multiset(),
    ).add(crate::table::tier_stock(Value::Tri).to_multiset()).add(
        crate::table::tier_stock(Value::Quad).to_multiset(),
    ).add(crate::table::tier_stock(Value::Quint).to_multiset())
}

/// Buy cost monotonicity: a purchase accepted for a higher target covers
/// that target's cost, which strictly exceeds every lower target's cost —
/// so buying from a higher tier always takes a strictly higher combined
/// payment — and a selection whose single best card reaches the target's
/// cost is rejected outright.
pub proof fn lemma_buy_cost_monotone(
    p: PlayerView,
    t: TableView,
    idxs: Seq<usize>,
    lower: ValueOrMonad,
    higher: ValueOrMonad,
)
    requires
        crate::card::vm_tier_of(lower) < crate::card::vm_tier_of(higher),
    ensures
        buy_spec(p, t, idxs, higher) is Ok ==> points_sum(p.hand, idxs) >= crate::card::vm_points_of(
            higher,
        ) > crate::card::vm_points_of(lower),
        points_max(p.hand, idxs) >= crate::card::vm_points_of(higher) ==> buy_spec(
            p,
            t,
            idxs,
            higher,
        ) == Err::<(PlayerView, TableView, bool), BuyError>(BuyError::SameValue),
{
    crate::card::lemma_points_strictly_monotone(lower, higher);
}

/// Players who have collected nothing hold no Monads in total.
pub proof fn lemma_monads_sum_zero(ps: Seq<PlayerView>)
    requires
        forall|i: int| 0 <= i < ps.len() ==> (#[trigger] ps[i]).monads == 0,
    ensures
        monads_sum(ps) == 0,
    decreases ps.len(),
{
    if ps.len() > 0 {
        lemma_monads_sum_zero(ps.drop_last());
    }
}

impl Game {
    /// The drawn-card count matches the tier-count map: 4 Commons leap to a
    /// Tri, 5 to a Quad, 6 to a Quint.
    pub fn translate_commons_for_leap(value: usize) -> (r: Value)
        ensures
            value == 4 ==> r == Value::Tri,
            value == 5 ==> r == Value::Quad,
            !(value == 4 || value == 5) ==> r == Value::Quint,
    {
        match value {
            4 => Value::Tri,
            5 => Value::Quad,
            _ => Value::Quint,
        }
    }

    /// Mutable access to a player's per-turn bonus flag, so the collaborator
    /// can reset it at the start of that player's turn.
    pub fn player_took_bonus(&mut self, player: usize) -> (b: &mut bool)
        requires
            player < old(self)@.players.len(),
        ensures
            *b == old(self)@.players[player as int].took_bonus,
            final(self)@.players == old(self)@.players.update(
                player as int,
                PlayerView { took_bonus: *final(b), ..old(self)@.players[player as int] },
            ),
            final(self)@.table == old(self)@.table,
    {
        &mut self.players[player].took_bonus
    }

    /// Draws one Common card from the common deck into the player's hand;
    /// fails exactly when the common deck is empty, changing nothing.
    pub fn draw(&mut self, player: usize) -> (r: Result<(), ()>)
        requires
            player < old(self)@.players.len(),
        ensures
            old(self)@.table.common.len() == 0 ==> r is Err && final(self)@ == old(self)@,
            old(self)@.table.common.len() > 0 ==> r is Ok && final(self)@ == (GameView {
                players: old(self)@.players.update(
                    player as int,
                    PlayerView {
                        hand: old(self)@.players[player as int].hand.push(
                            old(self)@.table.common.last(),
                        ),
                        ..old(self)@.players[player as int]
                    },
                ),
                table: old(self)@.table.with_deck(
                    Value::Common,
                    old(self)@.table.common.drop_last(),
                ),
            }),
            cards_ms(final(self)@) == cards_ms(old(self)@),
            monad_total(final(self)@) == monad_total(old(self)@),
            final(self)@.players.len() == old(self)@.players.len(),
            old(self)@.table.wf() ==> final(self)@.table.wf(),
    {
        let ghost ps0 = self.players@;
        let mut p = self.players.remove(player);
        let r = p.draw_card(Value::Common, &mut self.table);
        self.players.insert(player, p);
        proof {
            broadcast use vstd::seq_lib::group_to_multiset_ensures, vstd::multiset::group_multiset_axioms;

            assert(self.players@ =~= ps0.update(player as int, self.players@[player as int]));
            assert(self@.players =~= old(self)@.players.update(
                player as int,
                self@.players[player as int],
            ));
            lemma_hands_update(old(self)@.players, player as int, self@.players[player as int]);
            lemma_draw_spec(old(self)@.table, Value::Common);
            if old(self)@.table.common.len() == 0 {
                assert(self@ =~= old(self)@);
            } else {
                assert(self@ =~= (GameView {
                    players: old(self)@.players.update(
                        player as int,
                        PlayerView {
                            hand: old(self)@.players[player as int].hand.push(
                                old(self)@.table.common.last(),
                            ),
                            ..old(self)@.players[player as int]
                        },
                    ),
                    table: old(self)@.table.with_deck(
                        Value::Common,
                        old(self)@.table.common.drop_last(),
                    ),
                }));
                let c = old(self)@.table.common.last();
                let h0 = old(self)@.players[player as int].hand.to_multiset();
                let h1 = self@.players[player as int].hand.to_multiset();
                assert(h1 == h0.insert(c));
                assert(old(self)@.table.cards() == self@.table.cards().insert(c));
                assert forall|x: Card| cards_ms(self@).count(x) == cards_ms(old(self)@).count(
                    x,
                ) by {
                    assert(hands_cards(self@.players).add(h0).count(x) == hands_cards(
                        old(self)@.players,
                    ).add(h1).count(x));
                    assert(h1.count(x) == h0.insert(c).count(x));
                    assert(old(self)@.table.cards().count(x) == self@.table.cards().insert(c).count(
                        x,
                    ));
                }
                assert(cards_ms(self@) =~= cards_ms(old(self)@));
            }
        }
        match r {
            Some(_) => Ok(()),
            None => Err(()),
        }
    }

    /// Advisory end-of-turn check: true exactly when no action at all is
    /// open to the player, so a turn may end without one. A draw needs a
    /// stocked common deck; a flip needs an exhausted common deck and a
    /// stocked discard pile; a trade needs a compatible pair whose award is
    /// in stock; a buy needs a stocked target covered by the hand's cards
    /// cheaper than its cost; a leap needs 4, 5 or 6 Commons with the mapped
    /// tier in stock.
    pub fn check_player_end(&self, player: usize) -> (r: bool)
        requires
            player < self@.players.len(),
        ensures
            r <==> !any_action_legal(self@, player as int),
    {
        if !self.table.common.is_empty() {
            return false;
        }
        if !self.table.discard.is_empty() {
            return false;
        }

        let p = &self.players[player];
        let hn = p.hand.len();
        let mut i: usize = 0;
        while i < hn
            invariant
                i <= hn,
                hn == p@.hand.len(),
                player < self@.players.len(),
                p@ == self@.players[player as int],
                !(exists|a: int, b: int|
                    0 <= a < b < hn && a < i && trade_pair_legal(p@, self@.table, a, b)),
            decreases hn - i,
        {
            let mut j: usize = i + 1;
            while j < hn
                invariant
                    i < hn,
                    i + 1 <= j <= hn,
                    hn == p@.hand.len(),
                    player < self@.players.len(),
                    p@ == self@.players[player as int],
                    !(exists|a: int, b: int|
                        0 <= a < b < hn && a < i && trade_pair_legal(p@, self@.table, a, b)),
                    !(exists|b: int| i < b < j && trade_pair_legal(p@, self@.table, i as int, b)),
                decreases hn - j,
            {
                let legal = match p.trade_value(i, j) {
                    Ok(v) => match v.succ() {
                        Some(sv) => !self.table.deck(sv).is_empty(),
                        None => self.table.monad.len() > 0,
                    },
                    Err(_) => false,
                };
                if legal {
                    proof {
                        assert(trade_pair_legal(p@, self@.table, i as int, j as int));
                        assert(trade_legal(self@.players[player as int], self@.table));
                    }
                    return false;
                }
                j = j + 1;
            }
            i = i + 1;
        }
        proof {
            assert(!trade_legal(self@.players[player as int], self@.table));
        }

        if !self.table.common.is_empty() && affordable_at_least(&p.hand, 1) {
            return false;
        }
        if !self.table.bi.is_empty() && affordable_at_least(&p.hand, 3) {
            return false;
        }
        if !self.table.tri.is_empty() && affordable_at_least(&p.hand, 7) {
            return false;
        }
        if !self.table.quad.is_empty() && affordable_at_least(&p.hand, 16) {
            return false;
        }
        if !self.table.quint.is_empty() && affordable_at_least(&p.hand, 36) {
            return false;
        }
        if self.table.monad.len() > 0 && affordable_at_least(&p.hand, 80) {
            return false;
        }

        let commons = count_commons(&p.hand);
        if commons >= 4 && !self.table.tri.is_empty() {
            return false;
        }
        if commons >= 5 && !self.table.quad.is_empty() {
            return false;
        }
        if commons >= 6 && !self.table.quint.is_empty() {
            return false;
        }

        true
    }

    /// The distinct identity colors for a table of the given size, in a
    /// random turn order: 2 players keep 2 of the 6 colors chosen at random,
    /// 3 players use the three cold colors, 4 players use all but Yellow and
    /// Green.
    fn generate_colors(num_players: NumPlayers) -> (colors: Vec<Color>)
        ensures
            colors@.len() == num_players.count(),
            colors@.no_duplicates(),
            forall|k: int|
                0 <= k < colors@.len() ==> allowed_identity(num_players, #[trigger] colors@[k]),
    {
        let mut colors: Vec<Color>;
        match num_players {
            NumPlayers::Two => {
                let mut cs = crate::card::color_list();
                proof {
                    assert(cs@.no_duplicates());
                }
                let ghost before = cs@;
                crate::card::shuffle_vec(&mut cs);
                proof {
                    crate::card::lemma_permutation_keeps_no_duplicates(before, cs@);
                }
                let kept = cs.split_off(4);
                proof {
                    assert(kept@.no_duplicates());
                }
                colors = kept;
            },
            NumPlayers::Three => {
                let mut cs: Vec<Color> = Vec::new();
                cs.push(Color::Purple);
                cs.push(Color::Blue);
                cs.push(Color::Green);
                proof {
                    assert(cs@.no_duplicates());
                    assert(forall|m: int|
                        0 <= m < cs@.len() ==> allowed_identity(num_players, #[trigger] cs@[m]));
                }
                colors = cs;
            },
            NumPlayers::Four => {
                let mut cs: Vec<Color> = Vec::new();
                cs.push(Color::Red);
                cs.push(Color::Orange);
                cs.push(Color::Purple);
                cs.push(Color::Blue);
                proof {
                    assert(cs@.no_duplicates());
                    assert(forall|m: int|
                        0 <= m < cs@.len() ==> allowed_identity(num_players, #[trigger] cs@[m]));
                }
                colors = cs;
            },
        }
        let ghost before = colors@;
        crate::card::shuffle_vec(&mut colors);
        proof {
            broadcast use vstd::seq_lib::group_to_multiset_ensures;

            crate::card::lemma_permutation_keeps_no_duplicates(before, colors@);
            assert forall|k: int|
                0 <= k < colors@.len() implies allowed_identity(
                num_players,
                #[trigger] colors@[k],
            ) by {
                assert(colors@.contains(colors@[k]));
                assert(colors@.to_multiset().count(colors@[k]) > 0);
                assert(before.contains(colors@[k]));
            }
        }
        colors
    }

    /// Sets up a fresh game: a stocked, shuffled table, one player per seat
    /// with a distinct identity color in a random turn order, and six Common
    /// cards dealt from the common deck into each hand, which for every
    /// table size empties the common deck exactly.
    pub fn new(num_players: NumPlayers) -> (g: Game)
        ensures
            g@.players.len() == num_players.count(),
            forall|i: int, j: int|
                0 <= i < j < g@.players.len() ==> (#[trigger] g@.players[i]).identity != (
                #[trigger] g@.players[j]).identity,
            forall|i: int|
                0 <= i < g@.players.len() ==> {
                    &&& (#[trigger] g@.players[i]).hand.len() == 6
                    &&& crate::card::deck_all_value(g@.players[i].hand, Value::Common)
                    &&& g@.players[i].monads == 0
                    &&& g@.players[i].took_bonus == false
                    &&& allowed_identity(num_players, g@.players[i].identity)
                },
            g@.table.wf(),
            g@.table.common.len() == 0,
            g@.table.discard.len() == 0,
            g@.table.monads == 12,
            g@.table.bi.len() == 6 && g@.table.tri.len() == 6 && g@.table.quad.len() == 6
                && g@.table.quint.len() == 6,
            cards_ms(g@) == initial_stock(num_players.count() as nat),
            monad_total(g@) == 12,
    {
        let mut table = Table::new(num_players);
        let colors = Game::generate_colors(num_players);
        let ghost t0 = table@;
        proof {
            broadcast use vstd::seq_lib::group_to_multiset_ensures, vstd::multiset::group_multiset_axioms;

            assert(Seq::<Card>::empty().to_multiset().len() == 0);
            assert(t0.cards() =~= initial_stock(num_players.count() as nat));
        }

        let mut players: Vec<Player> = Vec::new();
        let n = colors.len();
        let mut i: usize = 0;
        while i < n
            invariant
                i <= n,
                n == colors@.len(),
                n == num_players.count(),
                colors@.no_duplicates(),
                players@.len() == i,
                table@.wf(),
                table@.common.len() == 6 * n - 6 * i,
                table@.discard == t0.discard,
                table@.bi == t0.bi,
                table@.tri == t0.tri,
                table@.quad == t0.quad,
                table@.quint == t0.quint,
                table@.monads == t0.monads,
                t0.discard.len() == 0,
                t0.monads == 12,
                t0.bi.len() == 6 && t0.tri.len() == 6 && t0.quad.len() == 6 && t0.quint.len() == 6,
                forall|j: int|
                    0 <= j < i ==> {
                        &&& (#[trigger] players@[j])@.identity == colors@[j]
                        &&& players@[j]@.hand.len() == 6
                        &&& crate::card::deck_all_value(players@[j]@.hand, Value::Common)
                        &&& players@[j]@.monads == 0
                        &&& players@[j]@.took_bonus == false
                    },
                table@.cards().add(hands_cards(players@.map_values(|p: Player| p@)))
                    == t0.cards(),
            decreases n - i,
        {
            let ghost tb = table@;
            let ghost psb = players@.map_values(|p: Player| p@);
            let mut p = Player::new(colors[i]);
            let ghost pstart = p@;
            let mut k: usize = 0;
            while k < 6
                invariant
                    k <= 6,
                    table@.wf(),
                    table@.common.len() == tb.common.len() - k,
                    tb.common.len() >= 6,
                    table@.discard == tb.discard,
                    table@.bi == tb.bi,
                    table@.tri == tb.tri,
                    table@.quad == tb.quad,
                    table@.quint == tb.quint,
                    table@.monads == tb.monads,
                    p@.identity == pstart.identity,
                    p@.took_bonus == pstart.took_bonus,
                    p@.monads == pstart.monads,
                    pstart.hand.len() == 0,
                    p@.hand.len() == k,
                    crate::card::deck_all_value(p@.hand, Value::Common),
                    table@.cards().add(p@.hand.to_multiset()) == tb.cards().add(
                        pstart.hand.to_multiset(),
                    ),
                decreases 6 - k,
            {
                let ghost tprev = table@;
                let ghost pprev = p@;
                proof {
                    lemma_draw_spec(tprev, Value::Common);
                }
                p.draw_card(Value::Common, &mut table);
                proof {
                    broadcast use vstd::seq_lib::group_to_multiset_ensures, vstd::multiset::group_multiset_axioms;

                    let c = tprev.common.last();
                    assert(deck_all_value(p@.hand, Value::Common)) by {
                        assert(forall|m: int|
                            0 <= m < p@.hand.len() ==> #[trigger] p@.hand[m] == if m
                                < pprev.hand.len() {
                                pprev.hand[m]
                            } else {
                                c
                            });
                    }
                    assert(table@.cards().add(p@.hand.to_multiset()) =~= tprev.cards().add(
                        pprev.hand.to_multiset(),
                    ));
                }
                k = k + 1;
            }
            players.push(p);
            proof {
                broadcast use vstd::seq_lib::group_to_multiset_ensures, vstd::multiset::group_multiset_axioms;

                let psa = players@.map_values(|pl: Player| pl@);
                assert(psa.drop_last() =~= psb);
                assert(hands_cards(psa) == hands_cards(psb).add(p@.hand.to_multiset()));
                assert(pstart.hand.to_multiset().len() == 0);
                assert(pstart.hand.to_multiset() =~= Multiset::<Card>::empty());
                let a = table@.cards();
                let b = tb.cards();
                let h = p@.hand.to_multiset();
                assert(a.add(h) == b.add(pstart.hand.to_multiset()));
                assert forall|x: Card| a.add(hands_cards(psa)).count(x) == t0.cards().count(
                    x,
                ) by {
                    assert(a.add(h).count(x) == b.add(pstart.hand.to_multiset()).count(x));
                    assert(pstart.hand.to_multiset().count(x) == 0);
                    assert(hands_cards(psa).count(x) == hands_cards(psb).add(h).count(x));
                    assert(b.add(hands_cards(psb)).count(x) == t0.cards().count(x));
                }
                assert(table@.cards().add(hands_cards(psa)) =~= t0.cards());
            }
            i = i + 1;
        }

        let g = Game { players, table };
        proof {
            broadcast use vstd::multiset::group_multiset_axioms;

            lemma_monads_sum_zero(g@.players);
            assert(cards_ms(g@) =~= initial_stock(num_players.count() as nat));
        }
        g
    }

    /// Leaps 4, 5 or 6 Common hand cards (by position, duplicate-free)
    /// directly to one card of the mapped tier: 4 to Tri, 5 to Quad, 6 to
    /// Quint. The traded Commons go to the discard pile; a failure,
    /// including an empty target deck, changes nothing.
    pub fn leap(&mut self, player: usize, cards: &Vec<usize>) -> (r: Result<(), LeapError>)
        requires
            player < old(self)@.players.len(),
            forall|k: int|
                0 <= k < cards@.len() ==> #[trigger] cards@[k] < old(
                    self,
                )@.players[player as int].hand.len(),
            cards@.no_duplicates(),
        ensures
            ({
                let p0 = old(self)@.players[player as int];
                let t0 = old(self)@.table;
                match leap_spec(p0, t0, sorted_asc(cards@)) {
                    Err(e) => r == Err::<(), LeapError>(e) && final(self)@ == old(self)@,
                    Ok((p1, t1)) => r is Ok && final(self)@.table == t1 && final(self)@.players
                        == old(self)@.players.update(player as int, p1),
                }
            }),
            cards_ms(final(self)@) == cards_ms(old(self)@),
            monad_total(final(self)@) == monad_total(old(self)@),
            final(self)@.players.len() == old(self)@.players.len(),
            old(self)@.table.wf() ==> final(self)@.table.wf(),
    {
        let ghost p0 = self@.players[player as int];
        let ghost t0 = self@.table;

        let mut sel: Vec<usize> = Vec::new();
        let cn = cards.len();
        let mut ci: usize = 0;
        while ci < cn
            invariant
                ci <= cn,
                cn == cards@.len(),
                sel@ =~= cards@.take(ci as int),
            decreases cn - ci,
        {
            sel.push(cards[ci]);
            ci = ci + 1;
        }
        proof {
            assert(cards@.take(cn as int) =~= cards@);
        }
        sort_indices(&mut sel);
        proof {
            lemma_sorted_is_sorted_asc(sel@, cards@);
            lemma_sorted_asc_valid(cards@, p0.hand.len() as nat);
        }

        let sn = sel.len();
        if sn < 4 || sn > 6 {
            return Err(LeapError::NumOfCards(sn));
        }

        let mut k: usize = 0;
        let mut all_commons = true;
        while k < sn
            invariant
                k <= sn,
                sn == sel@.len(),
                player < self@.players.len(),
                p0 == self@.players[player as int],
                idxs_valid(sel@, p0.hand.len() as nat),
                all_commons <==> !(exists|m: int|
                    0 <= m < k && p0.hand[#[trigger] sel@[m] as int].value != Value::Common),
            decreases sn - k,
        {
            let idx = sel[k];
            if !self.players[player].hand.get(idx).is_common() {
                all_commons = false;
            }
            k = k + 1;
        }
        if !all_commons {
            return Err(LeapError::NotAllCommons);
        }

        let target = Game::translate_commons_for_leap(sn);
        if self.table.deck(target).is_empty() {
            return Err(LeapError::OutOfCards(target));
        }

        let ghost ps0 = self.players@;
        let mut p = self.players.remove(player);
        p.draw_card(target, &mut self.table);
        proof {
            assert(idxs_valid(sel@, p@.hand.len() as nat));
        }
        remove_return_all(&mut p, &mut self.table, &sel);
        self.players.insert(player, p);
        proof {
            assert(self.players@ =~= ps0.update(player as int, self.players@[player as int]));
            assert(self@.players =~= old(self)@.players.update(
                player as int,
                self@.players[player as int],
            ));
            assert(leap_spec(p0, t0, sel@) matches Ok((pp, tt)) && pp
                == self@.players[player as int] && tt == self@.table);
            lemma_leap_spec(p0, t0, sel@);
            lemma_lift_conservation(old(self)@, self@, player as int);
        }
        Ok(())
    }

    /// Buys one card of the target tier, or a Monad, paying with the
    /// selected hand cards (by position, duplicate-free): no single paying
    /// card may be worth the target's cost and together they must cover it.
    /// The paying cards return to the table. Reports whether a tiered card
    /// (true) or a Monad (false) was obtained; a failure changes nothing.
    pub fn buy(&mut self, player: usize, cards: &Vec<usize>, deck_or_monad: ValueOrMonad) -> (r:
        Result<bool, BuyError>)
        requires
            player < old(self)@.players.len(),
            forall|k: int|
                0 <= k < cards@.len() ==> #[trigger] cards@[k] < old(
                    self,
                )@.players[player as int].hand.len(),
            cards@.no_duplicates(),
        ensures
            ({
                let p0 = old(self)@.players[player as int];
                let t0 = old(self)@.table;
                match buy_spec(p0, t0, sorted_asc(cards@), deck_or_monad) {
                    Err(e) => r == Err::<bool, BuyError>(e) && final(self)@ == old(self)@,
                    Ok((p1, t1, drew)) => r == Ok::<bool, BuyError>(drew) && final(self)@.table
                        == t1 && final(self)@.players == old(self)@.players.update(
                        player as int,
                        p1,
                    ),
                }
            }),
            cards_ms(final(self)@) == cards_ms(old(self)@),
            monad_total(final(self)@) == monad_total(old(self)@),
            final(self)@.players.len() == old(self)@.players.len(),
            old(self)@.table.wf() ==> final(self)@.table.wf(),
    {
        let ghost p0 = self@.players[player as int];
        let ghost t0 = self@.table;

        // Canonical ascending selection.
        let mut sel: Vec<usize> = Vec::new();
        let cn = cards.len();
        let mut ci: usize = 0;
        while ci < cn
            invariant
                ci <= cn,
                cn == cards@.len(),
                sel@ =~= cards@.take(ci as int),
            decreases cn - ci,
        {
            sel.push(cards[ci]);
            ci = ci + 1;
        }
        proof {
            assert(cards@.take(cn as int) =~= cards@);
        }
        sort_indices(&mut sel);
        proof {
            lemma_sorted_is_sorted_asc(sel@, cards@);
            lemma_sorted_asc_valid(cards@, p0.hand.len() as nat);
        }

        // Point totals over the ascending selection; the running sum is
        // capped at 200, above every cost, so it never overflows.
        let cost = deck_or_monad.points();
        let mut sum: usize = 0;
        let mut max_pts: usize = 0;
        let sn = sel.len();
        let mut k: usize = 0;
        while k < sn
            invariant
                k <= sn,
                sn == sel@.len(),
                player < self@.players.len(),
                p0 == self@.players[player as int],
                idxs_valid(sel@, p0.hand.len() as nat),
                points_sum(p0.hand, sel@.take(k as int)) >= 0,
                sum as int == (if points_sum(p0.hand, sel@.take(k as int)) > 200 {
                    200int
                } else {
                    points_sum(p0.hand, sel@.take(k as int))
                }),
                max_pts as int == points_max(p0.hand, sel@.take(k as int)),
                max_pts <= 36,
            decreases sn - k,
        {
            let idx = sel[k];
            let card = *self.players[player].hand.get(idx);
            let pts = card.num();
            proof {
                assert(sel@.take(k + 1).last() == idx);
                assert(sel@.take(k + 1).drop_last() =~= sel@.take(k as int));
            }
            let s2 = sum + pts;
            sum = if s2 > 200 {
                200
            } else {
                s2
            };
            if pts > max_pts {
                max_pts = pts;
            }
            k = k + 1;
        }
        proof {
            assert(sel@.take(sn as int) =~= sel@);
        }

        if max_pts >= cost {
            return Err(BuyError::SameValue);
        }
        if sum < cost {
            return Err(BuyError::NotEnoughPoints);
        }

        match deck_or_monad {
            ValueOrMonad::Value(v) => {
                if self.table.deck(v).is_empty() {
                    return Err(BuyError::OutOfCards(deck_or_monad));
                }
            },
            ValueOrMonad::Monad => {
                if self.table.monad.len() == 0 {
                    return Err(BuyError::OutOfCards(deck_or_monad));
                }
            },
        }

        let ghost ps0 = self.players@;
        let mut p = self.players.remove(player);
        let drew_card: bool;
        match deck_or_monad {
            ValueOrMonad::Value(v) => {
                p.draw_card(v, &mut self.table);
                drew_card = true;
            },
            ValueOrMonad::Monad => {
                p.draw_monad(&mut self.table);
                drew_card = false;
            },
        }
        proof {
            assert(idxs_valid(sel@, p@.hand.len() as nat));
        }
        remove_return_all(&mut p, &mut self.table, &sel);
        self.players.insert(player, p);
        proof {
            assert(self.players@ =~= ps0.update(player as int, self.players@[player as int]));
            assert(self@.players =~= old(self)@.players.update(
                player as int,
                self@.players[player as int],
            ));
            assert(buy_spec(p0, t0, sel@, deck_or_monad) matches Ok((pp, tt, d)) && pp
                == self@.players[player as int] && tt == self@.table && d == drew_card);
            lemma_buy_spec(p0, t0, sel@, deck_or_monad);
            lemma_lift_conservation(old(self)@, self@, player as int);
        }
        Ok(drew_card)
    }

    /// Trades two hand cards (by position) for a draw from the tier above
    /// their trade value, or a Monad above Quint; an eligible requested
    /// bonus walks the predecessor chain best-effort. The traded cards
    /// return to the table. Reports how many cards were drawn and whether a
    /// Monad was taken; a failure changes nothing. The collaborator must
    /// not trade a Quint-valued pair against an empty Monad pool (the pool
    /// holds 12 and only ever shrinks).
    pub fn trade(&mut self, player: usize, card1: usize, card2: usize, bonus: bool) -> (r: Result<
        (usize, bool),
        TradeError,
    >)
        requires
            player < old(self)@.players.len(),
            card1 < old(self)@.players[player as int].hand.len(),
            card2 < old(self)@.players[player as int].hand.len(),
            (spec_trade_value(
                old(self)@.players[player as int].identity,
                old(self)@.players[player as int].hand[card1 as int],
                old(self)@.players[player as int].hand[card2 as int],
            ) matches Ok(v) && succ_of(v) is None) ==> old(self)@.table.monads > 0,
        ensures
            ({
                let p0 = old(self)@.players[player as int];
                let t0 = old(self)@.table;
                match trade_spec(p0, t0, card1, card2, bonus) {
                    Err(e) => r == Err::<(usize, bool), TradeError>(e) && final(self)@ == old(
                        self,
                    )@,
                    Ok((p1, t1, n, m)) => r == Ok::<(usize, bool), TradeError>((n as usize, m))
                        && final(self)@.table == t1 && final(self)@.players == old(
                        self,
                    )@.players.update(player as int, p1),
                }
            }),
            cards_ms(final(self)@) == cards_ms(old(self)@),
            monad_total(final(self)@) == monad_total(old(self)@),
            final(self)@.players.len() == old(self)@.players.len(),
            old(self)@.table.wf() ==> final(self)@.table.wf(),
            // a deserved, requested bonus sets the per-turn flag, locking
            // out every further bonus until the turn resets it
            (r is Ok && bonus && spec_can_take_bonus(
                old(self)@.players[player as int],
                old(self)@.players[player as int].hand[card1 as int],
                old(self)@.players[player as int].hand[card2 as int],
            )) ==> final(self)@.players[player as int].took_bonus,
    {
        let tv = self.players[player].trade_value(card1, card2);
        let value = match tv {
            Err(e) => {
                return Err(e);
            },
            Ok(v) => v,
        };
        let canb = self.players[player].can_take_bonus(card1, card2);
        let do_bonus = bonus && canb;

        match value.succ() {
            Some(sv) => {
                if self.table.deck(sv).is_empty() {
                    return Err(TradeError::OutOfCards(sv));
                }
            },
            None => {},
        }

        let ghost ps0 = self.players@;
        let ghost p0 = self@.players[player as int];
        let ghost t0 = self@.table;
        let mut p = self.players.remove(player);
        let mut num_cards: usize = 0;
        let mut drew_monad = false;

        match value.succ() {
            Some(sv) => {
                p.draw_card(sv, &mut self.table);
                num_cards = 1;
            },
            None => {
                p.draw_monad(&mut self.table);
                drew_monad = true;
            },
        }

        let ghost p1v = p@;
        let ghost t1v = self@.table;
        if do_bonus {
            let n = bonus_step(&mut p, &mut self.table, value.prev());
            num_cards = num_cards + n;
            p.took_bonus = true;
        }
        let ghost p2v = p@;
        let ghost t2v = self@.table;

        let (lo, hi) = if card1 < card2 {
            (card1, card2)
        } else {
            (card2, card1)
        };
        proof {
            assert(card1 != card2);
            lemma_bonus_spec(p1v, t1v, prev_of(value));
        }
        let ghost pm1 = PlayerView { hand: p2v.hand.remove(hi as int), ..p2v };
        let ghost tm1 = t2v.return_spec(p2v.hand[hi as int]);
        let ghost pm2 = PlayerView { hand: pm1.hand.remove(lo as int), ..pm1 };
        let ghost tm2 = tm1.return_spec(pm1.hand[lo as int]);

        let chi = p.hand.remove(hi);
        proof {
            assert(p@ =~= pm1);
        }
        self.table.return_card(chi);
        let clo = p.hand.remove(lo);
        proof {
            assert(p@ =~= pm2);
        }
        self.table.return_card(clo);
        self.players.insert(player, p);

        proof {
            assert(self.players@ =~= ps0.update(player as int, self.players@[player as int]));
            assert(self@.players =~= old(self)@.players.update(
                player as int,
                self@.players[player as int],
            ));
            // The two removals and returns, highest position first, are one
            // unfolding each of the removal mirror.
            let two = seq![lo, hi];
            assert(two.last() == hi && two.len() == 2);
            assert(two.drop_last() =~= seq![lo]);
            assert(seq![lo].last() == lo && seq![lo].len() == 1);
            assert(seq![lo].drop_last() =~= Seq::<usize>::empty());
            assert(remove_return_spec(p2v, t2v, two) == remove_return_spec(pm1, tm1, seq![lo]));
            assert(remove_return_spec(pm1, tm1, seq![lo]) == remove_return_spec(
                pm2,
                tm2,
                Seq::<usize>::empty(),
            ));
            assert(remove_return_spec(pm2, tm2, Seq::<usize>::empty()) == (pm2, tm2));
            assert(self@.players[player as int] == pm2 && self@.table == tm2);
            assert(trade_spec(p0, t0, card1, card2, bonus) matches Ok((pp, tt, n, m)) && pp
                == self@.players[player as int] && tt == self@.table && n == num_cards as nat && m
                == drew_monad);
            lemma_trade_spec(p0, t0, card1, card2, bonus);
            lemma_lift_conservation(old(self)@, self@, player as int);
        }
        Ok((num_cards, drew_monad))
    }

    /// Reclaims the discard pile as the new common deck, re-shuffled.
    /// Fails with `EmptyDiscardPile` when there is nothing to reclaim, and
    /// with `NonEmptyCommonDeck` while the common supply is not yet
    /// exhausted; a failure changes nothing.
    pub fn flip(&mut self) -> (r: Result<(), FlipError>)
        ensures
            old(self)@.table.discard.len() == 0 ==> r == Err::<(), FlipError>(
                FlipError::EmptyDiscardPile,
            ) && final(self)@ == old(self)@,
            old(self)@.table.discard.len() > 0 && old(self)@.table.common.len() > 0 ==> r == Err::<
                (),
                FlipError,
            >(FlipError::NonEmptyCommonDeck) && final(self)@ == old(self)@,
            old(self)@.table.discard.len() > 0 && old(self)@.table.common.len() == 0 ==> {
                &&& r is Ok
                &&& final(self)@.table.common.to_multiset() == old(
                    self,
                )@.table.discard.to_multiset()
                &&& final(self)@.table.discard.len() == 0
                &&& final(self)@.table.bi == old(self)@.table.bi
                &&& final(self)@.table.tri == old(self)@.table.tri
                &&& final(self)@.table.quad == old(self)@.table.quad
                &&& final(self)@.table.quint == old(self)@.table.quint
                &&& final(self)@.table.monads == old(self)@.table.monads
                &&& final(self)@.players == old(self)@.players
            },
            cards_ms(final(self)@) == cards_ms(old(self)@),
            monad_total(final(self)@) == monad_total(old(self)@),
            old(self)@.table.wf() ==> final(self)@.table.wf(),
    {
        if self.table.discard.is_empty() {
            return Err(FlipError::EmptyDiscardPile);
        }
        if !self.table.deck(Value::Common).is_empty() {
            return Err(FlipError::NonEmptyCommonDeck);
        }

        let ghost pre = self@;
        self.table.common.append(&mut self.table.discard);
        let ghost mid = self@.table.common;
        self.table.common.shuffle();
        proof {
            broadcast use vstd::seq_lib::group_to_multiset_ensures, vstd::multiset::group_multiset_axioms;

            assert(mid =~= pre.table.discard);
            assert(self@.players =~= old(self)@.players);
            assert(cards_ms(self@) =~= cards_ms(old(self)@));
            if pre.table.wf() {
                crate::card::lemma_permutation_keeps_all_value(
                    mid,
                    self@.table.common,
                    Value::Common,
                );
                assert(crate::card::deck_all_value(self@.table.discard, Value::Common));
            }
        }
        Ok(())
    }
}

} // verus!
