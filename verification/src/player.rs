//! A player: an identity color, a hand, collected Monads, and the per-turn
//! bonus flag, with the two-card trade-compatibility and bonus-pair rules.

use vstd::prelude::*;

use crate::card::{bonus_partners, temp_of, Card, Color, Deck, Monad, Value};
use crate::game::TradeError;
use crate::table::{Table, TableView};

verus! {

/// Mathematical view of a player: the hand contents, the identity color,
/// the per-turn bonus flag, and the number of collected Monads.
#[verifier::ext_equal]
pub struct PlayerView {
    pub hand: Seq<Card>,
    pub identity: Color,
    pub took_bonus: bool,
    pub monads: nat,
}

/// A player owns a hand, an identity color assigned at setup, the collected
/// Monad tokens, and a flag recording whether a bonus was already taken this
/// turn.
pub struct Player {
    pub hand: Deck,
    pub identity: Color,
    pub took_bonus: bool,
    pub monads: Vec<Monad>,
}

impl View for Player {
    type V = PlayerView;

    open spec fn view(&self) -> PlayerView {
        PlayerView {
            hand: self.hand@,
            identity: self.identity,
            took_bonus: self.took_bonus,
            monads: self.monads@.len(),
        }
    }
}

/// The two-card trade-compatibility rule. The cards must differ in
/// temperature; then, if they share a value that value is traded; otherwise
/// a card of the player's identity color acts as a wildcard and the other
/// card's value is traded.
pub open spec fn spec_trade_value(identity: Color, c1: Card, c2: Card) -> Result<
    Value,
    TradeError,
> {
    if temp_of(c1.color) == temp_of(c2.color) {
        Err(TradeError::SameTemperature)
    } else if c1.value == c2.value {
        Ok(c1.value)
    } else if c1.color == identity {
        Ok(c2.value)
    } else if c2.color == identity {
        Ok(c1.value)
    } else {
        Err(TradeError::NotSameValueOrIdentity)
    }
}

/// Trade compatibility is symmetric: swapping the two cards changes neither
/// the traded value nor the error reported.
pub proof fn lemma_trade_value_symmetric(identity: Color, c1: Card, c2: Card)
    ensures
        spec_trade_value(identity, c1, c2) == spec_trade_value(identity, c2, c1),
{
}

/// A pair qualifies for a bonus only if the colors are bonus partners, the
/// values are equal (the identity wildcard never qualifies), and the player
/// has not already taken a bonus this turn.
pub open spec fn spec_can_take_bonus(p: PlayerView, c1: Card, c2: Card) -> bool {
    bonus_partners(c1.color, c2.color) && c1.value == c2.value && !p.took_bonus
}

/// Bonus exclusivity: once a player's bonus flag is set, no pair of cards
/// whatsoever qualifies for a bonus until the turn resets the flag.
pub proof fn lemma_bonus_exclusive(p: PlayerView, c1: Card, c2: Card)
    requires
        p.took_bonus,
    ensures
        !spec_can_take_bonus(p, c1, c2),
{
}

impl Player {
    /// A fresh player of the given identity: empty hand, no Monads, no bonus
    /// taken.
    pub fn new(identity: Color) -> (p: Player)
        ensures
            p@ == (PlayerView {
                hand: Seq::<Card>::empty(),
                identity,
                took_bonus: false,
                monads: 0,
            }),
    {
        let p = Player { hand: Deck::default(), identity, took_bonus: false, monads: Vec::new() };
        proof {
            assert(p@ =~= PlayerView {
                hand: Seq::<Card>::empty(),
                identity,
                took_bonus: false,
                monads: 0,
            });
        }
        p
    }

    /// Whether a card is of this player's identity color.
    pub fn matches_color(&self, card: &Card) -> (r: bool)
        ensures
            r == (card.color == self.identity),
    {
        self.identity == card.color
    }

    /// The trade value of two hand cards, by position.
    pub fn trade_value(&self, card1: usize, card2: usize) -> (r: Result<Value, TradeError>)
        requires
            card1 < self@.hand.len(),
            card2 < self@.hand.len(),
        ensures
            r == spec_trade_value(self.identity, self@.hand[card1 as int], self@.hand[card2 as int]),
    {
        let c1 = *self.hand.get(card1);
        let c2 = *self.hand.get(card2);

        if c1.temp() == c2.temp() {
            return Err(TradeError::SameTemperature);
        }
        if c1.value == c2.value {
            return Ok(c1.value);
        }
        if self.matches_color(&c1) {
            return Ok(c2.value);
        }
        if self.matches_color(&c2) {
            return Ok(c1.value);
        }
        Err(TradeError::NotSameValueOrIdentity)
    }

    /// Whether two hand cards, by position, qualify for a bonus this turn.
    pub fn can_take_bonus(&self, card1: usize, card2: usize) -> (r: bool)
        requires
            card1 < self@.hand.len(),
            card2 < self@.hand.len(),
        ensures
            r == spec_can_take_bonus(self@, self@.hand[card1 as int], self@.hand[card2 as int]),
    {
        let c1 = *self.hand.get(card1);
        let c2 = *self.hand.get(card2);
        let bonus_match = match (c1.color, c2.color) {
            (Color::Orange, Color::Blue) => true,
            (Color::Blue, Color::Orange) => true,
            (Color::Red, Color::Purple) => true,
            (Color::Purple, Color::Red) => true,
            (Color::Yellow, Color::Green) => true,
            (Color::Green, Color::Yellow) => true,
            _ => false,
        };
        bonus_match && c1.value == c2.value && !self.took_bonus
    }

    /// Draws the top card of a tier's deck into the hand; `None` and no
    /// change if that deck is empty.
    pub fn draw_card(&mut self, value: Value, table: &mut Table) -> (r: Option<Card>)
        ensures
            old(table)@.draw_spec(value) is None ==> r is None && final(table)@ == old(table)@
                && final(self)@ == old(self)@,
            old(table)@.draw_spec(value) matches Some((t1, c)) ==> r == Some(c) && final(table)@
                == t1 && final(self)@ == (PlayerView {
                hand: old(self)@.hand.push(c),
                ..old(self)@
            }),
    {
        let r = table.draw_top(value);
        match r {
            Some(card) => {
                self.hand.push(card);
                proof {
                    assert(self@ =~= (PlayerView {
                        hand: old(self)@.hand.push(card),
                        ..old(self)@
                    }));
                }
                Some(card)
            },
            None => {
                proof {
                    assert(self@ =~= old(self)@);
                }
                None
            },
        }
    }

    /// The hand cards at the given positions, in the order given.
    pub fn indexes_to_cards(&self, cards: &Vec<usize>) -> (r: Vec<Card>)
        requires
            forall|k: int| 0 <= k < cards@.len() ==> #[trigger] cards@[k] < self@.hand.len(),
        ensures
            r@ == cards@.map_values(|i: usize| self@.hand[i as int]),
    {
        let mut r: Vec<Card> = Vec::new();
        let n = cards.len();
        for k in 0..n
            invariant
                n == cards@.len(),
                forall|j: int| 0 <= j < cards@.len() ==> #[trigger] cards@[j] < self@.hand.len(),
                r@ =~= cards@.take(k as int).map_values(|i: usize| self@.hand[i as int]),
        {
            r.push(*self.hand.get(cards[k]));
            proof {
                assert(r@ =~= cards@.take(k + 1).map_values(|i: usize| self@.hand[i as int]));
            }
        }
        proof {
            assert(cards@.take(n as int) =~= cards@);
        }
        r
    }

    /// Takes one Monad token from the table's pool; `None` and no change if
    /// the pool is empty.
    pub fn draw_monad(&mut self, table: &mut Table) -> (r: Option<()>)
        ensures
            old(table)@.monads == 0 ==> r is None && final(table)@ == old(table)@ && final(self)@
                == old(self)@,
            old(table)@.monads > 0 ==> r is Some && final(table)@ == (TableView {
                monads: (old(table)@.monads - 1) as nat,
                ..old(table)@
            }) && final(self)@ == (PlayerView {
                monads: old(self)@.monads + 1,
                ..old(self)@
            }),
    {
        match table.monad.pop() {
            Some(m) => {
                self.monads.push(m);
                proof {
                    assert(table@ =~= (TableView {
                        monads: (old(table)@.monads - 1) as nat,
                        ..old(table)@
                    }));
                    assert(self@ =~= (PlayerView { monads: old(self)@.monads + 1, ..old(self)@ }));
                }
                Some(())
            },
            None => {
                proof {
                    assert(table@ =~= old(table)@);
                    assert(self@ =~= old(self)@);
                }
                None
            },
        }
    }
}

} // verus!
