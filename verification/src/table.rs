//! The shared table: six named decks and the Monad pool, with the single
//! routing rule for where a drawn or returned card goes.

use vstd::prelude::*;
use vstd::multiset::Multiset;

use crate::card::{
    deck_all_value, colors_seq, Card, Color, Deck, Monad, Value,
    lemma_permutation_keeps_all_value,
};
use crate::game::NumPlayers;

verus! {

/// Mathematical view of a table: the six deck contents and the size of the
/// Monad pool.
#[verifier::ext_equal]
pub struct TableView {
    pub discard: Seq<Card>,
    pub common: Seq<Card>,
    pub bi: Seq<Card>,
    pub tri: Seq<Card>,
    pub quad: Seq<Card>,
    pub quint: Seq<Card>,
    pub monads: nat,
}

impl TableView {
    /// The deck a tier is drawn from; Common draws come from `common`.
    pub open spec fn deck_of(self, v: Value) -> Seq<Card> {
        match v {
            Value::Common => self.common,
            Value::Bi => self.bi,
            Value::Tri => self.tri,
            Value::Quad => self.quad,
            Value::Quint => self.quint,
        }
    }

    /// This table with the draw deck of one tier replaced.
    pub open spec fn with_deck(self, v: Value, d: Seq<Card>) -> TableView {
        match v {
            Value::Common => TableView { common: d, ..self },
            Value::Bi => TableView { bi: d, ..self },
            Value::Tri => TableView { tri: d, ..self },
            Value::Quad => TableView { quad: d, ..self },
            Value::Quint => TableView { quint: d, ..self },
        }
    }

    /// Drawing the top card of a tier's deck: the new table and the card,
    /// or `None` if that deck is empty.
    pub open spec fn draw_spec(self, v: Value) -> Option<(TableView, Card)> {
        let d = self.deck_of(v);
        if d.len() == 0 {
            None
        } else {
            Some((self.with_deck(v, d.drop_last()), d.last()))
        }
    }

    /// Returning a card to the table: a Common card goes to the bottom of
    /// `discard` (never back to `common`); any other card goes to the bottom
    /// of its own tier's deck.
    pub open spec fn return_spec(self, c: Card) -> TableView {
        if c.value == Value::Common {
            TableView { discard: self.discard.insert(0, c), ..self }
        } else {
            self.with_deck(c.value, self.deck_of(c.value).insert(0, c))
        }
    }

    /// The multiset of all cards on the table.
    pub open spec fn cards(self) -> Multiset<Card> {
        self.discard.to_multiset().add(self.common.to_multiset()).add(self.bi.to_multiset()).add(
            self.tri.to_multiset(),
        ).add(self.quad.to_multiset()).add(self.quint.to_multiset())
    }

    /// Well-formedness: `common` and `discard` hold only Common cards, each
    /// tier deck holds only cards of its own tier.
    pub open spec fn wf(self) -> bool {
        &&& deck_all_value(self.common, Value::Common)
        &&& deck_all_value(self.discard, Value::Common)
        &&& deck_all_value(self.bi, Value::Bi)
        &&& deck_all_value(self.tri, Value::Tri)
        &&& deck_all_value(self.quad, Value::Quad)
        &&& deck_all_value(self.quint, Value::Quint)
    }
}

/// Returning a card adds exactly that card to the table's multiset, keeps
/// the table well-formed, and leaves the Monad pool alone.
pub proof fn lemma_return_spec(t: TableView, c: Card)
    ensures
        t.return_spec(c).cards() == t.cards().insert(c),
        t.wf() ==> t.return_spec(c).wf(),
        t.return_spec(c).monads == t.monads,
        t.return_spec(c).common == t.common,
{
    broadcast use vstd::seq_lib::group_to_multiset_ensures;

    let t1 = t.return_spec(c);
    assert(t1.cards() =~= t.cards().insert(c));
    if t.wf() {
        if c.value == Value::Common {
            assert(deck_all_value(t1.discard, Value::Common)) by {
                assert(forall|i: int|
                    0 <= i < t1.discard.len() ==> #[trigger] t1.discard[i] == if i == 0 {
                        c
                    } else {
                        t.discard[i - 1]
                    });
            }
        } else {
            let d0 = t.deck_of(c.value);
            let d1 = t1.deck_of(c.value);
            assert(deck_all_value(d1, c.value)) by {
                assert(forall|i: int|
                    0 <= i < d1.len() ==> #[trigger] d1[i] == if i == 0 {
                        c
                    } else {
                        d0[i - 1]
                    });
            }
        }
    }
}

/// Drawing removes exactly the returned card from the table's multiset,
/// keeps the table well-formed, leaves the Monad pool alone, and on a
/// well-formed table yields a card of the requested tier.
pub proof fn lemma_draw_spec(t: TableView, v: Value)
    ensures
        t.draw_spec(v) is None <==> t.deck_of(v).len() == 0,
        t.draw_spec(v) matches Some((t1, c)) ==> {
            &&& t.cards() == t1.cards().insert(c)
            &&& t1.monads == t.monads
            &&& t1.deck_of(v).len() == t.deck_of(v).len() - 1
            &&& (t.wf() ==> t1.wf() && c.value == v)
        },
{
    broadcast use vstd::seq_lib::group_to_multiset_ensures;

    let d = t.deck_of(v);
    if d.len() > 0 {
        let t1 = t.draw_spec(v)->Some_0.0;
        let c = t.draw_spec(v)->Some_0.1;
        assert(d =~= d.drop_last().push(d.last()));
        assert(d.to_multiset() == d.drop_last().to_multiset().insert(d.last()));
        assert(t.cards() =~= t1.cards().insert(c));
        if t.wf() {
            assert(deck_all_value(d.drop_last(), v));
        }
    }
}

/// The table owns the six decks and the Monad pool.
pub struct Table {
    pub discard: Deck,
    pub common: Deck,
    pub bi: Deck,
    pub tri: Deck,
    pub quad: Deck,
    pub quint: Deck,
    pub monad: Vec<Monad>,
}

impl View for Table {
    type V = TableView;

    open spec fn view(&self) -> TableView {
        TableView {
            discard: self.discard@,
            common: self.common@,
            bi: self.bi@,
            tri: self.tri@,
            quad: self.quad@,
            quint: self.quint@,
            monads: self.monad@.len(),
        }
    }
}

/// One Common card per color for each seat at the table, in color order.
pub open spec fn common_stock_upto(i: int, n: nat) -> Seq<Card>
    decreases i,
{
    if i <= 0 {
        Seq::<Card>::empty()
    } else {
        common_stock_upto(i - 1, n) + Seq::new(
            n,
            |k: int| Card { value: Value::Common, color: colors_seq()[i - 1] },
        )
    }
}

/// The initial contents of the `common` deck for `n` players.
pub open spec fn common_stock(n: nat) -> Seq<Card> {
    common_stock_upto(6, n)
}

/// The initial contents of a tier deck: one card of that tier per color.
pub open spec fn tier_stock(v: Value) -> Seq<Card> {
    colors_seq().map_values(|c: Color| Card { value: v, color: c })
}

pub proof fn lemma_common_stock_all_common(i: int, n: nat)
    ensures
        deck_all_value(common_stock_upto(i, n), Value::Common),
        common_stock_upto(i, n).len() == (if i <= 0 { 0 } else { i * n }),
    decreases i,
{
    if i > 0 {
        lemma_common_stock_all_common(i - 1, n);
        assert(common_stock_upto(i, n).len() == common_stock_upto(i - 1, n).len() + n);
        if i == 1 {
            assert(common_stock_upto(1, n).len() == n);
            assert(i * n == n) by (nonlinear_arith)
                requires
                    i == 1,
            ;
        } else {
            assert((i - 1) * n + n == i * n) by (nonlinear_arith);
        }
    }
}

pub proof fn lemma_tier_stock_all(v: Value)
    ensures
        deck_all_value(tier_stock(v), v),
        tier_stock(v).len() == 6,
{
}

impl Table {
    /// Reference to the deck a tier is drawn from.
    pub fn deck(&self, value: Value) -> (d: &Deck)
        ensures
            d@ == self@.deck_of(value),
    {
        match value {
            Value::Common => &self.common,
            Value::Bi => &self.bi,
            Value::Tri => &self.tri,
            Value::Quad => &self.quad,
            Value::Quint => &self.quint,
        }
    }

    /// Mutable reference to the deck a tier is drawn from.
    pub fn deck_mut(&mut self, value: Value) -> (d: &mut Deck)
        ensures
            (*d)@ == old(self)@.deck_of(value),
            final(self)@ == old(self)@.with_deck(value, (*final(d))@),
    {
        match value {
            Value::Common => &mut self.common,
            Value::Bi => &mut self.bi,
            Value::Tri => &mut self.tri,
            Value::Quad => &mut self.quad,
            Value::Quint => &mut self.quint,
        }
    }

    /// Removes and returns the top card of a tier's deck; `None` (and no
    /// change) if that deck is empty.
    pub fn draw_top(&mut self, value: Value) -> (r: Option<Card>)
        ensures
            old(self)@.draw_spec(value) is None ==> r is None && final(self)@ == old(self)@,
            old(self)@.draw_spec(value) matches Some((t1, c)) ==> r == Some(c) && final(self)@
                == t1,
    {
        let ghost t0 = self@;
        let r = self.deck_mut(value).draw_top();
        proof {
            if t0.deck_of(value).len() == 0 {
                assert(self@ =~= t0);
            } else {
                assert(self@ =~= t0.draw_spec(value)->Some_0.0);
            }
        }
        r
    }

    /// Puts a card back: Common cards go to the bottom of `discard`, all
    /// others to the bottom of their own tier's deck.
    pub fn return_card(&mut self, card: Card)
        ensures
            final(self)@ == old(self)@.return_spec(card),
    {
        if card.value.is_common() {
            self.discard.return_card(card);
        } else {
            self.deck_mut(card.value).return_card(card);
        }
    }

    /// Re-randomizes the five draw decks; each keeps exactly its cards.
    pub fn shuffle_decks(&mut self)
        ensures
            final(self)@.common.to_multiset() == old(self)@.common.to_multiset(),
            final(self)@.bi.to_multiset() == old(self)@.bi.to_multiset(),
            final(self)@.tri.to_multiset() == old(self)@.tri.to_multiset(),
            final(self)@.quad.to_multiset() == old(self)@.quad.to_multiset(),
            final(self)@.quint.to_multiset() == old(self)@.quint.to_multiset(),
            final(self)@.common.len() == old(self)@.common.len(),
            final(self)@.bi.len() == old(self)@.bi.len(),
            final(self)@.tri.len() == old(self)@.tri.len(),
            final(self)@.quad.len() == old(self)@.quad.len(),
            final(self)@.quint.len() == old(self)@.quint.len(),
            final(self)@.discard == old(self)@.discard,
            final(self)@.monads == old(self)@.monads,
    {
        self.bi.shuffle();
        self.tri.shuffle();
        self.quad.shuffle();
        self.quint.shuffle();
        self.common.shuffle();
    }

    /// Sets up the table for the given number of players: `n` Common cards
    /// per color in `common`, one card per color in each tier deck, an empty
    /// discard pile, and a pool of 12 Monads; the five stocked decks are
    /// shuffled.
    pub fn new(players: NumPlayers) -> (t: Table)
        ensures
            t@.wf(),
            t@.discard == Seq::<Card>::empty(),
            t@.monads == 12,
            t@.common.to_multiset() == common_stock(players.count() as nat).to_multiset(),
            t@.bi.to_multiset() == tier_stock(Value::Bi).to_multiset(),
            t@.tri.to_multiset() == tier_stock(Value::Tri).to_multiset(),
            t@.quad.to_multiset() == tier_stock(Value::Quad).to_multiset(),
            t@.quint.to_multiset() == tier_stock(Value::Quint).to_multiset(),
            t@.common.len() == 6 * players.count(),
            t@.bi.len() == 6 && t@.tri.len() == 6 && t@.quad.len() == 6 && t@.quint.len() == 6,
    {
        let n = players.count();
        let colors = crate::card::color_list();
        let ghost nn = n as nat;

        let mut common_cards: Vec<Card> = Vec::new();
        let mut bi_cards: Vec<Card> = Vec::new();
        let mut tri_cards: Vec<Card> = Vec::new();
        let mut quad_cards: Vec<Card> = Vec::new();
        let mut quint_cards: Vec<Card> = Vec::new();

        for ci in 0..6usize
            invariant
                colors@ == colors_seq(),
                nn == n as nat,
                common_cards@ == common_stock_upto(ci as int, nn),
                bi_cards@ =~= tier_stock(Value::Bi).take(ci as int),
                tri_cards@ =~= tier_stock(Value::Tri).take(ci as int),
                quad_cards@ =~= tier_stock(Value::Quad).take(ci as int),
                quint_cards@ =~= tier_stock(Value::Quint).take(ci as int),
        {
            let color = colors[ci];
            let ghost before = common_cards@;
            let mut k: usize = 0;
            while k < n
                invariant
                    k <= n,
                    ci < 6,
                    color == colors_seq()[ci as int],
                    common_cards@ =~= before + Seq::new(
                        k as nat,
                        |j: int| Card { value: Value::Common, color: colors_seq()[ci as int] },
                    ),
                decreases n - k,
            {
                common_cards.push(Card { value: Value::Common, color });
                k = k + 1;
            }
            proof {
                assert(before == common_stock_upto(ci as int, nn));
                assert(common_cards@ =~= before + Seq::new(
                    nn,
                    |j: int| Card { value: Value::Common, color: colors_seq()[ci as int] },
                ));
                assert(common_stock_upto(ci + 1, nn) == common_stock_upto(ci as int, nn)
                    + Seq::new(
                    nn,
                    |k: int| Card { value: Value::Common, color: colors_seq()[ci + 1 - 1] },
                ));
                assert(common_cards@ =~= common_stock_upto(ci + 1, nn));
            }
            bi_cards.push(Card { value: Value::Bi, color });
            tri_cards.push(Card { value: Value::Tri, color });
            quad_cards.push(Card { value: Value::Quad, color });
            quint_cards.push(Card { value: Value::Quint, color });
        }

        let mut monad: Vec<Monad> = Vec::new();
        for k in 0..12usize
            invariant
                monad@.len() == k,
        {
            monad.push(Monad);
        }

        let mut table = Table {
            discard: Deck::default(),
            common: Deck::from_vec(common_cards),
            bi: Deck::from_vec(bi_cards),
            tri: Deck::from_vec(tri_cards),
            quad: Deck::from_vec(quad_cards),
            quint: Deck::from_vec(quint_cards),
            monad,
        };

        proof {
            lemma_common_stock_all_common(6, nn);
            lemma_tier_stock_all(Value::Bi);
            lemma_tier_stock_all(Value::Tri);
            lemma_tier_stock_all(Value::Quad);
            lemma_tier_stock_all(Value::Quint);
            assert(tier_stock(Value::Bi).take(6) =~= tier_stock(Value::Bi));
            assert(tier_stock(Value::Tri).take(6) =~= tier_stock(Value::Tri));
            assert(tier_stock(Value::Quad).take(6) =~= tier_stock(Value::Quad));
            assert(tier_stock(Value::Quint).take(6) =~= tier_stock(Value::Quint));
        }

        let ghost pre = table@;
        table.shuffle_decks();
        proof {
            lemma_permutation_keeps_all_value(pre.common, table@.common, Value::Common);
            lemma_permutation_keeps_all_value(pre.bi, table@.bi, Value::Bi);
            lemma_permutation_keeps_all_value(pre.tri, table@.tri, Value::Tri);
            lemma_permutation_keeps_all_value(pre.quad, table@.quad, Value::Quad);
            lemma_permutation_keeps_all_value(pre.quint, table@.quint, Value::Quint);
        }

        table
    }
}

} // verus!
