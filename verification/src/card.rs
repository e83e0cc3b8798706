//! The card model: colors with their temperature classes and bonus partners,
//! the five ascending value tiers with their point values, cards, and decks.

use vstd::prelude::*;

verus! {

/// A wildcard token, scarcer and more valuable than any tiered card.
/// Tokens are interchangeable, so a pool or a player's winnings is a
/// count of these units.
#[derive(Clone, Copy, PartialEq, Eq, Structural, Debug)]
pub struct Monad;

/// Temperature class of a color; a trade must pair one warm card with
/// one cold card.
#[derive(Clone, Copy, PartialEq, Eq, Structural, Debug)]
pub enum Temp {
    Warm,
    Cold,
}

/// The six card colors.
#[derive(Clone, Copy, PartialEq, Eq, Structural, Debug)]
pub enum Color {
    Red,
    Orange,
    Yellow,
    Purple,
    Blue,
    Green,
}

/// The five value tiers, in ascending order of worth.
#[derive(Clone, Copy, PartialEq, Eq, Structural, Debug)]
pub enum Value {
    Common,
    Bi,
    Tri,
    Quad,
    Quint,
}

/// Temperature of a color: Red/Orange/Yellow are warm, Purple/Blue/Green cold.
pub open spec fn temp_of(c: Color) -> Temp {
    match c {
        Color::Red | Color::Orange | Color::Yellow => Temp::Warm,
        Color::Purple | Color::Blue | Color::Green => Temp::Cold,
    }
}

/// The three fixed bonus-partner pairs: Orange/Blue, Red/Purple,
/// Yellow/Green, in either order. No other pair of colors qualifies.
pub open spec fn bonus_partners(a: Color, b: Color) -> bool {
    match (a, b) {
        (Color::Orange, Color::Blue) => true,
        (Color::Blue, Color::Orange) => true,
        (Color::Red, Color::Purple) => true,
        (Color::Purple, Color::Red) => true,
        (Color::Yellow, Color::Green) => true,
        (Color::Green, Color::Yellow) => true,
        _ => false,
    }
}

/// Position of a tier in the ascending order Common < Bi < Tri < Quad < Quint.
pub open spec fn tier_of(v: Value) -> int {
    match v {
        Value::Common => 0,
        Value::Bi => 1,
        Value::Tri => 2,
        Value::Quad => 3,
        Value::Quint => 4,
    }
}

/// The next tier up, if any.
pub open spec fn succ_of(v: Value) -> Option<Value> {
    match v {
        Value::Common => Some(Value::Bi),
        Value::Bi => Some(Value::Tri),
        Value::Tri => Some(Value::Quad),
        Value::Quad => Some(Value::Quint),
        Value::Quint => None,
    }
}

/// The next tier down, if any.
pub open spec fn prev_of(v: Value) -> Option<Value> {
    match v {
        Value::Common => None,
        Value::Bi => Some(Value::Common),
        Value::Tri => Some(Value::Bi),
        Value::Quad => Some(Value::Tri),
        Value::Quint => Some(Value::Quad),
    }
}

/// Point value of a tier.
pub open spec fn points_of(v: Value) -> int {
    match v {
        Value::Common => 1,
        Value::Bi => 3,
        Value::Tri => 7,
        Value::Quad => 16,
        Value::Quint => 36,
    }
}

impl Value {
    /// The tier numbered 1 through 5, lowest to highest; any other number
    /// is rejected.
    pub fn try_from(source: usize) -> (r: Result<Self, ()>)
        ensures
            1 <= source <= 5 ==> (r matches Ok(v) && tier_of(v) == source - 1),
            !(1 <= source <= 5) ==> r is Err,
    {
        match source {
            1 => Ok(Value::Common),
            2 => Ok(Value::Bi),
            3 => Ok(Value::Tri),
            4 => Ok(Value::Quad),
            5 => Ok(Value::Quint),
            _ => Err(()),
        }
    }

    pub fn succ(self) -> (r: Option<Value>)
        ensures
            r == succ_of(self),
    {
        match self {
            Value::Common => Some(Value::Bi),
            Value::Bi => Some(Value::Tri),
            Value::Tri => Some(Value::Quad),
            Value::Quad => Some(Value::Quint),
            Value::Quint => None,
        }
    }

    pub fn prev(self) -> (r: Option<Value>)
        ensures
            r == prev_of(self),
    {
        match self {
            Value::Common => None,
            Value::Bi => Some(Value::Common),
            Value::Tri => Some(Value::Bi),
            Value::Quad => Some(Value::Tri),
            Value::Quint => Some(Value::Quad),
        }
    }

    pub fn points(self) -> (r: usize)
        ensures
            r == points_of(self),
    {
        match self {
            Value::Common => 1,
            Value::Bi => 3,
            Value::Tri => 7,
            Value::Quad => 16,
            Value::Quint => 36,
        }
    }

    pub fn is_common(self) -> (r: bool)
        ensures
            r == (self == Value::Common),
    {
        self == Value::Common
    }
}

/// A buy target: one of the five tiers, or the Monad pool.
#[derive(Clone, Copy, PartialEq, Eq, Structural, Debug)]
pub enum ValueOrMonad {
    Value(Value),
    Monad,
}

/// Position of a buy target in the ascending order of worth; the Monad
/// pool stands above every tier.
pub open spec fn vm_tier_of(vm: ValueOrMonad) -> int {
    match vm {
        ValueOrMonad::Value(v) => tier_of(v),
        ValueOrMonad::Monad => 5,
    }
}

/// Point value of a buy target; a Monad costs 80.
pub open spec fn vm_points_of(vm: ValueOrMonad) -> int {
    match vm {
        ValueOrMonad::Value(v) => points_of(v),
        ValueOrMonad::Monad => 80,
    }
}

impl ValueOrMonad {
    pub fn points(&self) -> (r: usize)
        ensures
            r == vm_points_of(*self),
    {
        match self {
            ValueOrMonad::Value(value) => value.points(),
            ValueOrMonad::Monad => 80,
        }
    }
}

/// Point values grow strictly with the tier order, the Monad pool standing
/// above all five tiers; so buying from a higher target always demands a
/// strictly larger combined payment.
pub proof fn lemma_points_strictly_monotone(a: ValueOrMonad, b: ValueOrMonad)
    requires
        vm_tier_of(a) < vm_tier_of(b),
    ensures
        vm_points_of(a) < vm_points_of(b),
{
}

/// An immutable (value, color) pair; two cards with equal fields are
/// interchangeable.
#[derive(Clone, Copy, PartialEq, Eq, Structural, Debug)]
pub struct Card {
    pub value: Value,
    pub color: Color,
}

impl Card {
    /// Temperature class, derived from the color.
    pub fn temp(&self) -> (r: Temp)
        ensures
            r == temp_of(self.color),
    {
        match self.color {
            Color::Red | Color::Orange | Color::Yellow => Temp::Warm,
            Color::Purple | Color::Blue | Color::Green => Temp::Cold,
        }
    }

    /// Point value, derived from the value tier.
    pub fn num(&self) -> (r: usize)
        ensures
            r == points_of(self.value),
    {
        self.value.points()
    }

    pub fn is_common(&self) -> (r: bool)
        ensures
            r == (self.value == Value::Common),
    {
        self.value.is_common()
    }
}

/// An ordered, mutable sequence of cards. Index 0 is the bottom end, where
/// returned cards are inserted; the highest index is the draw end, so a
/// returned card is drawn again only after the stock above it is exhausted.
pub struct Deck {
    cards: Vec<Card>,
}

impl View for Deck {
    type V = Seq<Card>;

    closed spec fn view(&self) -> Seq<Card> {
        self.cards@
    }
}

impl Default for Deck {
    fn default() -> (d: Deck)
        ensures
            d@ == Seq::<Card>::empty(),
    {
        Deck { cards: Vec::new() }
    }
}

/// Every card of the sequence has the given value tier.
pub open spec fn deck_all_value(s: Seq<Card>, v: Value) -> bool {
    forall|i: int| 0 <= i < s.len() ==> (#[trigger] s[i]).value == v
}

/// Relies on rand::seq::SliceRandom::shuffle, called with rand::thread_rng():
/// a Fisher-Yates pass that permutes the slice in place by swaps, so exactly
/// the old elements remain, in some order.
#[verifier::external_body]
pub(crate) fn shuffle_vec<T>(v: &mut Vec<T>)
    ensures
        final(v)@.to_multiset() == old(v)@.to_multiset(),
        final(v)@.len() == old(v)@.len(),
{
    rand::seq::SliceRandom::shuffle(v.as_mut_slice(), &mut rand::thread_rng());
}

impl Deck {
    /// An empty deck with room reserved for a few cards per multiple.
    pub fn multiple(multiple: usize) -> (d: Self)
        ensures
            d@ == Seq::<Card>::empty(),
    {
        Deck { cards: Vec::with_capacity(multiple) }
    }

    /// A deck holding exactly the given cards, bottom first.
    pub fn from_vec(cards: Vec<Card>) -> (d: Self)
        ensures
            d@ == cards@,
    {
        Deck { cards }
    }

    pub fn len(&self) -> (n: usize)
        ensures
            n == self@.len(),
    {
        self.cards.len()
    }

    pub fn is_empty(&self) -> (r: bool)
        ensures
            r == (self@.len() == 0),
    {
        self.cards.len() == 0
    }

    pub fn get(&self, i: usize) -> (c: &Card)
        requires
            i < self@.len(),
        ensures
            *c == self@[i as int],
    {
        &self.cards[i]
    }

    /// Adds a card at the draw end.
    pub fn push(&mut self, card: Card)
        ensures
            final(self)@ == old(self)@.push(card),
    {
        self.cards.push(card);
    }

    /// Removes and returns the card at the draw end; `None` on an empty deck,
    /// which is left unchanged.
    pub fn draw_top(&mut self) -> (r: Option<Card>)
        ensures
            old(self)@.len() == 0 ==> r is None && final(self)@ == old(self)@,
            old(self)@.len() > 0 ==> r == Some(old(self)@.last())
                && final(self)@ == old(self)@.drop_last(),
    {
        self.cards.pop()
    }

    /// Inserts a card at the bottom end, so that cards returned earlier are
    /// drawn back into circulation before cards returned later.
    pub fn return_card(&mut self, card: Card)
        ensures
            final(self)@ == old(self)@.insert(0, card),
    {
        self.cards.insert(0, card);
    }

    /// Removes and returns the card at the given position.
    pub fn remove(&mut self, i: usize) -> (c: Card)
        requires
            i < old(self)@.len(),
        ensures
            c == old(self)@[i as int],
            final(self)@ == old(self)@.remove(i as int),
    {
        self.cards.remove(i)
    }

    /// Moves every card of the other deck onto this deck's draw end,
    /// leaving the other deck empty.
    pub fn append(&mut self, other: &mut Deck)
        ensures
            final(self)@ == old(self)@ + old(other)@,
            final(other)@ == Seq::<Card>::empty(),
    {
        self.cards.append(&mut other.cards);
    }

    /// Re-randomizes the order; exactly the old cards remain.
    pub fn shuffle(&mut self)
        ensures
            final(self)@.to_multiset() == old(self)@.to_multiset(),
            final(self)@.len() == old(self)@.len(),
    {
        shuffle_vec(&mut self.cards);
    }

    /// The positions of all cards satisfying the predicate, in deck order.
    pub fn find_all<F: Fn(Card) -> bool>(&self, predicate: F) -> (r: Vec<usize>)
        requires
            forall|i: int| 0 <= i < self@.len() ==> call_requires(predicate, (self@[i],)),
        ensures
            forall|k: int| 0 <= k < r@.len() ==> #[trigger] r@[k] < self@.len(),
            forall|k1: int, k2: int| 0 <= k1 < k2 < r@.len() ==> r@[k1] < r@[k2],
            forall|k: int|
                0 <= k < r@.len() ==> call_ensures(predicate, (self@[r@[k] as int],), true),
            forall|i: int|
                0 <= i < self@.len() ==> ((exists|k: int| 0 <= k < r@.len() && r@[k] == i)
                    || call_ensures(predicate, (self@[i],), false)),
    {
        let mut r: Vec<usize> = Vec::new();
        let n = self.cards.len();
        for i in 0..n
            invariant
                n == self@.len(),
                forall|j: int| 0 <= j < self@.len() ==> call_requires(predicate, (self@[j],)),
                forall|k: int| 0 <= k < r@.len() ==> #[trigger] r@[k] < i,
                forall|k1: int, k2: int| 0 <= k1 < k2 < r@.len() ==> r@[k1] < r@[k2],
                forall|k: int|
                    0 <= k < r@.len() ==> call_ensures(predicate, (self@[r@[k] as int],), true),
                forall|j: int|
                    0 <= j < i ==> ((exists|k: int| 0 <= k < r@.len() && r@[k] == j)
                        || call_ensures(predicate, (self@[j],), false)),
        {
            let ghost old_r = r@;
            if predicate(self.cards[i]) {
                r.push(i);
                proof {
                    assert(r@[r@.len() - 1] == i);
                    assert forall|j: int|
                        0 <= j < i + 1 implies ((exists|k: int| 0 <= k < r@.len() && r@[k] == j)
                        || call_ensures(predicate, (self@[j],), false)) by {
                        if j == i {
                            assert(r@[r@.len() - 1] == j);
                        } else if exists|k: int| 0 <= k < old_r.len() && old_r[k] == j {
                            let k = choose|k: int| 0 <= k < old_r.len() && old_r[k] == j;
                            assert(r@[k] == j);
                        }
                    }
                }
            } else {
                proof {
                    assert(call_ensures(predicate, (self@[i as int],), false));
                }
            }
        }
        r
    }
}

/// A permutation of a sequence without duplicates has no duplicates either.
pub proof fn lemma_permutation_keeps_no_duplicates<A>(s1: Seq<A>, s2: Seq<A>)
    requires
        s1.to_multiset() == s2.to_multiset(),
        s1.no_duplicates(),
    ensures
        s2.no_duplicates(),
{
    s1.lemma_multiset_has_no_duplicates();
    s2.lemma_multiset_has_no_duplicates_conv();
}

/// A permutation of a single-tier sequence stays single-tier.
pub proof fn lemma_permutation_keeps_all_value(s1: Seq<Card>, s2: Seq<Card>, v: Value)
    requires
        s1.to_multiset() == s2.to_multiset(),
        deck_all_value(s1, v),
    ensures
        deck_all_value(s2, v),
{
    broadcast use vstd::seq_lib::group_to_multiset_ensures;

    assert forall|i: int| 0 <= i < s2.len() implies (#[trigger] s2[i]).value == v by {
        assert(s2.contains(s2[i]));
        assert(s2.to_multiset().count(s2[i]) > 0);
        assert(s1.contains(s2[i]));
    }
}

/// The six colors in their canonical order.
pub open spec fn colors_seq() -> Seq<Color> {
    seq![Color::Red, Color::Orange, Color::Yellow, Color::Purple, Color::Blue, Color::Green]
}

/// The six colors in their canonical order, as a vector.
pub fn color_list() -> (v: Vec<Color>)
    ensures
        v@ == colors_seq(),
{
    let mut v: Vec<Color> = Vec::new();
    v.push(Color::Red);
    v.push(Color::Orange);
    v.push(Color::Yellow);
    v.push(Color::Purple);
    v.push(Color::Blue);
    v.push(Color::Green);
    proof {
        assert(v@ =~= colors_seq());
    }
    v
}

} // verus!
