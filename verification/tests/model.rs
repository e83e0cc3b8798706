use monad::card::{Card, Color, Deck, Temp, Value, ValueOrMonad};
use monad::game::NumPlayers;
use monad::player::Player;

fn card(value: Value, color: Color) -> Card {
    Card { value, color }
}

#[test]
fn value_points_ascend() {
    assert_eq!(Value::Common.points(), 1);
    assert_eq!(Value::Bi.points(), 3);
    assert_eq!(Value::Tri.points(), 7);
    assert_eq!(Value::Quad.points(), 16);
    assert_eq!(Value::Quint.points(), 36);
    assert_eq!(ValueOrMonad::Monad.points(), 80);
    assert_eq!(ValueOrMonad::Value(Value::Quint).points(), 36);
}

#[test]
fn value_succ_prev() {
    assert_eq!(Value::Common.succ(), Some(Value::Bi));
    assert_eq!(Value::Quad.succ(), Some(Value::Quint));
    assert_eq!(Value::Quint.succ(), None);
    assert_eq!(Value::Common.prev(), None);
    assert_eq!(Value::Bi.prev(), Some(Value::Common));
    assert_eq!(Value::Quint.prev(), Some(Value::Quad));
}

#[test]
fn value_try_from_numbers() {
    assert_eq!(Value::try_from(1), Ok(Value::Common));
    assert_eq!(Value::try_from(3), Ok(Value::Tri));
    assert_eq!(Value::try_from(5), Ok(Value::Quint));
    assert_eq!(Value::try_from(0), Err(()));
    assert_eq!(Value::try_from(6), Err(()));
}

#[test]
fn card_temperature() {
    assert_eq!(card(Value::Common, Color::Red).temp(), Temp::Warm);
    assert_eq!(card(Value::Bi, Color::Orange).temp(), Temp::Warm);
    assert_eq!(card(Value::Tri, Color::Yellow).temp(), Temp::Warm);
    assert_eq!(card(Value::Quad, Color::Purple).temp(), Temp::Cold);
    assert_eq!(card(Value::Quint, Color::Blue).temp(), Temp::Cold);
    assert_eq!(card(Value::Common, Color::Green).temp(), Temp::Cold);
    assert_eq!(card(Value::Quad, Color::Blue).num(), 16);
    assert!(card(Value::Common, Color::Red).is_common());
    assert!(!card(Value::Bi, Color::Red).is_common());
}

#[test]
fn num_players_counts() {
    assert_eq!(NumPlayers::Two.count(), 2);
    assert_eq!(NumPlayers::Three.count(), 3);
    assert_eq!(NumPlayers::Four.count(), 4);
    assert_eq!(NumPlayers::try_from_count(2), Some(NumPlayers::Two));
    assert_eq!(NumPlayers::try_from_count(4), Some(NumPlayers::Four));
    assert_eq!(NumPlayers::try_from_count(1), None);
    assert_eq!(NumPlayers::try_from_count(5), None);
}

#[test]
fn deck_draw_and_return_order() {
    let mut deck = Deck::from_vec(vec![
        card(Value::Bi, Color::Red),
        card(Value::Bi, Color::Blue),
    ]);
    // the draw end is the back
    assert_eq!(deck.draw_top(), Some(card(Value::Bi, Color::Blue)));
    // returned cards go to the bottom: drawn only after the remaining stock
    deck.return_card(card(Value::Bi, Color::Green));
    deck.return_card(card(Value::Bi, Color::Orange));
    assert_eq!(deck.draw_top(), Some(card(Value::Bi, Color::Red)));
    // first returned comes back into circulation before later-returned
    assert_eq!(deck.draw_top(), Some(card(Value::Bi, Color::Green)));
    assert_eq!(deck.draw_top(), Some(card(Value::Bi, Color::Orange)));
    assert_eq!(deck.draw_top(), None);
}

#[test]
fn deck_find_all_commons() {
    let deck = Deck::from_vec(vec![
        card(Value::Common, Color::Red),
        card(Value::Bi, Color::Blue),
        card(Value::Common, Color::Green),
        card(Value::Quint, Color::Red),
    ]);
    let found = deck.find_all(|c: Card| c.is_common());
    assert_eq!(found, vec![0, 2]);
    let none = deck.find_all(|c: Card| c.value == Value::Quad);
    assert!(none.is_empty());
}

#[test]
fn deck_shuffle_keeps_cards() {
    let cards = vec![
        card(Value::Common, Color::Red),
        card(Value::Common, Color::Red),
        card(Value::Bi, Color::Blue),
        card(Value::Tri, Color::Green),
        card(Value::Quint, Color::Orange),
    ];
    let mut deck = Deck::from_vec(cards.clone());
    deck.shuffle();
    assert_eq!(deck.len(), cards.len());
    for probe in &cards {
        let want = cards.iter().filter(|c| *c == probe).count();
        let mut got = 0;
        for i in 0..deck.len() {
            if *deck.get(i) == *probe {
                got += 1;
            }
        }
        assert_eq!(got, want);
    }
}

#[test]
fn player_indexes_to_cards() {
    let player = Player {
        hand: Deck::from_vec(vec![
            card(Value::Common, Color::Red),
            card(Value::Bi, Color::Blue),
            card(Value::Tri, Color::Green),
        ]),
        identity: Color::Red,
        took_bonus: false,
        monads: Vec::new(),
    };
    let picked = player.indexes_to_cards(&vec![2, 0]);
    assert_eq!(
        picked,
        vec![card(Value::Tri, Color::Green), card(Value::Common, Color::Red)]
    );
}

#[test]
fn trade_value_symmetry_on_pairs() {
    // equal values, opposite temperatures, no identity match
    let pairs = [
        (card(Value::Common, Color::Red), card(Value::Common, Color::Blue)),
        // identity wildcard on one side
        (card(Value::Bi, Color::Red), card(Value::Quad, Color::Blue)),
        // same temperature: an error, equally in both orders
        (card(Value::Bi, Color::Red), card(Value::Tri, Color::Orange)),
        // no match at all
        (card(Value::Bi, Color::Yellow), card(Value::Quad, Color::Blue)),
    ];
    for (a, b) in pairs {
        let forward = Player {
            hand: Deck::from_vec(vec![a, b]),
            identity: Color::Red,
            took_bonus: false,
            monads: Vec::new(),
        };
        let v1 = forward.trade_value(0, 1);
        let v2 = forward.trade_value(1, 0);
        assert_eq!(v1, v2);
    }
}

#[test]
fn can_take_bonus_rules() {
    let mut player = Player {
        hand: Deck::from_vec(vec![
            card(Value::Bi, Color::Orange),
            card(Value::Bi, Color::Blue),
            card(Value::Tri, Color::Blue),
            card(Value::Bi, Color::Red),
        ]),
        identity: Color::Green,
        took_bonus: false,
        monads: Vec::new(),
    };
    // partner colors with equal values qualify
    assert!(player.can_take_bonus(0, 1));
    // partner colors with unequal values do not
    assert!(!player.can_take_bonus(0, 2));
    // non-partner colors do not
    assert!(!player.can_take_bonus(3, 1));
    // once the flag is set, no pair qualifies until the turn resets it
    player.took_bonus = true;
    assert!(!player.can_take_bonus(0, 1));
}
