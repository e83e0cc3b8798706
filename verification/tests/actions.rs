use monad::card::{Card, Color, Deck, Monad, Value, ValueOrMonad};
use monad::game::{BuyError, FlipError, Game, LeapError, NumPlayers, TradeError};
use monad::player::Player;
use monad::table::Table;

fn card(value: Value, color: Color) -> Card {
    Card { value, color }
}

fn empty_table() -> Table {
    Table {
        discard: Deck::from_vec(Vec::new()),
        common: Deck::from_vec(Vec::new()),
        bi: Deck::from_vec(Vec::new()),
        tri: Deck::from_vec(Vec::new()),
        quad: Deck::from_vec(Vec::new()),
        quint: Deck::from_vec(Vec::new()),
        monad: vec![Monad; 12],
    }
}

fn one_player_game(hand: Vec<Card>, identity: Color, table: Table) -> Game {
    Game {
        players: vec![Player {
            hand: Deck::from_vec(hand),
            identity,
            took_bonus: false,
            monads: Vec::new(),
        }],
        table,
    }
}

fn deck_count(deck: &Deck, probe: Card) -> usize {
    let mut n = 0;
    for i in 0..deck.len() {
        if *deck.get(i) == probe {
            n += 1;
        }
    }
    n
}

/// Occurrences of one (value, color) card across every table deck and hand.
fn game_count(game: &Game, probe: Card) -> usize {
    let t = &game.table;
    let mut n = deck_count(&t.discard, probe)
        + deck_count(&t.common, probe)
        + deck_count(&t.bi, probe)
        + deck_count(&t.tri, probe)
        + deck_count(&t.quad, probe)
        + deck_count(&t.quint, probe);
    for p in &game.players {
        n += deck_count(&p.hand, probe);
    }
    n
}

const COLORS: [Color; 6] = [
    Color::Red,
    Color::Orange,
    Color::Yellow,
    Color::Purple,
    Color::Blue,
    Color::Green,
];
const VALUES: [Value; 5] = [Value::Common, Value::Bi, Value::Tri, Value::Quad, Value::Quint];

fn census(game: &Game) -> Vec<usize> {
    let mut counts = Vec::new();
    for v in VALUES {
        for c in COLORS {
            counts.push(game_count(game, card(v, c)));
        }
    }
    counts
}

fn monad_census(game: &Game) -> usize {
    let mut n = game.table.monad.len();
    for p in &game.players {
        n += p.monads.len();
    }
    n
}

#[test]
fn fresh_two_player_setup() {
    let game = Game::new(NumPlayers::Two);
    assert_eq!(game.players.len(), 2);
    // 6 colors x 2 players = 12 Commons dealt into common, 6 per hand:
    // the common deck is left with 12 - 2 * 6 = 0 cards.
    assert_eq!(game.table.common.len(), 0);
    assert_eq!(game.table.discard.len(), 0);
    assert_eq!(game.table.bi.len(), 6);
    assert_eq!(game.table.tri.len(), 6);
    assert_eq!(game.table.quad.len(), 6);
    assert_eq!(game.table.quint.len(), 6);
    assert_eq!(game.table.monad.len(), 12);
    for p in &game.players {
        assert_eq!(p.hand.len(), 6);
        for i in 0..p.hand.len() {
            assert!(p.hand.get(i).is_common());
        }
        assert!(!p.took_bonus);
        assert!(p.monads.is_empty());
    }
    assert_ne!(game.players[0].identity, game.players[1].identity);
    // every color contributes two Commons and one card per higher tier
    for c in COLORS {
        assert_eq!(game_count(&game, card(Value::Common, c)), 2);
        assert_eq!(game_count(&game, card(Value::Bi, c)), 1);
        assert_eq!(game_count(&game, card(Value::Quint, c)), 1);
    }
}

#[test]
fn fresh_games_have_distinct_identities() {
    for np in [NumPlayers::Two, NumPlayers::Three, NumPlayers::Four] {
        let game = Game::new(np);
        assert_eq!(game.players.len(), np.count());
        for i in 0..game.players.len() {
            for j in (i + 1)..game.players.len() {
                assert_ne!(game.players[i].identity, game.players[j].identity);
            }
        }
    }
}

#[test]
fn fresh_games_use_the_fixed_color_sets() {
    let game = Game::new(NumPlayers::Three);
    for p in &game.players {
        assert!(matches!(p.identity, Color::Purple | Color::Blue | Color::Green));
    }
    let game = Game::new(NumPlayers::Four);
    for p in &game.players {
        assert!(!matches!(p.identity, Color::Yellow | Color::Green));
    }
}

#[test]
fn draw_moves_one_common() {
    let mut table = empty_table();
    table.common = Deck::from_vec(vec![card(Value::Common, Color::Blue)]);
    let mut game = one_player_game(Vec::new(), Color::Red, table);
    assert_eq!(game.draw(0), Ok(()));
    assert_eq!(game.players[0].hand.len(), 1);
    assert_eq!(*game.players[0].hand.get(0), card(Value::Common, Color::Blue));
    assert_eq!(game.table.common.len(), 0);
    // the common deck is now empty: a second draw fails and changes nothing
    assert_eq!(game.draw(0), Err(()));
    assert_eq!(game.players[0].hand.len(), 1);
}

#[test]
fn flip_needs_an_empty_common_deck() {
    let mut table = empty_table();
    table.common = Deck::from_vec(vec![card(Value::Common, Color::Red)]);
    table.discard = Deck::from_vec(vec![card(Value::Common, Color::Blue)]);
    let mut game = one_player_game(Vec::new(), Color::Red, table);
    assert_eq!(game.flip(), Err(FlipError::NonEmptyCommonDeck));
    assert_eq!(game.table.common.len(), 1);
    assert_eq!(game.table.discard.len(), 1);
}

#[test]
fn flip_needs_a_discard_pile() {
    let mut game = one_player_game(Vec::new(), Color::Red, empty_table());
    assert_eq!(game.flip(), Err(FlipError::EmptyDiscardPile));
}

#[test]
fn flip_reclaims_the_discard_pile() {
    let mut table = empty_table();
    table.discard = Deck::from_vec(vec![
        card(Value::Common, Color::Red),
        card(Value::Common, Color::Blue),
        card(Value::Common, Color::Blue),
    ]);
    let mut game = one_player_game(Vec::new(), Color::Red, table);
    assert_eq!(game.flip(), Ok(()));
    assert_eq!(game.table.discard.len(), 0);
    assert_eq!(game.table.common.len(), 3);
    assert_eq!(game_count(&game, card(Value::Common, Color::Red)), 1);
    assert_eq!(game_count(&game, card(Value::Common, Color::Blue)), 2);
}

#[test]
fn trade_warm_red_for_cold_blue_draws_a_bi() {
    // equal-value warm/cold pair, no identity match: trade value Common,
    // one Bi card drawn from the table
    let mut table = empty_table();
    table.bi = Deck::from_vec(vec![card(Value::Bi, Color::Green)]);
    let mut game = one_player_game(
        vec![card(Value::Common, Color::Red), card(Value::Common, Color::Blue)],
        Color::Green,
        table,
    );
    let before = census(&game);
    assert_eq!(game.trade(0, 0, 1, false), Ok((1, false)));
    assert_eq!(census(&game), before);
    let p = &game.players[0];
    assert_eq!(p.hand.len(), 1);
    assert_eq!(*p.hand.get(0), card(Value::Bi, Color::Green));
    // both Commons were returned to the discard pile, never to common
    assert_eq!(game.table.discard.len(), 2);
    assert_eq!(game.table.common.len(), 0);
    assert_eq!(game.table.bi.len(), 0);
}

#[test]
fn trade_out_of_cards_changes_nothing() {
    // same pair, but the Bi deck is empty
    let mut game = one_player_game(
        vec![card(Value::Common, Color::Red), card(Value::Common, Color::Blue)],
        Color::Green,
        empty_table(),
    );
    let before = census(&game);
    assert_eq!(game.trade(0, 0, 1, false), Err(TradeError::OutOfCards(Value::Bi)));
    assert_eq!(census(&game), before);
    assert_eq!(game.players[0].hand.len(), 2);
    assert_eq!(game.table.discard.len(), 0);
}

#[test]
fn trade_two_warm_cards_fails() {
    let mut table = empty_table();
    table.bi = Deck::from_vec(vec![card(Value::Bi, Color::Green)]);
    let mut game = one_player_game(
        vec![card(Value::Common, Color::Red), card(Value::Common, Color::Orange)],
        Color::Green,
        table,
    );
    let before = census(&game);
    assert_eq!(game.trade(0, 0, 1, false), Err(TradeError::SameTemperature));
    assert_eq!(census(&game), before);
    assert_eq!(game.players[0].hand.len(), 2);
    assert_eq!(game.table.bi.len(), 1);
}

#[test]
fn trade_incompatible_values_fail() {
    let mut game = one_player_game(
        vec![card(Value::Bi, Color::Yellow), card(Value::Quad, Color::Blue)],
        Color::Red,
        empty_table(),
    );
    assert_eq!(
        game.trade(0, 0, 1, false),
        Err(TradeError::NotSameValueOrIdentity)
    );
}

#[test]
fn trade_identity_wildcard_uses_other_value() {
    // red identity: a red Bi against a blue Quad trades at Quad, drawing
    // from the Quint deck
    let mut table = empty_table();
    table.quint = Deck::from_vec(vec![card(Value::Quint, Color::Purple)]);
    let mut game = one_player_game(
        vec![card(Value::Bi, Color::Red), card(Value::Quad, Color::Blue)],
        Color::Red,
        table,
    );
    assert_eq!(game.trade(0, 0, 1, false), Ok((1, false)));
    assert_eq!(*game.players[0].hand.get(0), card(Value::Quint, Color::Purple));
    // the Bi and Quad cards went back to their own tier decks
    assert_eq!(game.table.bi.len(), 1);
    assert_eq!(game.table.quad.len(), 1);
}

#[test]
fn trade_quint_pair_awards_a_monad() {
    let mut game = one_player_game(
        vec![card(Value::Quint, Color::Red), card(Value::Quint, Color::Blue)],
        Color::Green,
        empty_table(),
    );
    let monads_before = monad_census(&game);
    assert_eq!(game.trade(0, 0, 1, false), Ok((0, true)));
    assert_eq!(game.players[0].monads.len(), 1);
    assert_eq!(game.table.monad.len(), 11);
    assert_eq!(monad_census(&game), monads_before);
    assert_eq!(game.table.quint.len(), 2);
    assert_eq!(game.players[0].hand.len(), 0);
}

#[test]
fn trade_bonus_walks_the_chain_and_sets_the_flag() {
    // Orange Bi and Blue Bi are bonus partners with equal values; the
    // primary draw is a Tri, the bonus walk tries Common below Bi
    let mut table = empty_table();
    table.tri = Deck::from_vec(vec![card(Value::Tri, Color::Red)]);
    table.common = Deck::from_vec(vec![card(Value::Common, Color::Green)]);
    let mut game = one_player_game(
        vec![card(Value::Bi, Color::Orange), card(Value::Bi, Color::Blue)],
        Color::Red,
        table,
    );
    let before = census(&game);
    assert_eq!(game.trade(0, 0, 1, true), Ok((2, false)));
    assert_eq!(census(&game), before);
    let p = &game.players[0];
    assert!(p.took_bonus);
    assert_eq!(p.hand.len(), 2);
    // a second qualifying pair no longer earns a bonus this turn
    assert!(!p.can_take_bonus(0, 1));
}

#[test]
fn trade_bonus_is_best_effort() {
    // the bonus tier below Bi (the common deck) is empty: the bonus is
    // silently skipped, yet the flag is still set
    let mut table = empty_table();
    table.tri = Deck::from_vec(vec![card(Value::Tri, Color::Red)]);
    let mut game = one_player_game(
        vec![card(Value::Bi, Color::Orange), card(Value::Bi, Color::Blue)],
        Color::Red,
        table,
    );
    assert_eq!(game.trade(0, 0, 1, true), Ok((1, false)));
    assert!(game.players[0].took_bonus);
}

#[test]
fn buy_rejects_a_short_total() {
    // buying a Quad (cost 16) with a Tri (7) and a Bi (3): 10 < 16
    let mut table = empty_table();
    table.quad = Deck::from_vec(vec![card(Value::Quad, Color::Red)]);
    let mut game = one_player_game(
        vec![card(Value::Tri, Color::Red), card(Value::Bi, Color::Blue)],
        Color::Green,
        table,
    );
    let before = census(&game);
    assert_eq!(
        game.buy(0, &vec![0, 1], ValueOrMonad::Value(Value::Quad)),
        Err(BuyError::NotEnoughPoints)
    );
    assert_eq!(census(&game), before);
    assert_eq!(game.players[0].hand.len(), 2);
}

#[test]
fn buy_quad_with_two_tris_and_a_bi() {
    // 7 + 7 + 3 = 17 >= 16, and no single card reaches 16
    let mut table = empty_table();
    table.quad = Deck::from_vec(vec![card(Value::Quad, Color::Red)]);
    let mut game = one_player_game(
        vec![
            card(Value::Tri, Color::Red),
            card(Value::Tri, Color::Blue),
            card(Value::Bi, Color::Green),
        ],
        Color::Green,
        table,
    );
    let before = census(&game);
    assert_eq!(
        game.buy(0, &vec![0, 1, 2], ValueOrMonad::Value(Value::Quad)),
        Ok(true)
    );
    assert_eq!(census(&game), before);
    let p = &game.players[0];
    assert_eq!(p.hand.len(), 1);
    assert_eq!(*p.hand.get(0), card(Value::Quad, Color::Red));
    // the paying cards returned to their own tier decks
    assert_eq!(game.table.tri.len(), 2);
    assert_eq!(game.table.bi.len(), 1);
    assert_eq!(game.table.quad.len(), 0);
}

#[test]
fn buy_rejects_a_single_card_at_cost() {
    // a Quad is worth a Quad's cost: never a legal payment toward one
    let mut table = empty_table();
    table.quad = Deck::from_vec(vec![card(Value::Quad, Color::Red)]);
    let mut game = one_player_game(
        vec![card(Value::Quad, Color::Blue), card(Value::Bi, Color::Red)],
        Color::Green,
        table,
    );
    assert_eq!(
        game.buy(0, &vec![0, 1], ValueOrMonad::Value(Value::Quad)),
        Err(BuyError::SameValue)
    );
    // a Quint is worth even more: rejected for the same reason
    assert_eq!(
        game.buy(0, &vec![0], ValueOrMonad::Value(Value::Bi)),
        Err(BuyError::SameValue)
    );
}

#[test]
fn buy_from_an_empty_deck_fails() {
    let mut game = one_player_game(
        vec![
            card(Value::Tri, Color::Red),
            card(Value::Tri, Color::Blue),
            card(Value::Tri, Color::Green),
        ],
        Color::Green,
        empty_table(),
    );
    assert_eq!(
        game.buy(0, &vec![0, 1, 2], ValueOrMonad::Value(Value::Quad)),
        Err(BuyError::OutOfCards(ValueOrMonad::Value(Value::Quad)))
    );
}

#[test]
fn buy_a_monad_depletes_the_pool() {
    let mut game = one_player_game(
        vec![
            card(Value::Quint, Color::Red),
            card(Value::Quint, Color::Blue),
            card(Value::Quint, Color::Green),
        ],
        Color::Orange,
        empty_table(),
    );
    // 36 * 3 = 108 >= 80, each card under 80
    assert_eq!(game.buy(0, &vec![0, 1, 2], ValueOrMonad::Monad), Ok(false));
    assert_eq!(game.players[0].monads.len(), 1);
    assert_eq!(game.table.monad.len(), 11);
    assert_eq!(game.players[0].hand.len(), 0);
    assert_eq!(game.table.quint.len(), 3);
}

#[test]
fn buy_a_monad_from_an_empty_pool_fails() {
    let mut table = empty_table();
    table.monad = Vec::new();
    let mut game = one_player_game(
        vec![
            card(Value::Quint, Color::Red),
            card(Value::Quint, Color::Blue),
            card(Value::Quint, Color::Green),
        ],
        Color::Orange,
        table,
    );
    assert_eq!(
        game.buy(0, &vec![0, 1, 2], ValueOrMonad::Monad),
        Err(BuyError::OutOfCards(ValueOrMonad::Monad))
    );
    assert_eq!(game.players[0].hand.len(), 3);
}

#[test]
fn buy_higher_tiers_need_strictly_more() {
    // three Bi cards pay 9: enough for a Tri (7), short of a Quad (16)
    let mut table = empty_table();
    table.tri = Deck::from_vec(vec![card(Value::Tri, Color::Red)]);
    table.quad = Deck::from_vec(vec![card(Value::Quad, Color::Red)]);
    let hand = vec![
        card(Value::Bi, Color::Red),
        card(Value::Bi, Color::Blue),
        card(Value::Bi, Color::Green),
    ];
    let mut game = one_player_game(hand.clone(), Color::Orange, table);
    assert_eq!(
        game.buy(0, &vec![0, 1, 2], ValueOrMonad::Value(Value::Quad)),
        Err(BuyError::NotEnoughPoints)
    );
    assert_eq!(
        game.buy(0, &vec![0, 1, 2], ValueOrMonad::Value(Value::Tri)),
        Ok(true)
    );
}

#[test]
fn leap_with_an_empty_tri_deck_fails() {
    // 4 Commons map to the Tri deck; when it is empty the leap is refused
    // outright and nothing moves
    let mut game = one_player_game(
        vec![
            card(Value::Common, Color::Red),
            card(Value::Common, Color::Blue),
            card(Value::Common, Color::Green),
            card(Value::Common, Color::Orange),
        ],
        Color::Red,
        empty_table(),
    );
    let before = census(&game);
    assert_eq!(
        game.leap(0, &vec![0, 1, 2, 3]),
        Err(LeapError::OutOfCards(Value::Tri))
    );
    assert_eq!(census(&game), before);
    assert_eq!(game.players[0].hand.len(), 4);
    assert_eq!(game.table.discard.len(), 0);
}

#[test]
fn leap_four_commons_to_a_tri() {
    let mut table = empty_table();
    table.tri = Deck::from_vec(vec![card(Value::Tri, Color::Purple)]);
    let mut game = one_player_game(
        vec![
            card(Value::Common, Color::Red),
            card(Value::Common, Color::Blue),
            card(Value::Common, Color::Green),
            card(Value::Common, Color::Orange),
        ],
        Color::Red,
        table,
    );
    let before = census(&game);
    assert_eq!(game.leap(0, &vec![2, 0, 3, 1]), Ok(()));
    assert_eq!(census(&game), before);
    let p = &game.players[0];
    assert_eq!(p.hand.len(), 1);
    assert_eq!(*p.hand.get(0), card(Value::Tri, Color::Purple));
    assert_eq!(game.table.discard.len(), 4);
    assert_eq!(game.table.tri.len(), 0);
}

#[test]
fn leap_wrong_count_fails() {
    let mut table = empty_table();
    table.tri = Deck::from_vec(vec![card(Value::Tri, Color::Purple)]);
    let mut game = one_player_game(
        vec![
            card(Value::Common, Color::Red),
            card(Value::Common, Color::Blue),
            card(Value::Common, Color::Green),
        ],
        Color::Red,
        table,
    );
    assert_eq!(game.leap(0, &vec![0, 1, 2]), Err(LeapError::NumOfCards(3)));
}

#[test]
fn leap_rejects_non_commons() {
    let mut table = empty_table();
    table.tri = Deck::from_vec(vec![card(Value::Tri, Color::Purple)]);
    let mut game = one_player_game(
        vec![
            card(Value::Common, Color::Red),
            card(Value::Common, Color::Blue),
            card(Value::Common, Color::Green),
            card(Value::Bi, Color::Orange),
        ],
        Color::Red,
        table,
    );
    assert_eq!(game.leap(0, &vec![0, 1, 2, 3]), Err(LeapError::NotAllCommons));
}

#[test]
fn leap_counts_map_to_tiers() {
    assert_eq!(Game::translate_commons_for_leap(4), Value::Tri);
    assert_eq!(Game::translate_commons_for_leap(5), Value::Quad);
    assert_eq!(Game::translate_commons_for_leap(6), Value::Quint);
}

#[test]
fn conservation_over_a_game_sequence() {
    let mut game = Game::new(NumPlayers::Three);
    let before = census(&game);
    let monads_before = monad_census(&game);
    assert_eq!(monads_before, 12);

    // find a tradeable pair in some hand and trade it; then exercise flip
    // and draw; the card census never changes
    'outer: for pi in 0..game.players.len() {
        let hand_len = game.players[pi].hand.len();
        for a in 0..hand_len {
            for b in (a + 1)..hand_len {
                if game.players[pi].trade_value(a, b).is_ok() {
                    assert_eq!(game.trade(pi, a, b, true), Ok((1, false)));
                    break 'outer;
                }
            }
        }
    }
    assert_eq!(census(&game), before);
    assert_eq!(monad_census(&game), monads_before);

    // the fresh deal leaves common empty; the trade above discarded two
    // Commons, so a flip reclaims them
    assert_eq!(game.flip(), Ok(()));
    assert_eq!(census(&game), before);
    assert_eq!(game.draw(0), Ok(()));
    assert_eq!(census(&game), before);
    assert_eq!(monad_census(&game), monads_before);
}

#[test]
fn player_bonus_flag_resets_between_turns() {
    let mut game = one_player_game(Vec::new(), Color::Red, empty_table());
    game.players[0].took_bonus = true;
    *game.player_took_bonus(0) = false;
    assert!(!game.players[0].took_bonus);
}

#[test]
fn check_player_end_sees_open_actions() {
    // nothing on the table, nothing in hand: no action is open
    let game = one_player_game(Vec::new(), Color::Red, {
        let mut t = empty_table();
        t.monad = Vec::new();
        t
    });
    assert!(game.check_player_end(0));

    // a stocked common deck makes a draw legal
    let mut t = empty_table();
    t.common = Deck::from_vec(vec![card(Value::Common, Color::Red)]);
    let game = one_player_game(Vec::new(), Color::Red, t);
    assert!(!game.check_player_end(0));

    // an exhausted common deck with a discard pile makes a flip legal
    let mut t = empty_table();
    t.discard = Deck::from_vec(vec![card(Value::Common, Color::Red)]);
    let game = one_player_game(Vec::new(), Color::Red, t);
    assert!(!game.check_player_end(0));

    // a tradeable pair with its award in stock makes a trade legal
    let mut t = empty_table();
    t.monad = Vec::new();
    t.bi = Deck::from_vec(vec![card(Value::Bi, Color::Green)]);
    let game = one_player_game(
        vec![card(Value::Common, Color::Red), card(Value::Common, Color::Blue)],
        Color::Green,
        t,
    );
    assert!(!game.check_player_end(0));

    // the same pair with an empty Bi deck leaves nothing to trade for
    let mut t = empty_table();
    t.monad = Vec::new();
    let game = one_player_game(
        vec![card(Value::Common, Color::Red), card(Value::Common, Color::Blue)],
        Color::Green,
        t,
    );
    assert!(game.check_player_end(0));

    // cards cheaper than a stocked target that cover its cost make a buy
    // legal: three Tris (21) against a stocked Quad deck (16)
    let mut t = empty_table();
    t.monad = Vec::new();
    t.quad = Deck::from_vec(vec![card(Value::Quad, Color::Red)]);
    let game = one_player_game(
        vec![
            card(Value::Tri, Color::Red),
            card(Value::Tri, Color::Orange),
            card(Value::Tri, Color::Yellow),
        ],
        Color::Green,
        t,
    );
    assert!(!game.check_player_end(0));

    // a stocked Monad pool against three Quints (108 toward a cost of 80)
    // makes a buy legal
    let game = one_player_game(
        vec![
            card(Value::Quint, Color::Red),
            card(Value::Quint, Color::Orange),
            card(Value::Quint, Color::Yellow),
        ],
        Color::Green,
        empty_table(),
    );
    assert!(!game.check_player_end(0));

    // four Commons of one temperature with a stocked Tri deck make a leap
    // legal even though no trade or buy is
    let mut t = empty_table();
    t.monad = Vec::new();
    t.tri = Deck::from_vec(vec![card(Value::Tri, Color::Purple)]);
    let game = one_player_game(
        vec![
            card(Value::Common, Color::Red),
            card(Value::Common, Color::Orange),
            card(Value::Common, Color::Yellow),
            card(Value::Common, Color::Red),
        ],
        Color::Green,
        t,
    );
    assert!(!game.check_player_end(0));
}
