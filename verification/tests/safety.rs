use jasshaus::card::{Card, Show};
use jasshaus::playtype::{Playtype, UPDOWN};
use jasshaus::Game;

fn started_game() -> Game {
    let mut g = Game::new();
    g.start_new_round();
    let mut cards = [Card::new(0, 0); 36];
    for i in 0..36u8 {
        cards[i as usize] = Card::from_id(i);
    }
    g.deal_cards(&cards);
    g.announce(Playtype { playtype: UPDOWN, ruletype: UPDOWN, misere: false, passed: false });
    g
}

#[test]
fn a_started_game_is_safe_to_play() {
    let mut g = started_game();
    for _ in 0..36 {
        let plr = g.current_player;
        let card = g.hands[plr as usize].as_vec()[0];
        assert!(g.is_safe_to_play(card));
        g.play_card(card);
    }
    assert_eq!(g.history_index, 36);
    assert!(!g.is_safe_to_play(Card::new(0, 0)));
}

#[test]
fn unsafe_inputs_are_detected() {
    let g = started_game();
    assert!(!g.is_safe_to_play(Card::new(5, 0)));
    assert!(!g.is_safe_to_play(Card::new(0, 9)));
    let mut h = started_game();
    h.points = [65000, 0];
    assert!(!h.is_safe_to_play(Card::new(1, 0)));
    let mut k = started_game();
    k.playtype.playtype = 255;
    assert!(!k.is_safe_to_play(Card::new(1, 0)));
    let mut s = started_game();
    s.shows[1][0] = Show::new(254, 0, 3);
    assert!(!s.is_safe_to_play(Card::new(1, 0)));
}

#[test]
fn shows_that_can_be_checked() {
    assert!(Show::new(0, 5, 1).checkable());
    assert!(!Show::new(0, 64, 1).checkable());
    assert!(Show::new(3, 0, 9).checkable());
    assert!(Show::new(7, 0, 3).checkable() == false);
    assert!(Show::new(0, 250, 7).checkable() == false);
    assert!(Show::new(0, 7, 4).checkable());
    assert!(Show::new(9, 9, 2).checkable());
}
