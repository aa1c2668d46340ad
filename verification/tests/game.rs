use jasshaus::card::{Card, Cardset, Show};
use jasshaus::playtype::{Playtype, NONE, PASS, ROSE, SHIELD, UPDOWN};
use jasshaus::{Game, MarriageState};

fn mode(playtype: u8) -> Playtype {
    Playtype { playtype, ruletype: playtype, misere: false, passed: false }
}

fn ordered_deck() -> [Card; 36] {
    let mut cards = [Card::new(0, 0); 36];
    for i in 0..36u8 {
        cards[i as usize] = Card::from_id(i);
    }
    cards
}

#[test]
fn new_game() {
    let g = Game::new();
    assert_eq!(g.history_index, 0);
    assert_eq!(g.points, [0, 0]);
    assert_eq!(g.playtype.playtype, NONE);
    assert_eq!(g.setting.max_points, 1000);
    assert_eq!(g.marriage, [MarriageState::Unplayed; 4]);
    assert!(!g.is_announced());
    assert!(!g.should_end());
    assert_eq!(g.get_winner_team(), 0);
}

#[test]
fn start_new_round_rotates_announcer() {
    let mut g = Game::new();
    g.points = [120, 80];
    g.won_points = [100, 60];
    g.start_new_round();
    assert_eq!(g.announce_player, 1);
    assert_eq!(g.current_player, 1);
    assert_eq!(g.points, [120, 80]);
    assert_eq!(g.won_points, [0, 0]);
    assert_eq!(g.history[0], Card::new(4, 0));
    assert_eq!(g.shows[3][2], Show::new(4, 0, 0));
    assert_eq!(g.get_winner_team(), 0);
    g.points = [10, 20];
    assert_eq!(g.get_winner_team(), 1);
}

#[test]
fn announce_and_pass() {
    let mut g = Game::new();
    g.start_new_round();
    assert!(g.can_announce(1));
    assert!(!g.can_announce(0));
    g.announce(mode(PASS));
    assert!(g.playtype.passed);
    assert_eq!(g.get_announcing_player(), 3);
    assert_eq!(g.current_player, 3);
    // the announced mode carries the pass along
    g.announce(Playtype { playtype: UPDOWN, ruletype: UPDOWN, misere: false, passed: true });
    assert!(g.is_announced());
    // after a pass, the partner leads in up-down
    assert_eq!(g.current_player, 3);
    assert_eq!(g.get_startplayer(), 3);
    // but the announcer leads in a trump mode
    g.playtype.playtype = SHIELD;
    assert_eq!(g.get_startplayer(), 1);

    let mut h = Game::new();
    h.start_new_round();
    h.announce(Playtype { playtype: 6, ruletype: 0, misere: false, passed: false });
    assert_eq!(h.playtype.ruletype, UPDOWN);
    assert_eq!(h.current_player, 1);
}

#[test]
fn refused_announcements_change_nothing() {
    let mut g = Game::new();
    g.start_new_round();
    g.setting.allow_misere = false;
    g.announce(Playtype { playtype: UPDOWN, ruletype: UPDOWN, misere: true, passed: false });
    assert!(!g.is_announced());
    g.setting.allow_playtype[UPDOWN as usize] = false;
    g.announce(mode(UPDOWN));
    assert!(!g.is_announced());
    g.setting.allow_pass = false;
    g.announce(mode(PASS));
    assert!(!g.playtype.passed);
}

#[test]
fn full_round_gives_157_points() {
    let mut g = Game::new();
    g.start_new_round();
    g.deal_cards(&ordered_deck());
    g.announce(mode(UPDOWN));
    let mut tricks_before = 0;
    for _ in 0..36 {
        let plr = g.current_player;
        let hand = g.hands[plr as usize].as_vec();
        let card = *hand.iter().find(|&&c| g.is_legal_card(plr, c)).expect("a legal card");
        for other in 0..4u8 {
            if other != plr {
                assert!(!g.is_legal_card(other, card));
            }
        }
        g.play_card(card);
        if g.history_index % 4 == 0 {
            tricks_before += 1;
        }
    }
    assert_eq!(tricks_before, 9);
    assert_eq!(g.history_index, 36);
    let total = g.won_points[0] + g.won_points[1];
    // 152 points of the cards, 5 for the last trick, 100 more for a match
    let bonus = if g.team0_wins == 0 || g.team0_wins == 9 { 100 } else { 0 };
    assert_eq!(total, 157 + bonus);
    assert_eq!(g.points[0], g.won_points[0] + g.show_points[0]);
    assert_eq!(g.points[1], g.won_points[1] + g.show_points[1]);
    for h in g.hands.iter() {
        assert_eq!(*h, Cardset::default());
    }
}

#[test]
fn played_cards_of_the_trick() {
    let mut g = Game::new();
    g.start_new_round();
    g.deal_cards(&ordered_deck());
    g.announce(mode(UPDOWN));
    assert!(g.get_playedcards().is_empty());
    let c1 = g.hands[1].as_vec()[0];
    g.play_card(c1);
    let c2 = g.hands[2].as_vec()[0];
    g.play_card(c2);
    assert_eq!(g.get_playedcards(), vec![c1, c2]);
    assert_eq!(g.get_beginplayer(), 1);
    assert_eq!(g.current_player, 3);
}

#[test]
fn trumpf_rules_for_legal_cards() {
    let mut g = Game::new();
    g.playtype = mode(ROSE); // colour 2 is trump
    g.history[0] = Card::new(0, 8);
    g.history_index = 1;
    g.bestcard_index = 0;
    g.current_player = 1;
    g.hands[1] = Cardset::new(vec![Card::new(2, 0), Card::new(1, 3)]);
    // a trump on a non-trump card is always better, so it may be played
    assert!(g.is_legal_card(1, Card::new(2, 0)));
    assert!(g.is_legal_card(1, Card::new(1, 3)));

    // the board holds the Jack of trump: a lower trump may not be played
    g.history[1] = Card::new(2, 5);
    g.history_index = 2;
    g.bestcard_index = 1;
    g.current_player = 2;
    g.hands[2] = Cardset::new(vec![Card::new(2, 0), Card::new(1, 3)]);
    assert!(!g.is_legal_card(2, Card::new(2, 0)));
    assert!(g.is_legal_card(2, Card::new(1, 3)));
    // unless the player has nothing but trump
    g.hands[2] = Cardset::new(vec![Card::new(2, 0)]);
    assert!(g.is_legal_card(2, Card::new(2, 0)));
}

#[test]
fn nobody_has_to_play_the_jack_of_trump() {
    let mut g = Game::new();
    g.playtype = mode(ROSE);
    g.history[0] = Card::new(2, 8);
    g.history_index = 1;
    g.bestcard_index = 0;
    g.current_player = 1;
    g.hands[1] = Cardset::new(vec![Card::new(2, 5), Card::new(1, 1)]);
    assert!(g.is_legal_card(1, Card::new(1, 1)));
    g.hands[1] = Cardset::new(vec![Card::new(2, 5), Card::new(2, 0), Card::new(1, 1)]);
    assert!(!g.is_legal_card(1, Card::new(1, 1)));
    assert!(g.is_legal_card(1, Card::new(2, 0)));
    // and a player must follow suit otherwise
    g.playtype = mode(UPDOWN);
    assert!(!g.is_legal_card(1, Card::new(1, 1)));
    // not the player's turn, or a card not in hand
    assert!(!g.is_legal_card(2, Card::new(2, 0)));
    assert!(!g.is_legal_card(1, Card::new(3, 3)));
}

#[test]
fn shows_go_to_the_team_with_the_best_show() {
    let mut g = Game::new();
    g.playtype = mode(SHIELD);
    g.shows = [[Show::new(4, 2, 0); 3]; 4];
    g.shows[0][0] = Show::new(1, 0, 3);
    g.shows[1][0] = Show::new(2, 0, 4);
    g.shows[3][0] = Show::new(0, 0, 3);
    g.handle_shows();
    assert_eq!(g.points, [0, 70]);
    assert_eq!(g.show_points, [0, 70]);
    assert_eq!(g.shows[0][0], Show::new(4, 2, 0));
    assert_eq!(g.shows[1][0], Show::new(2, 0, 4));

    let mut h = Game::new();
    h.playtype = mode(SHIELD);
    h.shows = [[Show::new(4, 2, 0); 3]; 4];
    h.handle_shows();
    assert_eq!(h.points, [0, 0]);
}

#[test]
fn shows_are_capped_by_the_setting() {
    let mut g = Game::new();
    g.playtype = mode(SHIELD);
    g.setting.show_points_maximum = 100;
    g.shows = [[Show::new(4, 2, 0); 3]; 4];
    g.shows[2][0] = Show::new(0, 0, 9);
    g.handle_shows();
    assert_eq!(g.points, [100, 0]);
}

#[test]
fn play_show_fills_slots() {
    let mut g = Game::new();
    g.current_player = 2;
    g.shows = [[Show::new(4, 2, 0); 3]; 4];
    assert_eq!(g.play_show(Show::new(1, 0, 3)), Ok(()));
    assert_eq!(g.play_show(Show::new(1, 0, 3)), Err(()));
    assert_eq!(g.play_show(Show::new(0, 5, 1)), Ok(()));
    assert_eq!(g.play_show(Show::new(2, 2, 4)), Ok(()));
    assert_eq!(g.play_show(Show::new(3, 2, 4)), Err(()));
    assert_eq!(g.shows[2][1], Show::new(0, 5, 1));
}

#[test]
fn marriages_and_show_permission() {
    let mut g = Game::new();
    g.playtype = mode(SHIELD);
    g.marriage[3] = MarriageState::WouldWin;
    g.handle_marriage();
    assert_eq!(g.points, [0, 20]);
    assert_eq!(g.show_points, [0, 20]);
    assert_eq!(g.marriage[3], MarriageState::PlayedBoth);
    g.play_marriage(0);
    assert_eq!(g.points, [20, 20]);
    assert!(g.can_show(0));
    assert!(!g.can_show(1));
}

#[test]
fn announcing_trump_marks_winning_marriages() {
    let mut g = Game::new();
    g.start_new_round();
    g.points = [990, 0];
    g.hands[2] = Cardset::new(vec![Card::new(0, 6), Card::new(0, 7)]);
    g.hands[1] = Cardset::new(vec![Card::new(0, 6), Card::new(0, 7)]);
    g.announce(mode(SHIELD));
    assert_eq!(g.marriage[2], MarriageState::WouldWin);
    assert_eq!(g.marriage[1], MarriageState::Unplayed);
}

#[test]
fn generated_hands_split_the_deck() {
    let mut g = Game::new();
    g.generate_cards();
    let mut seen = Cardset::default();
    for h in g.hands.iter() {
        assert_eq!(h.as_vec().len(), 9);
        for c in h.as_vec() {
            assert!(!seen.contains(c));
            seen.insert(c);
        }
    }
    assert_eq!(seen.as_vec().len(), 36);
    // a shuffled deck is practically never dealt in order
    let mut sorted = Game::new();
    sorted.deal_cards(&ordered_deck());
    assert_ne!(g.hands, sorted.hands);
}

#[test]
fn counters_only_grow_and_the_trick_leader_stays() {
    let mut g = Game::new();
    g.start_new_round();
    g.deal_cards(&ordered_deck());
    g.announce(mode(ROSE));
    for _ in 0..36 {
        let plr = g.current_player;
        let hand = g.hands[plr as usize].as_vec();
        // the player to move always has a legal card
        let card = *hand.iter().find(|&&c| g.is_legal_card(plr, c)).expect("a legal card");
        let before = g.clone();
        if g.history_index % 4 == 0 {
            assert_eq!(g.get_beginplayer(), g.current_player);
        }
        g.play_card(card);
        for t in 0..2 {
            assert!(g.points[t] >= before.points[t]);
            assert!(g.won_points[t] >= before.won_points[t]);
            assert!(g.show_points[t] >= before.show_points[t]);
            assert!(g.points[t] >= g.won_points[t] + g.show_points[t]);
        }
        if before.history_index % 4 != 3 {
            assert_eq!(g.get_beginplayer(), before.get_beginplayer());
        }
    }
}

#[test]
fn restart_clears_the_points() {
    let mut g = Game::new();
    g.points = [700, 420];
    g.announce_player = 2;
    g.restart();
    assert_eq!(g.points, [0, 0]);
    assert_eq!(g.announce_player, 3);
    assert_eq!(g.current_player, 3);
    assert_eq!(g.history_index, 0);
    assert!(!g.is_announced());
}

#[test]
fn round_points_times_the_multiplier() {
    let mut g = Game::new();
    g.start_new_round();
    g.setting.playtype_multiplier[ROSE as usize] = 3;
    g.deal_cards(&ordered_deck());
    g.announce(mode(ROSE));
    for _ in 0..36 {
        let plr = g.current_player;
        let hand = g.hands[plr as usize].as_vec();
        let card = *hand.iter().find(|&&c| g.is_legal_card(plr, c)).expect("a legal card");
        g.play_card(card);
    }
    assert_eq!(g.history_index, 36);
    assert!(g.team0_wins <= 9);
    let bonus = if g.team0_wins == 0 || g.team0_wins == 9 { 100 } else { 0 };
    assert_eq!(g.won_points[0] + g.won_points[1], 3 * (157 + bonus));
}
