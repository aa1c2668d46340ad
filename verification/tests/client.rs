use jasshaus::client::receive_announce;
use jasshaus::playtype::{Playtype, ROSE, UPDOWN};
use jasshaus::card::{Card, Cardset, Show};
use jasshaus::client::{collect_trick, get_carpet, invert_order, points_before_round, visible_shows, CarpetCard};
use jasshaus::Game;

#[test]
fn carpet_of_a_running_trick() {
    let mut g = Game::new();
    g.history[0] = Card::new(0, 1);
    g.history[1] = Card::new(1, 2);
    g.history_index = 2;
    g.current_player = 3;
    g.bestcard_index = 1;
    // Player 1 opened the trick; player 0 sees player 1 on seat 1.
    let v = get_carpet(&g, 0);
    assert_eq!(
        v,
        vec![
            CarpetCard { card: Card::new(0, 1), pos: 1, best: false, dimmed: false },
            CarpetCard { card: Card::new(1, 2), pos: 2, best: true, dimmed: false },
        ]
    );
}

#[test]
fn carpet_of_a_complete_trick() {
    let mut g = Game::new();
    for i in 0..4u8 {
        g.history[i as usize] = Card::new(i, 3);
    }
    g.history_index = 4;
    // Player 2 took the trick with the second card, so player 1 opened it.
    g.current_player = 2;
    g.bestcard_index = 1;
    let v = get_carpet(&g, 1);
    let pos: Vec<u8> = v.iter().map(|c| c.pos).collect();
    assert_eq!(pos, vec![0, 1, 2, 3]);
    let best: Vec<bool> = v.iter().map(|c| c.best).collect();
    assert_eq!(best, vec![false, true, false, false]);
    let dimmed: Vec<bool> = v.iter().map(|c| c.dimmed).collect();
    assert_eq!(dimmed, vec![true, false, true, true]);
}

#[test]
fn empty_table() {
    let g = Game::new();
    assert!(get_carpet(&g, 2).is_empty());
}

#[test]
fn a_trick_goes_to_the_team_that_took_it() {
    let mut g = Game::new();
    let trick = [Card::new(2, 0), Card::new(2, 8), Card::new(0, 5), Card::new(3, 1)];
    for i in 0..4 {
        g.history[i] = trick[i];
    }
    g.history_index = 4;
    g.current_player = 3;
    let mut won = [Cardset::default(); 2];
    won[1].insert(Card::new(1, 1));
    collect_trick(&mut won, &g);
    assert_eq!(won[0], Cardset::default());
    for c in trick {
        assert!(won[1].contains(c));
    }
    assert!(won[1].contains(Card::new(1, 1)));
    assert_eq!(won[1].as_vec().len(), 5);
}

#[test]
fn only_filled_show_slots_are_seen() {
    let shows = [Show::new(1, 2, 3), Show::default(), Show::new(0, 0, 4)];
    assert_eq!(visible_shows(&shows), vec![Show::new(1, 2, 3), Show::new(0, 0, 4)]);
    assert!(visible_shows(&[Show::default(); 3]).is_empty());
}

#[test]
fn seats_after_the_teams_are_ordered() {
    assert_eq!(invert_order(&[2, 0, 3, 1]), [1, 3, 0, 2]);
    assert_eq!(invert_order(&[0, 1, 2, 3]), [0, 1, 2, 3]);
    // A seat named twice keeps the later position; one never named keeps 0.
    assert_eq!(invert_order(&[1, 1, 0, 0]), [3, 1, 0, 0]);
}

#[test]
fn points_before_the_round() {
    let mut g = Game::new();
    g.points = [320, 150];
    g.won_points = [57, 100];
    g.show_points = [20, 50];
    assert_eq!(points_before_round(&g, 0), 243);
    assert_eq!(points_before_round(&g, 1), 0);
}

#[test]
fn a_new_announcement_opens_a_new_round() {
    let mut g = Game::new();
    g.start_new_round();
    let mut won = [Cardset::default(); 2];
    won[0].insert(Card::new(0, 0));
    let updown = Playtype { playtype: UPDOWN, ruletype: UPDOWN, misere: false, passed: false };
    receive_announce(&mut g, &mut won, updown);
    assert_eq!(g.playtype.playtype, UPDOWN);
    assert!(won[0].contains(Card::new(0, 0)));
    assert_eq!(g.announce_player, 1);
    let rose = Playtype { playtype: ROSE, ruletype: ROSE, misere: false, passed: false };
    receive_announce(&mut g, &mut won, rose);
    assert_eq!(g.playtype.playtype, ROSE);
    assert_eq!(g.announce_player, 2);
    assert_eq!(won, [Cardset::default(); 2]);
}
