use jasshaus::room::{actions_after_play, PlayAction};
use jasshaus::playtype::{Playtype, PASS, UPDOWN};
use jasshaus::room::{announce_verdict, AnnounceVerdict};
use jasshaus::room::{vote_step, VoteStep};
use jasshaus::voting::{Vote, Votinghandler, Votingtype};
use jasshaus::card::{Card, Cardset};
use jasshaus::room::{
    announce_player_from, count_connected, free_seat, get_client, get_first_announceplayer,
    team_order, NO_MATE,
};
use jasshaus::setting::StartingCondition;
use jasshaus::Game;

#[test]
fn no_order_until_everyone_chose() {
    assert_eq!(team_order(&[NO_MATE; 4]), None);
    assert_eq!(team_order(&[2, 3, NO_MATE, 1]), None);
}

#[test]
fn mates_sit_opposite() {
    assert_eq!(team_order(&[2, 3, 0, 1]), Some([0, 1, 2, 3]));
    assert_eq!(team_order(&[1, 0, 3, 2]), Some([0, 2, 1, 3]));
    assert_eq!(team_order(&[3, 3, 3, 3]), Some([0, 1, 3, 2]));
    // a player who chose someone who chose somebody else links nothing
    assert_eq!(team_order(&[1, 2, 3, 0]), Some([0, 1, 2, 3]));
    // nobody chose someone else
    assert_eq!(team_order(&[0, 1, 2, 3]), Some([0, 1, 2, 3]));
    // the first link counts: player 1 and 3
    assert_eq!(team_order(&[2, 3, 1, 1]), Some([1, 2, 3, 0]));
}

#[test]
fn seats_and_clients() {
    assert_eq!(get_client(&[2, 0, 1, 3], 1), 2);
    assert_eq!(get_client(&[2, 0, 1, 3], 3), 3);
    assert_eq!(get_client(&[2, 0, 1, 3], 7), 0);
    assert_eq!(free_seat(&[true, false, false, true]), Some(1));
    assert_eq!(free_seat(&[true; 4]), None);
    assert_eq!(count_connected(&[true, false, true, true]), 3);
    assert_eq!(count_connected(&[false; 4]), 0);
}

#[test]
fn first_announcer() {
    let mut hands = [Cardset::default(); 4];
    hands[2].insert(Card::new(0, 4));
    assert_eq!(announce_player_from(&hands, StartingCondition::CARD(Card::new(0, 4)), 0), 2);
    assert_eq!(announce_player_from(&hands, StartingCondition::CARD(Card::new(1, 4)), 0), 0);
    assert_eq!(announce_player_from(&hands, StartingCondition::PLAYER(3), 0), 3);
    assert_eq!(announce_player_from(&hands, StartingCondition::RANDOM, 7), 3);

    let mut g = Game::new();
    g.hands = hands;
    assert_eq!(get_first_announceplayer(&g), 2);
    g.setting.startcondition = StartingCondition::RANDOM;
    for _ in 0..20 {
        assert!(get_first_announceplayer(&g) < 4);
    }
}

#[test]
fn what_follows_a_play() {
    let mut g = Game::new();
    g.history_index = 5;
    assert_eq!(actions_after_play(&g), vec![PlayAction::SendCard]);
    g.history_index = 4;
    assert_eq!(actions_after_play(&g), vec![PlayAction::SendShows, PlayAction::SendCard]);
    g.history_index = 36;
    assert_eq!(actions_after_play(&g), vec![PlayAction::StartRound, PlayAction::SendCard]);
    g.points = [1000, 300];
    assert_eq!(
        actions_after_play(&g),
        vec![PlayAction::EndGame, PlayAction::StartRound, PlayAction::EndGame, PlayAction::SendCard]
    );
    g.history_index = 9;
    assert_eq!(actions_after_play(&g), vec![PlayAction::EndGame, PlayAction::SendCard]);
}

#[test]
fn how_an_announcement_is_answered() {
    let mut g = Game::new();
    g.start_new_round();
    let pass = Playtype { playtype: PASS, ruletype: PASS, misere: false, passed: false };
    let updown = Playtype { playtype: UPDOWN, ruletype: UPDOWN, misere: false, passed: false };
    assert_eq!(announce_verdict(&g, 0, updown), AnnounceVerdict::NotYourTurn);
    assert_eq!(announce_verdict(&g, 1, pass), AnnounceVerdict::Accepted);
    g.announce(pass);
    assert_eq!(announce_verdict(&g, 3, pass), AnnounceVerdict::AlreadyPassed);
    assert_eq!(announce_verdict(&g, 3, updown), AnnounceVerdict::Accepted);
    g.announce(updown);
    assert_eq!(announce_verdict(&g, 3, updown), AnnounceVerdict::NotYourTurn);
}

#[test]
fn what_follows_a_vote() {
    let mut v: Votinghandler<Votingtype> = Votinghandler::new(4);
    v.set_subject(Votingtype::REVANCHE);
    v.agree(0);
    v.agree(1);
    v.agree(2);
    assert_eq!(vote_step(&v), VoteStep::Wait);
    v.set_vote(3, Vote::DECLINE);
    assert_eq!(vote_step(&v), VoteStep::Revanche);
    v.set_subject(Votingtype::NONE);
    for i in 0..4 {
        v.agree(i);
    }
    assert_eq!(vote_step(&v), VoteStep::Close);
    v.set_subject(Votingtype::REVANCHE);
    v.agree(0);
    v.decline(1);
    v.decline(2);
    v.set_vote(3, Vote::NEUTRAL);
    assert_eq!(vote_step(&v), VoteStep::Wait);
}
