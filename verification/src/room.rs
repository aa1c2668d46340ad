//! The decisions of a game room: seats, teams, and who announces first.
use vstd::prelude::*;

use rand::Rng;

use crate::card::Cardset;
use crate::game::Game;
use crate::playtype::{Playtype, NONE, PASS};
use crate::voting::{vote_score, Votinghandler, Votingtype};
use crate::setting::StartingCondition;

verus! {

/// The mate choice of a player who has not chosen yet.
pub const NO_MATE: u8 = 0xFF;

/// Whether every player has chosen a mate.
pub open spec fn all_chosen(mate: Seq<u8>) -> bool {
    forall|i: int| 0 <= i < 4 ==> #[trigger] mate[i] != NO_MATE
}

/// Player `i` chose another player, who chose `i` back or chose nobody else.
pub open spec fn links(mate: Seq<u8>, i: int) -> bool {
    let m = mate[i] as int;
    m != i && (mate[m] == i || mate[m] == m)
}

/// The first player from `i` on whose choice links two players.
pub open spec fn first_link_from(mate: Seq<u8>, i: int) -> Option<int>
    decreases 4 - i,
{
    if i >= 4 {
        None
    } else if links(mate, i) {
        Some(i)
    } else {
        first_link_from(mate, i + 1)
    }
}

/// The seating that puts `i` and `m` in the same team: `i` first, `m` opposite.
pub open spec fn order_for(i: int, m: int) -> Seq<int> {
    let second = if (i + 1) % 4 == m {
        (m + 1) % 4
    } else {
        (i + 1) % 4
    };
    seq![i, second, m, 6 - i - m - second]
}

/// The seating of the four clients: `order[p]` is the client at seat `p`.
pub open spec fn team_order_spec(mate: Seq<u8>) -> Seq<int> {
    match first_link_from(mate, 0) {
        Some(i) => order_for(i, mate[i] as int),
        None => seq![0, 1, 2, 3],
    }
}

/// The player who announces first in a new game, given a random byte.
pub open spec fn first_announcer(hands: Seq<Set<int>>, cond: StartingCondition, random: u8) -> int {
    match cond {
        StartingCondition::CARD(card) => first_holder_from(hands, card.id(), 0),
        StartingCondition::RANDOM => random as int % 4,
        StartingCondition::PLAYER(plr) => plr as int,
    }
}

/// The first player from `i` on who holds card `id`, or 0 when none does.
pub open spec fn first_holder_from(hands: Seq<Set<int>>, id: int, i: int) -> int
    decreases 4 - i,
{
    if i >= 4 {
        0
    } else if hands[i].contains(id) {
        i
    } else {
        first_holder_from(hands, id, i + 1)
    }
}

/// The first seat from `i` on whose client has the player number, or 0 when none has.
pub open spec fn client_from(player_ids: Seq<u8>, player_id: u8, i: int) -> int
    decreases 4 - i,
{
    if i >= 4 {
        0
    } else if player_ids[i] == player_id {
        i
    } else {
        client_from(player_ids, player_id, i + 1)
    }
}

/// The first seat from `i` on that is free.
pub open spec fn free_from(connected: Seq<bool>, i: int) -> Option<int>
    decreases 4 - i,
{
    if i >= 4 {
        None
    } else if !connected[i] {
        Some(i)
    } else {
        free_from(connected, i + 1)
    }
}

/// How many of the first `n` seats are taken.
pub open spec fn taken(connected: Seq<bool>, n: int) -> int
    decreases n,
{
    if n <= 0 {
        0
    } else {
        taken(connected, n - 1) + if connected[n - 1] {
            1int
        } else {
            0int
        }
    }
}

/// The seating of the clients once all chose a mate; `None` while someone has not.
pub fn team_order(mate: &[u8; 4]) -> (r: Option<[usize; 4]>)
    requires
        forall|i: int| 0 <= i < 4 ==> #[trigger] mate@[i] < 4 || mate@[i] == NO_MATE,
    ensures
        r is None <==> !all_chosen(mate@),
        r matches Some(o) ==> o@.map_values(|x: usize| x as int) == team_order_spec(mate@),
{
    let mut k: usize = 0;
    while k < 4
        invariant
            k <= 4,
            forall|i: int| 0 <= i < k ==> #[trigger] mate@[i] != NO_MATE,
        decreases 4 - k,
    {
        if mate[k] == NO_MATE {
            return None;
        }
        k += 1;
    }
    let mut order: [usize; 4] = [0, 1, 2, 3];
    let mut i: usize = 0;
    while i < 4
        invariant
            i <= 4,
            all_chosen(mate@),
            forall|j: int| 0 <= j < 4 ==> #[trigger] mate@[j] < 4,
            first_link_from(mate@, 0) == first_link_from(mate@, i as int),
            order@ == seq![0usize, 1, 2, 3],
        decreases 4 - i,
    {
        let m = mate[i] as usize;
        if m != i && (mate[m] == i as u8 || mate[m] == m as u8) {
            let second = if (i + 1) % 4 == m {
                (m + 1) % 4
            } else {
                (i + 1) % 4
            };
            let last = 6 - i - m - second;
            order = [i, second, m, last];
            proof {
                assert(links(mate@, i as int));
                assert(order@.map_values(|x: usize| x as int) =~= order_for(i as int, m as int));
            }
            return Some(order);
        }
        i += 1;
    }
    assert(order@.map_values(|x: usize| x as int) =~= seq![0int, 1, 2, 3]);
    Some(order)
}

/// The seating is a permutation of the four clients, and two linked players sit
/// opposite each other, in the same team.
pub proof fn law_team_order(mate: Seq<u8>)
    requires
        mate.len() == 4,
        forall|i: int| 0 <= i < 4 ==> #[trigger] mate[i] < 4,
    ensures
        team_order_spec(mate).len() == 4,
        forall|p: int| 0 <= p < 4 ==> 0 <= #[trigger] team_order_spec(mate)[p] < 4,
        forall|p: int, q: int|
            0 <= p < q < 4 ==> #[trigger] team_order_spec(mate)[p] != #[trigger] team_order_spec(
                mate,
            )[q],
        first_link_from(mate, 0) matches Some(i) ==> team_order_spec(mate)[0] == i
            && team_order_spec(mate)[2] == mate[i] && links(mate, i),
{
    lemma_first_link(mate, 0);
}

proof fn lemma_first_link(mate: Seq<u8>, i: int)
    requires
        0 <= i <= 4,
        forall|k: int| 0 <= k < 4 ==> #[trigger] mate[k] < 4,
    ensures
        first_link_from(mate, i) matches Some(j) ==> i <= j < 4 && links(mate, j),
    decreases 4 - i,
{
    if i < 4 {
        lemma_first_link(mate, i + 1);
    }
}

/// The seat of the client with the given player number; seat 0 when none has it.
pub fn get_client(player_ids: &[u8; 4], player_id: u8) -> (r: u8)
    ensures
        r == client_from(player_ids@, player_id, 0),
{
    let mut i: usize = 0;
    while i < 4
        invariant
            i <= 4,
            client_from(player_ids@, player_id, 0) == client_from(player_ids@, player_id, i as int),
        decreases 4 - i,
    {
        if player_ids[i] == player_id {
            return i as u8;
        }
        i += 1;
    }
    0
}

/// The first free seat, if any.
pub fn free_seat(connected: &[bool; 4]) -> (r: Option<u8>)
    ensures
        r matches Some(s) ==> free_from(connected@, 0) == Some(s as int),
        r is None ==> free_from(connected@, 0) is None,
{
    let mut i: usize = 0;
    while i < 4
        invariant
            i <= 4,
            free_from(connected@, 0) == free_from(connected@, i as int),
        decreases 4 - i,
    {
        if !connected[i] {
            return Some(i as u8);
        }
        i += 1;
    }
    None
}

/// How many seats are taken.
pub fn count_connected(connected: &[bool; 4]) -> (r: usize)
    ensures
        r == taken(connected@, 4),
{
    let mut count: usize = 0;
    let mut i: usize = 0;
    while i < 4
        invariant
            i <= 4,
            count == taken(connected@, i as int),
            count <= i,
        decreases 4 - i,
    {
        if connected[i] {
            count += 1;
        }
        i += 1;
    }
    count
}

/// The player who announces first in a new game, given a random byte for a random
/// start.
pub fn announce_player_from(hands: &[Cardset; 4], cond: StartingCondition, random: u8) -> (r: u8)
    requires
        cond matches StartingCondition::CARD(card) ==> card.id() < 64,
    ensures
        r == first_announcer(hands@.map_values(|h: Cardset| h@), cond, random),
{
    let ghost hs = hands@.map_values(|h: Cardset| h@);
    match cond {
        StartingCondition::CARD(card) => {
            let mut i: usize = 0;
            while i < 4
                invariant
                    i <= 4,
                    card.id() < 64,
                    hs == hands@.map_values(|h: Cardset| h@),
                    cond == StartingCondition::CARD(card),
                    first_holder_from(hs, card.id(), 0) == first_holder_from(hs, card.id(), i as int),
                decreases 4 - i,
            {
                assert(hs[i as int] == hands@[i as int]@);
                if hands[i].contains(card) {
                    return i as u8;
                }
                i += 1;
            }
            0
        },
        StartingCondition::RANDOM => random % 4,
        StartingCondition::PLAYER(plr) => plr,
    }
}

/// The player who announces first in a new game, drawing a random player for a
/// random start.
pub fn get_first_announceplayer(game: &Game) -> (r: u8)
    requires
        game.setting.startcondition matches StartingCondition::CARD(card) ==> card.id() < 64,
    ensures
        game.setting.startcondition is RANDOM ==> r < 4,
        !(game.setting.startcondition is RANDOM) ==> r == first_announcer(
            game@.hands,
            game.setting.startcondition,
            0,
        ),
{
    let random = match game.setting.startcondition {
        StartingCondition::RANDOM => random_byte(),
        _ => 0,
    };
    announce_player_from(&game.hands, game.setting.startcondition, random)
}

/// A byte drawn with `rand::Rng::gen` from `rand::thread_rng()`. Any byte may come back:
/// nothing is stated of it.
#[verifier::external_body]
fn random_byte() -> (r: u8) {
    rand::thread_rng().gen::<u8>()
}

/// What the room does, in order, after a card was played.
#[derive(Clone, Copy, PartialEq, Eq, Debug, Structural)]
pub enum PlayAction {
    /// Tell everyone the shows, after the first trick.
    SendShows,
    /// End the game: a team reached the points for winning.
    EndGame,
    /// Start the next round, after the last trick.
    StartRound,
    /// Tell everyone the card that was played.
    SendCard,
}

/// The actions after a card was played, given the number of cards played in the round
/// and whether a team has reached the points for winning.
pub open spec fn play_actions(history_index: int, ends: bool) -> Seq<PlayAction> {
    let ending = if ends {
        seq![PlayAction::EndGame]
    } else {
        Seq::empty()
    };
    let trick = if history_index == 4 {
        seq![PlayAction::SendShows]
    } else if history_index == 36 {
        ending.push(PlayAction::StartRound)
    } else {
        Seq::empty()
    };
    trick + ending + seq![PlayAction::SendCard]
}

/// The actions of the room after a card was played. Starting the next round keeps the
/// points, so whether the game ends is the same before and after it.
pub fn actions_after_play(game: &Game) -> (v: Vec<PlayAction>)
    ensures
        v@ == play_actions(game.history_index as int, game@.should_end()),
{
    let ends = game.should_end();
    let mut v: Vec<PlayAction> = Vec::new();
    if game.history_index == 4 {
        v.push(PlayAction::SendShows);
    } else if game.history_index == 36 {
        if ends {
            v.push(PlayAction::EndGame);
        }
        v.push(PlayAction::StartRound);
    }
    if ends {
        v.push(PlayAction::EndGame);
    }
    v.push(PlayAction::SendCard);
    assert(v@ =~= play_actions(game.history_index as int, ends));
    v
}

/// How the room answers an announcement.
#[derive(Clone, Copy, PartialEq, Eq, Debug, Structural)]
pub enum AnnounceVerdict {
    /// The player may not announce now.
    NotYourTurn,
    /// The mode was passed already; it cannot be passed twice.
    AlreadyPassed,
    /// The announcement goes to the game.
    Accepted,
}

/// How the room answers player `plr` announcing `pt`.
pub fn announce_verdict(game: &Game, plr: u8, pt: Playtype) -> (r: AnnounceVerdict)
    requires
        game.playtype.playtype == NONE && game.playtype.passed ==> game.announce_player <= 253,
    ensures
        r == if !(game.playtype.playtype == NONE && game@.announcing_player() == plr) {
            AnnounceVerdict::NotYourTurn
        } else if pt.playtype == PASS && game.playtype.passed {
            AnnounceVerdict::AlreadyPassed
        } else {
            AnnounceVerdict::Accepted
        },
{
    if !game.can_announce(plr) {
        AnnounceVerdict::NotYourTurn
    } else if pt.playtype == PASS && game.playtype.passed {
        AnnounceVerdict::AlreadyPassed
    } else {
        AnnounceVerdict::Accepted
    }
}

/// What follows a vote in the room.
#[derive(Clone, Copy, PartialEq, Eq, Debug, Structural)]
pub enum VoteStep {
    /// Not everyone has voted, or the vote was not accepted: nothing happens.
    Wait,
    /// The revanche was accepted: a new game starts and the vote closes.
    Revanche,
    /// Another subject was accepted: the vote closes.
    Close,
}

/// What follows the votes cast so far.
pub fn vote_step(voting: &Votinghandler<Votingtype>) -> (r: VoteStep)
    requires
        voting.vote@.len() >= 4,
    ensures
        r == if !(voting.ready == voting.vote@.len()) || !(vote_score(voting.vote@.take(4)) > 0) {
            VoteStep::Wait
        } else if voting.subject == Votingtype::REVANCHE {
            VoteStep::Revanche
        } else {
            VoteStep::Close
        },
{
    if !voting.all_ready() || !voting.is_accepted() {
        VoteStep::Wait
    } else if voting.subject == Votingtype::REVANCHE {
        VoteStep::Revanche
    } else {
        VoteStep::Close
    }
}

/// The free seat found is free and every seat before it is taken; when none is found,
/// every seat from `i` on is taken.
pub proof fn law_free_seat(connected: Seq<bool>, i: int)
    requires
        0 <= i <= 4,
    ensures
        free_from(connected, i) matches Some(s) ==> i <= s < 4 && !connected[s] && forall|k: int|
            i <= k < s ==> #[trigger] connected[k],
        free_from(connected, i) is None ==> forall|k: int| i <= k < 4 ==> #[trigger] connected[k],
    decreases 4 - i,
{
    if i < 4 {
        law_free_seat(connected, i + 1);
    }
}

/// The seat found for a player number holds that number and no earlier seat does; when no
/// seat holds it, seat 0 is the answer.
pub proof fn law_client_seat(player_ids: Seq<u8>, player_id: u8, i: int)
    requires
        0 <= i <= 4,
    ensures
        (exists|k: int| i <= k < 4 && #[trigger] player_ids[k] == player_id) ==> {
            let s = client_from(player_ids, player_id, i);
            &&& i <= s < 4
            &&& player_ids[s] == player_id
            &&& forall|k: int| i <= k < s ==> #[trigger] player_ids[k] != player_id
        },
        (forall|k: int| i <= k < 4 ==> #[trigger] player_ids[k] != player_id) ==> client_from(
            player_ids,
            player_id,
            i,
        ) == 0,
    decreases 4 - i,
{
    if i < 4 {
        law_client_seat(player_ids, player_id, i + 1);
    }
}

/// With a starting card, the first announcer is the first player who holds it, or player 0
/// when nobody does; with a starting player, that player; at random, the drawn byte's seat.
pub proof fn law_first_announcer(hands: Seq<Set<int>>, cond: StartingCondition, random: u8)
    ensures
        cond matches StartingCondition::CARD(card) ==> {
            let p = first_announcer(hands, cond, random);
            &&& 0 <= p < 4
            &&& (exists|k: int| 0 <= k < 4 && #[trigger] hands[k].contains(card.id())) ==> hands[p].contains(
                card.id(),
            ) && forall|k: int| 0 <= k < p ==> !#[trigger] hands[k].contains(card.id())
            &&& (forall|k: int| 0 <= k < 4 ==> !#[trigger] hands[k].contains(card.id())) ==> p == 0
        },
        cond matches StartingCondition::PLAYER(plr) ==> first_announcer(hands, cond, random) == plr,
        cond is RANDOM ==> first_announcer(hands, cond, random) == random % 4,
{
    if let StartingCondition::CARD(card) = cond {
        lemma_first_holder(hands, card.id(), 0);
    }
}

proof fn lemma_first_holder(hands: Seq<Set<int>>, id: int, i: int)
    requires
        0 <= i <= 4,
    ensures
        0 <= first_holder_from(hands, id, i) < 4,
        (exists|k: int| i <= k < 4 && #[trigger] hands[k].contains(id)) ==> {
            let p = first_holder_from(hands, id, i);
            &&& i <= p
            &&& hands[p].contains(id)
            &&& forall|k: int| i <= k < p ==> !#[trigger] hands[k].contains(id)
        },
        (forall|k: int| i <= k < 4 ==> !#[trigger] hands[k].contains(id)) ==> first_holder_from(
            hands,
            id,
            i,
        ) == 0,
    decreases 4 - i,
{
    if i < 4 {
        lemma_first_holder(hands, id, i + 1);
    }
}

} // verus!
