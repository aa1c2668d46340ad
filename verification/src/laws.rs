//! Laws of a round: what playing a card keeps (the table, the points of earlier rounds,
//! counters that only grow, the player who began the trick), that a round started,
//! dealt and announced stays in order, and that a player always has a card to play.
use vstd::prelude::*;

use crate::card::{
    card_of_id, count_run, has_color_spec, has_stronger_trumpf_spec, only_has_color_spec, Card,
};
use crate::game::{
    held, is_deal,
    cleared_show, lemma_best_bounds, shaped, slot_counts, team_of, GameModel, MarriageState,
};
use crate::playtype::{
    law_card_stronger_asymmetric, law_card_stronger_transitive, Playtype, BELL, DOWNUP, GUSCHTI, MARY, NONE, PASS, SHIELD, SLALOMDOWNUP, SLALOMUPDOWN, UPDOWN,
};
use crate::setting::PointRule;

verus! {

/// What a team's points hold beyond this round's play and shows: the points of
/// earlier rounds.
pub open spec fn point_balance(m: GameModel, t: int) -> int {
    m.points[t] - m.won_points[t] - m.show_points[t]
}

/// `b` has the table, the turn, the hands and the game mode of `a`, and the same points
/// of earlier rounds.
pub open spec fn keeps_table(a: GameModel, b: GameModel) -> bool {
    &&& shaped(b)
    &&& b.history_index == a.history_index
    &&& b.history == a.history
    &&& b.bestcard_index == a.bestcard_index
    &&& b.team0_wins == a.team0_wins
    &&& b.current_player == a.current_player
    &&& b.hands == a.hands
    &&& b.setting == a.setting
    &&& b.playtype.playtype == a.playtype.playtype
    &&& b.playtype.misere == a.playtype.misere
    &&& forall|t: int| 0 <= t < 2 ==> #[trigger] point_balance(b, t) == point_balance(a, t)
}

/// The state of a game during a round.
pub open spec fn wf(m: GameModel) -> bool {
    &&& shaped(m)
    &&& 0 <= m.history_index <= 36
    &&& 0 <= m.current_player < 4
    &&& 0 <= m.bestcard_index < 36
    &&& (m.history_index % 4 != 0 ==> m.history_index / 4 * 4 <= m.bestcard_index
        < m.history_index)
    &&& 0 <= m.team0_wins <= m.history_index / 4
}

pub(crate) proof fn lemma_keeps_add_points(m: GameModel, team: int, pts: int)
    requires
        shaped(m),
        0 <= team < 2,
    ensures
        keeps_table(m, m.add_points(team, pts)),
{
    let r = m.add_points(team, pts);
    assert forall|t: int| 0 <= t < 2 implies #[trigger] point_balance(r, t) == point_balance(m, t) by {}
}

proof fn lemma_keeps_marriages(m: GameModel, i: int)
    requires
        shaped(m),
        0 <= i <= 4,
    ensures
        keeps_table(m, m.marriages_from(i)),
    decreases 4 - i,
{
    if i < 4 {
        if m.marriage[i] == MarriageState::WouldWin {
            let m1 = m.play_marriage(i);
            assert forall|t: int| 0 <= t < 2 implies #[trigger] point_balance(m1, t) == point_balance(m, t) by {}
            lemma_keeps_marriages(m1, i + 1);
        } else {
            lemma_keeps_marriages(m, i + 1);
        }
    }
}

proof fn lemma_keeps_award(m: GameModel, team: int, k: int)
    requires
        shaped(m),
        0 <= team < 2,
        0 <= k <= 12,
    ensures
        keeps_table(m, m.award_from(team, k)),
    decreases 12 - k,
{
    if k < 12 {
        let p = k / 3;
        let j = k % 3;
        if team_of(p) == team {
            if slot_counts(m.shows, p, j) {
                let sp = m.show_award(m.shows[p][j]);
                let m1 = GameModel {
                    points: m.points.update(team, m.points[team] + sp),
                    show_points: m.show_points.update(team, m.show_points[team] + sp),
                    ..m
                };
                assert forall|t: int| 0 <= t < 2 implies #[trigger] point_balance(m1, t) == point_balance(m, t) by {}
                lemma_keeps_award(m1, team, k + 1);
            } else {
                lemma_keeps_award(m, team, k + 1);
            }
        } else {
            let m1 = GameModel {
                shows: m.shows.update(p, m.shows[p].update(j, cleared_show())),
                ..m
            };
            assert forall|q: int| 0 <= q < 4 implies (#[trigger] m1.shows[q]).len() == 3 by {
                if q != p {
                    assert(m1.shows[q] == m.shows[q]);
                }
            }
            assert forall|t: int| 0 <= t < 2 implies #[trigger] point_balance(m1, t) == point_balance(m, t) by {}
            lemma_keeps_award(m1, team, k + 1);
        }
    }
}

/// Giving the points of a rule keeps the table.
pub(crate) proof fn lemma_keeps_rules(m: GameModel, team: int, pts: int)
    requires
        shaped(m),
        0 <= team < 2,
    ensures
        keeps_table(m, m.handle_marriage()),
        keeps_table(m, m.handle_shows()),
        keeps_table(m, m.end_round()),
        forall|rule: PointRule| keeps_table(m, #[trigger] m.apply_rule(rule, team, pts)),
{
    lemma_keeps_add_points(m, team, pts);
    lemma_keeps_marriages(m, 0);
    lemma_best_bounds(m, 0, (0, 0));
    lemma_keeps_award(m, team_of(m.best_show().0), 0);
    let lt = team_of(m.current_player);
    lemma_keeps_add_points(m, lt, 5);
    lemma_keeps_add_points(m.add_points(lt, 5), lt, 100);
}

proof fn lemma_keeps_rules_from(m: GameModel, k: int, team: int, pts: int)
    requires
        shaped(m),
        0 <= team < 2,
        0 <= k <= 3,
    ensures
        keeps_table(m, m.rules_from(k, team, pts).0),
    decreases 3 - k,
{
    if k < 3 {
        let m1 = m.apply_rule(m.setting.point_recv_order@[k], team, pts);
        lemma_keeps_rules(m, team, pts);
        if m1.should_end() {
            lemma_keeps_rules(m1, team, pts);
        } else {
            lemma_keeps_rules_from(m1, k + 1, team, pts);
        }
    }
}

proof fn lemma_keeps_after_trick(m: GameModel)
    requires
        shaped(m),
    ensures
        keeps_table(m, m.after_trick()),
{
    let m1 = if m.flips() {
        GameModel {
            playtype: Playtype { ruletype: m.playtype.ruletype ^ 1u8, ..m.playtype },
            ..m
        }
    } else {
        m
    };
    lemma_keeps_rules(m1, 0, 0);
}

/// After a trick ends, the table is unchanged, its winner leads, and team 0's count of
/// tricks grows by at most one.
pub(crate) proof fn lemma_end_turn(m: GameModel)
    requires
        shaped(m),
    ensures
        shaped(m.end_turn()),
        m.end_turn().history_index == m.history_index,
        m.end_turn().history == m.history,
        m.end_turn().bestcard_index == m.bestcard_index,
        m.end_turn().hands == m.hands,
        m.end_turn().setting == m.setting,
        m.end_turn().playtype.playtype == m.playtype.playtype,
        m.end_turn().playtype.misere == m.playtype.misere,
        m.end_turn().current_player == m.trick_winner(),
        m.team0_wins <= m.end_turn().team0_wins <= m.team0_wins + 1,
        forall|t: int| 0 <= t < 2 ==> #[trigger] point_balance(m.end_turn(), t) == point_balance(m, t),
{
    let pts = m.trick_points();
    let bt = team_of(m.trick_winner());
    let m1 = m.trick_taken();
    assert forall|t: int| 0 <= t < 2 implies #[trigger] point_balance(m1, t) == point_balance(m, t) by {}
    if m.history_index == 4 {
        lemma_keeps_rules_from(m1, 0, bt, pts);
        let m2 = m1.rules_from(0, bt, pts).0;
        lemma_keeps_after_trick(m2);
    } else {
        lemma_keeps_add_points(m1, bt, pts);
        let m2 = m1.add_points(bt, pts);
        lemma_keeps_rules(m2, 0, 0);
        lemma_keeps_after_trick(m2);
    }
}

/// Playing a card moves it from the hand of the player to the table, and changes
/// no team's points of earlier rounds: what the round adds to a team's points it adds
/// to its points of play or of shows.
pub proof fn law_play_card_moves_card(m: GameModel, card: Card)
    requires
        shaped(m),
        m.play_card_defined(card),
    ensures
        m.play_card(card).history_index == m.history_index + 1,
        m.play_card(card).history == m.history.update(m.history_index, card),
        m.play_card(card).hands == m.hands.update(
            m.current_player,
            m.hands[m.current_player].remove(card.id()),
        ),
        forall|t: int|
            0 <= t < 2 ==> #[trigger] point_balance(m.play_card(card), t) == point_balance(m, t),
{
    let m1 = m.card_placed(card);
    let m2 = m1.marriage_step(card);
    assert forall|t: int| 0 <= t < 2 implies #[trigger] point_balance(m2, t) == point_balance(m, t) by {}
    if m2.history_index % 4 == 0 {
        lemma_end_turn(m2);
    }
}

/// No counter of `b` is below that of `a`, for either team.
pub open spec fn counters_grow(a: GameModel, b: GameModel) -> bool {
    &&& a.points[0] <= b.points[0] && a.points[1] <= b.points[1]
    &&& a.won_points[0] <= b.won_points[0] && a.won_points[1] <= b.won_points[1]
    &&& a.show_points[0] <= b.show_points[0] && a.show_points[1] <= b.show_points[1]
}

proof fn lemma_grow_trans(a: GameModel, b: GameModel, c: GameModel)
    requires
        counters_grow(a, b),
        counters_grow(b, c),
    ensures
        counters_grow(a, c),
{
}

proof fn lemma_grow_add_points(m: GameModel, team: int, pts: int)
    requires
        shaped(m),
        m.add_points_defined(team, pts),
    ensures
        counters_grow(m, m.add_points(team, pts)),
{
    let mult = m.multiplier();
    assert(0 <= pts * mult) by (nonlinear_arith)
        requires
            0 <= pts,
            0 <= mult,
    ;
}

proof fn lemma_grow_marriages(m: GameModel, i: int)
    requires
        shaped(m),
        0 <= i <= 4,
    ensures
        counters_grow(m, m.marriages_from(i)),
    decreases 4 - i,
{
    if i < 4 {
        if m.marriage[i] == MarriageState::WouldWin {
            let m1 = m.play_marriage(i);
            lemma_grow_marriages(m1, i + 1);
            lemma_grow_trans(m, m1, m1.marriages_from(i + 1));
        } else {
            lemma_grow_marriages(m, i + 1);
        }
    }
}

proof fn lemma_grow_award(m: GameModel, team: int, k: int)
    requires
        shaped(m),
        0 <= team < 2,
        0 <= k <= 12,
    ensures
        counters_grow(m, m.award_from(team, k)),
    decreases 12 - k,
{
    if k < 12 {
        let p = k / 3;
        let j = k % 3;
        if team_of(p) == team {
            if slot_counts(m.shows, p, j) {
                let sp = m.show_award(m.shows[p][j]);
                assert(sp >= 0);
                let m1 = GameModel {
                    points: m.points.update(team, m.points[team] + sp),
                    show_points: m.show_points.update(team, m.show_points[team] + sp),
                    ..m
                };
                lemma_grow_award(m1, team, k + 1);
                lemma_grow_trans(m, m1, m1.award_from(team, k + 1));
            } else {
                lemma_grow_award(m, team, k + 1);
            }
        } else {
            let m1 = GameModel {
                shows: m.shows.update(p, m.shows[p].update(j, cleared_show())),
                ..m
            };
            assert forall|q: int| 0 <= q < 4 implies (#[trigger] m1.shows[q]).len() == 3 by {
                if q != p {
                    assert(m1.shows[q] == m.shows[q]);
                }
            }
            lemma_grow_award(m1, team, k + 1);
        }
    }
}

pub(crate) proof fn lemma_grow_end_round(m: GameModel)
    requires
        shaped(m),
        m.end_round_defined(),
    ensures
        counters_grow(m, m.end_round()),
{
    if m.history_index == 36 {
        let lt = team_of(m.current_player);
        lemma_grow_add_points(m, lt, 5);
        let m1 = m.add_points(lt, 5);
        let wins = if lt == 0 {
            m1.team0_wins
        } else {
            9 - m1.team0_wins
        };
        if wins == 9 {
            lemma_grow_add_points(m1, lt, 100);
            lemma_grow_trans(m, m1, m1.add_points(lt, 100));
        }
    }
}

proof fn lemma_grow_rule(m: GameModel, rule: PointRule, team: int, pts: int)
    requires
        shaped(m),
        m.apply_rule_defined(rule, team, pts),
    ensures
        counters_grow(m, m.apply_rule(rule, team, pts)),
{
    match rule {
        PointRule::PLAY => lemma_grow_add_points(m, team, pts),
        PointRule::SHOW => {
            let best = m.best_show();
            lemma_best_bounds(m, 0, (0, 0));
            if m.shows[best.0][best.1].color != 4 {
                lemma_grow_award(m, team_of(best.0), 0);
            }
        },
        PointRule::MARRIAGE => {
            if m.playtype.is_trumpf_spec() {
                lemma_grow_marriages(m, 0);
            }
        },
    }
}

proof fn lemma_grow_rules_from(m: GameModel, k: int, team: int, pts: int)
    requires
        shaped(m),
        0 <= team < 2,
        0 <= k <= 3,
        m.rules_from_defined(k, team, pts),
    ensures
        counters_grow(m, m.rules_from(k, team, pts).0),
    decreases 3 - k,
{
    if k < 3 {
        let rule = m.setting.point_recv_order@[k];
        let m1 = m.apply_rule(rule, team, pts);
        lemma_grow_rule(m, rule, team, pts);
        lemma_keeps_rules(m, team, pts);
        if m1.should_end() {
            lemma_grow_end_round(m1);
            lemma_grow_trans(m, m1, m1.end_round());
        } else {
            lemma_grow_rules_from(m1, k + 1, team, pts);
            lemma_grow_trans(m, m1, m1.rules_from(k + 1, team, pts).0);
        }
    }
}

proof fn lemma_grow_after_trick(m: GameModel)
    requires
        shaped(m),
        m.after_trick_defined(),
    ensures
        counters_grow(m, m.after_trick()),
{
    let m1 = if m.flips() {
        GameModel {
            playtype: Playtype { ruletype: m.playtype.ruletype ^ 1u8, ..m.playtype },
            ..m
        }
    } else {
        m
    };
    if m1.history_index == 36 {
        lemma_grow_end_round(m1);
    }
}

proof fn lemma_grow_end_turn(m: GameModel)
    requires
        shaped(m),
        m.end_turn_defined(),
    ensures
        counters_grow(m, m.end_turn()),
{
    let pts = m.trick_points();
    let bt = team_of(m.trick_winner());
    let m1 = m.trick_taken();
    if m.history_index == 4 {
        lemma_grow_rules_from(m1, 0, bt, pts);
        let (m2, ended) = m1.rules_from(0, bt, pts);
        lemma_keeps_rules_from(m1, 0, bt, pts);
        if !ended {
            lemma_grow_after_trick(m2);
            lemma_grow_trans(m1, m2, m2.after_trick());
        }
    } else {
        lemma_grow_add_points(m1, bt, pts);
        let m2 = m1.add_points(bt, pts);
        lemma_keeps_add_points(m1, bt, pts);
        if m2.should_end() {
            lemma_grow_end_round(m2);
            lemma_grow_trans(m1, m2, m2.end_round());
        } else {
            lemma_grow_after_trick(m2);
            lemma_grow_trans(m1, m2, m2.after_trick());
        }
    }
}

/// Playing a card never lowers a counter: each team's points, points of play and
/// points of shows only grow, and a team whose points cover its points of play and of
/// shows keeps them covered.
pub proof fn law_play_card_counters_grow(m: GameModel, card: Card)
    requires
        shaped(m),
        m.play_card_defined(card),
    ensures
        counters_grow(m, m.play_card(card)),
        forall|t: int|
            0 <= t < 2 && m.points[t] >= m.won_points[t] + m.show_points[t] ==> #[trigger] m.play_card(
                card,
            ).points[t] >= m.play_card(card).won_points[t] + m.play_card(card).show_points[t],
{
    let m1 = m.card_placed(card);
    let m2 = m1.marriage_step(card);
    assert(counters_grow(m, m2));
    if m2.history_index % 4 == 0 {
        lemma_grow_end_turn(m2);
        lemma_grow_trans(m, m2, m2.end_turn());
    }
    law_play_card_moves_card(m, card);
    assert forall|t: int|
        0 <= t < 2 && m.points[t] >= m.won_points[t] + m.show_points[t] implies #[trigger] m.play_card(
            card,
        ).points[t] >= m.play_card(card).won_points[t] + m.play_card(card).show_points[t] by {
        assert(point_balance(m.play_card(card), t) == point_balance(m, t));
    }
}

/// At the start of a trick the player to move is the one who begins it.
pub proof fn law_leader_begins(m: GameModel)
    requires
        0 <= m.current_player < 4,
        0 <= m.history_index,
        m.history_index % 4 == 0,
    ensures
        m.beginplayer() == m.current_player,
{
}

/// Within a trick the player who began it stays the same: a card that does not
/// complete the trick, after which the game goes on, keeps the beginning player.
pub proof fn law_play_card_keeps_beginplayer(m: GameModel, card: Card)
    requires
        shaped(m),
        0 <= m.current_player < 4,
        0 <= m.history_index < 36,
        m.history_index % 4 != 3,
        !m.play_card(card).should_end(),
    ensures
        m.play_card(card).beginplayer() == m.beginplayer(),
{
    let hi = m.history_index;
    let m2 = m.card_placed(card).marriage_step(card);
    assert(m2.history_index == hi + 1);
    assert((hi + 1) % 4 == hi % 4 + 1);
    assert(m2.history_index % 4 != 0);
    let r = m.play_card(card);
    assert(r.current_player == (m.current_player + 1) % 4);
    assert(r.history_index == hi + 1);
}

/// Playing a card keeps a round well formed: the player to move is one of the four,
/// the best card lies in the current trick, and team 0 won at most the tricks played.
pub proof fn law_play_card_wf(m: GameModel, card: Card)
    requires
        wf(m),
        m.play_card_defined(card),
    ensures
        wf(m.play_card(card)),
{
    let m1 = m.card_placed(card);
    let m2 = m1.marriage_step(card);
    assert(wf(m2));
    if m2.history_index % 4 == 0 {
        lemma_end_turn(m2);
    }
}

/// The table of a round in order: the cards played so far lie before
/// `history_index`, each in one of the four colours, and every later slot is empty.
pub open spec fn table_in_order(m: GameModel) -> bool {
    forall|i: int|
        0 <= i < 36 ==> (i < m.history_index ==> (#[trigger] m.history[i]).color < 4) && (i
            >= m.history_index ==> m.history[i].color == 4)
}

/// Every hand holds cards of the deck only.
pub open spec fn hands_in_deck(m: GameModel) -> bool {
    forall|p: int, i: int| 0 <= p < 4 && #[trigger] m.hands[p].contains(i) ==> 0 <= i < 36
}

/// A new round whose cards are dealt and whose mode is not announced yet.
pub open spec fn before_announce(m: GameModel) -> bool {
    &&& shaped(m)
    &&& m.history_index == 0
    &&& m.team0_wins == 0
    &&& 0 <= m.bestcard_index < 36
    &&& 0 <= m.announce_player < 4
    &&& m.playtype.playtype == NONE
    &&& table_in_order(m)
    &&& hands_in_deck(m)
}

/// A round in play: well formed, with an announced mode, hands of deck cards and the
/// table in order.
pub open spec fn in_round(m: GameModel) -> bool {
    &&& wf(m)
    &&& m.playtype.playtype < 10
    &&& table_in_order(m)
    &&& hands_in_deck(m)
}

/// Starting a new round and dealing the cards leads to a round waiting for its mode.
pub proof fn law_round_start(m: GameModel, hands: Seq<Set<int>>)
    requires
        shaped(m),
        0 <= m.bestcard_index < 36,
        is_deal(hands),
    ensures
        before_announce(GameModel { hands, ..m.start_new_round() }),
{
    let r = GameModel { hands, ..m.start_new_round() };
    assert forall|p: int, i: int| 0 <= p < 4 && #[trigger] r.hands[p].contains(i) implies 0 <= i < 36 by {
        assert(held(hands, i));
    }
    assert forall|q: int| 0 <= q < 4 implies (#[trigger] r.shows[q]).len() == 3 by {}
}

/// An announcement in a round waiting for its mode either leaves it waiting (a pass or
/// a refused mode) or puts the round in play.
pub proof fn law_announce_in_round(m: GameModel, pt: Playtype)
    requires
        before_announce(m),
        m.announce_defined(pt),
    ensures
        (m.announce(pt).playtype.playtype == NONE && before_announce(m.announce(pt))) || in_round(
            m.announce(pt),
        ),
{
    let r = m.announce(pt);
    assert(shaped(r));
}

/// Playing a legal card keeps a round in play.
pub proof fn law_play_card_in_round(m: GameModel, card: Card)
    requires
        in_round(m),
        m.legal_card(m.current_player, card),
        m.play_card_defined(card),
    ensures
        in_round(m.play_card(card)),
{
    let hi = m.history_index;
    let cp = m.current_player;
    law_play_card_wf(m, card);
    law_play_card_moves_card(m, card);
    assert(0 <= card.id() < 36);
    assert(card.color < 4);
    let m2 = m.card_placed(card).marriage_step(card);
    if m2.history_index % 4 == 0 {
        lemma_end_turn(m2);
    }
    let r = m.play_card(card);
    assert(r.playtype.playtype == m.playtype.playtype);
    assert forall|i: int| 0 <= i < 36 implies (i < r.history_index ==> (#[trigger] r.history[i]).color
        < 4) && (i >= r.history_index ==> r.history[i].color == 4) by {
        if i != hi {
            assert(r.history[i] == m.history[i]);
        }
    }
    assert forall|p: int, i: int| 0 <= p < 4 && #[trigger] r.hands[p].contains(i) implies 0 <= i < 36 by {
        if p == cp {
            assert(m.hands[p].contains(i));
        } else {
            assert(r.hands[p] == m.hands[p]);
        }
    }
}

/// In a round in play, the player to move who still holds cards always has a card
/// that the rules allow.
pub proof fn law_legal_card_in_round(m: GameModel)
    requires
        in_round(m),
        m.history_index < 36,
        exists|i: int| #[trigger] m.hands[m.current_player].contains(i),
    ensures
        exists|c: Card|
            c.color < 4 && c.number < 9 && m.hands[m.current_player].contains(c.id())
                && #[trigger] m.legal_card(m.current_player, c),
{
    let first = m.history_index / 4 * 4;
    assert(0 <= first <= m.history_index);
    assert(m.history[first].color == 4 || m.history[first].color < 4);
    assert forall|i: int| #[trigger] m.hands[m.current_player].contains(i) implies 0 <= i < 36 by {}
    law_legal_card_exists(m);
}

/// A team gives points to a team: in misère to the other team, otherwise to itself.
pub proof fn law_add_points_receiver(m: GameModel, team: int, pts: int)
    requires
        shaped(m),
        0 <= team < 2,
    ensures
        m.playtype.misere ==> m.add_points(team, pts).won_points[1 - team] == m.won_points[1 - team]
            + pts * m.multiplier() && m.add_points(team, pts).points[1 - team] == m.points[1 - team]
            + pts * m.multiplier() && m.add_points(team, pts).won_points[team] == m.won_points[team]
            && m.add_points(team, pts).points[team] == m.points[team],
        !m.playtype.misere ==> m.add_points(team, pts).won_points[team] == m.won_points[team] + pts
            * m.multiplier() && m.add_points(team, pts).points[team] == m.points[team] + pts
            * m.multiplier() && m.add_points(team, pts).won_points[1 - team] == m.won_points[1 - team]
            && m.add_points(team, pts).points[1 - team] == m.points[1 - team],
{
}

/// The points of a trick after the first and before the last go, times the multiplier,
/// to the team that took the trick, and in misère to the other team; the team that does
/// not receive them gets nothing.
pub proof fn law_trick_points_receiver(m: GameModel)
    requires
        shaped(m),
        4 < m.history_index < 36,
    ensures
        ({
            let w = team_of(m.trick_winner());
            let r = if m.playtype.misere {
                1 - w
            } else {
                w
            };
            let gain = m.trick_points() * m.multiplier();
            &&& m.end_turn().won_points[r] == m.won_points[r] + gain
            &&& m.end_turn().points[r] == m.points[r] + gain
            &&& m.end_turn().won_points[1 - r] == m.won_points[1 - r]
            &&& m.end_turn().points[1 - r] == m.points[1 - r]
        }),
{
    let w = team_of(m.trick_winner());
    let m1 = m.trick_taken();
    law_add_points_receiver(m1, w, m.trick_points());
    assert(m1.multiplier() == m.multiplier());
}

/// The last trick brings 5 more points, and 100 more when its team took every trick;
/// they go to the team that took it, and in misère to the other team.
pub proof fn law_last_trick_receiver(m: GameModel)
    requires
        shaped(m),
        m.history_index == 36,
        0 <= m.current_player,
    ensures
        ({
            let w = team_of(m.current_player);
            let r = if m.playtype.misere {
                1 - w
            } else {
                w
            };
            let all = if w == 0 {
                m.team0_wins == 9
            } else {
                m.team0_wins == 0
            };
            let gain = (5 + if all {
                100int
            } else {
                0int
            }) * m.multiplier();
            &&& m.end_round().won_points[r] == m.won_points[r] + gain
            &&& m.end_round().points[r] == m.points[r] + gain
            &&& m.end_round().won_points[1 - r] == m.won_points[1 - r]
            &&& m.end_round().points[1 - r] == m.points[1 - r]
        }),
{
    let w = team_of(m.current_player);
    let mult = m.multiplier();
    law_add_points_receiver(m, w, 5);
    let m1 = m.add_points(w, 5);
    law_add_points_receiver(m1, w, 100);
    assert((5 + 100) * mult == 5 * mult + 100 * mult) by (nonlinear_arith);
    assert((5 + 0) * mult == 5 * mult) by (nonlinear_arith);
}

/// Announcing an allowed mode starts its card order: top-down for Slalom top-down and
/// Guschti, bottom-up for Slalom bottom-up and Mary, the mode itself otherwise.
pub proof fn law_announce_card_order(m: GameModel, pt: Playtype)
    requires
        pt.playtype < 10,
        !(!m.setting.allow_misere && pt.misere),
        m.setting.allow_playtype@[pt.playtype as int],
    ensures
        m.announce(pt).playtype.playtype == pt.playtype,
        m.announce(pt).playtype.misere == pt.misere,
        pt.playtype == SLALOMUPDOWN || pt.playtype == GUSCHTI ==> m.announce(pt).playtype.ruletype
            == UPDOWN,
        pt.playtype == SLALOMDOWNUP || pt.playtype == MARY ==> m.announce(pt).playtype.ruletype
            == DOWNUP,
        pt.playtype <= BELL ==> m.announce(pt).playtype.ruletype == pt.playtype,
{
}

/// One identifier of the range in the set makes the count at least one; two different
/// ones make it at least two.
proof fn lemma_count_run_members(s: Set<int>, lo: int, n: nat, a: int, b: int)
    requires
        lo <= a < lo + n,
        s.contains(a),
    ensures
        count_run(s, lo, n) >= 1,
        lo <= b < lo + n && b != a && s.contains(b) ==> count_run(s, lo, n) >= 2,
    decreases n,
{
    if n > 0 {
        let last = lo + n - 1;
        if a == last {
            if lo <= b < last && s.contains(b) {
                lemma_count_run_members(s, lo, (n - 1) as nat, b, b);
            }
        } else {
            lemma_count_run_members(s, lo, (n - 1) as nat, a, b);
            if b == last && s.contains(b) {
            }
        }
    }
}

/// Only `a` of the range in the set makes the count one.
proof fn lemma_count_run_single(s: Set<int>, lo: int, n: nat, a: int)
    requires
        lo <= a < lo + n,
        s.contains(a),
        forall|i: int| lo <= i < lo + n && i != a ==> !s.contains(i),
    ensures
        count_run(s, lo, n) == 1,
    decreases n,
{
    if n > 0 {
        let last = lo + n - 1;
        if a == last {
            lemma_count_run_none(s, lo, (n - 1) as nat);
        } else {
            lemma_count_run_single(s, lo, (n - 1) as nat, a);
        }
    }
}

proof fn lemma_count_run_none(s: Set<int>, lo: int, n: nat)
    requires
        forall|i: int| lo <= i < lo + n ==> !s.contains(i),
    ensures
        count_run(s, lo, n) == 0,
    decreases n,
{
    if n > 0 {
        lemma_count_run_none(s, lo, (n - 1) as nat);
    }
}

/// When trump is led, a player who holds a trump other than the Jack must play trump:
/// no card of another colour is legal.
pub proof fn law_trump_lead_must_follow(m: GameModel, player: int, card: Card, n: int)
    requires
        SHIELD <= m.playtype.playtype <= BELL,
        m.history[m.history_index / 4 * 4].color + 2 == m.playtype.playtype,
        card.color + 2 != m.playtype.playtype,
        0 <= n < 9,
        n != 5,
        m.hands[player].contains((m.playtype.playtype - 2) * 9 + n),
    ensures
        !m.legal_card(player, card),
{
    let t = m.playtype.playtype - 2;
    let hand = m.hands[player];
    assert(has_color_spec(hand, t));
    if hand.contains(t * 9 + 5) {
        lemma_count_run_members(hand, t * 9, 9, t * 9 + n, t * 9 + 5);
    }
}

/// When trump is led, a player whose only trump is the Jack may hold it back: any card
/// of another colour in the hand is legal for the player to move.
pub proof fn law_trump_jack_may_stay(m: GameModel, card: Card)
    requires
        SHIELD <= m.playtype.playtype <= BELL,
        m.history_index < 36,
        m.history[m.history_index / 4 * 4].color + 2 == m.playtype.playtype,
        card.color + 2 != m.playtype.playtype,
        m.hands[m.current_player].contains(card.id()),
        m.hands[m.current_player].contains((m.playtype.playtype - 2) * 9 + 5),
        forall|n: int|
            0 <= n < 9 && n != 5 ==> !#[trigger] m.hands[m.current_player].contains(
                (m.playtype.playtype - 2) * 9 + n,
            ),
    ensures
        m.legal_card(m.current_player, card),
{
    let t = m.playtype.playtype - 2;
    let hand = m.hands[m.current_player];
    assert(has_color_spec(hand, t));
    assert forall|i: int| t * 9 <= i < t * 9 + 9 && i != t * 9 + 5 implies !hand.contains(i) by {
        assert(!hand.contains(t * 9 + (i - t * 9)));
    }
    lemma_count_run_single(hand, t * 9, 9, t * 9 + 5);
}

/// The card at `best` lies in `lo..hi`, and no other card there beats it under `pt`.
pub open spec fn best_unbeaten(pt: Playtype, h: Seq<Card>, best: int, lo: int, hi: int) -> bool {
    &&& lo <= best < hi
    &&& forall|j: int| lo <= j < hi && j != best ==> !#[trigger] pt.card_stronger(h[best], h[j])
}

/// The best card of a trick is one that no other card of the trick beats: playing a
/// card keeps the best card of the trick so far unbeaten, in the mode in which the trick
/// is played.
pub proof fn law_best_card_unbeaten(m: GameModel, card: Card)
    requires
        shaped(m),
        0 <= m.current_player < 4,
        0 <= m.history_index < 36,
        m.history_index % 4 != 0 ==> best_unbeaten(
            m.playtype,
            m.history,
            m.bestcard_index,
            m.history_index / 4 * 4,
            m.history_index,
        ),
    ensures
        best_unbeaten(
            m.playtype,
            m.play_card(card).history,
            m.play_card(card).bestcard_index,
            m.history_index / 4 * 4,
            m.history_index + 1,
        ),
{
    let hi = m.history_index;
    let first = hi / 4 * 4;
    let pt = m.playtype;
    let m1 = m.card_placed(card);
    let m2 = m1.marriage_step(card);
    assert(m2.history == m1.history && m2.bestcard_index == m1.bestcard_index);
    if m2.history_index % 4 == 0 {
        lemma_end_turn(m2);
    }
    let h = m1.history;
    let nb = m1.bestcard_index;
    if hi % 4 != 0 {
        let b = m.bestcard_index;
        assert forall|j: int| first <= j < hi + 1 && j != nb implies !#[trigger] pt.card_stronger(
            h[nb],
            h[j],
        ) by {
            if nb == hi {
                assert(pt.card_stronger(m.history[b], card));
                if j == b {
                    law_card_stronger_asymmetric(pt, card, m.history[b]);
                } else {
                    assert(h[j] == m.history[j]);
                    if pt.card_stronger(card, h[j]) {
                        law_card_stronger_transitive(pt, m.history[b], card, h[j]);
                    }
                }
            } else {
                if j < hi {
                    assert(h[j] == m.history[j]);
                }
            }
        }
    }
}

/// A complete trick goes to the player who played its best card: the player to move
/// next sits as many seats after the one who began the trick as the best card lies
/// after the trick's first card.
pub proof fn law_trick_goes_to_best(m: GameModel, card: Card)
    requires
        shaped(m),
        0 <= m.current_player < 4,
        0 <= m.history_index < 36,
        m.history_index % 4 == 3,
        m.history_index - 3 <= m.bestcard_index < m.history_index,
    ensures
        m.play_card(card).current_player == (m.beginplayer() + m.play_card(card).bestcard_index
            - (m.history_index - 3)) % 4,
{
    let hi = m.history_index;
    let m2 = m.card_placed(card).marriage_step(card);
    lemma_end_turn(m2);
    let b = m2.bestcard_index;
    assert(hi - 3 <= b <= hi);
    let cp = m.current_player;
    let k = b - (hi - 3);
    assert(m2.trick_winner() == (cp + 4 - (hi - b)) % 4);
    assert(m.beginplayer() == (cp + 1) % 4);
    assert(0 <= k < 4);
    assert(((cp + 1) % 4 + k) % 4 == (cp + 4 - (hi - b)) % 4) by {
        assert(cp + 4 - (hi - b) == cp + 1 + k);
    }
}

/// The first card of a trick may be any card of the hand of the player to move.
pub proof fn law_first_card_free(m: GameModel, card: Card)
    requires
        m.history_index < 36,
        m.history_index % 4 == 0,
        m.history[m.history_index].color == 4,
        m.playtype.playtype != NONE,
        m.hands[m.current_player].contains(card.id()),
    ensures
        m.legal_card(m.current_player, card),
{
    assert(m.history_index / 4 * 4 == m.history_index);
}

/// A player who holds the colour led, when it is not trump, must follow it: a card of
/// another colour that is not trump is not legal.
pub proof fn law_must_follow_suit(m: GameModel, player: int, card: Card, n: int)
    requires
        m.history[m.history_index / 4 * 4].color < 4,
        !(m.playtype.is_trumpf_spec() && m.history[m.history_index / 4 * 4].color + 2
            == m.playtype.playtype),
        0 <= n < 9,
        m.hands[player].contains(m.history[m.history_index / 4 * 4].color * 9 + n),
        card.color != m.history[m.history_index / 4 * 4].color,
        !(m.playtype.is_trumpf_spec() && card.color + 2 == m.playtype.playtype),
    ensures
        !m.legal_card(player, card),
{
    assert(has_color_spec(m.hands[player], m.history[m.history_index / 4 * 4].color as int));
}

/// On a lead that is not trump, a trump that does not beat the best card of the trick
/// may not be played by a player who holds a card that is not trump; a trump that beats
/// it may be played.
pub proof fn law_no_undertrump(m: GameModel, card: Card, x: int)
    requires
        SHIELD <= m.playtype.playtype <= BELL,
        m.history_index < 36,
        m.history[m.history_index / 4 * 4].color < 4,
        m.history[m.history_index / 4 * 4].color + 2 != m.playtype.playtype,
        card.color + 2 == m.playtype.playtype,
        m.hands[m.current_player].contains(card.id()),
        m.hands[m.current_player].contains(x),
        !((m.playtype.playtype - 2) * 9 <= x < (m.playtype.playtype - 2) * 9 + 9),
    ensures
        !m.playtype.card_stronger(m.history[m.bestcard_index], card) ==> !m.legal_card(
            m.current_player,
            card,
        ),
        m.playtype.card_stronger(m.history[m.bestcard_index], card) ==> m.legal_card(
            m.current_player,
            card,
        ),
{
    assert(!only_has_color_spec(m.hands[m.current_player], card.color as int));
}

/// Awarding the shows of `team` from slot `k` on: the slots before `k` stay, the later
/// slots of the other team are emptied, those of `team` stay; the other team's points
/// stay, and `team` gains at least the award of each later slot of its own that counts.
proof fn lemma_award_effect(m: GameModel, team: int, k: int)
    requires
        shaped(m),
        0 <= team < 2,
        0 <= k <= 12,
    ensures
        shaped(m.award_from(team, k)),
        forall|p: int, j: int|
            0 <= p < 4 && 0 <= j < 3 ==> #[trigger] m.award_from(team, k).shows[p][j] == if 3 * p + j
                < k || team_of(p) == team {
                m.shows[p][j]
            } else {
                cleared_show()
            },
        m.award_from(team, k).points[1 - team] == m.points[1 - team],
        m.award_from(team, k).points[team] >= m.points[team],
        forall|kb: int|
            k <= kb < 12 && team_of(kb / 3) == team && #[trigger] slot_counts(m.shows, kb / 3, kb % 3)
                ==> m.award_from(team, k).points[team] >= m.points[team] + m.show_award(
                m.shows[kb / 3][kb % 3],
            ),
    decreases 12 - k,
{
    if k < 12 {
        let p0 = k / 3;
        let j0 = k % 3;
        if team_of(p0) == team {
            if slot_counts(m.shows, p0, j0) {
                let sp = m.show_award(m.shows[p0][j0]);
                let m1 = GameModel {
                    points: m.points.update(team, m.points[team] + sp),
                    show_points: m.show_points.update(team, m.show_points[team] + sp),
                    ..m
                };
                lemma_award_effect(m1, team, k + 1);
                assert(sp >= 0);
            } else {
                lemma_award_effect(m, team, k + 1);
            }
        } else {
            let m1 = GameModel {
                shows: m.shows.update(p0, m.shows[p0].update(j0, cleared_show())),
                ..m
            };
            assert forall|q: int| 0 <= q < 4 implies (#[trigger] m1.shows[q]).len() == 3 by {
                if q != p0 {
                    assert(m1.shows[q] == m.shows[q]);
                }
            }
            lemma_award_effect(m1, team, k + 1);
            let r = m1.award_from(team, k + 1);
            assert forall|p: int, j: int| 0 <= p < 4 && 0 <= j < 3 implies #[trigger] r.shows[p][j]
                == if 3 * p + j < k || team_of(p) == team {
                m.shows[p][j]
            } else {
                cleared_show()
            } by {
                assert(r.shows[p][j] == if 3 * p + j < k + 1 || team_of(p) == team {
                    m1.shows[p][j]
                } else {
                    cleared_show()
                });
                if p != p0 {
                    assert(m1.shows[p] == m.shows[p]);
                } else if j != j0 {
                    assert(m1.shows[p][j] == m.shows[p][j]);
                }
            }
            assert forall|kb: int|
                k <= kb < 12 && team_of(kb / 3) == team && #[trigger] slot_counts(
                    m.shows,
                    kb / 3,
                    kb % 3,
                ) implies r.points[team] >= m.points[team] + m.show_award(m.shows[kb / 3][kb % 3]) by {
                assert(kb / 3 != p0);
                assert(m1.shows[kb / 3] == m.shows[kb / 3]);
                assert(slot_counts(m1.shows, kb / 3, kb % 3));
            }
        }
    }
}

/// The best show never lies in an empty slot unless no slot holds a show; a best slot
/// that holds a show counts.
proof fn lemma_best_counts(m: GameModel, k: int, best: (int, int))
    requires
        0 <= k <= 12,
        0 <= best.0 < 4,
        0 <= best.1 < 3,
        m.shows[best.0][best.1].color != 4 ==> slot_counts(m.shows, best.0, best.1),
    ensures
        m.shows[m.best_show_from(k, best).0][m.best_show_from(k, best).1].color != 4 ==> slot_counts(
            m.shows,
            m.best_show_from(k, best).0,
            m.best_show_from(k, best).1,
        ),
    decreases 12 - k,
{
    if k < 12 {
        let p = k / 3;
        let j = k % 3;
        let b = m.shows[best.0][best.1];
        let nb = if slot_counts(m.shows, p, j) && (b.color == 4
            || m.playtype.show_stronger(b, m.shows[p][j])) {
            (p, j)
        } else {
            best
        };
        lemma_best_counts(m, k + 1, nb);
    }
}

/// The shows go to the team of the best show: afterwards every slot of the other team is
/// empty and that team's points are unchanged, the slots of the best team stay, and its
/// points grow at least by the (capped) value of the best show. Without any show nothing
/// changes.
pub proof fn law_shows_to_best_team(m: GameModel)
    requires
        shaped(m),
    ensures
        ({
            let best = m.best_show();
            let w = team_of(best.0);
            let r = m.handle_shows();
            &&& m.shows[best.0][best.1].color == 4 ==> r == m
            &&& m.shows[best.0][best.1].color != 4 ==> {
                &&& forall|p: int, j: int|
                    0 <= p < 4 && 0 <= j < 3 && team_of(p) != w ==> #[trigger] r.shows[p][j]
                        == cleared_show()
                &&& forall|p: int, j: int|
                    0 <= p < 4 && 0 <= j < 3 && team_of(p) == w ==> #[trigger] r.shows[p][j]
                        == m.shows[p][j]
                &&& r.points[1 - w] == m.points[1 - w]
                &&& r.points[w] >= m.points[w] + m.show_award(m.shows[best.0][best.1])
            }
        }),
{
    let best = m.best_show();
    lemma_best_bounds(m, 0, (0, 0));
    lemma_best_counts(m, 0, (0, 0));
    if m.shows[best.0][best.1].color != 4 {
        let w = team_of(best.0);
        lemma_award_effect(m, w, 0);
        let kb = 3 * best.0 + best.1;
        assert(kb / 3 == best.0 && kb % 3 == best.1);
        assert(slot_counts(m.shows, kb / 3, kb % 3));
    }
}

/// A new round moves the announcement to the next seat, who also plays first; it keeps
/// the game's points and the hands, and clears the round's points of play and of shows,
/// the table and the mode.
pub proof fn law_new_round(m: GameModel)
    requires
        0 <= m.announce_player,
    ensures
        m.start_new_round().announce_player == (m.announce_player + 1) % 4,
        m.start_new_round().current_player == (m.announce_player + 1) % 4,
        m.start_new_round().points == m.points,
        m.start_new_round().hands == m.hands,
        m.start_new_round().won_points == seq![0int, 0],
        m.start_new_round().show_points == seq![0int, 0],
        m.start_new_round().history_index == 0,
        m.start_new_round().team0_wins == 0,
        m.start_new_round().playtype.playtype == NONE,
        !m.start_new_round().playtype.passed,
        !m.start_new_round().playtype.misere,
{
}

/// Passing, where the settings allow it, hands the announcement to the partner, two
/// seats on; where they do not, it changes nothing.
pub proof fn law_pass_to_partner(m: GameModel, pt: Playtype)
    requires
        pt.playtype == PASS,
        0 <= m.announce_player,
    ensures
        m.setting.allow_pass ==> m.announce(pt).playtype.passed && m.announce(pt).announcing_player()
            == (m.announce_player + 2) % 4 && m.announce(pt).current_player == (m.announce_player
            + 2) % 4 && m.announce(pt).playtype.playtype == m.playtype.playtype,
        !m.setting.allow_pass ==> m.announce(pt) == m,
{
}

/// After an announced mode, the announcer plays first; after a pass, the partner who
/// announced plays first where the settings say so for that mode, else still the
/// announcer.
pub proof fn law_first_player_after_announce(m: GameModel, pt: Playtype)
    requires
        pt.playtype < 10,
        !(!m.setting.allow_misere && pt.misere),
        m.setting.allow_playtype@[pt.playtype as int],
        0 <= m.announce_player,
    ensures
        !pt.passed ==> m.announce(pt).current_player == m.announce_player,
        pt.passed && m.setting.passed_player_begins@[pt.playtype as int] ==> m.announce(
            pt,
        ).current_player == (m.announce_player + 2) % 4,
        pt.passed && !m.setting.passed_player_begins@[pt.playtype as int] ==> m.announce(
            pt,
        ).current_player == m.announce_player,
{
}

/// Announcing trump marks as winning the marriage of every player who holds the Queen
/// and the King of trump while the 20 points of the marriage would bring the team to
/// the goal; the other marriages stay as they were, and other modes leave all of them.
pub proof fn law_announce_marriages(m: GameModel, pt: Playtype, i: int)
    requires
        pt.playtype < 10,
        !(!m.setting.allow_misere && pt.misere),
        m.setting.allow_playtype@[pt.playtype as int],
        0 <= i < 4,
        m.marriage.len() == 4,
    ensures
        SHIELD <= pt.playtype <= BELL ==> (m.announce(pt).marriage[i] == MarriageState::WouldWin
            <==> (m.marriage[i] == MarriageState::WouldWin || (m.hands[i].contains(
            (pt.playtype - 2) * 9 + 6,
        ) && m.hands[i].contains((pt.playtype - 2) * 9 + 7) && m.points[i % 2] + 20
            >= m.setting.max_points))),
        !(SHIELD <= pt.playtype <= BELL) ==> m.announce(pt).marriage == m.marriage,
{
}

/// A player whose turn it is, with cards of the deck in hand, always has a card that
/// the rules allow: following suit, a trump, or, when neither is possible, any card.
pub proof fn law_legal_card_exists(m: GameModel)
    requires
        wf(m),
        m.history_index < 36,
        m.playtype.playtype != NONE,
        forall|i: int| #[trigger] m.hands[m.current_player].contains(i) ==> 0 <= i < 36,
        exists|i: int| #[trigger] m.hands[m.current_player].contains(i),
        m.history[m.history_index / 4 * 4].color == 4 || m.history[m.history_index / 4
            * 4].color < 4,
    ensures
        exists|c: Card|
            c.color < 4 && c.number < 9 && m.hands[m.current_player].contains(c.id())
                && #[trigger] m.legal_card(m.current_player, c),
{
    let player = m.current_player;
    let hand = m.hands[player];
    let pt = m.playtype;
    let fcrd = m.history[m.history_index / 4 * 4];
    let i0 = choose|i: int| #[trigger] hand.contains(i);
    let c0 = card_of_id(i0);
    assert(c0.id() == i0 && c0.color < 4 && c0.number < 9);
    if fcrd.color == 4 {
        assert(m.legal_card(player, c0));
    } else if has_color_spec(hand, fcrd.color as int) {
        let n = choose|n: int| 0 <= n < 9 && #[trigger] hand.contains(fcrd.color * 9 + n);
        let c = card_of_id(fcrd.color * 9 + n);
        assert(c.color == fcrd.color && c.id() == fcrd.color * 9 + n && c.number < 9);
        assert(m.legal_card(player, c));
    } else if pt.is_trumpf_spec() && !pt.is_color_trumpf_spec(fcrd.color) {
        let t = pt.playtype - 2;
        if exists|i: int| #[trigger] hand.contains(i) && card_of_id(i).color != t {
            let i = choose|i: int| #[trigger] hand.contains(i) && card_of_id(i).color != t;
            let c = card_of_id(i);
            assert(c.id() == i && c.color < 4 && c.number < 9);
            assert(m.legal_card(player, c));
        } else {
            assert(c0.color == t);
            assert forall|i: int| #[trigger] hand.contains(i) implies t * 9 <= i < t * 9 + 9 by {
                assert(card_of_id(i).color == t);
            }
            assert(only_has_color_spec(hand, c0.color as int));
            assert(!has_stronger_trumpf_spec(hand, fcrd));
            assert(m.legal_card(player, c0));
        }
    } else {
        assert(m.legal_card(player, c0));
    }
}

} // verus!
