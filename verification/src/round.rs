//! The points of a whole round: when each card of the deck is played once and no team
//! reaches the goal, the tricks bring the points of the deck, five for the last trick
//! and a hundred more for a match, times the multiplier of the mode.
use vstd::prelude::*;

use crate::card::{card_of_id, law_get_id_from_id, Card};
use crate::game::{shaped, team_of, GameModel, MarriageState};
use crate::laws::{
    counters_grow, law_play_card_moves_card, law_play_card_wf, lemma_end_turn, lemma_grow_end_round,
    lemma_keeps_add_points, lemma_keeps_rules, wf,
};
use crate::playtype::{deck_points, law_deck_points, Playtype};
use crate::safety::deck_card;
use crate::setting::PointRule;

verus! {

/// The points of the first `n` of `cards` in mode `pt`.
pub open spec fn cards_points(pt: Playtype, cards: Seq<Card>, n: int) -> int
    decreases n,
{
    if n <= 0 {
        0
    } else {
        cards_points(pt, cards, n - 1) + pt.card_value(cards[n - 1])
    }
}

/// The points of the cards with the identifiers in `ids`.
pub open spec fn id_points(pt: Playtype, ids: Seq<int>) -> int
    decreases ids.len(),
{
    if ids.len() == 0 {
        0
    } else {
        id_points(pt, ids.drop_last()) + pt.card_value(card_of_id(ids.last()))
    }
}

/// Taking one identifier out of the list takes its points out of the sum.
proof fn lemma_id_points_remove(pt: Playtype, ids: Seq<int>, k: int)
    requires
        0 <= k < ids.len(),
    ensures
        id_points(pt, ids) == id_points(pt, ids.remove(k)) + pt.card_value(card_of_id(ids[k])),
    decreases ids.len(),
{
    if k == ids.len() - 1 {
        assert(ids.remove(k) =~= ids.drop_last());
    } else {
        lemma_id_points_remove(pt, ids.drop_last(), k);
        assert(ids.drop_last().remove(k) =~= ids.remove(k).drop_last());
        assert(ids.remove(k).last() == ids.last());
    }
}

/// `n` different identifiers below `n` bring the points of the first `n` cards.
proof fn lemma_id_points_all(pt: Playtype, ids: Seq<int>, n: int)
    requires
        0 <= n,
        ids.len() == n,
        ids.no_duplicates(),
        forall|i: int| 0 <= i < n ==> 0 <= #[trigger] ids[i] < n,
    ensures
        id_points(pt, ids) == deck_points(pt, n),
    decreases n,
{
    if n > 0 {
        if forall|i: int| 0 <= i < n ==> #[trigger] ids[i] != n - 1 {
            ids.unique_seq_to_set();
            vstd::set_lib::lemma_int_range(0, n - 1);
            assert(ids.to_set().subset_of(vstd::set_lib::set_int_range(0, n - 1))) by {
                assert forall|x: int| ids.to_set().contains(x) implies vstd::set_lib::set_int_range(
                    0,
                    n - 1,
                ).contains(x) by {
                    let i = choose|i: int| 0 <= i < ids.len() && ids[i] == x;
                    assert(ids[i] != n - 1);
                }
            }
            vstd::set_lib::lemma_len_subset(ids.to_set(), vstd::set_lib::set_int_range(0, n - 1));
            assert(false);
        }
        let k = choose|k: int| 0 <= k < n && #[trigger] ids[k] == n - 1;
        let rest = ids.remove(k);
        lemma_id_points_remove(pt, ids, k);
        assert forall|i: int| 0 <= i < n - 1 implies 0 <= #[trigger] rest[i] < n - 1 by {
            if i < k {
                assert(rest[i] == ids[i]);
            } else {
                assert(rest[i] == ids[i + 1]);
            }
        }
        assert(rest.no_duplicates()) by {
            assert forall|a: int, b: int| 0 <= a < rest.len() && 0 <= b < rest.len() && a != b implies rest[a]
                != rest[b] by {
                let ia = if a < k {
                    a
                } else {
                    a + 1
                };
                let ib = if b < k {
                    b
                } else {
                    b + 1
                };
                assert(rest[a] == ids[ia]);
                assert(rest[b] == ids[ib]);
            }
        }
        lemma_id_points_all(pt, rest, n - 1);
    }
}

/// The first `n` cards bring the points of their identifiers.
proof fn lemma_cards_ids(pt: Playtype, cards: Seq<Card>, ids: Seq<int>, n: int)
    requires
        0 <= n <= cards.len(),
        ids.len() == cards.len(),
        forall|i: int| 0 <= i < cards.len() ==> deck_card(#[trigger] cards[i]),
        forall|i: int| 0 <= i < cards.len() ==> #[trigger] ids[i] == cards[i].id(),
    ensures
        cards_points(pt, cards, n) == id_points(pt, ids.take(n)),
    decreases n,
{
    if n > 0 {
        lemma_cards_ids(pt, cards, ids, n - 1);
        assert(ids.take(n).drop_last() =~= ids.take(n - 1));
        assert(deck_card(cards[n - 1]));
        law_get_id_from_id(cards[n - 1]);
    }
}

/// Thirty-six different cards of the deck are the whole deck, and bring its points.
pub proof fn law_cards_points_deck(pt: Playtype, cards: Seq<Card>)
    requires
        cards.len() == 36,
        forall|i: int| 0 <= i < 36 ==> deck_card(#[trigger] cards[i]),
        forall|i: int, j: int| 0 <= i < j < 36 ==> cards[i] != cards[j],
    ensures
        cards_points(pt, cards, 36) == deck_points(pt, 36),
{
    let ids = Seq::new(36, |i: int| cards[i].id());
    lemma_cards_ids(pt, cards, ids, 36);
    assert(ids.take(36) =~= ids);
    assert(ids.no_duplicates()) by {
        assert forall|a: int, b: int| 0 <= a < 36 && 0 <= b < 36 && a != b implies ids[a] != ids[b] by {
            law_get_id_from_id(cards[a]);
            law_get_id_from_id(cards[b]);
            if a < b {
                assert(cards[a] != cards[b]);
            } else {
                assert(cards[b] != cards[a]);
            }
        }
    }
    lemma_id_points_all(pt, ids, 36);
}

/// Both teams' points of play together.
pub open spec fn won_total(m: GameModel) -> int {
    m.won_points[0] + m.won_points[1]
}

/// How many of the rules `order[k..3]` give the points of play.
pub open spec fn play_count(order: Seq<PointRule>, k: int) -> int
    decreases 3 - k,
{
    if k >= 3 {
        0
    } else {
        (if order[k] == PointRule::PLAY {
            1int
        } else {
            0int
        }) + play_count(order, k + 1)
    }
}

/// The state after the first `k` of `cards` were played, starting from `m`.
pub open spec fn played(m: GameModel, cards: Seq<Card>, k: int) -> GameModel
    decreases k,
{
    if k <= 0 {
        m
    } else {
        played(m, cards, k - 1).play_card(cards[k - 1])
    }
}

/// The bonus for a match, given how many tricks team 0 took: one team took them all.
pub open spec fn match_bonus(team0_wins: int) -> int {
    if team0_wins == 0 || team0_wins == 9 {
        100
    } else {
        0
    }
}

proof fn lemma_should_end_grows(a: GameModel, b: GameModel)
    requires
        counters_grow(a, b),
        a.setting == b.setting,
        a.should_end(),
    ensures
        b.should_end(),
{
}

proof fn lemma_award_keeps_won(m: GameModel, team: int, k: int)
    ensures
        m.award_from(team, k).won_points == m.won_points,
        m.award_from(team, k).setting == m.setting,
        m.award_from(team, k).playtype == m.playtype,
    decreases 12 - k,
{
    if k < 12 {
        let p = k / 3;
        let j = k % 3;
        if team_of(p) == team {
            if crate::game::slot_counts(m.shows, p, j) {
                let sp = m.show_award(m.shows[p][j]);
                lemma_award_keeps_won(
                    GameModel {
                        points: m.points.update(team, m.points[team] + sp),
                        show_points: m.show_points.update(team, m.show_points[team] + sp),
                        ..m
                    },
                    team,
                    k + 1,
                );
            } else {
                lemma_award_keeps_won(m, team, k + 1);
            }
        } else {
            lemma_award_keeps_won(
                GameModel {
                    shows: m.shows.update(p, m.shows[p].update(j, crate::game::cleared_show())),
                    ..m
                },
                team,
                k + 1,
            );
        }
    }
}

proof fn lemma_marriages_keep_won(m: GameModel, i: int)
    ensures
        m.marriages_from(i).won_points == m.won_points,
        m.marriages_from(i).setting == m.setting,
        m.marriages_from(i).playtype == m.playtype,
    decreases 4 - i,
{
    if i < 4 {
        if m.marriage[i] == MarriageState::WouldWin {
            lemma_marriages_keep_won(m.play_marriage(i), i + 1);
        } else {
            lemma_marriages_keep_won(m, i + 1);
        }
    }
}

/// Only the rule of play gives points of play.
proof fn lemma_rule_won(m: GameModel, rule: PointRule, team: int, pts: int)
    requires
        shaped(m),
        0 <= team < 2,
    ensures
        won_total(m.apply_rule(rule, team, pts)) == won_total(m) + if rule == PointRule::PLAY {
            pts * m.multiplier()
        } else {
            0
        },
        m.apply_rule(rule, team, pts).setting == m.setting,
        m.apply_rule(rule, team, pts).playtype == m.playtype,
{
    match rule {
        PointRule::PLAY => {},
        PointRule::SHOW => {
            let best = m.best_show();
            lemma_award_keeps_won(m, team_of(best.0), 0);
        },
        PointRule::MARRIAGE => {
            lemma_marriages_keep_won(m, 0);
        },
    }
}

/// When the rules of the first trick do not end the game, they give the points of the
/// trick once for each rule of play among them.
proof fn lemma_rules_won(m: GameModel, k: int, team: int, pts: int)
    requires
        shaped(m),
        0 <= team < 2,
        0 <= k <= 3,
        m.rules_from_defined(k, team, pts),
        !m.rules_from(k, team, pts).0.should_end(),
    ensures
        !m.rules_from(k, team, pts).1,
        won_total(m.rules_from(k, team, pts).0) == won_total(m) + play_count(
            m.setting.point_recv_order@,
            k,
        ) * (pts * m.multiplier()),
        m.rules_from(k, team, pts).0.setting == m.setting,
        m.rules_from(k, team, pts).0.playtype.playtype == m.playtype.playtype,
    decreases 3 - k,
{
    if k < 3 {
        let rule = m.setting.point_recv_order@[k];
        let m1 = m.apply_rule(rule, team, pts);
        lemma_rule_won(m, rule, team, pts);
        lemma_keeps_rules(m, team, pts);
        if m1.should_end() {
            lemma_grow_end_round(m1);
            lemma_keeps_rules(m1, team, pts);
            lemma_should_end_grows(m1, m1.end_round());
            assert(false);
        } else {
            lemma_rules_won(m1, k + 1, team, pts);
            assert(m1.multiplier() == m.multiplier());
            let c = play_count(m.setting.point_recv_order@, k + 1);
            let x = pts * m.multiplier();
            assert((if rule == PointRule::PLAY { 1int } else { 0int }) * x + c * x == ((if rule
                == PointRule::PLAY {
                1int
            } else {
                0int
            }) + c) * x) by (nonlinear_arith);
        }
    }
}

/// The points of play that a trick gives: its cards' points, and at the end of the round
/// five more and the match bonus, all times the multiplier.
proof fn lemma_end_turn_won(m: GameModel)
    requires
        shaped(m),
        m.end_turn_defined(),
        !m.end_turn().should_end(),
        play_count(m.setting.point_recv_order@, 0) == 1,
        m.history_index % 4 == 0,
        0 <= m.team0_wins <= m.history_index / 4 - 1,
    ensures
        won_total(m.end_turn()) == won_total(m) + m.multiplier() * m.trick_points() + if m.history_index
            == 36 {
            m.multiplier() * (5 + match_bonus(m.end_turn().team0_wins))
        } else {
            0
        },
{
    let mult = m.multiplier();
    let pts = m.trick_points();
    let bt = team_of(m.trick_winner());
    let m1 = m.trick_taken();
    lemma_end_turn(m);
    assert(m1.multiplier() == mult);
    if m.history_index == 4 {
        let (m2, ended) = m1.rules_from(0, bt, pts);
        lemma_rules_won(m1, 0, bt, pts);
        assert(pts * mult == mult * pts) by (nonlinear_arith);
    } else {
        let m2 = m1.add_points(bt, pts);
        lemma_keeps_add_points(m1, bt, pts);
        if m2.should_end() {
            lemma_grow_end_round(m2);
            lemma_keeps_rules(m2, 0, 0);
            lemma_should_end_grows(m2, m2.end_round());
            assert(false);
        }
        assert(pts * mult == mult * pts) by (nonlinear_arith);
        let m3 = if m2.flips() {
            GameModel {
                playtype: Playtype { ruletype: m2.playtype.ruletype ^ 1u8, ..m2.playtype },
                ..m2
            }
        } else {
            m2
        };
        if m.history_index == 36 {
            assert(m3.multiplier() == mult);
            assert(5 * mult + (if match_bonus(m.end_turn().team0_wins) == 100 {
                100 * mult
            } else {
                0
            }) == mult * (5 + match_bonus(m.end_turn().team0_wins))) by (nonlinear_arith)
                requires
                    match_bonus(m.end_turn().team0_wins) == 100 || match_bonus(
                        m.end_turn().team0_wins,
                    ) == 0,
            ;
        }
    }
}

/// The points of the cards `history[lo..n]` are those of the same cards in the list.
proof fn lemma_points_between_cards(m: GameModel, pt: Playtype, cards: Seq<Card>, lo: int, n: int)
    requires
        0 <= lo <= n,
        m.playtype.playtype == pt.playtype,
        forall|i: int| lo <= i < n ==> #[trigger] m.history[i] == cards[i],
    ensures
        m.points_between(lo, n) == cards_points(pt, cards, n) - cards_points(pt, cards, lo),
    decreases n - lo,
{
    if n > lo {
        lemma_points_between_cards(m, pt, cards, lo, n - 1);
        assert(m.history[n - 1] == cards[n - 1]);
    }
}

/// What the round keeps while the first `k` cards are played: the cards lie in order on
/// the table, the mode and the settings stay, and the points of play are those of the
/// tricks completed so far.
proof fn lemma_played(m: GameModel, cards: Seq<Card>, k: int)
    requires
        0 <= k <= 36,
        cards.len() == 36,
        wf(m),
        m.history_index == 0,
        m.won_points[0] == 0 && m.won_points[1] == 0,
        play_count(m.setting.point_recv_order@, 0) == 1,
        forall|j: int| 0 <= j < 36 ==> (#[trigger] played(m, cards, j)).play_card_defined(cards[j]),
        forall|j: int| 0 < j <= 36 ==> !(#[trigger] played(m, cards, j)).should_end(),
    ensures
        wf(played(m, cards, k)),
        played(m, cards, k).history_index == k,
        forall|i: int| 0 <= i < k ==> #[trigger] played(m, cards, k).history[i] == cards[i],
        played(m, cards, k).setting == m.setting,
        played(m, cards, k).playtype.playtype == m.playtype.playtype,
        won_total(played(m, cards, k)) == m.multiplier() * cards_points(m.playtype, cards, k / 4 * 4)
            + if k == 36 {
            m.multiplier() * (5 + match_bonus(played(m, cards, k).team0_wins))
        } else {
            0
        },
    decreases k,
{
    let mult = m.multiplier();
    if k == 0 {
        assert(won_total(m) == 0);
        assert(mult * cards_points(m.playtype, cards, 0) == 0) by (nonlinear_arith)
            requires
                cards_points(m.playtype, cards, 0) == 0,
        ;
    } else {
        let j = k - 1;
        lemma_played(m, cards, j);
        let s = played(m, cards, j);
        let c = cards[j];
        let r = s.play_card(c);
        assert(r == played(m, cards, k));
        assert(s.play_card_defined(c));
        assert(!r.should_end());
        law_play_card_wf(s, c);
        law_play_card_moves_card(s, c);
        let m2 = s.card_placed(c).marriage_step(c);
        assert(m2 == s.card_placed(c));
        assert forall|i: int| 0 <= i < k implies #[trigger] r.history[i] == cards[i] by {
            if i < j {
                assert(r.history[i] == s.history[i]);
            }
        }
        if k % 4 != 0 {
            assert(k / 4 * 4 == j / 4 * 4);
            assert(won_total(r) == won_total(s));
        } else {
            assert(s.team0_wins <= j / 4);
            assert(j / 4 == k / 4 - 1);
            lemma_end_turn_won(m2);
            lemma_end_turn(m2);
            assert(m2.multiplier() == mult);
            assert(forall|i: int| k - 4 <= i < k ==> #[trigger] m2.history[i] == cards[i]);
            lemma_points_between_cards(m2, m.playtype, cards, k - 4, k);
            assert(j / 4 * 4 == k - 4);
            let a = cards_points(m.playtype, cards, k - 4);
            let b = cards_points(m.playtype, cards, k);
            assert(mult * a + mult * (b - a) == mult * b) by (nonlinear_arith);
        }
    }
}

/// A whole round in which each card of the deck is played once and no team reaches
/// the goal gives, as points of play, the deck's 152 points, 5 for the last trick and
/// 100 for a match (one team took every trick), all times the multiplier of the mode;
/// the points of play count once among the rules of the first trick.
pub proof fn law_round_points(m: GameModel, cards: Seq<Card>)
    requires
        wf(m),
        m.history_index == 0,
        m.playtype.playtype < 10,
        m.won_points[0] == 0 && m.won_points[1] == 0,
        play_count(m.setting.point_recv_order@, 0) == 1,
        cards.len() == 36,
        forall|i: int| 0 <= i < 36 ==> deck_card(#[trigger] cards[i]),
        forall|i: int, j: int| 0 <= i < j < 36 ==> cards[i] != cards[j],
        forall|j: int| 0 <= j < 36 ==> (#[trigger] played(m, cards, j)).play_card_defined(cards[j]),
        forall|j: int| 0 < j <= 36 ==> !(#[trigger] played(m, cards, j)).should_end(),
    ensures
        played(m, cards, 36).history_index == 36,
        played(m, cards, 36).team0_wins <= 9,
        won_total(played(m, cards, 36)) == m.multiplier() * (157 + match_bonus(
            played(m, cards, 36).team0_wins,
        )),
{
    lemma_played(m, cards, 36);
    law_cards_points_deck(m.playtype, cards);
    law_deck_points(m.playtype);
    let mult = m.multiplier();
    let bonus = match_bonus(played(m, cards, 36).team0_wins);
    assert(mult * 152 + mult * (5 + bonus) == mult * (157 + bonus)) by (nonlinear_arith);
}

} // verus!
