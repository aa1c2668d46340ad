//! When playing a card is safe: in a well-formed round, a card of the deck can be
//! played without any counter overflowing as long as the points leave room for the
//! most that one card can bring.
use vstd::prelude::*;

use crate::card::Card;
use crate::game::{
    cleared_show, fits_u16, shaped, slot_counts, team_of, Game, GameModel, MarriageState,
    MARRIAGE_POINTS,
};
use crate::laws::{keeps_table, point_balance, wf};
use crate::playtype::show_value;
use crate::setting::PointRule;

verus! {

/// A card of the deck: colour below 4, number below 9.
pub open spec fn deck_card(c: Card) -> bool {
    c.color < 4 && c.number < 9
}

impl GameModel {
    /// What the shows in slots `k..12` could bring at most.
    pub open spec fn show_sum_from(self, k: int) -> int
        decreases 12 - k,
    {
        if k >= 12 {
            0
        } else {
            self.show_award(self.shows[k / 3][k % 3]) + self.show_sum_from(k + 1)
        }
    }

    /// What all shows on the table could bring at most.
    pub open spec fn shows_total(self) -> int {
        self.show_sum_from(0)
    }

    /// The most that one rule of the first trick can bring a team.
    pub open spec fn rule_bound(self) -> int {
        80 * self.multiplier() + 4 * MARRIAGE_POINTS + self.shows_total()
    }

    /// The most that playing one card can add to a counter.
    pub open spec fn play_bound(self) -> int {
        3 * self.rule_bound() + 105 * self.multiplier()
    }

    /// Every counter of both teams has room for `d` more.
    pub open spec fn room_for(self, d: int) -> bool {
        forall|t: int|
            0 <= t < 2 ==> fits_u16(#[trigger] self.points[t] + d) && fits_u16(
                self.won_points[t] + d,
            ) && fits_u16(self.show_points[t] + d)
    }

    /// Every show slot holds a colour that the rules can compare.
    pub open spec fn shows_comparable(self) -> bool {
        forall|p: int, j: int| 0 <= p < 4 && 0 <= j < 3 ==> #[trigger] self.shows[p][j].color <= 253
    }

    /// The cards of the current trick are cards of the deck; before a trick begins, the
    /// slot of its first card is empty.
    pub open spec fn table_valid(self) -> bool {
        &&& forall|i: int|
            self.history_index / 4 * 4 <= i < self.history_index ==> deck_card(
                #[trigger] self.history[i],
            )
        &&& (self.history_index % 4 == 0 ==> self.history[self.history_index].color == 4)
    }

    /// A condition that code can check, under which `card` can be played without
    /// overflow.
    pub open spec fn safe_to_play(self, card: Card) -> bool {
        &&& wf(self)
        &&& self.history_index < 36
        &&& deck_card(card)
        &&& self.playtype.playtype < 10
        &&& self.table_valid()
        &&& self.shows_comparable()
        &&& counters_nonneg(self)
        &&& self.room_for(self.play_bound())
    }
}

/// `b` is `a` with each counter grown by at most `d`, and no more to come from shows.
pub open spec fn grows_within(a: GameModel, b: GameModel, d: int) -> bool {
    &&& keeps_table(a, b)
    &&& b.playtype.playtype == a.playtype.playtype
    &&& b.playtype.misere == a.playtype.misere
    &&& b.shows_total() <= a.shows_total()
    &&& (a.shows_comparable() ==> b.shows_comparable())
    &&& forall|t: int|
        0 <= t < 2 ==> {
            &&& a.points[t] <= #[trigger] b.points[t] <= a.points[t] + d
            &&& a.won_points[t] <= b.won_points[t] <= a.won_points[t] + d
            &&& a.show_points[t] <= b.show_points[t] <= a.show_points[t] + d
        }
}

proof fn lemma_grows_refl(a: GameModel, d: int)
    requires
        shaped(a),
        d >= 0,
    ensures
        grows_within(a, a, d),
{
}

proof fn lemma_grows_trans(a: GameModel, b: GameModel, c: GameModel, d1: int, d2: int)
    requires
        grows_within(a, b, d1),
        grows_within(b, c, d2),
    ensures
        grows_within(a, c, d1 + d2),
{
    assert forall|t: int| 0 <= t < 2 implies #[trigger] point_balance(c, t) == point_balance(a, t) by {
        assert(point_balance(c, t) == point_balance(b, t));
    }
    assert forall|t: int| 0 <= t < 2 implies {
        &&& a.points[t] <= #[trigger] c.points[t] <= a.points[t] + d1 + d2
        &&& a.won_points[t] <= c.won_points[t] <= a.won_points[t] + d1 + d2
        &&& a.show_points[t] <= c.show_points[t] <= a.show_points[t] + d1 + d2
    } by {
        assert(a.points[t] <= b.points[t] <= a.points[t] + d1);
        assert(b.points[t] <= c.points[t] <= b.points[t] + d2);
    }
}

proof fn lemma_room_less(a: GameModel, d1: int, d2: int)
    requires
        a.room_for(d1),
        0 <= d2 <= d1,
        forall|t: int| 0 <= t < 2 ==> 0 <= #[trigger] a.points[t] && 0 <= a.won_points[t] && 0 <= a.show_points[t],
    ensures
        a.room_for(d2),
{
    assert forall|t: int| 0 <= t < 2 implies fits_u16(#[trigger] a.points[t] + d2) && fits_u16(
        a.won_points[t] + d2,
    ) && fits_u16(a.show_points[t] + d2) by {
        assert(fits_u16(a.points[t] + d1));
    }
}

/// Room left after growing by `d1` within a room of `d1 + d2`.
proof fn lemma_room_after(a: GameModel, b: GameModel, d1: int, d2: int)
    requires
        a.room_for(d1 + d2),
        grows_within(a, b, d1),
        d2 >= 0,
        forall|t: int| 0 <= t < 2 ==> 0 <= #[trigger] a.points[t] && 0 <= a.won_points[t] && 0 <= a.show_points[t],
    ensures
        b.room_for(d2),
        forall|t: int| 0 <= t < 2 ==> 0 <= #[trigger] b.points[t] && 0 <= b.won_points[t] && 0 <= b.show_points[t],
{
    assert forall|t: int| 0 <= t < 2 implies fits_u16(#[trigger] b.points[t] + d2) && fits_u16(
        b.won_points[t] + d2,
    ) && fits_u16(b.show_points[t] + d2) by {
        assert(fits_u16(a.points[t] + d1 + d2));
        assert(a.points[t] <= b.points[t] <= a.points[t] + d1);
    }
    assert forall|t: int| 0 <= t < 2 implies 0 <= #[trigger] b.points[t] && 0 <= b.won_points[t] && 0 <= b.show_points[t] by {
        assert(a.points[t] <= b.points[t]);
    }
}

/// Counters are never negative.
pub open spec fn counters_nonneg(a: GameModel) -> bool {
    forall|t: int| 0 <= t < 2 ==> 0 <= #[trigger] a.points[t] && 0 <= a.won_points[t] && 0 <= a.show_points[t]
}

proof fn lemma_award_nonneg(a: GameModel, s: crate::card::Show)
    ensures
        0 <= a.show_award(s) <= show_value(s),
        a.show_award(cleared_show()) == 0,
{
}

proof fn lemma_show_sum_nonneg(a: GameModel, k: int)
    ensures
        a.show_sum_from(k) >= 0,
    decreases 12 - k,
{
    if k < 12 {
        lemma_award_nonneg(a, a.shows[k / 3][k % 3]);
        lemma_show_sum_nonneg(a, k + 1);
    }
}

/// The sums of the shows depend on the shows and the settings only.
proof fn lemma_show_sum_same(a: GameModel, b: GameModel, k: int)
    requires
        a.shows == b.shows,
        a.setting == b.setting,
    ensures
        a.show_sum_from(k) == b.show_sum_from(k),
    decreases 12 - k,
{
    if k < 12 {
        lemma_show_sum_same(a, b, k + 1);
    }
}

/// Clearing slot `(p, j)` leaves the sum of the later slots alone, and lowers that of
/// the slots from an earlier one by its award.
proof fn lemma_show_sum_clear(a: GameModel, b: GameModel, p: int, j: int, k: int)
    requires
        shaped(a),
        0 <= p < 4,
        0 <= j < 3,
        b == (GameModel { shows: a.shows.update(p, a.shows[p].update(j, cleared_show())), ..a }),
        0 <= k <= 12,
    ensures
        k > 3 * p + j ==> b.show_sum_from(k) == a.show_sum_from(k),
        k <= 3 * p + j ==> b.show_sum_from(k) == a.show_sum_from(k) - a.show_award(a.shows[p][j]),
    decreases 12 - k,
{
    if k < 12 {
        lemma_show_sum_clear(a, b, p, j, k + 1);
        let q = k / 3;
        let r = k % 3;
        if k == 3 * p + j {
            assert(q == p && r == j);
            lemma_award_nonneg(a, a.shows[p][j]);
        } else {
            if q == p {
                assert(r != j);
            }
            assert(b.shows[q][r] == a.shows[q][r]);
        }
    }
}

proof fn lemma_grows_add_points(a: GameModel, team: int, pts: int)
    requires
        shaped(a),
        0 <= team < 2,
        0 <= pts <= 100,
        a.playtype.playtype < 10,
        counters_nonneg(a),
        a.room_for(pts * a.multiplier()),
    ensures
        a.add_points_defined(team, pts),
        0 <= pts * a.multiplier() <= 100 * 255,
        grows_within(a, a.add_points(team, pts), pts * a.multiplier()),
{
    let mult = a.multiplier();
    assert(0 <= mult <= 255);
    assert(0 <= pts * mult <= 100 * 255) by (nonlinear_arith)
        requires
            0 <= pts <= 100,
            0 <= mult <= 255,
    ;
    let rt = a.receiving_team(team);
    assert(fits_u16(a.points[rt] + pts * mult));
    let b = a.add_points(team, pts);
    lemma_show_sum_same(a, b, 0);
    assert forall|t: int| 0 <= t < 2 implies #[trigger] point_balance(b, t) == point_balance(a, t) by {}
}

proof fn lemma_grows_marriages(a: GameModel, i: int)
    requires
        shaped(a),
        0 <= i <= 4,
        counters_nonneg(a),
        a.room_for(MARRIAGE_POINTS * (4 - i)),
    ensures
        a.marriages_from_defined(i),
        grows_within(a, a.marriages_from(i), MARRIAGE_POINTS * (4 - i)),
    decreases 4 - i,
{
    if i < 4 {
        if a.marriage[i] == MarriageState::WouldWin {
            let b = a.play_marriage(i);
            let t0 = team_of(i);
            assert(fits_u16(a.points[t0] + MARRIAGE_POINTS * (4 - i)));
            lemma_show_sum_same(a, b, 0);
            assert forall|t: int| 0 <= t < 2 implies #[trigger] point_balance(b, t) == point_balance(a, t) by {}
            assert(grows_within(a, b, MARRIAGE_POINTS as int));
            lemma_room_after(a, b, MARRIAGE_POINTS as int, MARRIAGE_POINTS * (4 - (i + 1)));
            lemma_grows_marriages(b, i + 1);
            lemma_grows_trans(a, b, b.marriages_from(i + 1), MARRIAGE_POINTS as int, MARRIAGE_POINTS * (4 - (i + 1)));
        } else {
            lemma_room_less(a, MARRIAGE_POINTS * (4 - i), MARRIAGE_POINTS * (4 - (i + 1)));
            lemma_grows_marriages(a, i + 1);
        }
    }
}

proof fn lemma_grows_award(a: GameModel, team: int, k: int)
    requires
        shaped(a),
        0 <= team < 2,
        0 <= k <= 12,
        counters_nonneg(a),
        a.room_for(a.show_sum_from(k)),
    ensures
        a.award_from_defined(team, k),
        grows_within(a, a.award_from(team, k), a.show_sum_from(k)),
    decreases 12 - k,
{
    lemma_show_sum_nonneg(a, k);
    if k < 12 {
        let p = k / 3;
        let j = k % 3;
        lemma_show_sum_nonneg(a, k + 1);
        lemma_award_nonneg(a, a.shows[p][j]);
        if team_of(p) == team {
            if slot_counts(a.shows, p, j) {
                let sp = a.show_award(a.shows[p][j]);
                let b = GameModel {
                    points: a.points.update(team, a.points[team] + sp),
                    show_points: a.show_points.update(team, a.show_points[team] + sp),
                    ..a
                };
                assert(fits_u16(a.points[team] + a.show_sum_from(k)));
                lemma_show_sum_same(a, b, 0);
                lemma_show_sum_same(a, b, k + 1);
                assert forall|t: int| 0 <= t < 2 implies #[trigger] point_balance(b, t) == point_balance(a, t) by {}
                assert(grows_within(a, b, sp));
                lemma_room_after(a, b, sp, a.show_sum_from(k + 1));
                lemma_grows_award(b, team, k + 1);
                lemma_grows_trans(a, b, b.award_from(team, k + 1), sp, a.show_sum_from(k + 1));
            } else {
                lemma_room_less(a, a.show_sum_from(k), a.show_sum_from(k + 1));
                lemma_grows_award(a, team, k + 1);
                lemma_grows_trans(a, a, a.award_from(team, k + 1), 0, a.show_sum_from(k + 1));
            }
        } else {
            let b = GameModel {
                shows: a.shows.update(p, a.shows[p].update(j, cleared_show())),
                ..a
            };
            assert forall|q: int| 0 <= q < 4 implies (#[trigger] b.shows[q]).len() == 3 by {
                if q != p {
                    assert(b.shows[q] == a.shows[q]);
                }
            }
            assert(3 * p + j == k);
            lemma_show_sum_clear(a, b, p, j, k + 1);
            lemma_show_sum_clear(a, b, p, j, 0);
            assert forall|q: int, r: int| 0 <= q < 4 && 0 <= r < 3 && a.shows_comparable() implies #[trigger] b.shows[q][r].color <= 253 by {
                if q == p && r == j {
                } else {
                    assert(b.shows[q][r] == a.shows[q][r]);
                }
            }
            assert forall|t: int| 0 <= t < 2 implies #[trigger] point_balance(b, t) == point_balance(a, t) by {}
            assert(grows_within(a, b, 0));
            lemma_room_less(a, a.show_sum_from(k), a.show_sum_from(k + 1));
            assert(b.room_for(b.show_sum_from(k + 1)));
            lemma_grows_award(b, team, k + 1);
            lemma_grows_trans(a, b, b.award_from(team, k + 1), 0, a.show_sum_from(k + 1));
        }
    }
}

/// The scan for the best show can compare every pair it meets.
proof fn lemma_best_defined(a: GameModel, k: int, best: (int, int))
    requires
        a.shows_comparable(),
        0 <= k <= 12,
    ensures
        a.best_show_from_defined(k, best),
    decreases 12 - k,
{
    if k < 12 {
        let p = k / 3;
        let j = k % 3;
        let b = a.shows[best.0][best.1];
        let nb = if slot_counts(a.shows, p, j) && (b.color == 4 || a.playtype.show_stronger(
            b,
            a.shows[p][j],
        )) {
            (p, j)
        } else {
            best
        };
        assert(a.shows[p][j].color <= 253);
        lemma_best_defined(a, k + 1, nb);
    }
}

proof fn lemma_grows_rule(a: GameModel, rule: PointRule, team: int, pts: int)
    requires
        shaped(a),
        0 <= team < 2,
        0 <= pts <= 80,
        a.playtype.playtype < 10,
        counters_nonneg(a),
        a.shows_comparable(),
        a.room_for(a.rule_bound()),
    ensures
        a.apply_rule_defined(rule, team, pts),
        grows_within(a, a.apply_rule(rule, team, pts), a.rule_bound()),
{
    let mult = a.multiplier();
    assert(0 <= pts * mult <= 80 * mult) by (nonlinear_arith)
        requires
            0 <= pts <= 80,
            0 <= mult,
    ;
    lemma_show_sum_nonneg(a, 0);
    match rule {
        PointRule::PLAY => {
            lemma_room_less(a, a.rule_bound(), pts * mult);
            lemma_grows_add_points(a, team, pts);
            let b = a.add_points(team, pts);
            lemma_grows_refl(b, a.rule_bound() - pts * mult);
            lemma_grows_trans(a, b, b, pts * mult, a.rule_bound() - pts * mult);
        },
        PointRule::SHOW => {
            lemma_best_defined(a, 0, (0, 0));
            lemma_room_less(a, a.rule_bound(), a.shows_total());
            let best = a.best_show();
            crate::game::lemma_best_bounds(a, 0, (0, 0));
            if a.shows[best.0][best.1].color != 4 {
                lemma_grows_award(a, team_of(best.0), 0);
                lemma_grows_trans(a, a.handle_shows(), a.handle_shows(), a.shows_total(), a.rule_bound() - a.shows_total());
            } else {
                lemma_grows_refl(a, a.rule_bound());
            }
        },
        PointRule::MARRIAGE => {
            lemma_room_less(a, a.rule_bound(), MARRIAGE_POINTS * 4);
            if a.playtype.is_trumpf_spec() {
                lemma_grows_marriages(a, 0);
                lemma_grows_trans(a, a.handle_marriage(), a.handle_marriage(), MARRIAGE_POINTS * 4, a.rule_bound() - MARRIAGE_POINTS * 4);
            } else {
                lemma_grows_refl(a, a.rule_bound());
            }
        },
    }
}

proof fn lemma_grows_end_round(a: GameModel)
    requires
        shaped(a),
        0 <= a.current_player,
        a.playtype.playtype < 10,
        a.team0_wins <= 9,
        counters_nonneg(a),
        a.room_for(105 * a.multiplier()),
    ensures
        a.end_round_defined(),
        grows_within(a, a.end_round(), 105 * a.multiplier()),
{
    let mult = a.multiplier();
    if a.history_index == 36 {
        let lt = team_of(a.current_player);
        lemma_room_less(a, 105 * mult, 5 * mult);
        lemma_grows_add_points(a, lt, 5);
        let m1 = a.add_points(lt, 5);
        lemma_room_after(a, m1, 5 * mult, 100 * mult);
        lemma_grows_add_points(m1, lt, 100);
        let m2 = m1.add_points(lt, 100);
        lemma_grows_trans(a, m1, m2, 5 * mult, 100 * mult);
        lemma_grows_refl(m1, 100 * mult);
        lemma_grows_trans(a, m1, m1, 5 * mult, 100 * mult);
    } else {
        lemma_grows_refl(a, 105 * mult);
    }
}

proof fn lemma_grows_rules_from(a: GameModel, k: int, team: int, pts: int)
    requires
        shaped(a),
        0 <= a.current_player,
        0 <= k <= 3,
        0 <= team < 2,
        0 <= pts <= 80,
        a.playtype.playtype < 10,
        a.team0_wins <= 9,
        counters_nonneg(a),
        a.shows_comparable(),
        a.room_for((3 - k) * a.rule_bound() + 105 * a.multiplier()),
    ensures
        a.rules_from_defined(k, team, pts),
        grows_within(a, a.rules_from(k, team, pts).0, (3 - k) * a.rule_bound() + 105 * a.multiplier()),
    decreases 3 - k,
{
    let mult = a.multiplier();
    let rb = a.rule_bound();
    lemma_show_sum_nonneg(a, 0);
    assert(0 <= (3 - k) * rb) by (nonlinear_arith)
        requires
            0 <= rb,
            k <= 3,
    ;
    if k < 3 {
        let rule = a.setting.point_recv_order@[k];
        assert((3 - k) * rb == rb + (2 - k) * rb) by (nonlinear_arith);
        assert(0 <= (2 - k) * rb) by (nonlinear_arith)
            requires
                0 <= rb,
                k <= 2,
        ;
        lemma_room_less(a, (3 - k) * rb + 105 * mult, rb);
        lemma_grows_rule(a, rule, team, pts);
        let m1 = a.apply_rule(rule, team, pts);
        lemma_room_after(a, m1, rb, (2 - k) * rb + 105 * mult);
        assert(m1.multiplier() == mult);
        lemma_show_sum_nonneg(m1, 0);
        assert(m1.rule_bound() <= rb);
        assert((2 - k) * m1.rule_bound() <= (2 - k) * rb) by (nonlinear_arith)
            requires
                0 <= m1.rule_bound() <= rb,
                k <= 2,
        ;
        if m1.should_end() {
            lemma_room_less(m1, (2 - k) * rb + 105 * mult, 105 * mult);
            lemma_grows_end_round(m1);
            lemma_grows_trans(a, m1, m1.end_round(), rb, 105 * mult);
            let r = m1.end_round();
            lemma_grows_refl(r, (2 - k) * rb);
            lemma_grows_trans(a, r, r, rb + 105 * mult, (2 - k) * rb);
        } else {
            lemma_room_less(m1, (2 - k) * rb + 105 * mult, (2 - k) * m1.rule_bound() + 105 * mult);
            lemma_grows_rules_from(m1, k + 1, team, pts);
            let r = m1.rules_from(k + 1, team, pts).0;
            lemma_grows_trans(a, m1, r, rb, (2 - k) * m1.rule_bound() + 105 * mult);
            lemma_grows_refl(r, (2 - k) * (rb - m1.rule_bound()));
            assert((2 - k) * rb == (2 - k) * m1.rule_bound() + (2 - k) * (rb - m1.rule_bound())) by (nonlinear_arith);
            assert(0 <= (2 - k) * (rb - m1.rule_bound())) by (nonlinear_arith)
                requires
                    0 <= m1.rule_bound() <= rb,
                    k <= 2,
            ;
            lemma_grows_trans(a, r, r, rb + (2 - k) * m1.rule_bound() + 105 * mult, (2 - k) * (rb - m1.rule_bound()));
        }
    } else {
        lemma_grows_refl(a, 105 * mult);
    }
}

proof fn lemma_grows_after_trick(a: GameModel)
    requires
        shaped(a),
        0 <= a.current_player,
        a.playtype.playtype < 10,
        a.team0_wins <= 9,
        counters_nonneg(a),
        a.room_for(105 * a.multiplier()),
    ensures
        a.after_trick_defined(),
        grows_within(a, a.after_trick(), 105 * a.multiplier()),
{
    let m1 = if a.flips() {
        GameModel {
            playtype: crate::playtype::Playtype { ruletype: a.playtype.ruletype ^ 1u8, ..a.playtype },
            ..a
        }
    } else {
        a
    };
    lemma_show_sum_same(a, m1, 0);
    assert forall|t: int| 0 <= t < 2 implies #[trigger] point_balance(m1, t) == point_balance(a, t) by {}
    assert(grows_within(a, m1, 0));
    lemma_grows_end_round(m1);
    assert(a.after_trick() == m1.end_round());
    lemma_grows_trans(a, m1, m1.end_round(), 0, 105 * a.multiplier());
}

/// The cards `history[lo..n]` of the deck bring at most 20 points each.
proof fn lemma_points_between(m: GameModel, lo: int, n: int)
    requires
        lo <= n,
        forall|i: int| lo <= i < n ==> m.playtype.card_value_defined(#[trigger] m.history[i]),
    ensures
        0 <= m.points_between(lo, n) <= 20 * (n - lo),
    decreases n - lo,
{
    if n > lo {
        lemma_points_between(m, lo, n - 1);
        m.playtype.lemma_card_value_bound(m.history[n - 1]);
    }
}

/// A trick of cards of the deck ends without overflow when the points leave room for
/// the most it can bring.
proof fn lemma_end_turn_defined(m: GameModel)
    requires
        shaped(m),
        4 <= m.history_index <= 36,
        forall|i: int| m.history_index - 4 <= i < m.history_index ==> deck_card(#[trigger] m.history[i]),
        m.history_index - 4 <= m.bestcard_index <= m.history_index - 1,
        0 <= m.current_player < 4,
        0 <= m.team0_wins,
        m.team0_wins + 1 <= m.history_index / 4,
        m.playtype.playtype < 10,
        counters_nonneg(m),
        m.shows_comparable(),
        m.room_for(m.play_bound()),
    ensures
        m.end_turn_defined(),
{
    let hi = m.history_index;
    let mult = m.multiplier();
    assert forall|i: int| hi - 4 <= i < hi implies m.playtype.card_value_defined(#[trigger] m.history[i]) by {
        assert(deck_card(m.history[i]));
    }
    lemma_points_between(m, hi - 4, hi);
    let pts = m.trick_points();
    let bt = team_of(m.trick_winner());
    let m1 = m.trick_taken();
    lemma_show_sum_same(m, m1, 0);
    lemma_show_sum_nonneg(m, 0);
    assert(m1.play_bound() == m.play_bound());
    assert(m1.team0_wins <= 9);
    if hi == 4 {
        assert(m1.room_for((3 - 0) * m1.rule_bound() + 105 * m1.multiplier()));
        lemma_grows_rules_from(m1, 0, bt, pts);
    } else {
        assert(0 <= pts * mult <= 80 * mult) by (nonlinear_arith)
            requires
                0 <= pts <= 80,
                0 <= mult,
        ;
        lemma_room_less(m1, m.play_bound(), pts * mult);
        lemma_grows_add_points(m1, bt, pts);
        let m2 = m1.add_points(bt, pts);
        lemma_room_after(m1, m2, pts * mult, m.play_bound() - pts * mult);
        lemma_room_less(m2, m.play_bound() - pts * mult, 105 * mult);
        assert(m2.multiplier() == mult);
        lemma_grows_end_round(m2);
        lemma_grows_after_trick(m2);
    }
}

/// When `safe_to_play` holds, `play_card` neither overflows nor fails.
pub proof fn law_safe_play_defined(m: GameModel, card: Card)
    requires
        m.safe_to_play(card),
    ensures
        m.play_card_defined(card),
{
    let hi = m.history_index;
    let m1 = m.card_placed(card);
    assert(!m1.marriage_card(card));
    let m2 = m1.marriage_step(card);
    assert(m2 == m1);
    if hi % 4 != 0 {
        assert(deck_card(m.history[m.bestcard_index]));
    }
    if m2.history_index % 4 == 0 {
        let h2 = m2.history_index;
        assert(h2 == hi + 1);
        assert(hi / 4 * 4 == h2 - 4);
        assert forall|i: int| h2 - 4 <= i < h2 implies deck_card(#[trigger] m2.history[i]) by {
            if i < hi {
                assert(m2.history[i] == m.history[i]);
            }
        }
        lemma_show_sum_same(m, m2, 0);
        assert(m2.play_bound() == m.play_bound());
        lemma_end_turn_defined(m2);
    }
}

/// When `safe_to_play` holds, `is_legal_card` can judge the card for any of the four
/// players.
pub proof fn law_safe_play_legal_defined(m: GameModel, player: int, card: Card)
    requires
        m.safe_to_play(card),
        0 <= player < 4,
    ensures
        m.legal_card_defined(player, card),
{
    let first = m.history_index / 4 * 4;
    if m.history_index % 4 != 0 {
        assert(deck_card(m.history[m.bestcard_index]));
    }
}

impl Game {
    /// Whether playing `card` now is safe: a round in order, a card of the deck, cards of
    /// the deck on the table, comparable shows, and points with room for the most that
    /// one card can bring.
    #[verifier::loop_isolation(false)]
    pub fn is_safe_to_play(&self, card: Card) -> (r: bool)
        ensures
            r == self@.safe_to_play(card),
    {
        let ghost m = self@;
        // The round is well formed.
        let hi = self.history_index;
        if !(hi < 36 && self.current_player < 4 && self.bestcard_index < 36) {
            return false;
        }
        if hi % 4 != 0 && !(hi / 4 * 4 <= self.bestcard_index && self.bestcard_index < hi) {
            return false;
        }
        if !(self.team0_wins <= hi / 4) {
            return false;
        }
        if !(card.color < 4 && card.number < 9 && self.playtype.playtype < 10) {
            return false;
        }
        // The table holds cards of the deck.
        let first = hi / 4 * 4;
        if hi % 4 == 0 && self.history[hi as usize].color != 4 {
            return false;
        }
        let mut i = first;
        while i < hi
            invariant
                first <= i <= hi,
                hi == self.history_index,
                first == hi / 4 * 4,
                hi < 36,
                forall|k: int| first <= k < i ==> deck_card(#[trigger] self.history@[k]),
            decreases hi - i,
        {
            let c = self.history[i as usize];
            if !(c.color < 4 && c.number < 9) {
                return false;
            }
            i += 1;
        }
        // The shows are comparable, and what they bring at most.
        let mut total: u64 = 0;
        let mut k: usize = 0;
        while k < 12
            invariant
                k <= 12,
                self@ == m,
                forall|p: int, j: int|
                    0 <= p < 4 && 0 <= j < 3 && 3 * p + j < k ==> #[trigger] self.shows[p][j].color
                        <= 253,
                total + m.show_sum_from(k as int) == m.shows_total(),
                total <= 65535 * k,
            decreases 12 - k,
        {
            let s = self.shows[k / 3][k % 3];
            if s.color > 253 {
                return false;
            }
            let value = self.playtype.get_show_value(s);
            let award = if value < self.setting.show_points_maximum {
                value
            } else {
                self.setting.show_points_maximum
            };
            proof {
                let kk = k as int;
                assert(m.show_sum_from(kk) == m.show_award(m.shows[kk / 3][kk % 3]) + m.show_sum_from(kk + 1));
                assert(m.shows[kk / 3][kk % 3] == s);
            }
            total = total + award as u64;
            assert forall|p: int, j: int|
                0 <= p < 4 && 0 <= j < 3 && 3 * p + j < k + 1 implies #[trigger] self.shows[p][j].color
                    <= 253 by {
                if 3 * p + j == k {
                    assert(p == k / 3 && j == k % 3);
                }
            }
            k += 1;
        }
        // Room for the most that one card brings.
        let mult = self.setting.playtype_multiplier[self.playtype.playtype as usize] as u64;
        assert(mult == m.multiplier());
        assert(total == m.shows_total());
        let bound: u64 = 3 * (80 * mult + 4 * 20 + total) + 105 * mult;
        assert(bound <= 3 * (80 * 255 + 80 + 65535 * 12) + 105 * 255);
        if !(self.points[0] as u64 + bound <= 65535 && self.won_points[0] as u64 + bound <= 65535
            && self.show_points[0] as u64 + bound <= 65535) {
            assert(m.points[0] == self.points[0] && m.won_points[0] == self.won_points[0]
                && m.show_points[0] == self.show_points[0]);
            return false;
        }
        if !(self.points[1] as u64 + bound <= 65535 && self.won_points[1] as u64 + bound <= 65535
            && self.show_points[1] as u64 + bound <= 65535) {
            assert(m.points[1] == self.points[1] && m.won_points[1] == self.won_points[1]
                && m.show_points[1] == self.show_points[1]);
            return false;
        }
        proof {
            assert(m.shows_comparable());
            assert(m.table_valid());
            assert(wf(m));
        }
        true
    }
}

} // verus!
