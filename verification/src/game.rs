//! The state of a game of Jass and the moves that change it.
use vstd::prelude::*;

use rand::seq::SliceRandom;

use crate::card::{
    card_of_id, count_run, has_color_spec, ids_of, has_stronger_trumpf_spec, only_has_color_spec, Card, Cardset, Show,
};
use crate::playtype::{
    Playtype, show_value, BELL, DOWNUP, GUSCHTI, MARY, NONE, PASS, SHIELD, SLALOMDOWNUP,
    SLALOMUPDOWN, UPDOWN,
};
use crate::laws::lemma_keeps_rules;
use crate::setting::{PointRule, Setting};

verus! {

pub const MARRIAGE_POINTS: u16 = 20;

/// Where a player stands with the King and Queen of trump.
#[derive(Clone, Copy, PartialEq, Eq, Debug, Structural)]
pub enum MarriageState {
    Unplayed,
    PlayedOne,
    PlayedBoth,
    /// The marriage would win the game; used when the order of points matters.
    WouldWin,
}

impl Default for MarriageState {
    fn default() -> (m: Self)
        ensures
            m == MarriageState::Unplayed,
    {
        MarriageState::Unplayed
    }
}

#[derive(Clone, PartialEq, Eq, Debug)]
pub struct Game {
    /// How many cards of the round have been played.
    pub history_index: u8,
    /// `history[i]` is the `i + 1`-th card played in the round.
    pub history: [Card; 36],
    /// How many tricks team 0 won in this round.
    pub team0_wins: u8,
    /// Where in `history` the best card of the current trick is.
    pub bestcard_index: u8,
    pub points: [u16; 2],
    pub won_points: [u16; 2],
    pub show_points: [u16; 2],
    pub playtype: Playtype,
    pub announce_player: u8,
    pub current_player: u8,
    pub setting: Setting,
    pub shows: [[Show; 3]; 4],
    pub hands: [Cardset; 4],
    pub marriage: [MarriageState; 4],
}

/// The mathematical state of a game: counters as integers, arrays as sequences,
/// hands as sets of card identifiers.
#[verifier::ext_equal]
pub struct GameModel {
    pub history_index: int,
    pub history: Seq<Card>,
    pub team0_wins: int,
    pub bestcard_index: int,
    pub points: Seq<int>,
    pub won_points: Seq<int>,
    pub show_points: Seq<int>,
    pub playtype: Playtype,
    pub announce_player: int,
    pub current_player: int,
    pub setting: Setting,
    pub shows: Seq<Seq<Show>>,
    pub hands: Seq<Set<int>>,
    pub marriage: Seq<MarriageState>,
}

impl View for Game {
    type V = GameModel;

    open spec fn view(&self) -> GameModel {
        GameModel {
            history_index: self.history_index as int,
            history: self.history@,
            team0_wins: self.team0_wins as int,
            bestcard_index: self.bestcard_index as int,
            points: self.points@.map_values(|x: u16| x as int),
            won_points: self.won_points@.map_values(|x: u16| x as int),
            show_points: self.show_points@.map_values(|x: u16| x as int),
            playtype: self.playtype,
            announce_player: self.announce_player as int,
            current_player: self.current_player as int,
            setting: self.setting,
            shows: self.shows@.map_values(|r: [Show; 3]| r@),
            hands: self.hands@.map_values(|h: Cardset| h@),
            marriage: self.marriage@,
        }
    }
}

/// The team of a player: players 0 and 2 against 1 and 3.
pub open spec fn team_of(plr: int) -> int {
    plr % 2
}

/// The largest value a `u16` counter holds.
pub open spec fn fits_u16(x: int) -> bool {
    0 <= x <= u16::MAX
}

impl GameModel {
    /// The game ends when a team reaches the goal.
    pub open spec fn should_end(self) -> bool {
        self.points[0] >= self.setting.max_points || self.points[1] >= self.setting.max_points
    }

    /// The player who began the current trick.
    pub open spec fn beginplayer(self) -> int {
        (self.current_player + 4 - self.history_index % 4) % 4
    }

    /// The player who begins the first trick.
    pub open spec fn startplayer(self) -> int {
        if self.playtype.passed && self.setting.passed_player_begins@[self.playtype.playtype as int] {
            (self.announce_player + 2) % 4
        } else {
            self.announce_player
        }
    }

    /// The player who announces (or announced): passing hands it to the partner.
    pub open spec fn announcing_player(self) -> int {
        (self.announce_player + 2 * (if self.playtype.passed {
            1int
        } else {
            0int
        })) % 4
    }

    /// The team that actually receives points given to `team` (the other one in misère).
    pub open spec fn receiving_team(self, team: int) -> int {
        if self.playtype.misere {
            1 - team
        } else {
            team
        }
    }

    /// The multiplier of the current game mode.
    pub open spec fn multiplier(self) -> int {
        self.setting.playtype_multiplier@[self.playtype.playtype as int] as int
    }

    pub open spec fn add_points(self, team: int, pts: int) -> GameModel {
        let rt = self.receiving_team(team);
        let p = pts * self.multiplier();
        GameModel {
            points: self.points.update(rt, self.points[rt] + p),
            won_points: self.won_points.update(rt, self.won_points[rt] + p),
            ..self
        }
    }

    pub open spec fn add_points_defined(self, team: int, pts: int) -> bool {
        let rt = self.receiving_team(team);
        let p = pts * self.multiplier();
        &&& 0 <= team < 2
        &&& 0 <= pts <= 100
        &&& self.playtype.playtype < 10
        &&& fits_u16(self.points[rt] + p)
        &&& fits_u16(self.won_points[rt] + p)
    }

    pub open spec fn play_marriage(self, plr: int) -> GameModel {
        let t = team_of(plr);
        GameModel {
            points: self.points.update(t, self.points[t] + MARRIAGE_POINTS),
            show_points: self.show_points.update(t, self.show_points[t] + MARRIAGE_POINTS),
            marriage: self.marriage.update(plr, MarriageState::PlayedBoth),
            ..self
        }
    }

    pub open spec fn play_marriage_defined(self, plr: int) -> bool {
        let t = team_of(plr);
        &&& 0 <= plr < 4
        &&& fits_u16(self.points[t] + MARRIAGE_POINTS)
        &&& fits_u16(self.show_points[t] + MARRIAGE_POINTS)
    }

    /// Plays the marriages of players `i..4` that would win the game.
    pub open spec fn marriages_from(self, i: int) -> GameModel
        decreases 4 - i,
    {
        if i >= 4 {
            self
        } else if self.marriage[i] == MarriageState::WouldWin {
            self.play_marriage(i).marriages_from(i + 1)
        } else {
            self.marriages_from(i + 1)
        }
    }

    pub open spec fn marriages_from_defined(self, i: int) -> bool
        decreases 4 - i,
    {
        if i >= 4 {
            true
        } else if self.marriage[i] == MarriageState::WouldWin {
            self.play_marriage_defined(i) && self.play_marriage(i).marriages_from_defined(i + 1)
        } else {
            self.marriages_from_defined(i + 1)
        }
    }

    pub open spec fn handle_marriage(self) -> GameModel {
        if !self.playtype.is_trumpf_spec() {
            self
        } else {
            self.marriages_from(0)
        }
    }

    pub open spec fn handle_marriage_defined(self) -> bool {
        self.playtype.is_trumpf_spec() ==> self.marriages_from_defined(0)
    }

    pub open spec fn end_round(self) -> GameModel {
        if self.history_index == 36 {
            let last_team = team_of(self.current_player);
            let m1 = self.add_points(last_team, 5);
            let wins = if last_team == 0 {
                m1.team0_wins
            } else {
                9 - m1.team0_wins
            };
            if wins == 9 {
                m1.add_points(last_team, 100)
            } else {
                m1
            }
        } else {
            self
        }
    }

    pub open spec fn end_round_defined(self) -> bool {
        self.history_index == 36 ==> {
            let last_team = team_of(self.current_player);
            let m1 = self.add_points(last_team, 5);
            let wins = if last_team == 0 {
                m1.team0_wins
            } else {
                9 - m1.team0_wins
            };
            &&& 0 <= self.current_player
            &&& self.add_points_defined(last_team, 5)
            &&& (last_team == 1 ==> m1.team0_wins <= 9)
            &&& (wins == 9 ==> m1.add_points_defined(last_team, 100))
        }
    }
}


/// Whether the scan of player `p`'s shows reaches slot `j`: every earlier slot is used.
pub open spec fn slot_reached(shows: Seq<Seq<Show>>, p: int, j: int) -> bool {
    forall|k: int| 0 <= k < j ==> #[trigger] shows[p][k].color != 4
}

/// Whether slot `j` of player `p` holds a show that counts.
pub open spec fn slot_counts(shows: Seq<Seq<Show>>, p: int, j: int) -> bool {
    slot_reached(shows, p, j) && shows[p][j].color != 4
}

/// The empty show that marks an unused slot.
pub open spec fn cleared_show() -> Show {
    Show { color: 4, number: 2, row: 0 }
}

/// The smaller of two integers.
pub open spec fn min_int(a: int, b: int) -> int {
    if a < b {
        a
    } else {
        b
    }
}

impl GameModel {
    /// Scans the slots `k..12` (player `k / 3`, slot `k % 3`) for the best show,
    /// starting from the slot `best`.
    pub open spec fn best_show_from(self, k: int, best: (int, int)) -> (int, int)
        decreases 12 - k,
    {
        if k >= 12 {
            best
        } else {
            let p = k / 3;
            let j = k % 3;
            let b = self.shows[best.0][best.1];
            let nb = if slot_counts(self.shows, p, j) && (b.color == 4
                || self.playtype.show_stronger(b, self.shows[p][j])) {
                (p, j)
            } else {
                best
            };
            self.best_show_from(k + 1, nb)
        }
    }

    pub open spec fn best_show_from_defined(self, k: int, best: (int, int)) -> bool
        decreases 12 - k,
    {
        if k >= 12 {
            true
        } else {
            let p = k / 3;
            let j = k % 3;
            let b = self.shows[best.0][best.1];
            let nb = if slot_counts(self.shows, p, j) && (b.color == 4
                || self.playtype.show_stronger(b, self.shows[p][j])) {
                (p, j)
            } else {
                best
            };
            &&& (slot_counts(self.shows, p, j) && b.color != 4 ==> self.playtype.show_stronger_defined(
                b,
                self.shows[p][j],
            ))
            &&& self.best_show_from_defined(k + 1, nb)
        }
    }

    /// The points a counting show brings.
    pub open spec fn show_award(self, show: Show) -> int {
        min_int(show_value(show), self.setting.show_points_maximum as int)
    }

    /// From slot `k` on: adds the shows of `team` to its points and clears the others.
    pub open spec fn award_from(self, team: int, k: int) -> GameModel
        decreases 12 - k,
    {
        if k >= 12 {
            self
        } else {
            let p = k / 3;
            let j = k % 3;
            if team_of(p) == team {
                if slot_counts(self.shows, p, j) {
                    let sp = self.show_award(self.shows[p][j]);
                    GameModel {
                        points: self.points.update(team, self.points[team] + sp),
                        show_points: self.show_points.update(team, self.show_points[team] + sp),
                        ..self
                    }.award_from(team, k + 1)
                } else {
                    self.award_from(team, k + 1)
                }
            } else {
                GameModel {
                    shows: self.shows.update(p, self.shows[p].update(j, cleared_show())),
                    ..self
                }.award_from(team, k + 1)
            }
        }
    }

    pub open spec fn award_from_defined(self, team: int, k: int) -> bool
        decreases 12 - k,
    {
        if k >= 12 {
            true
        } else {
            let p = k / 3;
            let j = k % 3;
            if team_of(p) == team {
                if slot_counts(self.shows, p, j) {
                    let sp = self.show_award(self.shows[p][j]);
                    &&& fits_u16(self.points[team] + sp)
                    &&& fits_u16(self.show_points[team] + sp)
                    &&& GameModel {
                        points: self.points.update(team, self.points[team] + sp),
                        show_points: self.show_points.update(team, self.show_points[team] + sp),
                        ..self
                    }.award_from_defined(team, k + 1)
                } else {
                    self.award_from_defined(team, k + 1)
                }
            } else {
                GameModel {
                    shows: self.shows.update(p, self.shows[p].update(j, cleared_show())),
                    ..self
                }.award_from_defined(team, k + 1)
            }
        }
    }

    /// The slot of the best show of all players.
    pub open spec fn best_show(self) -> (int, int) {
        self.best_show_from(0, (0, 0))
    }

    /// The team with the best show gets the points of all its shows; the shows of
    /// the other team are cleared.
    pub open spec fn handle_shows(self) -> GameModel {
        let best = self.best_show();
        if self.shows[best.0][best.1].color == 4 {
            self
        } else {
            self.award_from(team_of(best.0), 0)
        }
    }

    pub open spec fn handle_shows_defined(self) -> bool {
        let best = self.best_show();
        &&& self.best_show_from_defined(0, (0, 0))
        &&& (self.shows[best.0][best.1].color != 4 ==> self.award_from_defined(team_of(best.0), 0))
    }
}

impl GameModel {
    /// The points of the cards `history[lo..n]`.
    pub open spec fn points_between(self, lo: int, n: int) -> int
        decreases n - lo,
    {
        if n <= lo {
            0
        } else {
            self.points_between(lo, n - 1) + self.playtype.card_value(self.history[n - 1])
        }
    }

    /// The points of the four cards of the trick that just ended.
    pub open spec fn trick_points(self) -> int {
        self.points_between(self.history_index - 4, self.history_index)
    }

    /// The player who played the best card of the trick that just ended.
    pub open spec fn trick_winner(self) -> int {
        (self.current_player + 4 - (self.history_index - 1 - self.bestcard_index)) % 4
    }

    pub open spec fn apply_rule(self, rule: PointRule, team: int, pts: int) -> GameModel {
        match rule {
            PointRule::PLAY => self.add_points(team, pts),
            PointRule::SHOW => self.handle_shows(),
            PointRule::MARRIAGE => self.handle_marriage(),
        }
    }

    pub open spec fn apply_rule_defined(self, rule: PointRule, team: int, pts: int) -> bool {
        match rule {
            PointRule::PLAY => self.add_points_defined(team, pts),
            PointRule::SHOW => self.handle_shows_defined(),
            PointRule::MARRIAGE => self.handle_marriage_defined(),
        }
    }

    /// Gives the points of the first trick in the order of the settings, from rule `k`
    /// on; stops, ending the round, as soon as a team reaches the goal. The flag tells
    /// whether it stopped.
    pub open spec fn rules_from(self, k: int, team: int, pts: int) -> (GameModel, bool)
        decreases 3 - k,
    {
        if k >= 3 {
            (self, false)
        } else {
            let m1 = self.apply_rule(self.setting.point_recv_order@[k], team, pts);
            if m1.should_end() {
                (m1.end_round(), true)
            } else {
                m1.rules_from(k + 1, team, pts)
            }
        }
    }

    pub open spec fn rules_from_defined(self, k: int, team: int, pts: int) -> bool
        decreases 3 - k,
    {
        if k >= 3 {
            true
        } else {
            let m1 = self.apply_rule(self.setting.point_recv_order@[k], team, pts);
            &&& self.apply_rule_defined(self.setting.point_recv_order@[k], team, pts)
            &&& if m1.should_end() {
                m1.end_round_defined()
            } else {
                m1.rules_from_defined(k + 1, team, pts)
            }
        }
    }

    /// Whether the card order switches after the trick that just ended: after every
    /// trick in slalom, after the fourth in Guschti and Mary.
    pub open spec fn flips(self) -> bool {
        let p = self.playtype.playtype;
        p == SLALOMUPDOWN || p == SLALOMDOWNUP || ((p == GUSCHTI || p == MARY)
            && self.history_index == 16)
    }

    pub open spec fn after_trick(self) -> GameModel {
        let m1 = if self.flips() {
            GameModel {
                playtype: Playtype { ruletype: self.playtype.ruletype ^ 1u8, ..self.playtype },
                ..self
            }
        } else {
            self
        };
        if m1.history_index == 36 {
            m1.end_round()
        } else {
            m1
        }
    }

    pub open spec fn after_trick_defined(self) -> bool {
        let m1 = if self.flips() {
            GameModel {
                playtype: Playtype { ruletype: self.playtype.ruletype ^ 1u8, ..self.playtype },
                ..self
            }
        } else {
            self
        };
        m1.history_index == 36 ==> m1.end_round_defined()
    }

    /// The state right after the winner of the trick is known.
    pub open spec fn trick_taken(self) -> GameModel {
        let best = self.trick_winner();
        GameModel {
            team0_wins: self.team0_wins + if team_of(best) == 0 {
                1int
            } else {
                0int
            },
            current_player: best,
            ..self
        }
    }

    /// Ends a trick: its winner leads the next one, and the points are given.
    pub open spec fn end_turn(self) -> GameModel {
        let pts = self.trick_points();
        let bt = team_of(self.trick_winner());
        let m1 = self.trick_taken();
        if self.history_index == 4 {
            let (m2, ended) = m1.rules_from(0, bt, pts);
            if ended {
                m2
            } else {
                m2.after_trick()
            }
        } else {
            let m2 = m1.add_points(bt, pts);
            if m2.should_end() {
                m2.end_round()
            } else {
                m2.after_trick()
            }
        }
    }

    pub open spec fn end_turn_defined(self) -> bool {
        let hi = self.history_index;
        let pts = self.trick_points();
        let bt = team_of(self.trick_winner());
        let m1 = self.trick_taken();
        &&& 4 <= hi <= 36
        &&& forall|i: int| hi - 4 <= i < hi ==> self.playtype.card_value_defined(#[trigger] self.history[i])
        &&& 0 <= self.bestcard_index <= hi - 1
        &&& 0 <= self.current_player < 4
        &&& hi - 1 - self.bestcard_index <= self.current_player + 4
        &&& m1.team0_wins <= u8::MAX
        &&& if hi == 4 {
            let (m2, ended) = m1.rules_from(0, bt, pts);
            &&& m1.rules_from_defined(0, bt, pts)
            &&& (!ended ==> m2.after_trick_defined())
        } else {
            let m2 = m1.add_points(bt, pts);
            &&& m1.add_points_defined(bt, pts)
            &&& if m2.should_end() {
                m2.end_round_defined()
            } else {
                m2.after_trick_defined()
            }
        }
    }

    /// The state right after `card` is put on the table.
    pub open spec fn card_placed(self, card: Card) -> GameModel {
        let hi = self.history_index;
        let bcrd = self.history[self.bestcard_index];
        let nb = if hi % 4 == 0 || self.playtype.card_stronger(bcrd, card) {
            hi
        } else {
            self.bestcard_index
        };
        let cp = self.current_player;
        GameModel {
            bestcard_index: nb,
            history: self.history.update(hi, card),
            history_index: hi + 1,
            hands: self.hands.update(cp, self.hands[cp].remove(card.id())),
            ..self
        }
    }

    /// Whether the card makes the marriage check apply: a card of the trump colour whose
    /// colour is also 6 or 7. No trump colour (2 to 5 less 2, so 0 to 3) is 6 or 7, so no
    /// card ever passes this test, and playing a card never changes a marriage; marriages
    /// arise only as `WouldWin`, when a trump mode is announced.
    pub open spec fn marriage_card(self, card: Card) -> bool {
        self.playtype.is_trumpf_spec() && card.color == self.playtype.playtype - 2 && (card.color
            == 6 || card.color == 7)
    }

    pub open spec fn marriage_step(self, card: Card) -> GameModel {
        let cp = self.current_player;
        if self.marriage_card(card) {
            if self.marriage[cp] == MarriageState::Unplayed {
                GameModel { marriage: self.marriage.update(cp, MarriageState::PlayedOne), ..self }
            } else if self.marriage[cp] == MarriageState::PlayedOne {
                self.play_marriage(cp)
            } else {
                self
            }
        } else {
            self
        }
    }

    /// The current player plays `card`.
    pub open spec fn play_card(self, card: Card) -> GameModel {
        let m2 = self.card_placed(card).marriage_step(card);
        if m2.history_index % 4 == 0 {
            m2.end_turn()
        } else if m2.should_end() {
            m2
        } else {
            GameModel { current_player: (self.current_player + 1) % 4, ..m2 }
        }
    }

    pub open spec fn play_card_defined(self, card: Card) -> bool {
        let m1 = self.card_placed(card);
        let m2 = m1.marriage_step(card);
        &&& 0 <= self.history_index < 36
        &&& 0 <= self.bestcard_index < 36
        &&& 0 <= self.current_player < 4
        &&& card.id() < 64
        &&& (self.history_index % 4 != 0 ==> self.playtype.card_stronger_defined(
            self.history[self.bestcard_index],
            card,
        ))
        &&& (m1.marriage_card(card) && m1.marriage[self.current_player]
            == MarriageState::PlayedOne ==> m1.play_marriage_defined(self.current_player))
        &&& (m2.history_index % 4 == 0 ==> m2.end_turn_defined())
    }
}

/// The shapes of the arrays of a game model.
pub open spec fn shaped(m: GameModel) -> bool {
    &&& m.history.len() == 36
    &&& m.points.len() == 2
    &&& m.won_points.len() == 2
    &&& m.show_points.len() == 2
    &&& m.shows.len() == 4
    &&& (forall|p: int| 0 <= p < 4 ==> (#[trigger] m.shows[p]).len() == 3)
    &&& m.hands.len() == 4
    &&& m.marriage.len() == 4
}

/// The card order that an announced mode starts with.
pub open spec fn initial_ruletype(p: u8) -> u8 {
    if p == SLALOMUPDOWN || p == GUSCHTI {
        UPDOWN
    } else if p == SLALOMDOWNUP || p == MARY {
        DOWNUP
    } else {
        p
    }
}

impl GameModel {
    /// Resets the round: a new player announces.
    pub open spec fn start_new_round(self) -> GameModel {
        let ap = (self.announce_player + 1) % 4;
        GameModel {
            team0_wins: 0,
            history_index: 0,
            marriage: Seq::new(4, |i: int| MarriageState::Unplayed),
            history: Seq::new(36, |i: int| Card { color: 4, number: 0 }),
            shows: Seq::new(4, |i: int| Seq::new(3, |j: int| Show { color: 4, number: 0, row: 0 })),
            playtype: Playtype { playtype: NONE, ruletype: NONE, misere: false, passed: false },
            won_points: seq![0int, 0],
            show_points: seq![0int, 0],
            announce_player: ap,
            current_player: ap,
            ..self
        }
    }

    /// Puts `show` into the first free slot of the current player, from slot `i` on,
    /// unless the player already made it.
    pub open spec fn play_show_from(self, show: Show, i: int) -> (GameModel, Result<(), ()>)
        decreases 3 - i,
    {
        let cp = self.current_player;
        if i >= 3 {
            (self, Err(()))
        } else if self.shows[cp][i] == show {
            (self, Err(()))
        } else if self.shows[cp][i].color == 4 {
            (
                GameModel { shows: self.shows.update(cp, self.shows[cp].update(i, show)), ..self },
                Ok(()),
            )
        } else {
            self.play_show_from(show, i + 1)
        }
    }

    /// Whether player `i` holds King and Queen of trump while that marriage would win.
    pub open spec fn marriage_would_win(self, trumpf: int, i: int) -> bool {
        &&& self.points[team_of(i)] + MARRIAGE_POINTS >= self.setting.max_points
        &&& self.hands[i].contains(trumpf * 9 + 6)
        &&& self.hands[i].contains(trumpf * 9 + 7)
    }

    /// Announces `pt`: passing hands the choice to the partner; a refused mode changes
    /// nothing.
    pub open spec fn announce(self, pt: Playtype) -> GameModel {
        if pt.playtype == PASS {
            if !self.setting.allow_pass {
                self
            } else {
                let m1 = GameModel { playtype: Playtype { passed: true, ..self.playtype }, ..self };
                GameModel { current_player: m1.announcing_player(), ..m1 }
            }
        } else if !self.setting.allow_misere && pt.misere {
            self
        } else if !self.setting.allow_playtype@[pt.playtype as int] {
            self
        } else {
            let m1 = if pt.is_trumpf_spec() {
                GameModel {
                    marriage: Seq::new(
                        4,
                        |i: int|
                            if self.marriage_would_win(pt.playtype - 2, i) {
                                MarriageState::WouldWin
                            } else {
                                self.marriage[i]
                            },
                    ),
                    ..self
                }
            } else {
                self
            };
            let m2 = GameModel { playtype: pt, ..m1 };
            GameModel {
                current_player: m2.startplayer(),
                playtype: Playtype { ruletype: initial_ruletype(pt.playtype), ..pt },
                ..m2
            }
        }
    }

    pub open spec fn announce_defined(self, pt: Playtype) -> bool {
        let refused = !self.setting.allow_misere && pt.misere;
        &&& 0 <= self.announce_player
        &&& (pt.playtype == PASS && self.setting.allow_pass ==> self.announce_player <= 253)
        &&& (pt.playtype != PASS && !refused ==> pt.playtype < 10)
        &&& (pt.playtype != PASS && !refused && pt.playtype < 10
            && self.setting.allow_playtype@[pt.playtype as int] ==> {
            &&& (pt.is_trumpf_spec() ==> fits_u16(self.points[0] + MARRIAGE_POINTS) && fits_u16(
                self.points[1] + MARRIAGE_POINTS,
            ))
            &&& (pt.passed && self.setting.passed_player_begins@[pt.playtype as int]
                ==> self.announce_player <= 253)
        })
    }

    /// Whether `player` may play `card` now.
    pub open spec fn legal_card(self, player: int, card: Card) -> bool {
        let pt = self.playtype;
        let first = self.history_index / 4 * 4;
        let fcrd = self.history[first];
        let bcrd = self.history[self.bestcard_index];
        let hand = self.hands[player];
        let tf = pt.is_color_trumpf_spec(fcrd.color);
        let tc = pt.is_color_trumpf_spec(card.color);
        if self.history_index >= 36 {
            false
        } else if pt.playtype == NONE {
            false
        } else if !hand.contains(card.id()) {
            false
        } else if player != self.current_player {
            false
        } else if fcrd.color == 4 {
            true
        } else if pt.is_trumpf_spec() && !tf && tc {
            // A trump may not undertrump the board, unless nothing else is possible.
            pt.card_stronger(bcrd, card) || (only_has_color_spec(hand, card.color as int)
                && !has_stronger_trumpf_spec(hand, fcrd))
        } else if pt.is_trumpf_spec() && tf && !tc && has_color_spec(hand, fcrd.color as int) {
            // Nobody has to play the Jack of trump.
            count_run(hand, fcrd.color * 9, 9) == 1 && hand.contains(fcrd.color * 9 + 5)
        } else {
            fcrd.color == card.color || !has_color_spec(hand, fcrd.color as int)
        }
    }

    pub open spec fn legal_card_defined(self, player: int, card: Card) -> bool {
        let pt = self.playtype;
        let first = self.history_index / 4 * 4;
        let fcrd = self.history[first];
        let bcrd = self.history[self.bestcard_index];
        let hand = self.hands[player];
        let tf = pt.is_color_trumpf_spec(fcrd.color);
        let tc = pt.is_color_trumpf_spec(card.color);
        (self.history_index < 36 && pt.playtype != NONE) ==> {
            &&& 0 <= player < 4
            &&& card.id() < 64
            &&& ((hand.contains(card.id()) && player == self.current_player && fcrd.color != 4)
                ==> {
                &&& 0 <= self.bestcard_index < 36
                &&& (pt.is_trumpf_spec() ==> fcrd.color <= 253 && card.color <= 253)
                &&& (pt.is_trumpf_spec() && !tf && tc ==> pt.card_stronger_defined(bcrd, card)
                    && (!pt.card_stronger(bcrd, card) ==> card.color < 8 && (only_has_color_spec(
                    hand,
                    card.color as int,
                ) ==> fcrd.color < 8)))
                &&& (pt.is_trumpf_spec() && tf && !tc ==> fcrd.color < 8 && (has_color_spec(
                    hand,
                    fcrd.color as int,
                ) && count_run(hand, fcrd.color * 9, 9) == 1 ==> fcrd.color * 9 + 5 < 64))
                &&& (!(pt.is_trumpf_spec() && !tf && tc) && fcrd.color != card.color ==> fcrd.color
                    < 8)
            })
        }
    }
}

/// The deck in identifier order.
pub open spec fn deck() -> Seq<Card> {
    Seq::new(36, |i: int| card_of_id(i))
}

/// The hand that player `k` gets from `cards`: the cards `9k .. 9k + 9`.
pub open spec fn hand_of_deal(cards: Seq<Card>, k: int) -> Set<int> {
    ids_of(cards.subrange(9 * k, 9 * k + 9))
}

/// Whether one of the four hands holds card `i`.
pub open spec fn held(hands: Seq<Set<int>>, i: int) -> bool {
    exists|k: int| 0 <= k < 4 && #[trigger] hands[k].contains(i)
}

/// Four hands of nine cards that together hold each card of the deck once.
pub open spec fn is_deal(hands: Seq<Set<int>>) -> bool {
    &&& hands.len() == 4
    &&& forall|k: int| 0 <= k < 4 ==> (#[trigger] hands[k]).finite() && hands[k].len() == 9
    &&& forall|i: int| #[trigger] held(hands, i) <==> 0 <= i < 36
    &&& forall|k1: int, k2: int, i: int|
        0 <= k1 < 4 && 0 <= k2 < 4 && k1 != k2 && #[trigger] hands[k1].contains(i)
            ==> !#[trigger] hands[k2].contains(i)
}

impl GameModel {
    /// The state after `cards` are dealt, nine to each player in turn.
    pub open spec fn dealt(self, cards: Seq<Card>) -> GameModel {
        GameModel { hands: Seq::new(4, |k: int| hand_of_deal(cards, k)), ..self }
    }
}

/// The best show is a slot of the table.
pub(crate) proof fn lemma_best_bounds(m: GameModel, k: int, best: (int, int))
    requires
        0 <= k <= 12,
        0 <= best.0 < 4,
        0 <= best.1 < 3,
    ensures
        0 <= m.best_show_from(k, best).0 < 4,
        0 <= m.best_show_from(k, best).1 < 3,
    decreases 12 - k,
{
    if k < 12 {
        let p = k / 3;
        let j = k % 3;
        let b = m.shows[best.0][best.1];
        let nb = if slot_counts(m.shows, p, j) && (b.color == 4
            || m.playtype.show_stronger(b, m.shows[p][j])) {
            (p, j)
        } else {
            best
        };
        lemma_best_bounds(m, k + 1, nb);
    }
}

/// When slot `j` of player `p` is empty, none of the slots from `j` on counts.
proof fn lemma_rest_empty(shows: Seq<Seq<Show>>, p: int, j: int)
    requires
        0 <= j < 3,
        shows[p][j].color == 4,
    ensures
        forall|jj: int| j <= jj < 3 ==> !#[trigger] slot_counts(shows, p, jj),
{
    assert forall|jj: int| j <= jj < 3 implies !#[trigger] slot_counts(shows, p, jj) by {
        if jj > j {
            assert(!(shows[p][j].color != 4));
        }
    }
}

/// Slots that do not count leave the scan for the best show unchanged.
proof fn lemma_best_skip(m: GameModel, p: int, j: int, best: (int, int))
    requires
        0 <= p < 4,
        0 <= j <= 3,
        forall|jj: int| j <= jj < 3 ==> !#[trigger] slot_counts(m.shows, p, jj),
    ensures
        m.best_show_from(3 * p + j, best) == m.best_show_from(3 * p + 3, best),
        m.best_show_from_defined(3 * p + j, best) == m.best_show_from_defined(3 * p + 3, best),
    decreases 3 - j,
{
    if j < 3 {
        assert((3 * p + j) / 3 == p && (3 * p + j) % 3 == j);
        assert(!slot_counts(m.shows, p, j));
        lemma_best_skip(m, p, j + 1, best);
    }
}

/// Slots of the team that do not count bring no points.
proof fn lemma_award_skip(m: GameModel, team: int, p: int, j: int)
    requires
        0 <= p < 4,
        0 <= j <= 3,
        team_of(p) == team,
        forall|jj: int| j <= jj < 3 ==> !#[trigger] slot_counts(m.shows, p, jj),
    ensures
        m.award_from(team, 3 * p + j) == m.award_from(team, 3 * p + 3),
        m.award_from_defined(team, 3 * p + j) == m.award_from_defined(team, 3 * p + 3),
    decreases 3 - j,
{
    if j < 3 {
        assert((3 * p + j) / 3 == p && (3 * p + j) % 3 == j);
        assert(!slot_counts(m.shows, p, j));
        lemma_award_skip(m, team, p, j + 1);
    }
}

/// The identifier of a card of the deck.
proof fn lemma_deck_card(i: int)
    requires
        0 <= i < 36,
    ensures
        card_of_id(i).id() == i,
        card_of_id(i).color < 4,
        card_of_id(i).number < 9,
{
}

/// Adding a card to a sequence adds its identifier.
proof fn lemma_ids_of_push(cards: Seq<Card>, c: Card)
    ensures
        ids_of(cards.push(c)) == ids_of(cards).insert(c.id()),
{
    let t = cards.push(c);
    assert forall|i: int| #[trigger] ids_of(t).contains(i) == ids_of(cards).insert(c.id()).contains(
        i,
    ) by {
        if ids_of(t).contains(i) {
            let k = choose|k: int| 0 <= k < t.len() && #[trigger] t[k].id() == i;
            if k < cards.len() {
                assert(cards[k].id() == i);
            }
        }
        if ids_of(cards).contains(i) {
            let k = choose|k: int| 0 <= k < cards.len() && #[trigger] cards[k].id() == i;
            assert(t[k].id() == i);
        }
        if i == c.id() {
            assert(t[cards.len() as int].id() == i);
        }
    }
    assert(ids_of(t) =~= ids_of(cards).insert(c.id()));
}

/// A shuffled deck, dealt nine cards to each player, gives each card to one player.
pub proof fn law_shuffled_deal(cards: Seq<Card>)
    requires
        cards.len() == 36,
        cards.to_multiset() == deck().to_multiset(),
    ensures
        is_deal(Seq::new(4, |k: int| hand_of_deal(cards, k))),
{
    broadcast use vstd::seq_lib::group_to_multiset_ensures;

    let d = deck();
    assert forall|i: int, j: int| 0 <= i < 36 && 0 <= j < 36 && i != j implies d[i] != d[j] by {
        lemma_deck_card(i);
        lemma_deck_card(j);
    }
    d.lemma_multiset_has_no_duplicates();
    assert forall|x: Card| cards.to_multiset().contains(x) implies cards.to_multiset().count(x)
        == 1 by {
        assert(d.to_multiset().contains(x));
    }
    cards.lemma_multiset_has_no_duplicates_conv();
    // Every card of `cards` is a card of the deck.
    assert forall|j: int| 0 <= j < 36 implies 0 <= #[trigger] cards[j].id() < 36 && cards[j]
        == card_of_id(cards[j].id()) by {
        assert(cards.contains(cards[j]));
        assert(cards.to_multiset().count(cards[j]) > 0);
        assert(d.contains(cards[j]));
        let t = choose|t: int| 0 <= t < 36 && d[t] == cards[j];
        lemma_deck_card(t);
    }
    let hands = Seq::new(4, |k: int| hand_of_deal(cards, k));
    // Each card of the deck is in some hand.
    assert forall|i: int| 0 <= i < 36 implies #[trigger] held(hands, i) by {
        lemma_deck_card(i);
        assert(d[i] == card_of_id(i));
        assert(d.contains(card_of_id(i)));
        assert(d.to_multiset().count(card_of_id(i)) > 0);
        assert(cards.contains(card_of_id(i)));
        let j = choose|j: int| 0 <= j < 36 && cards[j] == card_of_id(i);
        let k = j / 9;
        let sub = cards.subrange(9 * k, 9 * k + 9);
        assert(sub[j - 9 * k] == cards[j]);
        assert(hands[k].contains(i));
    }
    assert forall|i: int| #[trigger] held(hands, i) implies 0 <= i < 36 by {
        let k = choose|k: int| 0 <= k < 4 && #[trigger] hands[k].contains(i);
        let sub = cards.subrange(9 * k, 9 * k + 9);
        let t = choose|t: int| 0 <= t < sub.len() && #[trigger] sub[t].id() == i;
        assert(sub[t] == cards[9 * k + t]);
    }
    // No card is in two hands.
    assert forall|k1: int, k2: int, i: int|
        0 <= k1 < 4 && 0 <= k2 < 4 && k1 != k2 && #[trigger] hands[k1].contains(i) implies !#[trigger] hands[k2].contains(i) by {
        let s1 = cards.subrange(9 * k1, 9 * k1 + 9);
        let s2 = cards.subrange(9 * k2, 9 * k2 + 9);
        let t1 = choose|t: int| 0 <= t < s1.len() && #[trigger] s1[t].id() == i;
        assert(s1[t1] == cards[9 * k1 + t1]);
        if hands[k2].contains(i) {
            let t2 = choose|t: int| 0 <= t < s2.len() && #[trigger] s2[t].id() == i;
            assert(s2[t2] == cards[9 * k2 + t2]);
            assert(cards[9 * k1 + t1] == card_of_id(i));
            assert(cards[9 * k2 + t2] == card_of_id(i));
        }
    }
    // Each hand has nine cards.
    assert forall|k: int| 0 <= k < 4 implies (#[trigger] hands[k]).finite() && hands[k].len() == 9 by {
        let sub = cards.subrange(9 * k, 9 * k + 9);
        let ids = Seq::new(9, |t: int| sub[t].id());
        assert forall|a: int, b: int| 0 <= a < 9 && 0 <= b < 9 && a != b implies ids[a] != ids[b] by {
            assert(sub[a] == cards[9 * k + a]);
            assert(sub[b] == cards[9 * k + b]);
            assert(cards[9 * k + a] == card_of_id(cards[9 * k + a].id()));
            assert(cards[9 * k + b] == card_of_id(cards[9 * k + b].id()));
        }
        ids.unique_seq_to_set();
        assert forall|i: int| #[trigger] ids.to_set().contains(i) == hands[k].contains(i) by {
            if hands[k].contains(i) {
                let t = choose|t: int| 0 <= t < sub.len() && #[trigger] sub[t].id() == i;
                assert(ids[t] == i);
            }
        }
        assert(ids.to_set() =~= hands[k]);
        vstd::seq_lib::seq_to_set_is_finite(ids);
    }
}

impl Game {
    pub fn new() -> (g: Self)
        ensures
            g@.history_index == 0,
            g@.history == Seq::new(36, |i: int| Card { color: 4, number: 2 }),
            g@.team0_wins == 0,
            g@.bestcard_index == 0,
            g@.points == seq![0int, 0],
            g@.won_points == seq![0int, 0],
            g@.show_points == seq![0int, 0],
            g@.playtype == (Playtype { playtype: NONE, ruletype: NONE, misere: false, passed: false }),
            g@.announce_player == 0,
            g@.current_player == 0,
            g@.setting.is_default(),
            g@.shows == Seq::new(4, |i: int| Seq::new(3, |j: int| Show { color: 4, number: 2, row: 0 })),
            g@.hands == Seq::new(4, |i: int| Set::<int>::empty()),
            g@.marriage == Seq::new(4, |i: int| MarriageState::Unplayed),
    {
        let card = Card::default();
        let show = Show::default();
        let hand = Cardset::default();
        let g = Game {
            history_index: 0,
            history: [card;36],
            team0_wins: 0,
            bestcard_index: 0,
            points: [0;2],
            won_points: [0;2],
            show_points: [0;2],
            playtype: Playtype::default(),
            announce_player: 0,
            current_player: 0,
            setting: Setting::default(),
            shows: [[show;3];4],
            hands: [hand;4],
            marriage: [MarriageState::Unplayed;4],
        };
        assert(g@.history =~= Seq::new(36, |i: int| Card { color: 4, number: 2 }));
        assert(g@.points =~= seq![0int, 0]);
        assert(g@.won_points =~= seq![0int, 0]);
        assert(g@.show_points =~= seq![0int, 0]);
        assert forall|i: int| 0 <= i < 4 implies g@.shows[i] =~= Seq::new(
            3,
            |j: int| Show { color: 4, number: 2, row: 0 },
        ) by {}
        assert(g@.shows =~= Seq::new(4, |i: int| Seq::new(3, |j: int| Show { color: 4, number: 2, row: 0 })));
        assert(g@.hands =~= Seq::new(4, |i: int| Set::<int>::empty()));
        assert(g@.marriage =~= Seq::new(4, |i: int| MarriageState::Unplayed));
        g
    }

    // Utility functions ---

    /// Adds points to a team (to the other one in misère).
    fn add_points(&mut self, team: usize, points: u16)
        requires
            old(self)@.add_points_defined(team as int, points as int),
        ensures
            final(self)@ == old(self)@.add_points(team as int, points as int),
    {
        let ghost m = self@;
        let misere: usize = if self.playtype.misere {
            1
        } else {
            0
        };
        let real_team = team ^ misere;
        proof {
            assert(real_team == (if misere == 1usize { 1 - team } else { team as int })) by (bit_vector)
                requires
                    team < 2,
                    misere < 2,
                    real_team == team ^ misere,
            ;
        }
        let mult: u16 = self.setting.playtype_multiplier[self.playtype.playtype as usize] as u16;
        proof {
            assert(points * mult <= 100 * 255) by (nonlinear_arith)
                requires
                    points <= 100,
                    mult <= 255,
            ;
        }
        let p = points * mult;
        self.points[real_team] = self.points[real_team] + p;
        self.won_points[real_team] = self.won_points[real_team] + p;
        assert(self@ =~= m.add_points(team as int, points as int));
    }

    /// The game should end when a team has reached the points for winning.
    pub fn should_end(&self) -> (r: bool)
        ensures
            r == self@.should_end(),
    {
        self.points[0] >= self.setting.max_points || self.points[1] >= self.setting.max_points
    }

    /// The player who began the current trick.
    pub fn get_beginplayer(&self) -> (r: u8)
        requires
            self.current_player <= 251,
        ensures
            r == self@.beginplayer(),
    {
        (self.current_player + 4 - (self.history_index % 4)) % 4
    }

    /// The player who begins the first trick of the round.
    pub fn get_startplayer(&self) -> (r: u8)
        requires
            self.playtype.passed ==> self.playtype.playtype < 10,
            self.playtype.passed && self.setting.passed_player_begins@[self.playtype.playtype as int]
                ==> self.announce_player <= 253,
        ensures
            r == self@.startplayer(),
    {
        if self.playtype.passed && self.setting.passed_player_begins[self.playtype.playtype as usize] {
            (self.announce_player + 2) % 4
        } else {
            self.announce_player
        }
    }

    /// The player who should announce now, or has announced.
    pub fn get_announcing_player(&self) -> (r: u8)
        requires
            self.playtype.passed ==> self.announce_player <= 253,
        ensures
            r == self@.announcing_player(),
    {
        let passed: u8 = if self.playtype.passed {
            1
        } else {
            0
        };
        (self.announce_player + 2 * passed) % 4
    }

    pub fn play_marriage(&mut self, plr: usize)
        requires
            old(self)@.play_marriage_defined(plr as int),
        ensures
            final(self)@ == old(self)@.play_marriage(plr as int),
    {
        let ghost m = self@;
        let t = plr & 1;
        assert(plr & 1 == plr % 2) by (bit_vector);
        self.points[t] = self.points[t] + MARRIAGE_POINTS;
        self.show_points[t] = self.show_points[t] + MARRIAGE_POINTS;
        self.marriage[plr] = MarriageState::PlayedBoth;
        assert(self@ =~= m.play_marriage(plr as int));
    }

    /// Plays the marriages that would win the game.
    pub fn handle_marriage(&mut self)
        requires
            old(self)@.handle_marriage_defined(),
        ensures
            final(self)@ == old(self)@.handle_marriage(),
    {
        if !self.playtype.is_trumpf() {
            return ;
        }
        let ghost m = self@;
        let mut i: usize = 0;
        while i < 4
            invariant
                i <= 4,
                self@.marriages_from_defined(i as int),
                self@.marriages_from(i as int) == m.marriages_from(0),
            decreases 4 - i,
        {
            if self.marriage[i] == MarriageState::WouldWin {
                self.play_marriage(i);
            }
            i += 1;
        }
    }

    fn end_round(&mut self)
        requires
            old(self)@.end_round_defined(),
        ensures
            final(self)@ == old(self)@.end_round(),
    {
        if self.history_index == 36 {
            let cp = self.current_player as usize;
            let last_team = cp & 1;
            assert(cp & 1 == cp % 2) by (bit_vector);
            self.add_points(last_team, 5);
            let wins: u8 = if last_team == 0 {
                self.team0_wins
            } else {
                9 - self.team0_wins
            };
            if wins == 9 {
                self.add_points(last_team, 100);
            }
        }
    }
    /// Gives the team with the best show the points of all its shows.
    pub fn handle_shows(&mut self)
        requires
            old(self)@.handle_shows_defined(),
        ensures
            final(self)@ == old(self)@.handle_shows(),
    {
        let ghost m = self@;
        let mut bestplr: usize = 0;
        let mut bestshw: usize = 0;
        let mut plr: usize = 0;
        while plr < 4
            invariant
                plr <= 4,
                self@ == m,
                bestplr < 4,
                bestshw < 3,
                m.best_show_from(3 * plr as int, (bestplr as int, bestshw as int)) == m.best_show(),
                m.best_show_from_defined(3 * plr as int, (bestplr as int, bestshw as int)),
            decreases 4 - plr,
        {
            let mut i: usize = 0;
            while i < 3
                invariant
                    plr < 4,
                    i <= 3,
                    self@ == m,
                    bestplr < 4,
                    bestshw < 3,
                    slot_reached(m.shows, plr as int, i as int),
                    m.best_show_from(3 * plr + i, (bestplr as int, bestshw as int)) == m.best_show(),
                    m.best_show_from_defined(3 * plr + i, (bestplr as int, bestshw as int)),
                ensures
                    bestplr < 4,
                    bestshw < 3,
                    self@ == m,
                    m.best_show_from(3 * plr + 3, (bestplr as int, bestshw as int)) == m.best_show(),
                    m.best_show_from_defined(3 * plr + 3, (bestplr as int, bestshw as int)),
                decreases 3 - i,
            {
                if self.shows[plr][i].color == 4 {
                    proof {
                        lemma_rest_empty(m.shows, plr as int, i as int);
                        lemma_best_skip(m, plr as int, i as int, (bestplr as int, bestshw as int));
                    }
                    break;
                }
                assert((3 * plr + i) / 3 == plr && (3 * plr + i) % 3 == i);
                if self.shows[bestplr][bestshw].color == 4 || self.playtype.is_show_stronger(
                    self.shows[bestplr][bestshw],
                    self.shows[plr][i],
                ) {
                    bestplr = plr;
                    bestshw = i;
                }
                i += 1;
            }
            plr += 1;
        }
        if self.shows[bestplr][bestshw].color == 4 {
            return ;
        }
        let team = bestplr & 1;
        assert(bestplr & 1 == bestplr % 2) by (bit_vector);
        let mut i: usize = 0;
        while i < 4
            invariant
                i <= 4,
                team == team_of(m.best_show().0),
                team < 2,
                shaped(self@),
                self@.setting == m.setting,
                self@.award_from(team as int, 3 * i as int) == m.award_from(team as int, 0),
                self@.award_from_defined(team as int, 3 * i as int),
            decreases 4 - i,
        {
            let mut j: usize = 0;
            let ghost mi = self@;
            while j < 3
                invariant
                    i < 4,
                    j <= 3,
                    team < 2,
                    shaped(self@),
                    self@.setting == m.setting,
                    self@.award_from(team as int, 3 * i + j) == m.award_from(team as int, 0),
                    self@.award_from_defined(team as int, 3 * i + j),
                    (i & 1) == team ==> slot_reached(self@.shows, i as int, j as int),
                ensures
                    shaped(self@),
                    self@.setting == m.setting,
                    self@.award_from(team as int, 3 * i + 3) == m.award_from(team as int, 0),
                    self@.award_from_defined(team as int, 3 * i + 3),
                decreases 3 - j,
            {
                assert((3 * i + j) / 3 == i && (3 * i + j) % 3 == j);
                assert(i & 1 == i % 2) by (bit_vector);
                if i & 1 == team {
                    if self.shows[i][j].color == 4 {
                        proof {
                            lemma_rest_empty(self@.shows, i as int, j as int);
                            lemma_award_skip(self@, team as int, i as int, j as int);
                        }
                        break;
                    }
                    let ghost before = self@;
                    let value = self.playtype.get_show_value(self.shows[i][j]);
                    let sp = if value < self.setting.show_points_maximum {
                        value
                    } else {
                        self.setting.show_points_maximum
                    };
                    self.points[i & 1] = self.points[i & 1] + sp;
                    self.show_points[i & 1] = self.show_points[i & 1] + sp;
                    proof {
                        let sp_i = before.show_award(before.shows[i as int][j as int]);
                        assert(sp == sp_i);
                        assert(self@ =~= GameModel {
                            points: before.points.update(team as int, before.points[team as int] + sp_i),
                            show_points: before.show_points.update(
                                team as int,
                                before.show_points[team as int] + sp_i,
                            ),
                            ..before
                        });
                    }
                } else {
                    let ghost before = self@;
                    self.shows[i][j] = Show::new(4, 2, 0);
                    proof {
                        assert(self@.shows[i as int] =~= before.shows[i as int].update(
                            j as int,
                            cleared_show(),
                        ));
                        assert(self@ =~= GameModel {
                            shows: before.shows.update(
                                i as int,
                                before.shows[i as int].update(j as int, cleared_show()),
                            ),
                            ..before
                        });
                    }
                }
                j += 1;
            }
            i += 1;
        }
    }
    /// Ends a trick: gives its points and lets its winner lead.
    fn end_turn(&mut self)
        requires
            old(self)@.end_turn_defined(),
            shaped(old(self)@),
        ensures
            final(self)@ == old(self)@.end_turn(),
    {
        let ghost m = self@;
        let hi = self.history_index;
        let mut points: u16 = 0;
        let mut i: u8 = hi - 4;
        while i < hi
            invariant
                self@ == m,
                hi == m.history_index,
                4 <= hi <= 36,
                hi - 4 <= i <= hi,
                m.end_turn_defined(),
                points == m.points_between(hi - 4, i as int),
                points <= 20 * (i - (hi - 4)),
            decreases hi - i,
        {
            let card = self.history[i as usize];
            let v = self.playtype.get_card_value(card);
            proof {
                m.playtype.lemma_card_value_bound(card);
            }
            points = points + v;
            i += 1;
        }
        let best_player = (self.current_player + 4 - (self.history_index - 1 - self.bestcard_index)) % 4;
        let best_team: u8 = best_player & 1;
        assert(best_player & 1 == best_player % 2) by (bit_vector);
        self.team0_wins = self.team0_wins + if best_team == 0 {
            1
        } else {
            0
        };
        self.current_player = best_player;
        assert(self@ =~= m.trick_taken());
        if self.history_index == 4 {
            let ghost m1 = self@;
            let mut k: usize = 0;
            while k < 3
                invariant
                    k <= 3,
                    shaped(self@),
                    self@.history_index == 4,
                    best_team < 2,
                    m1.rules_from(0, best_team as int, points as int) == self@.rules_from(
                        k as int,
                        best_team as int,
                        points as int,
                    ),
                    self@.rules_from_defined(k as int, best_team as int, points as int),
                    self@.setting == m1.setting,
                    m1 == m.trick_taken(),
                    m == old(self)@,
                    m.history_index == 4,
                    points == m.trick_points(),
                    best_team == team_of(m.trick_winner()),
                    !m1.rules_from(0, best_team as int, points as int).1 ==> m1.rules_from(
                        0,
                        best_team as int,
                        points as int,
                    ).0.after_trick_defined(),
                decreases 3 - k,
            {
                let rule = self.setting.point_recv_order[k];
                let ghost before = self@;
                proof {
                    lemma_keeps_rules(self@, best_team as int, points as int);
                }
                match rule {
                    PointRule::PLAY => self.add_points(best_team as usize, points),
                    PointRule::SHOW => self.handle_shows(),
                    PointRule::MARRIAGE => self.handle_marriage(),
                }
                assert(self@ == before.apply_rule(rule, best_team as int, points as int));
                if self.should_end() {
                    let ghost after = self@;
                    self.end_round();
                    assert(before.rules_from(k as int, best_team as int, points as int) == (
                    after.end_round(), true));
                    return ;
                }
                k += 1;
            }
        } else {
            self.add_points(best_team as usize, points);
            if self.should_end() {
                self.end_round();
                return ;
            }
        }
        let flip = match self.playtype.playtype {
            SLALOMUPDOWN | SLALOMDOWNUP => true,
            GUSCHTI | MARY => self.history_index == 16,
            _ => false,
        };
        if flip {
            self.playtype.ruletype = self.playtype.ruletype ^ 1;
        }
        if self.history_index == 36 {
            self.end_round();
        }
    }
    // Action functions ------

    /// The current player plays `card`.
    pub fn play_card(&mut self, card: Card)
        requires
            old(self)@.play_card_defined(card),
        ensures
            final(self)@ == old(self)@.play_card(card),
    {
        let ghost m = self@;
        let bcrd = self.history[self.bestcard_index as usize];
        if self.history_index % 4 == 0 || self.playtype.is_card_stronger(bcrd, card) {
            self.bestcard_index = self.history_index;
        }
        self.history[self.history_index as usize] = card;
        self.history_index = self.history_index + 1;
        let plr = self.current_player as usize;
        let mut hand = self.hands[plr];
        hand.erase(card);
        self.hands[plr] = hand;
        assert(self@ =~= m.card_placed(card));
        if self.playtype.is_trumpf() {
            let trumpf = self.playtype.get_trumpf_color();
            if card.color == trumpf && (card.color == 6 || card.color == 7) {
                match self.marriage[plr] {
                    MarriageState::Unplayed => {
                        self.marriage[plr] = MarriageState::PlayedOne;
                    },
                    MarriageState::PlayedOne => self.play_marriage(plr),
                    _ => {},
                }
            }
        }
        assert(self@ =~= m.card_placed(card).marriage_step(card));
        if self.history_index % 4 == 0 {
            self.end_turn();
        } else if self.should_end() {
        } else {
            self.current_player = (self.current_player + 1) % 4;
        }
    }
    // Events ------

    /// Starts a new game: the points are cleared and a new round begins.
    pub fn restart(&mut self)
        requires
            old(self).announce_player <= 254,
        ensures
            final(self)@ == (GameModel { points: seq![0int, 0], ..old(self)@ }).start_new_round(),
    {
        self.points = [0, 0];
        self.start_new_round();
        assert(self@.points =~= seq![0int, 0]);
    }

    pub fn start_new_round(&mut self)
        requires
            old(self).announce_player <= 254,
        ensures
            final(self)@ == old(self)@.start_new_round(),
    {
        let ghost m = self@;
        let mut i: usize = 0;
        while i < 36
            invariant
                i <= 36,
                forall|k: int| 0 <= k < i ==> self.history[k] == (Card { color: 4, number: 0 }),
                self@ == (GameModel { history: self@.history, ..m }),
                m == old(self)@,
            decreases 36 - i,
        {
            self.history[i] = Card::new(4, 0);
            i += 1;
        }
        let mut i: usize = 0;
        while i < 12
            invariant
                i <= 12,
                forall|p: int, j: int|
                    0 <= p < 4 && 0 <= j < 3 && 3 * p + j < i ==> #[trigger] self.shows[p][j] == (Show {
                        color: 4,
                        number: 0,
                        row: 0,
                    }),
                forall|k: int| 0 <= k < 36 ==> self.history[k] == (Card { color: 4, number: 0 }),
                self@ == (GameModel { history: self@.history, shows: self@.shows, ..m }),
                m == old(self)@,
            decreases 12 - i,
        {
            self.shows[i / 3][i % 3] = Show::new(4, 0, 0);
            assert forall|p: int, j: int|
                0 <= p < 4 && 0 <= j < 3 && 3 * p + j < i + 1 implies #[trigger] self.shows[p][j] == (
            Show { color: 4, number: 0, row: 0 }) by {
                if 3 * p + j == i {
                    assert(p == i / 3 && j == i % 3);
                }
            }
            i += 1;
        }
        self.team0_wins = 0;
        self.history_index = 0;
        self.marriage = [MarriageState::Unplayed;4];
        self.playtype = Playtype::new();
        self.won_points = [0, 0];
        self.show_points = [0, 0];
        self.announce_player = (self.announce_player + 1) % 4;
        self.current_player = self.announce_player;
        proof {
            let target = m.start_new_round();
            assert(self@.history =~= target.history);
            assert forall|p: int| 0 <= p < 4 implies self@.shows[p] =~= target.shows[p] by {
                assert forall|j: int| 0 <= j < 3 implies self@.shows[p][j] == target.shows[p][j] by {
                    assert(self.shows[p][j] == (Show { color: 4, number: 0, row: 0 }));
                }
            }
            assert(self@.shows =~= target.shows);
            assert(self@.marriage =~= target.marriage);
            assert(self@.won_points =~= target.won_points);
            assert(self@.show_points =~= target.show_points);
            assert(self@ =~= target);
        }
    }

    /// Stores a show of the current player; refused when the player made it already
    /// or has no free slot.
    #[verifier::loop_isolation(false)]
    pub fn play_show(&mut self, show: Show) -> (r: Result<(), ()>)
        requires
            old(self).current_player < 4,
        ensures
            (final(self)@, r) == old(self)@.play_show_from(show, 0),
    {
        let ghost m = self@;
        let cp = self.current_player as usize;
        let mut i: usize = 0;
        while i < 3
            invariant
                i <= 3,
                cp == m.current_player,
                cp < 4,
                self@ == m,
                m.play_show_from(show, 0) == m.play_show_from(show, i as int),
            decreases 3 - i,
        {
            let rshow = self.shows[cp][i];
            if rshow == show {
                return Err(());
            }
            if rshow.color == 4 {
                self.shows[cp][i] = show;
                assert(self@.shows[cp as int] =~= m.shows[cp as int].update(i as int, show));
                assert(self@ =~= GameModel {
                    shows: m.shows.update(cp as int, m.shows[cp as int].update(i as int, show)),
                    ..m
                });
                return Ok(());
            }
            i += 1;
        }
        Err(())
    }

    pub fn announce(&mut self, pt: Playtype)
        requires
            old(self)@.announce_defined(pt),
        ensures
            final(self)@ == old(self)@.announce(pt),
    {
        let ghost m = self@;
        if pt.playtype == PASS {
            if !self.setting.allow_pass {
                return ;
            }
            self.playtype.passed = true;
            self.current_player = self.get_announcing_player();
            return ;
        }
        if !self.setting.allow_misere && pt.misere {
            return ;
        }
        if !self.setting.allow_playtype[pt.playtype as usize] {
            return ;
        }
        if pt.is_trumpf() {
            let trumpf = pt.get_trumpf_color();
            let mut i: usize = 0;
            while i < 4
                invariant
                    i <= 4,
                    trumpf == pt.playtype - 2,
                    pt.is_trumpf_spec(),
                    m.announce_defined(pt),
                    pt.playtype != PASS,
                    !(!m.setting.allow_misere && pt.misere),
                    pt.playtype < 10,
                    m.setting.allow_playtype@[pt.playtype as int],
                    self@ == (GameModel { marriage: self@.marriage, ..m }),
                    forall|k: int|
                        0 <= k < i ==> self@.marriage[k] == if m.marriage_would_win(
                            trumpf as int,
                            k,
                        ) {
                            MarriageState::WouldWin
                        } else {
                            m.marriage[k]
                        },
                    forall|k: int| i <= k < 4 ==> self@.marriage[k] == m.marriage[k],
                decreases 4 - i,
            {
                let t = i & 1;
                assert(i & 1 == i % 2) by (bit_vector);
                if self.points[t] + MARRIAGE_POINTS < self.setting.max_points {
                    i += 1;
                    continue;
                }
                if self.hands[i].contains(Card::new(trumpf, 6)) && self.hands[i].contains(
                    Card::new(trumpf, 7),
                ) {
                    self.marriage[i] = MarriageState::WouldWin;
                }
                i += 1;
            }
        }
        let ghost m1 = self@;
        self.playtype = pt;
        self.current_player = self.get_startplayer();
        self.playtype.ruletype = match pt.playtype {
            SLALOMUPDOWN | GUSCHTI => UPDOWN,
            SLALOMDOWNUP | MARY => DOWNUP,
            x => x,
        };
        proof {
            let target = m.announce(pt);
            if pt.is_trumpf_spec() {
                assert(m1.marriage =~= target.marriage);
            }
            assert(self@ =~= target);
        }
    }

    // Utility functions ---

    /// Whether `player_id` may play `card` now.
    pub fn is_legal_card(&self, player_id: u8, card: Card) -> (r: bool)
        requires
            self@.legal_card_defined(player_id as int, card),
        ensures
            r == self@.legal_card(player_id as int, card),
    {
        // Basic cheating
        if self.history_index >= 36 {
            return false;
        }
        if self.playtype.playtype == NONE {
            return false;
        }
        if !self.hands[player_id as usize].contains(card) {
            return false;
        }
        if player_id != self.current_player {
            return false;
        }
        // The first card of a trick is always legal
        let first_card_index = self.history_index as usize / 4 * 4;
        if self.history[first_card_index].color == 4 {
            return true;
        }
        let fcrd = self.history[first_card_index];
        let bcrd = self.history[self.bestcard_index as usize];
        let hand = &self.hands[player_id as usize];
        if self.playtype.is_trumpf() {
            let trumpf_first = self.playtype.is_color_trumpf(fcrd.color);
            let trumpf_card = self.playtype.is_color_trumpf(card.color);
            // A trump may not undertrump the board, unless nothing else is possible
            if !trumpf_first && trumpf_card {
                if self.playtype.is_card_stronger(bcrd, card) {
                    return true;
                }
                return hand.only_has_color(card.color) && !hand.has_stronger_trumpf(fcrd);
            }
            // Nobody has to play the Jack of trump
            if trumpf_first && !trumpf_card && hand.has_color(fcrd.color) {
                return hand.count_color(fcrd.color) == 1 && hand.contains(Card::new(fcrd.color, 5));
            }
        }
        // Follow suit if possible
        fcrd.color == card.color || !hand.has_color(fcrd.color)
    }

    pub fn can_show(&self, player_id: u8) -> (r: bool)
        ensures
            r == (self.current_player == player_id && self.history_index < 4
                && self.playtype.playtype != NONE),
    {
        self.current_player == player_id && self.history_index < 4 && self.playtype.playtype != NONE
    }

    /// Whether the given player may announce now.
    pub fn can_announce(&self, player_id: u8) -> (r: bool)
        requires
            self.playtype.playtype == NONE && self.playtype.passed ==> self.announce_player <= 253,
        ensures
            r == (self.playtype.playtype == NONE && self@.announcing_player() == player_id),
    {
        self.playtype.playtype == NONE && self.get_announcing_player() == player_id
    }

    /// The cards on the table in the current trick.
    pub fn get_playedcards(&self) -> (v: Vec<Card>)
        requires
            self.history_index <= 36 || self.history_index % 4 == 0,
        ensures
            v@.len() == self.history_index % 4,
            forall|k: int|
                0 <= k < v@.len() ==> #[trigger] v@[k] == self.history@[self.history_index / 4 * 4
                    + k],
    {
        let start = self.history_index / 4 * 4;
        let end = self.history_index;
        let mut out: Vec<Card> = Vec::new();
        let mut i = start;
        while i < end
            invariant
                start <= i <= end,
                end == self.history_index,
                start == self.history_index / 4 * 4,
                end <= 36 || start == end,
                out@.len() == i - start,
                forall|k: int| 0 <= k < out@.len() ==> #[trigger] out@[k] == self.history@[start + k],
            decreases end - i,
        {
            out.push(self.history[i as usize]);
            i += 1;
        }
        out
    }

    pub fn is_announced(&self) -> (r: bool)
        ensures
            r == (self.playtype.playtype != NONE),
    {
        self.playtype.playtype != NONE
    }

    /// The team with more points; team 0 on a tie.
    pub fn get_winner_team(&self) -> (r: u8)
        ensures
            r == if self.points[0] < self.points[1] {
                1u8
            } else {
                0u8
            },
    {
        if self.points[0] < self.points[1] {
            1
        } else {
            0
        }
    }
    /// Gives each player nine of `cards`: the first nine to player 0, and so on.
    pub fn deal_cards(&mut self, cards: &[Card; 36])
        requires
            forall|j: int| 0 <= j < 36 ==> (#[trigger] cards@[j]).id() < 64,
        ensures
            final(self)@ == old(self)@.dealt(cards@),
    {
        let ghost m = self@;
        let mut i: usize = 0;
        while i < 4
            invariant
                i <= 4,
                self@ == (GameModel { hands: self@.hands, ..m }),
                self@.hands.len() == 4,
                forall|k: int| 0 <= k < i ==> #[trigger] self@.hands[k] == Set::<int>::empty(),
            decreases 4 - i,
        {
            let ghost before = self@;
            let mut hand = self.hands[i];
            hand.clear();
            self.hands[i] = hand;
            assert forall|k: int| 0 <= k < i + 1 implies #[trigger] self@.hands[k] == Set::<
                int,
            >::empty() by {
                if k < i {
                    assert(self@.hands[k] == before.hands[k]);
                }
            }
            assert(self@ =~= (GameModel { hands: self@.hands, ..m }));
            i += 1;
        }
        let mut i: usize = 0;
        while i < 36
            invariant
                i <= 36,
                forall|j: int| 0 <= j < 36 ==> (#[trigger] cards@[j]).id() < 64,
                self@ == (GameModel { hands: self@.hands, ..m }),
                self@.hands.len() == 4,
                forall|k: int|
                    0 <= k < 4 ==> #[trigger] self@.hands[k] == ids_of(
                        cards@.subrange(9 * k, 9 * k + min_int(if i - 9 * k > 0 { i - 9 * k } else { 0 }, 9)),
                    ),
            decreases 36 - i,
        {
            let ghost before = self@;
            let k = i / 9;
            let mut hand = self.hands[k];
            hand.insert(cards[i]);
            self.hands[k] = hand;
            proof {
                assert(9 * k <= i < 9 * k + 9);
                assert(self@ =~= (GameModel { hands: self@.hands, ..m }));
                let sub = cards@.subrange(9 * k, i as int);
                assert(cards@.subrange(9 * k, 9 * k + min_int(i - 9 * k, 9)) =~= sub);
                assert(cards@.subrange(9 * k, i + 1) =~= sub.push(cards@[i as int]));
                lemma_ids_of_push(sub, cards@[i as int]);
                assert forall|q: int|
                    0 <= q < 4 implies #[trigger] self@.hands[q] == ids_of(
                        cards@.subrange(9 * q, 9 * q + min_int(if i + 1 - 9 * q > 0 { i + 1 - 9 * q } else { 0 }, 9)),
                    ) by {
                    if q != k {
                        assert(self@.hands[q] == before.hands[q]);
                        if q < k {
                            assert(9 * q + 9 <= i);
                        } else {
                            assert(i + 1 <= 9 * q);
                        }
                    } else {
                        assert(self@.hands[q] == before.hands[q].insert(cards@[i as int].id()));
                        assert(9 * q + min_int(if i + 1 - 9 * q > 0 { i + 1 - 9 * q } else { 0 }, 9) == i + 1);
                    }
                }
            }
            i += 1;
        }
        proof {
            assert forall|k: int| 0 <= k < 4 implies #[trigger] self@.hands[k] == hand_of_deal(cards@, k) by {
                assert(9 * k + min_int(if 36 - 9 * k > 0 { 36 - 9 * k } else { 0 }, 9) == 9 * k + 9);
            }
            assert(self@.hands =~= m.dealt(cards@).hands);
            assert(self@ =~= m.dealt(cards@));
        }
    }

    /// Shuffles the deck and deals it: four hands of nine cards that together hold
    /// each card once.
    pub fn generate_cards(&mut self)
        ensures
            final(self)@ == (GameModel { hands: final(self)@.hands, ..old(self)@ }),
            is_deal(final(self)@.hands),
    {
        let mut cards: [Card; 36] = [Card::new(0, 0);36];
        let mut i: usize = 0;
        while i < 36
            invariant
                i <= 36,
                forall|j: int| 0 <= j < i ==> #[trigger] cards@[j] == card_of_id(j),
            decreases 36 - i,
        {
            cards[i] = Card::from_id(i as u8);
            i += 1;
        }
        assert(cards@ =~= deck());
        shuffle_cards(&mut cards);
        proof {
            law_shuffled_deal(cards@);
            assert forall|j: int| 0 <= j < 36 implies (#[trigger] cards@[j]).id() < 64 by {
                broadcast use vstd::seq_lib::group_to_multiset_ensures;

                assert(cards@.contains(cards@[j]));
                assert(cards@.to_multiset().count(cards@[j]) > 0);
                assert(deck().contains(cards@[j]));
                let t = choose|t: int| 0 <= t < 36 && deck()[t] == cards@[j];
                lemma_deck_card(t);
            }
        }
        self.deal_cards(&cards);
        assert(self@.hands =~= Seq::new(4, |k: int| hand_of_deal(cards@, k)));
    }
}

/// Shuffles the cards with `rand::seq::SliceRandom::shuffle`, drawing on
/// `rand::thread_rng()`. The order that comes back is chosen at random; what is
/// stated is only that it is a permutation of the cards given.
#[verifier::external_body]
fn shuffle_cards(cards: &mut [Card; 36])
    ensures
        final(cards)@.to_multiset() == old(cards)@.to_multiset(),
{
    let mut rng = rand::thread_rng();
    cards.shuffle(&mut rng);
}

} // verus!
