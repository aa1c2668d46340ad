//! The settings chosen before a game.
use vstd::prelude::*;

use crate::card::Card;
use crate::playtype::NUM_PLAYTYPES;

verus! {

/// Who announces first in a new game.
#[derive(Clone, Copy, PartialEq, Eq, Debug, Structural)]
pub enum StartingCondition {
    RANDOM,
    PLAYER(u8),
    CARD(Card),
}

/// A source of points at the end of the first trick; the order decides who wins
/// when both teams would reach the goal.
#[derive(Clone, Copy, PartialEq, Eq, Debug, Structural)]
pub enum PointRule {
    PLAY,
    SHOW,
    MARRIAGE,
}

#[derive(Clone, Copy, PartialEq, Eq, Debug)]
pub struct Setting {
    pub max_points: u16,
    pub point_recv_order: [PointRule; 3],
    pub playtype_multiplier: [u8; NUM_PLAYTYPES],
    pub allow_playtype: [bool; NUM_PLAYTYPES],
    pub allow_misere: bool,
    pub allow_pass: bool,
    pub automatic_show: bool,
    pub automatic_marriage: bool,
    pub startcondition: StartingCondition,
    pub apply_startcondition_on_revanche: bool,
    pub react_time: u32,
    pub passed_player_begins: [bool; NUM_PLAYTYPES],
    pub show_points_maximum: u16,
}

impl Setting {
    /// The settings of a new game.
    pub open spec fn is_default(self) -> bool {
        &&& self.max_points == 1000
        &&& self.point_recv_order@ == seq![PointRule::MARRIAGE, PointRule::SHOW, PointRule::PLAY]
        &&& self.playtype_multiplier@ == Seq::new(10, |i: int| 1u8)
        &&& self.allow_playtype@ == Seq::new(10, |i: int| true)
        &&& self.allow_misere
        &&& self.allow_pass
        &&& !self.automatic_show
        &&& self.automatic_marriage
        &&& self.startcondition == StartingCondition::CARD(Card { color: 0, number: 4 })
        &&& !self.apply_startcondition_on_revanche
        &&& self.react_time == 0
        &&& self.passed_player_begins@ == Seq::new(10, |i: int| !(2 <= i <= 5))
        &&& self.show_points_maximum == 300
    }
}

impl Default for Setting {
    fn default() -> (s: Setting)
        ensures
            s.is_default(),
    {
        let mut beg_passed = [true;NUM_PLAYTYPES];
        beg_passed[2] = false;
        beg_passed[3] = false;
        beg_passed[4] = false;
        beg_passed[5] = false;
        let s = Setting {
            max_points: 1000,
            point_recv_order: [PointRule::MARRIAGE, PointRule::SHOW, PointRule::PLAY],
            playtype_multiplier: [1;NUM_PLAYTYPES],
            allow_playtype: [true;NUM_PLAYTYPES],
            allow_misere: true,
            allow_pass: true,
            automatic_show: false,
            automatic_marriage: true,
            startcondition: StartingCondition::CARD(Card::new(0, 4)),
            apply_startcondition_on_revanche: false,
            react_time: 0,
            passed_player_begins: beg_passed,
            show_points_maximum: 300,
        };
        assert(s.point_recv_order@ =~= seq![PointRule::MARRIAGE, PointRule::SHOW, PointRule::PLAY]);
        assert(s.playtype_multiplier@ =~= Seq::new(10, |i: int| 1u8));
        assert(s.allow_playtype@ =~= Seq::new(10, |i: int| true));
        assert(s.passed_player_begins@ =~= Seq::new(10, |i: int| !(2 <= i <= 5)));
        s
    }
}

} // verus!
